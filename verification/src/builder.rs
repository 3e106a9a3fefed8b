//! The terrain builder: plants, trees and lamps for the surface of a chunk.
use vstd::prelude::*;
use vstd::hash_map::StringHashMap;
use crate::chunk::Chunk;
use crate::noise::{Noise, NoiseTest};
use crate::registry::{labels, Registry, RegistryView, UnknownBlock};
use crate::types::Coords3;

verus! {

/// A voxel to be set: the place and the kind of block to put there.
#[derive(Clone, Copy, Debug, PartialEq, Eq)]
pub struct VoxelUpdate {
    pub voxel: Coords3<i32>,
    pub id: u32,
}

/// What the builder puts on the surface.
#[derive(Clone, Copy, Debug, PartialEq, Eq)]
pub enum Feature {
    Plants,
    Trees,
    Lamps,
}

impl Feature {
    /// The test by which a column is taken for the feature.
    pub open spec fn site(self) -> NoiseTest {
        match self {
            Feature::Plants => NoiseTest::PlantSite,
            Feature::Trees => NoiseTest::TreeSite,
            Feature::Lamps => NoiseTest::LampSite,
        }
    }

    /// How far above the surface the feature stands: a tree stands in the
    /// surface voxel itself, a plant and a lamp on it.
    pub open spec fn lift(self) -> int {
        match self {
            Feature::Plants => 1,
            Feature::Trees => 0,
            Feature::Lamps => 1,
        }
    }

    /// The names of the block types that the feature is made of.
    pub open spec fn names(self) -> Seq<Seq<char>> {
        match self {
            Feature::Plants => seq![
                "Dirt"@,
                "Grass"@,
                "Tan Grass"@,
                "Brown Grass"@,
                "Brown Mushroom"@,
                "Red Mushroom"@,
                "Tan Mushroom"@,
            ],
            Feature::Trees => seq!["Trunk"@, "Leaves"@, "Leaves Orange"@],
            Feature::Lamps => seq!["Stone"@, "Yellow"@],
        }
    }

    fn site_test(self) -> (test: NoiseTest)
        ensures
            test == self.site(),
    {
        match self {
            Feature::Plants => NoiseTest::PlantSite,
            Feature::Trees => NoiseTest::TreeSite,
            Feature::Lamps => NoiseTest::LampSite,
        }
    }

    fn lifted(self) -> (lift: i32)
        ensures
            lift == self.lift(),
    {
        match self {
            Feature::Plants => 1,
            Feature::Trees => 0,
            Feature::Lamps => 1,
        }
    }
}

/// A block type that a feature is made of is the name of no block.
#[derive(Clone, Copy, Debug, PartialEq, Eq)]
pub struct BuildError {
    /// The feature that could not be made.
    pub feature: Feature,
    /// The place of the name among the names of the feature's block types.
    pub place: usize,
}

/// The place at which a test of a column is made.
pub open spec fn column(x: int, z: int) -> Coords3<i32> {
    Coords3(x as i32, 0, z as i32)
}

/// The block types that plants are made of.
#[derive(Clone, Copy, Debug, PartialEq, Eq)]
pub struct PlantTypes {
    pub dirt: u32,
    pub grass: u32,
    pub tan_grass: u32,
    pub brown_grass: u32,
    pub brown_mushroom: u32,
    pub red_mushroom: u32,
    pub tan_mushroom: u32,
}

/// The block types that trees are made of.
#[derive(Clone, Copy, Debug, PartialEq, Eq)]
pub struct TreeTypes {
    pub trunk: u32,
    pub leaves: u32,
    pub leaves_orange: u32,
}

/// The block types that lamps are made of.
#[derive(Clone, Copy, Debug, PartialEq, Eq)]
pub struct LampTypes {
    pub stone: u32,
    pub yellow: u32,
}

/// The plant types of a registry that has them all.
pub open spec fn plant_types(registry: RegistryView) -> PlantTypes {
    PlantTypes {
        dirt: registry.names["Dirt"@],
        grass: registry.names["Grass"@],
        tan_grass: registry.names["Tan Grass"@],
        brown_grass: registry.names["Brown Grass"@],
        brown_mushroom: registry.names["Brown Mushroom"@],
        red_mushroom: registry.names["Red Mushroom"@],
        tan_mushroom: registry.names["Tan Mushroom"@],
    }
}

/// The tree types of a registry that has them all.
pub open spec fn tree_types(registry: RegistryView) -> TreeTypes {
    TreeTypes {
        trunk: registry.names["Trunk"@],
        leaves: registry.names["Leaves"@],
        leaves_orange: registry.names["Leaves Orange"@],
    }
}

/// The lamp types of a registry that has them all.
pub open spec fn lamp_types(registry: RegistryView) -> LampTypes {
    LampTypes { stone: registry.names["Stone"@], yellow: registry.names["Yellow"@] }
}

/// The kind of plant for an anchor. The tests are made in a fixed order and
/// the first that the noise passes decides; two of them count only where the
/// plant stands on dirt. Where none is passed the plant is grass.
pub open spec fn plant_kind(types: PlantTypes, noise: Noise, stand: u32, at: Coords3<i32>) -> u32 {
    if noise.passes(NoiseTest::RedMushroom, at) {
        types.red_mushroom
    } else if noise.passes(NoiseTest::BrownMushroom, at) && stand == types.dirt {
        types.brown_mushroom
    } else if noise.passes(NoiseTest::TanGrass, at) {
        types.tan_grass
    } else if noise.passes(NoiseTest::TanMushroom, at) {
        types.tan_mushroom
    } else if noise.passes(NoiseTest::BrownGrass, at) && stand == types.dirt {
        types.brown_grass
    } else {
        types.grass
    }
}

/// The height of the trunk of the tree at an anchor.
pub open spec fn trunk_height(noise: Noise, at: Coords3<i32>) -> int {
    if noise.passes(NoiseTest::TallTrunk, column(at.0 as int, at.2 as int)) {
        3
    } else {
        2
    }
}

/// The height of the canopy of the tree at an anchor: the first of the
/// tests that the noise passes decides, and after them the trunk.
pub open spec fn bush_height(noise: Noise, at: Coords3<i32>) -> int {
    if noise.passes(NoiseTest::GrandCanopy, column(at.0 as int, at.2 as int)) {
        8
    } else if noise.passes(NoiseTest::BroadCanopy, column(at.0 as int, at.2 as int)) {
        5
    } else if trunk_height(noise, at) == 3 {
        3
    } else {
        2
    }
}

/// A tree: where its trunk ends and its canopy begins, how high the two
/// are, and the kinds of block of the trunk and of the leaves.
#[derive(Clone, Copy, Debug, PartialEq, Eq)]
pub struct Tree {
    pub top: Coords3<i32>,
    pub height: i32,
    pub bush_height: i32,
    pub trunk: u32,
    pub leaves: u32,
}

/// The tree that grows at an anchor.
pub open spec fn planned(types: TreeTypes, noise: Noise, at: Coords3<i32>) -> Tree {
    Tree {
        top: Coords3(at.0, (at.1 + trunk_height(noise, at)) as i32, at.2),
        height: trunk_height(noise, at) as i32,
        bush_height: bush_height(noise, at) as i32,
        trunk: types.trunk,
        leaves: if noise.passes(NoiseTest::OrangeLeaves, column(at.0 as int, at.2 as int)) {
            types.leaves_orange
        } else {
            types.leaves
        },
    }
}

/// The absolute value.
pub open spec fn magnitude(offset: int) -> int {
    if offset < 0 {
        -offset
    } else {
        offset
    }
}

impl Tree {
    /// The tree has one of the shapes that the builder gives a tree, and
    /// its canopy keeps within the coordinates that 32 bits can write.
    pub open spec fn fits(self) -> bool {
        &&& 2 <= self.height <= 3
        &&& 2 <= self.bush_height <= 8
        &&& i32::MIN + self.height <= self.top.1 <= i32::MAX - 8
        &&& i32::MIN + 2 <= self.top.0 <= i32::MAX - 2
        &&& i32::MIN + 2 <= self.top.2 <= i32::MAX - 2
    }

    /// The half width of the canopy at a layer: 2 at the wide layers, else 1.
    /// A layer is wide where its number leaves 1 when divided by 3, and,
    /// unless it is the top layer, where it leaves 0 under a short trunk or
    /// 2 under a tall one.
    pub open spec fn ring(self, layer: int) -> int {
        if layer % 3 == 1 || (layer % 3 == (if self.height == 2 {
            0int
        } else {
            2int
        }) && layer != self.bush_height) {
            2
        } else {
            1
        }
    }

    /// The trunk: one voxel for every step from the anchor up to the top.
    pub open spec fn trunk(self) -> Seq<VoxelUpdate> {
        Seq::new(
            self.height as nat,
            |step: int|
                VoxelUpdate {
                    voxel: Coords3(
                        self.top.0,
                        (self.top.1 - self.height + step) as i32,
                        self.top.2,
                    ),
                    id: self.trunk,
                },
        )
    }

    /// The place of the cell at the offsets (`i`, `k`) of a layer.
    pub open spec fn place(self, layer: int, i: int, k: int) -> Coords3<i32> {
        Coords3((self.top.0 + i) as i32, (self.top.1 + layer) as i32, (self.top.2 + k) as i32)
    }

    /// What stands in one cell of the canopy. The four corners of a layer
    /// stay empty. The middle holds the trunk, and leaves at the top layer.
    /// Any other cell holds leaves, unless the noise has a gap there.
    pub open spec fn cell(self, noise: Noise, layer: int, i: int, k: int) -> Seq<VoxelUpdate> {
        let limit = self.ring(layer);
        let center = i == 0 && k == 0;
        if magnitude(i) == limit && magnitude(k) == limit {
            Seq::empty()
        } else if !center && noise.passes(NoiseTest::CanopyGap, self.place(layer, i, k)) {
            Seq::empty()
        } else {
            seq![
                VoxelUpdate {
                    voxel: self.place(layer, i, k),
                    id: if center && layer != self.bush_height {
                        self.trunk
                    } else {
                        self.leaves
                    },
                },
            ]
        }
    }

    /// The first `count` cells of the row at the offset `i` of a layer.
    pub open spec fn row(self, noise: Noise, layer: int, i: int, count: nat) -> Seq<VoxelUpdate>
        decreases count,
    {
        if count == 0 {
            Seq::empty()
        } else {
            self.row(noise, layer, i, (count - 1) as nat) + self.cell(
                noise,
                layer,
                i,
                count - 1 - self.ring(layer),
            )
        }
    }

    /// The first `rows` rows of a layer.
    pub open spec fn layer(self, noise: Noise, layer: int, rows: nat) -> Seq<VoxelUpdate>
        decreases rows,
    {
        if rows == 0 {
            Seq::empty()
        } else {
            self.layer(noise, layer, (rows - 1) as nat) + self.row(
                noise,
                layer,
                rows - 1 - self.ring(layer),
                (2 * self.ring(layer) + 1) as nat,
            )
        }
    }

    /// The first `layers` layers of the canopy, from the top of the trunk up.
    pub open spec fn canopy(self, noise: Noise, layers: nat) -> Seq<VoxelUpdate>
        decreases layers,
    {
        if layers == 0 {
            Seq::empty()
        } else {
            self.canopy(noise, (layers - 1) as nat) + self.layer(
                noise,
                layers - 1,
                (2 * self.ring(layers - 1) + 1) as nat,
            )
        }
    }

    /// The tree: the trunk, then the canopy layer by layer.
    pub open spec fn updates(self, noise: Noise) -> Seq<VoxelUpdate> {
        self.trunk() + self.canopy(noise, (self.bush_height + 1) as nat)
    }

    /// The update lies in the canopy, in the ring of its layer and on none
    /// of the four corners of that ring.
    pub open spec fn shelters(self, update: VoxelUpdate) -> bool {
        let across = update.voxel.0 - self.top.0;
        let layer = update.voxel.1 - self.top.1;
        let along = update.voxel.2 - self.top.2;
        &&& 0 <= layer <= self.bush_height
        &&& magnitude(across) <= self.ring(layer)
        &&& magnitude(along) <= self.ring(layer)
        &&& !(magnitude(across) == self.ring(layer) && magnitude(along) == self.ring(layer))
    }

    /// The two noises give the same answer to every test of a gap that
    /// the canopy of the tree may ask for.
    pub open spec fn same_gaps(self, noise: Noise, other: Noise) -> bool {
        forall|layer: int, i: int, k: int|
            0 <= layer <= self.bush_height && -2 <= i <= 2 && -2 <= k <= 2 ==> noise.passes(
                NoiseTest::CanopyGap,
                #[trigger] self.place(layer, i, k),
            ) == other.passes(NoiseTest::CanopyGap, self.place(layer, i, k))
    }

    /// Noises with the same gaps give the same row.
    pub proof fn lemma_same_row(self, noise: Noise, other: Noise, layer: int, i: int, count: nat)
        requires
            self.same_gaps(noise, other),
            0 <= layer <= self.bush_height,
            -2 <= i <= 2,
            count <= 2 * self.ring(layer) + 1,
        ensures
            self.row(noise, layer, i, count) == self.row(other, layer, i, count),
        decreases count,
    {
        if count > 0 {
            self.lemma_same_row(noise, other, layer, i, (count - 1) as nat);
            let k = count - 1 - self.ring(layer);
            assert(noise.passes(NoiseTest::CanopyGap, self.place(layer, i, k)) == other.passes(
                NoiseTest::CanopyGap,
                self.place(layer, i, k),
            ));
        }
    }

    /// Noises with the same gaps give the same layer.
    pub proof fn lemma_same_layer(self, noise: Noise, other: Noise, layer: int, rows: nat)
        requires
            self.same_gaps(noise, other),
            0 <= layer <= self.bush_height,
            rows <= 2 * self.ring(layer) + 1,
        ensures
            self.layer(noise, layer, rows) == self.layer(other, layer, rows),
        decreases rows,
    {
        if rows > 0 {
            self.lemma_same_layer(noise, other, layer, (rows - 1) as nat);
            self.lemma_same_row(
                noise,
                other,
                layer,
                rows - 1 - self.ring(layer),
                (2 * self.ring(layer) + 1) as nat,
            );
        }
    }

    /// Noises with the same gaps give the same canopy.
    pub proof fn lemma_same_canopy(self, noise: Noise, other: Noise, layers: nat)
        requires
            self.same_gaps(noise, other),
            layers <= self.bush_height + 1,
        ensures
            self.canopy(noise, layers) == self.canopy(other, layers),
        decreases layers,
    {
        if layers > 0 {
            self.lemma_same_canopy(noise, other, (layers - 1) as nat);
            self.lemma_same_layer(
                noise,
                other,
                layers - 1,
                (2 * self.ring(layers - 1) + 1) as nat,
            );
        }
    }

    /// No cell of a row of the canopy lies on a corner of its layer.
    pub proof fn lemma_row_off_corners(self, noise: Noise, layer: int, i: int, count: nat, at: int)
        requires
            self.fits(),
            0 <= layer <= self.bush_height,
            magnitude(i) <= self.ring(layer),
            count <= 2 * self.ring(layer) + 1,
            0 <= at < self.row(noise, layer, i, count).len(),
        ensures
            self.shelters(self.row(noise, layer, i, count)[at]),
        decreases count,
    {
        let before = self.row(noise, layer, i, (count - 1) as nat);
        if at < before.len() {
            self.lemma_row_off_corners(noise, layer, i, (count - 1) as nat, at);
        }
    }

    /// No cell of a layer of the canopy lies on a corner of the layer.
    pub proof fn lemma_layer_off_corners(self, noise: Noise, layer: int, rows: nat, at: int)
        requires
            self.fits(),
            0 <= layer <= self.bush_height,
            rows <= 2 * self.ring(layer) + 1,
            0 <= at < self.layer(noise, layer, rows).len(),
        ensures
            self.shelters(self.layer(noise, layer, rows)[at]),
        decreases rows,
    {
        let before = self.layer(noise, layer, (rows - 1) as nat);
        if at < before.len() {
            self.lemma_layer_off_corners(noise, layer, (rows - 1) as nat, at);
        } else {
            self.lemma_row_off_corners(
                noise,
                layer,
                rows - 1 - self.ring(layer),
                (2 * self.ring(layer) + 1) as nat,
                at - before.len(),
            );
        }
    }

    /// The four corners of every layer of the canopy stay empty: every
    /// update of the canopy lies in the ring of its layer and on no corner
    /// of it.
    pub proof fn lemma_canopy_off_corners(self, noise: Noise, layers: nat, at: int)
        requires
            self.fits(),
            layers <= self.bush_height + 1,
            0 <= at < self.canopy(noise, layers).len(),
        ensures
            self.shelters(self.canopy(noise, layers)[at]),
        decreases layers,
    {
        let before = self.canopy(noise, (layers - 1) as nat);
        if at < before.len() {
            self.lemma_canopy_off_corners(noise, (layers - 1) as nat, at);
        } else {
            self.lemma_layer_off_corners(
                noise,
                layers - 1,
                (2 * self.ring(layers - 1) + 1) as nat,
                at - before.len(),
            );
        }
    }
}

/// One question to the noise: a test and the place at which it is made.
#[derive(Clone, Copy, Debug, PartialEq, Eq)]
pub struct Probe {
    pub test: NoiseTest,
    pub at: Coords3<i32>,
}

/// The builder may make the test of a column whose surface lies at
/// `height`. The tests of a column are made at the column, those of a plant
/// one voxel above the surface, and those of the canopy within two voxels
/// of the column to every side and from 2 to 11 voxels above the surface.
pub open spec fn wanted_at(x: int, height: int, z: int, probe: Probe) -> bool {
    let across = probe.at.0 - x;
    let up = probe.at.1 - height;
    let along = probe.at.2 - z;
    match probe.test {
        NoiseTest::RedMushroom
        | NoiseTest::BrownMushroom
        | NoiseTest::TanGrass
        | NoiseTest::TanMushroom
        | NoiseTest::BrownGrass => across == 0 && up == 1 && along == 0,
        NoiseTest::CanopyGap => -2 <= across <= 2 && 2 <= up <= 11 && -2 <= along <= 2,
        _ => probe.at == column(x, z),
    }
}

/// The probe is a test of the canopy that comes before the place
/// (`up`, `across`, `along`) in the order in which the places are walked.
pub open spec fn gap_before(
    x: int,
    height: int,
    z: int,
    up: int,
    across: int,
    along: int,
    probe: Probe,
) -> bool {
    let there = probe.at.1 - height;
    let aside = probe.at.0 - x;
    let ahead = probe.at.2 - z;
    &&& probe.test == NoiseTest::CanopyGap
    &&& wanted_at(x, height, z, probe)
    &&& there < up || (there == up && (aside < across || (aside == across && ahead < along)))
}

/// What a sequence holds after one more is put at its end.
pub proof fn lemma_push_contains(probes: Seq<Probe>, last: Probe)
    ensures
        forall|probe: Probe|
            #[trigger] probes.push(last).contains(probe) <==> probes.contains(probe) || probe
                == last,
{
    let longer = probes.push(last);
    assert forall|probe: Probe| #[trigger]
        longer.contains(probe) <==> probes.contains(probe) || probe == last by {
        if probes.contains(probe) {
            let at = choose|at: int| 0 <= at < probes.len() && probes[at] == probe;
            assert(longer[at] == probe);
        }
        if probe == last {
            assert(longer[probes.len() as int] == probe);
        }
        if longer.contains(probe) {
            let at = choose|at: int| 0 <= at < longer.len() && longer[at] == probe;
            if at < probes.len() {
                assert(probes[at] == probe);
            }
        }
    }
}

/// Adds one probe.
fn ask(probes: &mut Vec<Probe>, test: NoiseTest, at: Coords3<i32>)
    ensures
        final(probes)@ == old(probes)@.push(Probe { test, at }),
        forall|probe: Probe|
            #[trigger] final(probes)@.contains(probe) <==> old(probes)@.contains(probe) || probe
                == (Probe { test, at }),
{
    proof {
        lemma_push_contains(probes@, Probe { test, at });
    }
    probes.push(Probe { test, at });
}

/// Adds the probes of a column whose surface lies at `height`.
fn ask_column(probes: &mut Vec<Probe>, x: i32, height: i32, z: i32)
    requires
        i32::MIN + 2 <= x <= i32::MAX - 2,
        i32::MIN + 2 <= z <= i32::MAX - 2,
        height <= i32::MAX - 11,
    ensures
        forall|probe: Probe|
            #[trigger] final(probes)@.contains(probe) <==> old(probes)@.contains(probe)
                || wanted_at(x as int, height as int, z as int, probe),
{
    let ghost given = probes@;
    let site = Coords3(x, 0, z);
    let above = Coords3(x, height + 1, z);
    ask(probes, NoiseTest::PlantSite, site);
    ask(probes, NoiseTest::TreeSite, site);
    ask(probes, NoiseTest::LampSite, site);
    ask(probes, NoiseTest::TallTrunk, site);
    ask(probes, NoiseTest::GrandCanopy, site);
    ask(probes, NoiseTest::BroadCanopy, site);
    ask(probes, NoiseTest::OrangeLeaves, site);
    ask(probes, NoiseTest::RedMushroom, above);
    ask(probes, NoiseTest::BrownMushroom, above);
    ask(probes, NoiseTest::TanGrass, above);
    ask(probes, NoiseTest::TanMushroom, above);
    ask(probes, NoiseTest::BrownGrass, above);
    let ghost fixed = probes@;
    assert forall|probe: Probe| #[trigger]
        fixed.contains(probe) <==> given.contains(probe) || (probe.test != NoiseTest::CanopyGap
            && wanted_at(x as int, height as int, z as int, probe)) by {}
    let mut up: i32 = 2;
    while up <= 11
        invariant
            i32::MIN + 2 <= x <= i32::MAX - 2,
            i32::MIN + 2 <= z <= i32::MAX - 2,
            height <= i32::MAX - 11,
            2 <= up <= 12,
            forall|probe: Probe|
                #[trigger] probes@.contains(probe) <==> fixed.contains(probe) || gap_before(
                    x as int,
                    height as int,
                    z as int,
                    up as int,
                    -2,
                    -2,
                    probe,
                ),
        decreases 12 - up,
    {
        let mut across: i32 = -2;
        while across <= 2
            invariant
                i32::MIN + 2 <= x <= i32::MAX - 2,
                i32::MIN + 2 <= z <= i32::MAX - 2,
                height <= i32::MAX - 11,
                2 <= up <= 11,
                -2 <= across <= 3,
                forall|probe: Probe|
                    #[trigger] probes@.contains(probe) <==> fixed.contains(probe) || gap_before(
                        x as int,
                        height as int,
                        z as int,
                        up as int,
                        across as int,
                        -2,
                        probe,
                    ),
            decreases 3 - across,
        {
            let mut along: i32 = -2;
            while along <= 2
                invariant
                    i32::MIN + 2 <= x <= i32::MAX - 2,
                    i32::MIN + 2 <= z <= i32::MAX - 2,
                    height <= i32::MAX - 11,
                    2 <= up <= 11,
                    -2 <= across <= 2,
                    -2 <= along <= 3,
                    forall|probe: Probe|
                        #[trigger] probes@.contains(probe) <==> fixed.contains(probe)
                            || gap_before(
                            x as int,
                            height as int,
                            z as int,
                            up as int,
                            across as int,
                            along as int,
                            probe,
                        ),
                decreases 3 - along,
            {
                ask(probes, NoiseTest::CanopyGap, Coords3(x + across, height + up, z + along));
                along = along + 1;
            }
            across = across + 1;
        }
        up = up + 1;
    }
}

/// The identifier under a name of a type map of the registry that has the name.
fn pick(types: &StringHashMap<u32>, name: &str, registry: &Registry) -> (id: u32)
    requires
        types@.contains_key(name@),
        forall|other: Seq<char>| #[trigger]
            types@.contains_key(other) ==> registry@.names.contains_key(other)
                && registry@.names[other] == types@[other],
    ensures
        id == registry@.names[name@],
{
    match types.get(name) {
        Some(id) => *id,
        None => 0,
    }
}

/// The terrain builder.
pub struct Builder {
    noise: Noise,
    registry: Registry,
}

impl Builder {
    /// The registry of the builder.
    pub closed spec fn registry(&self) -> Registry {
        self.registry
    }

    /// The noise of the builder.
    pub closed spec fn noise(&self) -> Noise {
        self.noise
    }

    /// The builder of the same registry that decides by another noise.
    pub closed spec fn using(&self, noise: Noise) -> Builder {
        Builder { noise, registry: self.registry }
    }

    /// A builder that uses another noise has that noise and the same
    /// registry, and one that uses its own noise is itself.
    pub proof fn lemma_using(&self, noise: Noise)
        ensures
            self.using(noise).noise() == noise,
            self.using(noise).registry() == self.registry(),
            self.using(self.noise()) == *self,
    {
    }

    /// A builder that decorates by the given registry and noise.
    pub fn new(registry: Registry, noise: Noise) -> (builder: Self)
        ensures
            builder.registry() == registry,
            builder.noise() == noise,
    {
        Self { noise, registry }
    }

    /// The column is taken for the feature: something can be planted on the
    /// voxel at its surface, and the noise passes the feature's test there.
    pub open spec fn accepts(&self, chunk: Chunk, feature: Feature, x: int, z: int) -> bool {
        self.registry()@.plantable(chunk.surface_at(x, z)) && self.noise().passes(
            feature.site(),
            column(x, z),
        )
    }

    /// The anchor of the feature in a column.
    pub open spec fn anchor(chunk: Chunk, feature: Feature, x: int, z: int) -> Coords3<i32> {
        Coords3(x as i32, (chunk.height_at(x, z) + feature.lift()) as i32, z as i32)
    }

    /// The anchors in the first `count` columns of the row `x`.
    pub open spec fn row_anchors(
        &self,
        chunk: Chunk,
        feature: Feature,
        x: int,
        count: nat,
    ) -> Seq<Coords3<i32>>
        decreases count,
    {
        if count == 0 {
            Seq::empty()
        } else {
            let z = chunk.lower().2 + count - 1;
            let before = self.row_anchors(chunk, feature, x, (count - 1) as nat);
            if self.accepts(chunk, feature, x, z) {
                before.push(Self::anchor(chunk, feature, x, z))
            } else {
                before
            }
        }
    }

    /// The anchors in the first `rows` rows of the chunk.
    pub open spec fn anchors(&self, chunk: Chunk, feature: Feature, rows: nat) -> Seq<Coords3<i32>>
        decreases rows,
    {
        if rows == 0 {
            Seq::empty()
        } else {
            self.anchors(chunk, feature, (rows - 1) as nat) + self.row_anchors(
                chunk,
                feature,
                chunk.lower().0 + rows - 1,
                crate::chunk::span(chunk.lower().2, chunk.upper().2) as nat,
            )
        }
    }

    /// The anchors of the feature in the chunk: one for every column that is
    /// taken, row by row.
    pub open spec fn sampled(&self, chunk: Chunk, feature: Feature) -> Seq<Coords3<i32>> {
        self.anchors(chunk, feature, crate::chunk::span(chunk.lower().0, chunk.upper().0) as nat)
    }

    /// The place is the anchor of the feature in a column of the chunk.
    pub open spec fn anchored(chunk: Chunk, feature: Feature, at: Coords3<i32>) -> bool {
        chunk.has_column(at.0 as int, at.2 as int) && at == Self::anchor(
            chunk,
            feature,
            at.0 as int,
            at.2 as int,
        )
    }

    /// Samples the chunk for a feature by the given noise.
    fn sample_by(&self, noise: &Noise, chunk: &Chunk, feature: Feature) -> (anchors: Vec<
        Coords3<i32>,
    >)
        ensures
            anchors@ == self.using(*noise).sampled(*chunk, feature),
            chunk.wf(),
            forall|i: int|
                0 <= i < anchors@.len() ==> Self::anchored(*chunk, feature, #[trigger] anchors@[i])
                    && self.using(*noise).accepts(
                        *chunk,
                        feature,
                        anchors@[i].0 as int,
                        anchors@[i].2 as int,
                    ),
    {
        let min = chunk.min();
        let max = chunk.max();
        let site = feature.site_test();
        let lift = feature.lifted();
        let mut anchors: Vec<Coords3<i32>> = Vec::new();
        let mut x: i32 = min.0;
        while x <= max.0
            invariant
                chunk.wf(),
                min == chunk.lower(),
                max == chunk.upper(),
                site == feature.site(),
                lift == feature.lift(),
                min.0 <= x <= max.0 + 1,
                anchors@ == self.using(*noise).anchors(*chunk, feature, (x - min.0) as nat),
                forall|i: int|
                    0 <= i < anchors@.len() ==> Self::anchored(
                        *chunk,
                        feature,
                        #[trigger] anchors@[i],
                    ) && self.using(*noise).accepts(
                        *chunk,
                        feature,
                        anchors@[i].0 as int,
                        anchors@[i].2 as int,
                    ),
            decreases max.0 + 1 - x,
        {
            let ghost before = anchors@;
            let mut z: i32 = min.2;
            while z <= max.2
                invariant
                    chunk.wf(),
                    min == chunk.lower(),
                    max == chunk.upper(),
                    site == feature.site(),
                    lift == feature.lift(),
                    min.0 <= x <= max.0,
                    min.2 <= z <= max.2 + 1,
                    anchors@ == before + self.using(*noise).row_anchors(
                        *chunk,
                        feature,
                        x as int,
                        (z - min.2) as nat,
                    ),
                    forall|i: int|
                        0 <= i < anchors@.len() ==> Self::anchored(
                            *chunk,
                            feature,
                            #[trigger] anchors@[i],
                        ) && self.using(*noise).accepts(
                            *chunk,
                            feature,
                            anchors@[i].0 as int,
                            anchors@[i].2 as int,
                        ),
                decreases max.2 + 1 - z,
            {
                let ghost row = self.using(*noise).row_anchors(
                    *chunk,
                    feature,
                    x as int,
                    (z - min.2) as nat,
                );
                let height = chunk.get_max_height(x, z);
                let y = height.unwrap();
                let kind = chunk.get_voxel(x, y, z).unwrap();
                if self.registry.is_plantable(kind) && noise.check(site, Coords3(x, 0, z)) {
                    anchors.push(Coords3(x, y + lift, z));
                    assert(anchors@ =~= before + row.push(
                        Self::anchor(*chunk, feature, x as int, z as int),
                    ));
                }
                z = z + 1;
            }
            x = x + 1;
        }
        anchors
    }

    /// Samples the chunk for a feature.
    pub fn sample(&self, chunk: &Chunk, feature: Feature) -> (anchors: Vec<Coords3<i32>>)
        ensures
            anchors@ == self.sampled(*chunk, feature),
    {
        assert(self.using(self.noise) == *self);
        self.sample_by(&self.noise, chunk, feature)
    }

    /// The anchors of plants: one voxel above the surface of every column
    /// that is taken for a plant.
    pub fn sample_plants(&self, chunk: &Chunk) -> (anchors: Vec<Coords3<i32>>)
        ensures
            anchors@ == self.sampled(*chunk, Feature::Plants),
    {
        self.sample(chunk, Feature::Plants)
    }

    /// The anchors of trees: the surface voxel of every column that is
    /// taken for a tree.
    pub fn sample_trees(&self, chunk: &Chunk) -> (anchors: Vec<Coords3<i32>>)
        ensures
            anchors@ == self.sampled(*chunk, Feature::Trees),
    {
        self.sample(chunk, Feature::Trees)
    }

    /// The anchors of lamps: one voxel above the surface of every column
    /// that is taken for a lamp.
    pub fn sample_lamps(&self, chunk: &Chunk) -> (anchors: Vec<Coords3<i32>>)
        ensures
            anchors@ == self.sampled(*chunk, Feature::Lamps),
    {
        self.sample(chunk, Feature::Lamps)
    }

    /// The plant that goes to an anchor.
    pub open spec fn plant_at(
        &self,
        chunk: Chunk,
        types: PlantTypes,
        at: Coords3<i32>,
    ) -> VoxelUpdate {
        let stand = chunk.voxel_at(at.0 as int, at.1 - 1, at.2 as int);
        VoxelUpdate { voxel: at, id: plant_kind(types, self.noise(), stand, at) }
    }

    /// The plants of the chunk: one for every anchor, in the order of the anchors.
    pub open spec fn plants(&self, chunk: Chunk) -> Seq<VoxelUpdate> {
        let anchors = self.sampled(chunk, Feature::Plants);
        Seq::new(
            anchors.len(),
            |i: int| self.plant_at(chunk, plant_types(self.registry()@), anchors[i]),
        )
    }

    /// The lamps of the chunk: a yellow light at every anchor.
    pub open spec fn lamps(&self, chunk: Chunk) -> Seq<VoxelUpdate> {
        let anchors = self.sampled(chunk, Feature::Lamps);
        Seq::new(
            anchors.len(),
            |i: int| VoxelUpdate { voxel: anchors[i], id: lamp_types(self.registry()@).yellow },
        )
    }

    /// The block types of plants.
    fn resolve_plants(&self) -> (outcome: Result<PlantTypes, UnknownBlock>)
        ensures
            match outcome {
                Ok(types) => self.registry()@.knows(Feature::Plants.names()) && types == plant_types(
                    self.registry()@,
                ),
                Err(unknown) => self.registry()@.first_unknown(
                    Feature::Plants.names(),
                    unknown.place as int,
                ),
            },
    {
        let names = vec![
            "Dirt",
            "Grass",
            "Tan Grass",
            "Brown Grass",
            "Brown Mushroom",
            "Red Mushroom",
            "Tan Mushroom",
        ];
        assert(labels(names@) =~= Feature::Plants.names());
        let types = match self.registry.get_type_map(&names) {
            Ok(types) => types,
            Err(unknown) => {
                return Err(unknown);
            },
        };
        proof {
            let asked = labels(names@);
            assert(asked[0] == "Dirt"@ && asked[1] == "Grass"@ && asked[2] == "Tan Grass"@);
            assert(asked[3] == "Brown Grass"@ && asked[4] == "Brown Mushroom"@);
            assert(asked[5] == "Red Mushroom"@ && asked[6] == "Tan Mushroom"@);
            assert(self.registry()@.knows(Feature::Plants.names()));
        }
        Ok(
            PlantTypes {
                dirt: pick(&types, "Dirt", &self.registry),
                grass: pick(&types, "Grass", &self.registry),
                tan_grass: pick(&types, "Tan Grass", &self.registry),
                brown_grass: pick(&types, "Brown Grass", &self.registry),
                brown_mushroom: pick(&types, "Brown Mushroom", &self.registry),
                red_mushroom: pick(&types, "Red Mushroom", &self.registry),
                tan_mushroom: pick(&types, "Tan Mushroom", &self.registry),
            },
        )
    }

    /// The block types of lamps.
    fn resolve_lamps(&self) -> (outcome: Result<LampTypes, UnknownBlock>)
        ensures
            match outcome {
                Ok(types) => self.registry()@.knows(Feature::Lamps.names()) && types == lamp_types(
                    self.registry()@,
                ),
                Err(unknown) => self.registry()@.first_unknown(
                    Feature::Lamps.names(),
                    unknown.place as int,
                ),
            },
    {
        let names = vec!["Stone", "Yellow"];
        assert(labels(names@) =~= Feature::Lamps.names());
        let types = match self.registry.get_type_map(&names) {
            Ok(types) => types,
            Err(unknown) => {
                return Err(unknown);
            },
        };
        proof {
            let asked = labels(names@);
            assert(asked[0] == "Stone"@ && asked[1] == "Yellow"@);
            assert(self.registry()@.knows(Feature::Lamps.names()));
        }
        Ok(
            LampTypes {
                stone: pick(&types, "Stone", &self.registry),
                yellow: pick(&types, "Yellow", &self.registry),
            },
        )
    }

    /// The kind of plant for an anchor.
    fn choose_plant(noise: &Noise, types: &PlantTypes, stand: u32, at: Coords3<i32>) -> (id: u32)
        ensures
            id == plant_kind(*types, *noise, stand, at),
    {
        if noise.check(NoiseTest::RedMushroom, at) {
            types.red_mushroom
        } else if noise.check(NoiseTest::BrownMushroom, at) && stand == types.dirt {
            types.brown_mushroom
        } else if noise.check(NoiseTest::TanGrass, at) {
            types.tan_grass
        } else if noise.check(NoiseTest::TanMushroom, at) {
            types.tan_mushroom
        } else if noise.check(NoiseTest::BrownGrass, at) && stand == types.dirt {
            types.brown_grass
        } else {
            types.grass
        }
    }

    /// The block types of plants, of a registry that has them all.
    fn plant_types_known(&self) -> (types: PlantTypes)
        requires
            self.registry()@.knows(Feature::Plants.names()),
        ensures
            types == plant_types(self.registry()@),
    {
        match self.resolve_plants() {
            Ok(types) => types,
            Err(unknown) => {
                assert(!self.registry()@.names.contains_key(
                    Feature::Plants.names()[unknown.place as int],
                ));
                vstd::pervasive::unreached()
            },
        }
    }

    /// The block types of trees, of a registry that has them all.
    fn tree_types_known(&self) -> (types: TreeTypes)
        requires
            self.registry()@.knows(Feature::Trees.names()),
        ensures
            types == tree_types(self.registry()@),
    {
        match self.resolve_trees() {
            Ok(types) => types,
            Err(unknown) => {
                assert(!self.registry()@.names.contains_key(
                    Feature::Trees.names()[unknown.place as int],
                ));
                vstd::pervasive::unreached()
            },
        }
    }

    /// The block types of lamps, of a registry that has them all.
    fn lamp_types_known(&self) -> (types: LampTypes)
        requires
            self.registry()@.knows(Feature::Lamps.names()),
        ensures
            types == lamp_types(self.registry()@),
    {
        match self.resolve_lamps() {
            Ok(types) => types,
            Err(unknown) => {
                assert(!self.registry()@.names.contains_key(
                    Feature::Lamps.names()[unknown.place as int],
                ));
                vstd::pervasive::unreached()
            },
        }
    }

    /// The plants of the chunk by the given noise.
    fn plants_by(&self, noise: &Noise, chunk: &Chunk) -> (updates: Vec<VoxelUpdate>)
        requires
            self.registry()@.knows(Feature::Plants.names()),
        ensures
            updates@ == self.using(*noise).plants(*chunk),
    {
        let locations = self.sample_by(noise, chunk, Feature::Plants);
        let types = self.plant_types_known();
        let mut updates: Vec<VoxelUpdate> = Vec::new();
        let mut i: usize = 0;
        while i < locations.len()
            invariant
                i <= locations.len(),
                chunk.wf(),
                types == plant_types(self.registry()@),
                locations@ == self.using(*noise).sampled(*chunk, Feature::Plants),
                forall|k: int|
                    0 <= k < locations@.len() ==> Self::anchored(
                        *chunk,
                        Feature::Plants,
                        #[trigger] locations@[k],
                    ),
                updates@.len() == i,
                forall|k: int|
                    0 <= k < i ==> #[trigger] updates@[k] == self.using(*noise).plant_at(
                        *chunk,
                        types,
                        locations@[k],
                    ),
            decreases locations.len() - i,
        {
            let location = locations[i];
            proof {
                assert(Self::anchored(*chunk, Feature::Plants, locations@[i as int]));
                crate::chunk::lemma_column_index(
                    chunk.lower(),
                    chunk.upper(),
                    location.0 as int,
                    location.2 as int,
                );
            }
            let stand = chunk.get_voxel(location.0, location.1 - 1, location.2).unwrap();
            let id = Self::choose_plant(noise, &types, stand, location);
            updates.push(VoxelUpdate { id, voxel: location });
            i = i + 1;
        }
        assert(updates@ =~= self.using(*noise).plants(*chunk));
        updates
    }

    /// The lamps of the chunk by the given noise.
    fn lamps_by(&self, noise: &Noise, chunk: &Chunk) -> (updates: Vec<VoxelUpdate>)
        requires
            self.registry()@.knows(Feature::Lamps.names()),
        ensures
            updates@ == self.using(*noise).lamps(*chunk),
    {
        let locations = self.sample_by(noise, chunk, Feature::Lamps);
        let types = self.lamp_types_known();
        let mut updates: Vec<VoxelUpdate> = Vec::new();
        let mut i: usize = 0;
        while i < locations.len()
            invariant
                i <= locations.len(),
                types == lamp_types(self.registry()@),
                locations@ == self.using(*noise).sampled(*chunk, Feature::Lamps),
                updates@.len() == i,
                forall|k: int|
                    0 <= k < i ==> #[trigger] updates@[k] == (VoxelUpdate {
                        voxel: locations@[k],
                        id: types.yellow,
                    }),
            decreases locations.len() - i,
        {
            updates.push(VoxelUpdate { voxel: locations[i], id: types.yellow });
            i = i + 1;
        }
        assert(updates@ =~= self.using(*noise).lamps(*chunk));
        updates
    }

    /// The plants of the chunk: for every anchor one plant, of the kind that
    /// the noise decides there. The registry must have every block type of
    /// plants.
    pub fn generate_plants(&self, chunk: &Chunk) -> (updates: Vec<VoxelUpdate>)
        requires
            self.registry()@.knows(Feature::Plants.names()),
        ensures
            updates@ == self.plants(*chunk),
    {
        assert(self.using(self.noise) == *self);
        self.plants_by(&self.noise, chunk)
    }

    /// The lamps of the chunk: a yellow light at every anchor. The registry
    /// must have every block type of lamps, also the stone that is not placed.
    pub fn generate_lamps(&self, chunk: &Chunk) -> (updates: Vec<VoxelUpdate>)
        requires
            self.registry()@.knows(Feature::Lamps.names()),
        ensures
            updates@ == self.lamps(*chunk),
    {
        assert(self.using(self.noise) == *self);
        self.lamps_by(&self.noise, chunk)
    }

    /// The trees at the first `count` anchors.
    pub open spec fn trees_upto(&self, chunk: Chunk, count: nat) -> Seq<VoxelUpdate>
        decreases count,
    {
        if count == 0 {
            Seq::empty()
        } else {
            self.trees_upto(chunk, (count - 1) as nat) + planned(
                tree_types(self.registry()@),
                self.noise(),
                self.sampled(chunk, Feature::Trees)[count - 1],
            ).updates(self.noise())
        }
    }

    /// The trees of the chunk: one for every anchor, in the order of the anchors.
    pub open spec fn trees(&self, chunk: Chunk) -> Seq<VoxelUpdate> {
        self.trees_upto(chunk, self.sampled(chunk, Feature::Trees).len())
    }

    /// The block types of trees.
    fn resolve_trees(&self) -> (outcome: Result<TreeTypes, UnknownBlock>)
        ensures
            match outcome {
                Ok(types) => self.registry()@.knows(Feature::Trees.names()) && types == tree_types(
                    self.registry()@,
                ),
                Err(unknown) => self.registry()@.first_unknown(
                    Feature::Trees.names(),
                    unknown.place as int,
                ),
            },
    {
        let names = vec!["Trunk", "Leaves", "Leaves Orange"];
        assert(labels(names@) =~= Feature::Trees.names());
        let types = match self.registry.get_type_map(&names) {
            Ok(types) => types,
            Err(unknown) => {
                return Err(unknown);
            },
        };
        proof {
            let asked = labels(names@);
            assert(asked[0] == "Trunk"@ && asked[1] == "Leaves"@ && asked[2] == "Leaves Orange"@);
            assert(self.registry()@.knows(Feature::Trees.names()));
        }
        Ok(
            TreeTypes {
                trunk: pick(&types, "Trunk", &self.registry),
                leaves: pick(&types, "Leaves", &self.registry),
                leaves_orange: pick(&types, "Leaves Orange", &self.registry),
            },
        )
    }

    /// The tree that grows at an anchor.
    fn plan(noise: &Noise, types: &TreeTypes, at: Coords3<i32>) -> (tree: Tree)
        requires
            i32::MIN + 2 <= at.0 <= i32::MAX - 2,
            i32::MIN + 2 <= at.2 <= i32::MAX - 2,
            at.1 <= i32::MAX - 11,
        ensures
            tree == planned(*types, *noise, at),
            tree.fits(),
    {
        let site = Coords3(at.0, 0, at.2);
        let height: i32 = if noise.check(NoiseTest::TallTrunk, site) {
            3
        } else {
            2
        };
        let bush_height: i32 = if noise.check(NoiseTest::GrandCanopy, site) {
            8
        } else if noise.check(NoiseTest::BroadCanopy, site) {
            5
        } else if height == 3 {
            3
        } else {
            2
        };
        let leaves = if noise.check(NoiseTest::OrangeLeaves, site) {
            types.leaves_orange
        } else {
            types.leaves
        };
        let top = Coords3(at.0, at.1 + height, at.2);
        Tree { top, height, bush_height, trunk: types.trunk, leaves }
    }

    /// The half width of the canopy of a tree at a layer.
    fn ring_of(tree: &Tree, layer: i32) -> (limit: i32)
        requires
            0 <= layer,
        ensures
            limit == tree.ring(layer as int),
            1 <= limit <= 2,
    {
        let rest: i32 = layer % 3;
        let wide: i32 = if tree.height == 2 {
            0
        } else {
            2
        };
        if rest == 1 || (rest == wide && layer != tree.bush_height) {
            2
        } else {
            1
        }
    }

    /// Adds the updates of a tree: its trunk, then its canopy layer by
    /// layer, each layer row by row.
    fn grow(source: &Noise, tree: &Tree, updates: &mut Vec<VoxelUpdate>)
        requires
            tree.fits(),
        ensures
            final(updates)@ == old(updates)@ + tree.updates(*source),
    {
        let ghost start = updates@;
        let ghost noise = *source;
        let mut step: i32 = 0;
        while step < tree.height
            invariant
                tree.fits(),
                0 <= step <= tree.height,
                updates@ == start + tree.trunk().take(step as int),
            decreases tree.height - step,
        {
            let ghost before = updates@;
            updates.push(
                VoxelUpdate {
                    voxel: Coords3(tree.top.0, tree.top.1 - tree.height + step, tree.top.2),
                    id: tree.trunk,
                },
            );
            assert(updates@ =~= start + tree.trunk().take(step + 1));
            step = step + 1;
        }
        assert(tree.trunk().take(tree.height as int) =~= tree.trunk());
        let ghost rooted = updates@;
        let mut layer: i32 = 0;
        assert(updates@ =~= rooted + tree.canopy(noise, 0));
        while layer <= tree.bush_height
            invariant
                tree.fits(),
                noise == *source,
                0 <= layer <= tree.bush_height + 1,
                updates@ == rooted + tree.canopy(noise, layer as nat),
            decreases tree.bush_height + 1 - layer,
        {
            let limit = Self::ring_of(tree, layer);
            let ghost below = updates@;
            let mut i: i32 = -limit;
            assert(updates@ =~= below + tree.layer(noise, layer as int, 0));
            while i <= limit
                invariant
                    tree.fits(),
                    noise == *source,
                    0 <= layer <= tree.bush_height,
                    limit == tree.ring(layer as int),
                    1 <= limit <= 2,
                    -limit <= i <= limit + 1,
                    updates@ == below + tree.layer(noise, layer as int, (i + limit) as nat),
                decreases limit + 1 - i,
            {
                let ghost behind = updates@;
                let mut k: i32 = -limit;
                assert(updates@ =~= behind + tree.row(noise, layer as int, i as int, 0));
                while k <= limit
                    invariant
                        tree.fits(),
                        noise == *source,
                        0 <= layer <= tree.bush_height,
                        limit == tree.ring(layer as int),
                        1 <= limit <= 2,
                        -limit <= i <= limit,
                        -limit <= k <= limit + 1,
                        updates@ == behind + tree.row(
                            noise,
                            layer as int,
                            i as int,
                            (k + limit) as nat,
                        ),
                    decreases limit + 1 - k,
                {
                    let ghost row = tree.row(noise, layer as int, i as int, (k + limit) as nat);
                    let center = i == 0 && k == 0;
                    let at = Coords3(tree.top.0 + i, tree.top.1 + layer, tree.top.2 + k);
                    let corner = (i == limit || i == -limit) && (k == limit || k == -limit);
                    if !corner && (center || !source.check(NoiseTest::CanopyGap, at)) {
                        let id = if center && layer != tree.bush_height {
                            tree.trunk
                        } else {
                            tree.leaves
                        };
                        updates.push(VoxelUpdate { voxel: at, id });
                    }
                    assert(updates@ =~= behind + (row + tree.cell(
                        noise,
                        layer as int,
                        i as int,
                        k as int,
                    )));
                    k = k + 1;
                }
                assert(updates@ =~= below + (tree.layer(noise, layer as int, (i + limit) as nat)
                    + tree.row(noise, layer as int, i as int, (2 * limit + 1) as nat)));
                i = i + 1;
            }
            assert(updates@ =~= rooted + (tree.canopy(noise, layer as nat) + tree.layer(
                noise,
                layer as int,
                (2 * limit + 1) as nat,
            )));
            layer = layer + 1;
        }
        assert(updates@ =~= start + tree.updates(noise));
    }

    /// The trees of the chunk by the given noise.
    fn trees_by(&self, noise: &Noise, chunk: &Chunk) -> (updates: Vec<VoxelUpdate>)
        requires
            self.registry()@.knows(Feature::Trees.names()),
        ensures
            updates@ == self.using(*noise).trees(*chunk),
    {
        let locations = self.sample_by(noise, chunk, Feature::Trees);
        let types = self.tree_types_known();
        let mut updates: Vec<VoxelUpdate> = Vec::new();
        let mut i: usize = 0;
        while i < locations.len()
            invariant
                i <= locations.len(),
                chunk.wf(),
                types == tree_types(self.registry()@),
                locations@ == self.using(*noise).sampled(*chunk, Feature::Trees),
                forall|k: int|
                    0 <= k < locations@.len() ==> Self::anchored(
                        *chunk,
                        Feature::Trees,
                        #[trigger] locations@[k],
                    ),
                updates@ == self.using(*noise).trees_upto(*chunk, i as nat),
            decreases locations.len() - i,
        {
            let location = locations[i];
            proof {
                assert(Self::anchored(*chunk, Feature::Trees, locations@[i as int]));
                crate::chunk::lemma_column_index(
                    chunk.lower(),
                    chunk.upper(),
                    location.0 as int,
                    location.2 as int,
                );
            }
            let tree = Self::plan(noise, &types, location);
            Self::grow(noise, &tree, &mut updates);
            i = i + 1;
        }
        updates
    }

    /// The trees of the chunk: for every anchor a trunk and a canopy, of the
    /// shape that the noise decides there. The registry must have every
    /// block type of trees.
    pub fn generate_trees(&self, chunk: &Chunk) -> (updates: Vec<VoxelUpdate>)
        requires
            self.registry()@.knows(Feature::Trees.names()),
        ensures
            updates@ == self.trees(*chunk),
    {
        assert(self.using(self.noise) == *self);
        self.trees_by(&self.noise, chunk)
    }

    /// The place of the first block type of a feature that is the name of
    /// no block, if there is one.
    pub open spec fn unknown(&self, feature: Feature) -> Option<usize> {
        if self.registry()@.knows(feature.names()) {
            None
        } else {
            Some(
                (choose|place: int| self.registry()@.first_unknown(feature.names(), place))
                    as usize,
            )
        }
    }

    /// The registry has every block type that the builder places or asks
    /// for: those of plants, of trees and of lamps.
    pub open spec fn equipped(&self) -> bool {
        &&& self.registry()@.knows(Feature::Plants.names())
        &&& self.registry()@.knows(Feature::Trees.names())
        &&& self.registry()@.knows(Feature::Lamps.names())
    }

    /// The first block type that the registry lacks: the first unknown name
    /// of plants, else of trees, else of lamps. Nothing where the builder
    /// is equipped.
    pub open spec fn lacking(&self) -> Option<BuildError> {
        if let Some(place) = self.unknown(Feature::Plants) {
            Some(BuildError { feature: Feature::Plants, place })
        } else if let Some(place) = self.unknown(Feature::Trees) {
            Some(BuildError { feature: Feature::Trees, place })
        } else if let Some(place) = self.unknown(Feature::Lamps) {
            Some(BuildError { feature: Feature::Lamps, place })
        } else {
            None
        }
    }

    /// What the builder makes of a chunk: the plants, then the trees, then
    /// the lamps. Each is made of the chunk as it is, whatever the others
    /// put on it.
    pub open spec fn decorated(&self, chunk: Chunk) -> Seq<VoxelUpdate> {
        self.plants(chunk) + self.trees(chunk) + self.lamps(chunk)
    }

    /// The first unknown name of a list is at one place only.
    pub proof fn lemma_unknown(&self, feature: Feature, place: int)
        requires
            self.registry()@.first_unknown(feature.names(), place),
        ensures
            0 <= place < feature.names().len() <= 7,
            self.unknown(feature) == Some(place as usize),
    {
        let names = feature.names();
        let registry = self.registry()@;
        assert(!registry.names.contains_key(names[place]));
        let other = choose|other: int| registry.first_unknown(names, other);
        if other < place {
            assert(registry.names.contains_key(names[other]));
        }
        if place < other {
            assert(registry.names.contains_key(names[place]));
        }
    }

    /// The first block type that the registry lacks, if it lacks one. A
    /// builder that lacks none is equipped, and may build.
    pub fn missing(&self) -> (found: Option<BuildError>)
        ensures
            found == self.lacking(),
            found is None <==> self.equipped(),
    {
        match self.resolve_plants() {
            Ok(_) => {},
            Err(unknown) => {
                proof {
                    self.lemma_unknown(Feature::Plants, unknown.place as int);
                }
                return Some(BuildError { feature: Feature::Plants, place: unknown.place });
            },
        }
        match self.resolve_trees() {
            Ok(_) => {},
            Err(unknown) => {
                proof {
                    self.lemma_unknown(Feature::Trees, unknown.place as int);
                }
                return Some(BuildError { feature: Feature::Trees, place: unknown.place });
            },
        }
        match self.resolve_lamps() {
            Ok(_) => {},
            Err(unknown) => {
                proof {
                    self.lemma_unknown(Feature::Lamps, unknown.place as int);
                }
                return Some(BuildError { feature: Feature::Lamps, place: unknown.place });
            },
        }
        None
    }

    /// Decorates a chunk by the given noise in place of the builder's own:
    /// what the builder of the same registry that uses this noise makes of
    /// the chunk. Neither the builder nor the chunk is changed.
    pub fn build_with(&self, noise: &Noise, chunk: &Chunk) -> (updates: Vec<VoxelUpdate>)
        requires
            self.equipped(),
        ensures
            updates@ == self.using(*noise).decorated(*chunk),
    {
        let mut updates: Vec<VoxelUpdate> = Vec::new();
        let mut plants = self.plants_by(noise, chunk);
        let mut trees = self.trees_by(noise, chunk);
        let mut lamps = self.lamps_by(noise, chunk);
        updates.append(&mut plants);
        updates.append(&mut trees);
        updates.append(&mut lamps);
        assert(updates@ =~= self.using(*noise).decorated(*chunk));
        updates
    }

    /// Decorates a chunk: the plants, the trees and the lamps for its
    /// surface, in this order in one list. The chunk is not changed, and
    /// what comes out is a function of the chunk, the registry and the
    /// noise. The registry must have every block type that is needed.
    pub fn build(&self, chunk: &Chunk) -> (updates: Vec<VoxelUpdate>)
        requires
            self.equipped(),
        ensures
            updates@ == self.decorated(*chunk),
    {
        assert(self.using(self.noise) == *self);
        self.build_with(&self.noise, chunk)
    }

    /// Two runs on one chunk give one list.
    pub proof fn lemma_build_repeats(
        &self,
        chunk: Chunk,
        first: Seq<VoxelUpdate>,
        second: Seq<VoxelUpdate>,
    )
        requires
            first == self.decorated(chunk),
            second == self.decorated(chunk),
        ensures
            first == second,
    {
    }

    /// Where the noise passes the test for a red mushroom at the anchor of
    /// a plant, the plant is a red mushroom, whatever other tests it passes.
    pub proof fn lemma_red_mushroom_first(&self, chunk: Chunk, at: int)
        requires
            0 <= at < self.plants(chunk).len(),
            self.noise().passes(NoiseTest::RedMushroom, self.sampled(chunk, Feature::Plants)[at]),
        ensures
            self.plants(chunk)[at].voxel == self.sampled(chunk, Feature::Plants)[at],
            self.plants(chunk)[at].id == plant_types(self.registry()@).red_mushroom,
    {
    }

    /// The builder may make the test when it decorates the chunk: it is a
    /// test of a column of the chunk on whose surface something can be
    /// planted.
    pub open spec fn wants(&self, chunk: Chunk, probe: Probe) -> bool {
        exists|x: int, z: int|
            chunk.has_column(x, z) && self.registry()@.plantable(chunk.surface_at(x, z))
                && #[trigger] wanted_at(x, chunk.height_at(x, z), z, probe)
    }

    /// The probe is wanted by a column that comes before (`x`, `z`) in the
    /// order in which the columns are walked.
    pub open spec fn wanted_before(&self, chunk: Chunk, x: int, z: int, probe: Probe) -> bool {
        exists|row: int, place: int|
            chunk.has_column(row, place) && (row < x || (row == x && place < z))
                && self.registry()@.plantable(chunk.surface_at(row, place)) && #[trigger] wanted_at(
                row,
                chunk.height_at(row, place),
                place,
                probe,
            )
    }

    /// The tests that the builder may make of the noise when it decorates
    /// the chunk, whatever the noise answers. A noise that records the
    /// outcome of each of them decides the decorations of the chunk.
    pub fn probes(&self, chunk: &Chunk) -> (probes: Vec<Probe>)
        ensures
            forall|probe: Probe| #[trigger] probes@.contains(probe) <==> self.wants(*chunk, probe),
    {
        let min = chunk.min();
        let max = chunk.max();
        let mut probes: Vec<Probe> = Vec::new();
        let mut x: i32 = min.0;
        while x <= max.0
            invariant
                chunk.wf(),
                min == chunk.lower(),
                max == chunk.upper(),
                min.0 <= x <= max.0 + 1,
                forall|probe: Probe|
                    #[trigger] probes@.contains(probe) <==> self.wanted_before(
                        *chunk,
                        x as int,
                        min.2 as int,
                        probe,
                    ),
            decreases max.0 + 1 - x,
        {
            let mut z: i32 = min.2;
            while z <= max.2
                invariant
                    chunk.wf(),
                    min == chunk.lower(),
                    max == chunk.upper(),
                    min.0 <= x <= max.0,
                    min.2 <= z <= max.2 + 1,
                    forall|probe: Probe|
                        #[trigger] probes@.contains(probe) <==> self.wanted_before(
                            *chunk,
                            x as int,
                            z as int,
                            probe,
                        ),
                decreases max.2 + 1 - z,
            {
                let height = chunk.get_max_height(x, z).unwrap();
                let kind = chunk.get_voxel(x, height, z).unwrap();
                let ghost before = probes@;
                let plantable = self.registry.is_plantable(kind);
                if plantable {
                    ask_column(&mut probes, x, height, z);
                }
                proof {
                    assert forall|probe: Probe| #[trigger]
                        probes@.contains(probe) <==> self.wanted_before(
                            *chunk,
                            x as int,
                            z + 1,
                            probe,
                        ) by {
                        if self.wanted_before(*chunk, x as int, z + 1, probe) {
                            let (row, place) = choose|row: int, place: int|
                                chunk.has_column(row, place) && (row < x || (row == x && place < z
                                    + 1)) && self.registry()@.plantable(
                                    chunk.surface_at(row, place),
                                ) && #[trigger] wanted_at(
                                    row,
                                    chunk.height_at(row, place),
                                    place,
                                    probe,
                                );
                            if row == x && place == z {
                            } else {
                                assert(self.wanted_before(*chunk, x as int, z as int, probe));
                            }
                        }
                        if before.contains(probe) {
                            assert(self.wanted_before(*chunk, x as int, z as int, probe));
                        }
                        if plantable && wanted_at(x as int, height as int, z as int, probe) {
                            assert(self.wanted_before(*chunk, x as int, z + 1, probe));
                        }
                    }
                }
                z = z + 1;
            }
            proof {
                assert forall|probe: Probe| #[trigger]
                    self.wanted_before(*chunk, x as int, max.2 + 1, probe)
                        <==> self.wanted_before(*chunk, x + 1, min.2 as int, probe) by {
                    if self.wanted_before(*chunk, x as int, max.2 + 1, probe) {
                        let (row, place) = choose|row: int, place: int|
                            chunk.has_column(row, place) && (row < x || (row == x && place < max.2
                                + 1)) && self.registry()@.plantable(chunk.surface_at(row, place))
                                && #[trigger] wanted_at(
                                row,
                                chunk.height_at(row, place),
                                place,
                                probe,
                            );
                        assert(wanted_at(row, chunk.height_at(row, place), place, probe));
                    }
                    if self.wanted_before(*chunk, x + 1, min.2 as int, probe) {
                        let (row, place) = choose|row: int, place: int|
                            chunk.has_column(row, place) && (row < x + 1 || (row == x + 1 && place
                                < min.2)) && self.registry()@.plantable(
                                chunk.surface_at(row, place),
                            ) && #[trigger] wanted_at(
                                row,
                                chunk.height_at(row, place),
                                place,
                                probe,
                            );
                        assert(wanted_at(row, chunk.height_at(row, place), place, probe));
                    }
                }
            }
            x = x + 1;
        }
        proof {
            assert forall|probe: Probe| #[trigger]
                probes@.contains(probe) <==> self.wants(*chunk, probe) by {
                if self.wants(*chunk, probe) {
                    let (row, place) = choose|row: int, place: int|
                        chunk.has_column(row, place) && self.registry()@.plantable(
                            chunk.surface_at(row, place),
                        ) && #[trigger] wanted_at(row, chunk.height_at(row, place), place, probe);
                    assert(self.wanted_before(*chunk, max.0 + 1, min.2 as int, probe));
                }
                if self.wanted_before(*chunk, max.0 + 1, min.2 as int, probe) {
                    let (row, place) = choose|row: int, place: int|
                        chunk.has_column(row, place) && (row < max.0 + 1 || (row == max.0 + 1
                            && place < min.2)) && self.registry()@.plantable(
                            chunk.surface_at(row, place),
                        ) && #[trigger] wanted_at(row, chunk.height_at(row, place), place, probe);
                    assert(wanted_at(row, chunk.height_at(row, place), place, probe));
                }
            }
        }
        probes
    }

    /// The two builders have one registry, and their noises give the same
    /// answer to every test that may be made of the chunk.
    pub open spec fn agrees(&self, other: Builder, chunk: Chunk) -> bool {
        &&& self.registry()@ == other.registry()@
        &&& forall|probe: Probe| #[trigger]
            self.wants(chunk, probe) ==> self.noise().passes(probe.test, probe.at)
                == other.noise().passes(probe.test, probe.at)
    }

    /// The place is the anchor of the feature in a column of the chunk on
    /// whose surface something can be planted.
    pub open spec fn rooted(&self, chunk: Chunk, feature: Feature, at: Coords3<i32>) -> bool {
        Self::anchored(chunk, feature, at) && self.registry()@.plantable(
            chunk.surface_at(at.0 as int, at.2 as int),
        )
    }

    /// The noise of a builder that agrees passes a wanted test where this
    /// builder's does.
    pub proof fn lemma_same_answer(
        &self,
        other: Builder,
        chunk: Chunk,
        x: int,
        z: int,
        test: NoiseTest,
        at: Coords3<i32>,
    )
        requires
            self.agrees(other, chunk),
            chunk.has_column(x, z),
            self.registry()@.plantable(chunk.surface_at(x, z)),
            wanted_at(x, chunk.height_at(x, z), z, Probe { test, at }),
        ensures
            self.noise().passes(test, at) == other.noise().passes(test, at),
    {
        let probe = Probe { test, at };
        assert(self.wants(chunk, probe));
    }

    /// Builders that agree find the same anchors in a row, each in a column
    /// on which something can be planted.
    pub proof fn lemma_same_row_anchors(
        &self,
        other: Builder,
        chunk: Chunk,
        feature: Feature,
        x: int,
        count: nat,
    )
        requires
            chunk.wf(),
            self.agrees(other, chunk),
            chunk.lower().0 <= x <= chunk.upper().0,
            count <= crate::chunk::span(chunk.lower().2, chunk.upper().2),
        ensures
            self.row_anchors(chunk, feature, x, count) == other.row_anchors(
                chunk,
                feature,
                x,
                count,
            ),
            forall|i: int|
                0 <= i < self.row_anchors(chunk, feature, x, count).len() ==> self.rooted(
                    chunk,
                    feature,
                    #[trigger] self.row_anchors(chunk, feature, x, count)[i],
                ),
        decreases count,
    {
        if count > 0 {
            self.lemma_same_row_anchors(other, chunk, feature, x, (count - 1) as nat);
            let z = chunk.lower().2 + count - 1;
            crate::chunk::lemma_column_index(chunk.lower(), chunk.upper(), x, z);
            if self.registry()@.plantable(chunk.surface_at(x, z)) {
                self.lemma_same_answer(other, chunk, x, z, feature.site(), column(x, z));
            }
        }
    }

    /// Builders that agree find the same anchors in the chunk, each in a
    /// column on which something can be planted.
    pub proof fn lemma_same_anchors(
        &self,
        other: Builder,
        chunk: Chunk,
        feature: Feature,
        rows: nat,
    )
        requires
            chunk.wf(),
            self.agrees(other, chunk),
            rows <= crate::chunk::span(chunk.lower().0, chunk.upper().0),
        ensures
            self.anchors(chunk, feature, rows) == other.anchors(chunk, feature, rows),
            forall|i: int|
                0 <= i < self.anchors(chunk, feature, rows).len() ==> self.rooted(
                    chunk,
                    feature,
                    #[trigger] self.anchors(chunk, feature, rows)[i],
                ),
        decreases rows,
    {
        if rows > 0 {
            self.lemma_same_anchors(other, chunk, feature, (rows - 1) as nat);
            self.lemma_same_row_anchors(
                other,
                chunk,
                feature,
                chunk.lower().0 + rows - 1,
                crate::chunk::span(chunk.lower().2, chunk.upper().2) as nat,
            );
        }
    }

    /// Builders that agree grow the same tree at an anchor.
    pub proof fn lemma_same_tree(&self, other: Builder, chunk: Chunk, at: Coords3<i32>)
        requires
            chunk.wf(),
            self.agrees(other, chunk),
            self.rooted(chunk, Feature::Trees, at),
        ensures
            planned(tree_types(self.registry()@), self.noise(), at).updates(self.noise())
                == planned(tree_types(other.registry()@), other.noise(), at).updates(
                other.noise(),
            ),
    {
        let x = at.0 as int;
        let z = at.2 as int;
        let site = column(x, z);
        crate::chunk::lemma_column_index(chunk.lower(), chunk.upper(), x, z);
        self.lemma_same_answer(other, chunk, x, z, NoiseTest::TallTrunk, site);
        self.lemma_same_answer(other, chunk, x, z, NoiseTest::GrandCanopy, site);
        self.lemma_same_answer(other, chunk, x, z, NoiseTest::BroadCanopy, site);
        self.lemma_same_answer(other, chunk, x, z, NoiseTest::OrangeLeaves, site);
        let tree = planned(tree_types(self.registry()@), self.noise(), at);
        assert(tree == planned(tree_types(other.registry()@), other.noise(), at));
        assert forall|layer: int, i: int, k: int|
            0 <= layer <= tree.bush_height && -2 <= i <= 2 && -2 <= k <= 2 implies self.noise().passes(
            NoiseTest::CanopyGap,
            #[trigger] tree.place(layer, i, k),
        ) == other.noise().passes(NoiseTest::CanopyGap, tree.place(layer, i, k)) by {
            self.lemma_same_answer(
                other,
                chunk,
                x,
                z,
                NoiseTest::CanopyGap,
                tree.place(layer, i, k),
            );
        }
        tree.lemma_same_canopy(self.noise(), other.noise(), (tree.bush_height + 1) as nat);
    }

    /// Builders that agree grow the same trees at the first anchors.
    pub proof fn lemma_same_trees(&self, other: Builder, chunk: Chunk, count: nat)
        requires
            chunk.wf(),
            self.agrees(other, chunk),
            count <= self.sampled(chunk, Feature::Trees).len(),
        ensures
            self.trees_upto(chunk, count) == other.trees_upto(chunk, count),
        decreases count,
    {
        self.lemma_same_anchors(
            other,
            chunk,
            Feature::Trees,
            crate::chunk::span(chunk.lower().0, chunk.upper().0) as nat,
        );
        if count > 0 {
            self.lemma_same_trees(other, chunk, (count - 1) as nat);
            self.lemma_same_tree(other, chunk, self.sampled(chunk, Feature::Trees)[count - 1]);
        }
    }

    /// The tests that `probes` lists decide the decorations: two builders
    /// of one registry whose noises give the same answer to every test that
    /// may be made of the chunk make the same of it.
    pub proof fn lemma_probes_decide(&self, other: Builder, chunk: Chunk)
        requires
            chunk.wf(),
            self.agrees(other, chunk),
        ensures
            self.decorated(chunk) == other.decorated(chunk),
    {
        let rows = crate::chunk::span(chunk.lower().0, chunk.upper().0) as nat;
        self.lemma_same_anchors(other, chunk, Feature::Plants, rows);
        self.lemma_same_anchors(other, chunk, Feature::Trees, rows);
        self.lemma_same_anchors(other, chunk, Feature::Lamps, rows);
        let anchors = self.sampled(chunk, Feature::Plants);
        let types = plant_types(self.registry()@);
        assert forall|i: int| 0 <= i < anchors.len() implies self.plant_at(
            chunk,
            types,
            anchors[i],
        ) == other.plant_at(chunk, types, anchors[i]) by {
            let at = anchors[i];
            let x = at.0 as int;
            let z = at.2 as int;
            assert(self.rooted(chunk, Feature::Plants, at));
            crate::chunk::lemma_column_index(chunk.lower(), chunk.upper(), x, z);
            self.lemma_same_answer(other, chunk, x, z, NoiseTest::RedMushroom, at);
            self.lemma_same_answer(other, chunk, x, z, NoiseTest::BrownMushroom, at);
            self.lemma_same_answer(other, chunk, x, z, NoiseTest::TanGrass, at);
            self.lemma_same_answer(other, chunk, x, z, NoiseTest::TanMushroom, at);
            self.lemma_same_answer(other, chunk, x, z, NoiseTest::BrownGrass, at);
        }
        assert(self.plants(chunk) =~= other.plants(chunk));
        assert(self.lamps(chunk) =~= other.lamps(chunk));
        self.lemma_same_trees(other, chunk, self.sampled(chunk, Feature::Trees).len());
    }
}

} // verus!
