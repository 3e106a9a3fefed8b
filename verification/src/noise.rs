//! Thresholded noise: for every test that the builder makes, the places at
//! which the noise passes it.
use vstd::prelude::*;
use std::collections::HashSet;
use crate::types::Coords3;

verus! {

broadcast use vstd::std_specs::hash::group_hash_axioms;

/// The tests that the builder makes of the noise. The first seven are made
/// of a column, at height 0; the others of a voxel.
#[derive(Clone, Copy, Debug, PartialEq, Eq)]
pub enum NoiseTest {
    /// The column takes a plant.
    PlantSite,
    /// The column takes a tree.
    TreeSite,
    /// The column takes a lamp.
    LampSite,
    /// The trunk of the tree is tall.
    TallTrunk,
    /// The canopy of the tree is of the greatest height.
    GrandCanopy,
    /// The canopy of the tree is of the second height.
    BroadCanopy,
    /// The leaves of the tree are orange.
    OrangeLeaves,
    /// The plant is a red mushroom.
    RedMushroom,
    /// The plant is a brown mushroom, on dirt.
    BrownMushroom,
    /// The plant is tan grass.
    TanGrass,
    /// The plant is a tan mushroom.
    TanMushroom,
    /// The plant is brown grass, on dirt.
    BrownGrass,
    /// The canopy has a gap at the voxel.
    CanopyGap,
}

impl NoiseTest {
    /// The number of the test.
    pub open spec fn code(self) -> int {
        match self {
            NoiseTest::PlantSite => 0,
            NoiseTest::TreeSite => 1,
            NoiseTest::LampSite => 2,
            NoiseTest::TallTrunk => 3,
            NoiseTest::GrandCanopy => 4,
            NoiseTest::BroadCanopy => 5,
            NoiseTest::OrangeLeaves => 6,
            NoiseTest::RedMushroom => 7,
            NoiseTest::BrownMushroom => 8,
            NoiseTest::TanGrass => 9,
            NoiseTest::TanMushroom => 10,
            NoiseTest::BrownGrass => 11,
            NoiseTest::CanopyGap => 12,
        }
    }

    /// The number of the test.
    fn number(self) -> (code: u128)
        ensures
            code == self.code(),
    {
        match self {
            NoiseTest::PlantSite => 0,
            NoiseTest::TreeSite => 1,
            NoiseTest::LampSite => 2,
            NoiseTest::TallTrunk => 3,
            NoiseTest::GrandCanopy => 4,
            NoiseTest::BroadCanopy => 5,
            NoiseTest::OrangeLeaves => 6,
            NoiseTest::RedMushroom => 7,
            NoiseTest::BrownMushroom => 8,
            NoiseTest::TanGrass => 9,
            NoiseTest::TanMushroom => 10,
            NoiseTest::BrownGrass => 11,
            NoiseTest::CanopyGap => 12,
        }
    }
}

/// The noise function that a test samples.
#[derive(Clone, Copy, Debug, PartialEq, Eq)]
pub enum Sampler {
    /// The central test of plain noise over a column.
    CentralPerlin,
    /// The central test of fractal noise over a column.
    CentralFractalPerlin,
    /// Plain noise over a column, held against a threshold.
    Perlin2,
    /// Fractal noise over a voxel, held against a threshold.
    FractalPerlin3,
}

/// The scale of the world that the scale of a test is a multiple of.
#[derive(Clone, Copy, Debug, PartialEq, Eq)]
pub enum Spread {
    /// The scale at which plants are spread.
    Plants,
    /// The scale at which trees are spread.
    Trees,
    /// No scale of the world: the factor is the scale itself.
    Fixed,
}

/// What is counted in parts of: ten thousand parts make one.
pub const PARTS: u32 = 10_000;

/// How a test is made: which noise is sampled, at which scale and with how
/// many octaves, and the threshold that the sample must exceed. The factor
/// of the scale and the threshold are counted in parts of `PARTS`; a
/// central test has no threshold, and plain noise has no octaves.
#[derive(Clone, Copy, Debug, PartialEq, Eq)]
pub struct Recipe {
    pub sampler: Sampler,
    pub spread: Spread,
    pub factor: u32,
    pub octaves: u32,
    pub threshold: u32,
}

impl NoiseTest {
    /// How the test is made.
    pub open spec fn recipe_of(self) -> Recipe {
        match self {
            NoiseTest::PlantSite => Recipe {
                sampler: Sampler::CentralFractalPerlin,
                spread: Spread::Plants,
                factor: 10_000,
                octaves: 5,
                threshold: 0,
            },
            NoiseTest::TreeSite => Recipe {
                sampler: Sampler::CentralPerlin,
                spread: Spread::Trees,
                factor: 10_000,
                octaves: 0,
                threshold: 0,
            },
            NoiseTest::LampSite => Recipe {
                sampler: Sampler::CentralPerlin,
                spread: Spread::Fixed,
                factor: 200,
                octaves: 0,
                threshold: 0,
            },
            NoiseTest::TallTrunk => Recipe {
                sampler: Sampler::Perlin2,
                spread: Spread::Trees,
                factor: 53_425,
                octaves: 0,
                threshold: 600,
            },
            NoiseTest::GrandCanopy => Recipe {
                sampler: Sampler::Perlin2,
                spread: Spread::Fixed,
                factor: 50,
                octaves: 0,
                threshold: 1_000,
            },
            NoiseTest::BroadCanopy => Recipe {
                sampler: Sampler::Perlin2,
                spread: Spread::Trees,
                factor: 14_240,
                octaves: 0,
                threshold: 1_000,
            },
            NoiseTest::OrangeLeaves => Recipe {
                sampler: Sampler::Perlin2,
                spread: Spread::Fixed,
                factor: 50,
                octaves: 0,
                threshold: 1_000,
            },
            NoiseTest::RedMushroom => Recipe {
                sampler: Sampler::FractalPerlin3,
                spread: Spread::Plants,
                factor: 24_600,
                octaves: 3,
                threshold: 3_000,
            },
            NoiseTest::BrownMushroom => Recipe {
                sampler: Sampler::FractalPerlin3,
                spread: Spread::Plants,
                factor: 108_520,
                octaves: 6,
                threshold: 3_300,
            },
            NoiseTest::TanGrass => Recipe {
                sampler: Sampler::FractalPerlin3,
                spread: Spread::Plants,
                factor: 90_120,
                octaves: 4,
                threshold: 3_000,
            },
            NoiseTest::TanMushroom => Recipe {
                sampler: Sampler::FractalPerlin3,
                spread: Spread::Plants,
                factor: 64_500,
                octaves: 2,
                threshold: 3_600,
            },
            NoiseTest::BrownGrass => Recipe {
                sampler: Sampler::FractalPerlin3,
                spread: Spread::Plants,
                factor: 44_400,
                octaves: 1,
                threshold: 2_500,
            },
            NoiseTest::CanopyGap => Recipe {
                sampler: Sampler::FractalPerlin3,
                spread: Spread::Trees,
                factor: 24_100,
                octaves: 9,
                threshold: 4_000,
            },
        }
    }

    /// How the test is made.
    pub fn recipe(self) -> (recipe: Recipe)
        ensures
            recipe == self.recipe_of(),
    {
        let (sampler, spread, factor, octaves, threshold): (Sampler, Spread, u32, u32, u32) =
            match self {
            NoiseTest::PlantSite => (Sampler::CentralFractalPerlin, Spread::Plants, 10_000, 5, 0),
            NoiseTest::TreeSite => (Sampler::CentralPerlin, Spread::Trees, 10_000, 0, 0),
            NoiseTest::LampSite => (Sampler::CentralPerlin, Spread::Fixed, 200, 0, 0),
            NoiseTest::TallTrunk => (Sampler::Perlin2, Spread::Trees, 53_425, 0, 600),
            NoiseTest::GrandCanopy => (Sampler::Perlin2, Spread::Fixed, 50, 0, 1_000),
            NoiseTest::BroadCanopy => (Sampler::Perlin2, Spread::Trees, 14_240, 0, 1_000),
            NoiseTest::OrangeLeaves => (Sampler::Perlin2, Spread::Fixed, 50, 0, 1_000),
            NoiseTest::RedMushroom => (Sampler::FractalPerlin3, Spread::Plants, 24_600, 3, 3_000),
            NoiseTest::BrownMushroom => (
                Sampler::FractalPerlin3,
                Spread::Plants,
                108_520,
                6,
                3_300,
            ),
            NoiseTest::TanGrass => (Sampler::FractalPerlin3, Spread::Plants, 90_120, 4, 3_000),
            NoiseTest::TanMushroom => (Sampler::FractalPerlin3, Spread::Plants, 64_500, 2, 3_600),
            NoiseTest::BrownGrass => (Sampler::FractalPerlin3, Spread::Plants, 44_400, 1, 2_500),
            NoiseTest::CanopyGap => (Sampler::FractalPerlin3, Spread::Trees, 24_100, 9, 4_000),
        };
        Recipe { sampler, spread, factor, octaves, threshold }
    }
}

/// A coordinate counted from the least one.
pub open spec fn shifted(c: i32) -> int {
    c - i32::MIN
}

/// The key of a test at a place: the number of the test and the three
/// coordinates, each in 32 bits.
pub open spec fn key_of(test: NoiseTest, at: Coords3<i32>) -> int {
    ((test.code() * 0x1_0000_0000 + shifted(at.0)) * 0x1_0000_0000 + shifted(at.1))
        * 0x1_0000_0000 + shifted(at.2)
}

/// Two tests at two places have one key only where they are the same test
/// at the same place.
pub proof fn lemma_key_of_injective(
    test: NoiseTest,
    at: Coords3<i32>,
    other: NoiseTest,
    there: Coords3<i32>,
)
    requires
        key_of(test, at) == key_of(other, there),
    ensures
        test == other,
        at == there,
{
    let a = (test.code() * 0x1_0000_0000 + shifted(at.0)) * 0x1_0000_0000 + shifted(at.1);
    let b = (other.code() * 0x1_0000_0000 + shifted(there.0)) * 0x1_0000_0000 + shifted(there.1);
    assert(a == b && shifted(at.2) == shifted(there.2));
    let c = test.code() * 0x1_0000_0000 + shifted(at.0);
    let d = other.code() * 0x1_0000_0000 + shifted(there.0);
    assert(c == d && shifted(at.1) == shifted(there.1));
    assert(test.code() == other.code() && shifted(at.0) == shifted(there.0));
}

/// The key of a test at a place.
fn key(test: NoiseTest, at: Coords3<i32>) -> (key: u128)
    ensures
        key == key_of(test, at),
{
    let x: u128 = (at.0 as i64 - i32::MIN as i64) as u128;
    let y: u128 = (at.1 as i64 - i32::MIN as i64) as u128;
    let z: u128 = (at.2 as i64 - i32::MIN as i64) as u128;
    ((test.number() * 0x1_0000_0000 + x) * 0x1_0000_0000 + y) * 0x1_0000_0000 + z
}

/// The outcome of every test of the noise at every place.
pub struct Noise {
    hits: HashSet<u128>,
}

impl Noise {
    /// The noise passes the test at the place.
    pub closed spec fn passes(&self, test: NoiseTest, at: Coords3<i32>) -> bool {
        self.hits@.contains(key_of(test, at) as u128)
    }

    /// The noise that passes no test anywhere.
    pub fn new() -> (noise: Noise)
        ensures
            forall|test: NoiseTest, at: Coords3<i32>| !#[trigger] noise.passes(test, at),
    {
        Noise { hits: HashSet::new() }
    }

    /// Records that the noise passes the test at the place.
    pub fn mark(&mut self, test: NoiseTest, at: Coords3<i32>)
        ensures
            forall|other: NoiseTest, there: Coords3<i32>| #[trigger]
                final(self).passes(other, there) == (old(self).passes(other, there) || (other
                    == test && there == at)),
    {
        self.hits.insert(key(test, at));
        proof {
            assert forall|other: NoiseTest, there: Coords3<i32>| #[trigger]
                self.passes(other, there) == (old(self).passes(other, there) || (other == test
                    && there == at)) by {
                if key_of(other, there) == key_of(test, at) {
                    lemma_key_of_injective(other, there, test, at);
                }
            }
        }
    }

    /// Whether the noise passes the test at the place.
    pub fn check(&self, test: NoiseTest, at: Coords3<i32>) -> (passed: bool)
        ensures
            passed == self.passes(test, at),
    {
        let wanted = key(test, at);
        self.hits.contains(&wanted)
    }
}

} // verus!
