//! Structured documents: a tree of objects, arrays and scalars, with lookup
//! by key and the recursive merge of a document over its base.
use vstd::prelude::*;

verus! {

/// One member of an object, as a mathematical value.
pub ghost struct JsonMember {
    pub key: Seq<char>,
    pub value: Json,
}

/// The mathematical value of a document.
pub ghost enum Json {
    Null,
    Bool(bool),
    Integer(int),
    Decimal(Seq<char>),
    Text(Seq<char>),
    Array(Seq<Json>),
    Object(Seq<JsonMember>),
}

/// `i` is the first place in `members` at which `key` stands.
pub open spec fn is_first(members: Seq<JsonMember>, key: Seq<char>, i: int) -> bool {
    &&& 0 <= i < members.len()
    &&& members[i].key == key
    &&& forall|j: int| 0 <= j < i ==> (#[trigger] members[j]).key != key
}

/// What `members` holds under `key`: the value of the first member of that key.
pub open spec fn lookup(members: Seq<JsonMember>, key: Seq<char>) -> Option<Json> {
    if exists|i: int| is_first(members, key, i) {
        Some(members[choose|i: int| is_first(members, key, i)].value)
    } else {
        None
    }
}

/// The test that a member's key does not stand in `members`.
pub open spec fn missing_from(members: Seq<JsonMember>) -> spec_fn(JsonMember) -> bool {
    |m: JsonMember| lookup(members, m.key) is None
}

/// The member of the merged object that stands for `member` of the upper
/// object: merged with what the base holds under the same key, if anything.
pub open spec fn merged_member(member: JsonMember, base: Seq<JsonMember>) -> JsonMember
    decreases member, 0int,
{
    JsonMember {
        key: member.key,
        value: match lookup(base, member.key) {
            Some(below) => merged(member.value, below),
            None => member.value,
        },
    }
}

/// The document `upper` laid over `base`. Two objects are merged member by
/// member: a key of both holds the merge of the two values, a key of one
/// holds that one's value. The members of `upper` come first, in their
/// order, then those that only `base` has. Anything else is `upper` itself.
pub open spec fn merged(upper: Json, base: Json) -> Json
    decreases upper, 1int,
{
    match (upper, base) {
        (Json::Object(above), Json::Object(below)) => Json::Object(
            overlaid(above, below) + below.filter(missing_from(above)),
        ),
        _ => upper,
    }
}

/// The members of `above`, each merged with what `below` holds under its key.
pub open spec fn overlaid(above: Seq<JsonMember>, below: Seq<JsonMember>) -> Seq<JsonMember>
    decreases above, 0int,
{
    Seq::new(
        above.len(),
        |i: int|
            if 0 <= i < above.len() {
                merged_member(above[i], below)
            } else {
                arbitrary()
            },
    )
}

impl Json {
    /// The value under `key`, if this is an object that has the key.
    pub open spec fn get(self, key: Seq<char>) -> Option<Json> {
        match self {
            Json::Object(members) => lookup(members, key),
            _ => None,
        }
    }
}

/// The first place of a key is unique, so `lookup` is the value found there.
pub proof fn lemma_lookup_first(members: Seq<JsonMember>, key: Seq<char>, i: int)
    requires
        is_first(members, key, i),
    ensures
        lookup(members, key) == Some(members[i].value),
{
    let j = choose|j: int| is_first(members, key, j);
    assert(is_first(members, key, j));
    if j < i {
        assert(members[j].key != key);
    }
    if i < j {
        assert(members[i].key != key);
    }
}

/// A key that stands nowhere is not found.
pub proof fn lemma_lookup_absent(members: Seq<JsonMember>, key: Seq<char>)
    requires
        forall|j: int| 0 <= j < members.len() ==> (#[trigger] members[j]).key != key,
    ensures
        lookup(members, key) is None,
{
    if exists|i: int| is_first(members, key, i) {
        let i = choose|i: int| is_first(members, key, i);
        assert(members[i].key != key);
    }
}

/// A key that is found stands somewhere, and first at one place.
pub proof fn lemma_lookup_found(members: Seq<JsonMember>, key: Seq<char>) -> (i: int)
    requires
        lookup(members, key) is Some,
    ensures
        is_first(members, key, i),
        lookup(members, key) == Some(members[i].value),
{
    choose|i: int| is_first(members, key, i)
}

/// Lookup in two sequences laid end to end: the first one is asked first.
pub proof fn lemma_lookup_concat(front: Seq<JsonMember>, back: Seq<JsonMember>, key: Seq<char>)
    ensures
        lookup(front + back, key) == if lookup(front, key) is Some {
            lookup(front, key)
        } else {
            lookup(back, key)
        },
{
    let all = front + back;
    if lookup(front, key) is Some {
        let i = lemma_lookup_found(front, key);
        assert(all[i] == front[i]);
        assert forall|j: int| 0 <= j < i implies (#[trigger] all[j]).key != key by {
            assert(all[j] == front[j]);
        }
        lemma_lookup_first(all, key, i);
    } else {
        assert forall|j: int| 0 <= j < front.len() implies (#[trigger] front[j]).key != key by {
            if front[j].key == key {
                lemma_has_first(front, key, j);
            }
        }
        if lookup(back, key) is Some {
            let i = lemma_lookup_found(back, key);
            assert(all[front.len() + i] == back[i]);
            assert forall|j: int| 0 <= j < front.len() + i implies (#[trigger] all[j]).key
                != key by {
                if j < front.len() {
                    assert(all[j] == front[j]);
                } else {
                    assert(all[j] == back[j - front.len()]);
                }
            }
            lemma_lookup_first(all, key, front.len() + i);
        } else {
            assert forall|j: int| 0 <= j < all.len() implies (#[trigger] all[j]).key != key by {
                if j < front.len() {
                    assert(all[j] == front[j]);
                } else {
                    assert(all[j] == back[j - front.len()]);
                    if back[j - front.len()].key == key {
                        lemma_has_first(back, key, j - front.len());
                    }
                }
            }
            lemma_lookup_absent(all, key);
        }
    }
}

/// A key that stands somewhere is found.
pub proof fn lemma_has_first(members: Seq<JsonMember>, key: Seq<char>, at: int)
    requires
        0 <= at < members.len(),
        members[at].key == key,
    ensures
        lookup(members, key) is Some,
    decreases at,
{
    if forall|j: int| 0 <= j < at ==> (#[trigger] members[j]).key != key {
        assert(is_first(members, key, at));
    } else {
        let j = choose|j: int| 0 <= j < at && (#[trigger] members[j]).key == key;
        lemma_has_first(members, key, j);
    }
}

/// A filter that lets every member of a key pass leaves the lookup of that
/// key as it was.
pub proof fn lemma_lookup_filter(
    members: Seq<JsonMember>,
    pass: spec_fn(JsonMember) -> bool,
    key: Seq<char>,
)
    requires
        forall|m: JsonMember| m.key == key ==> #[trigger] pass(m),
    ensures
        lookup(members.filter(pass), key) == lookup(members, key),
    decreases members.len(),
{
    reveal(Seq::filter);
    if members.len() > 0 {
        let front = members.drop_last();
        let last = members.last();
        lemma_lookup_filter(front, pass, key);
        assert(members =~= front + seq![last]);
        lemma_lookup_concat(front, seq![last], key);
        if pass(last) {
            assert(members.filter(pass) =~= front.filter(pass) + seq![last]);
            lemma_lookup_concat(front.filter(pass), seq![last], key);
        } else {
            assert(last.key != key);
            lemma_lookup_absent(seq![last], key);
        }
    }
}

/// What a merged object holds under a key: the merge of the two values where
/// both objects have the key, and otherwise the value of the one that has it.
pub proof fn lemma_merged_get(upper: Json, base: Json, key: Seq<char>)
    requires
        upper is Object,
        base is Object,
    ensures
        merged(upper, base).get(key) == match (upper.get(key), base.get(key)) {
            (Some(above), Some(below)) => Some(merged(above, below)),
            (Some(above), None) => Some(above),
            (None, below) => below,
        },
{
    let above = upper->Object_0;
    let below = base->Object_0;
    let front = overlaid(above, below);
    let back = below.filter(missing_from(above));
    lemma_lookup_concat(front, back, key);
    if lookup(above, key) is Some {
        let i = lemma_lookup_found(above, key);
        assert(front[i] == merged_member(above[i], below));
        assert forall|j: int| 0 <= j < i implies (#[trigger] front[j]).key != key by {
            assert(front[j] == merged_member(above[j], below));
            assert(above[j].key != key);
        }
        lemma_lookup_first(front, key, i);
    } else {
        assert forall|j: int| 0 <= j < front.len() implies (#[trigger] front[j]).key != key by {
            assert(front[j] == merged_member(above[j], below));
            if above[j].key == key {
                lemma_has_first(above, key, j);
            }
        }
        lemma_lookup_absent(front, key);
        lemma_lookup_filter(below, missing_from(above), key);
    }
}

/// Where the two are not both objects, the upper document stands as it is.
pub proof fn lemma_merged_scalar(upper: Json, base: Json)
    requires
        !(upper is Object && base is Object),
    ensures
        merged(upper, base) == upper,
{
}

/// One member of an object: a key and the value under it.
#[derive(Debug, PartialEq, Eq)]
pub struct Member {
    pub key: String,
    pub value: Document,
}

/// A document. A number is an `Integer` where it is whole and fits, and
/// otherwise a `Decimal` that keeps its digits as text.
#[derive(Debug, PartialEq, Eq)]
pub enum Document {
    Null,
    Bool(bool),
    Integer(i64),
    Decimal(String),
    Text(String),
    Array(Vec<Document>),
    Object(Vec<Member>),
}

/// The members as mathematical values.
pub open spec fn members_view(members: Seq<Member>) -> Seq<JsonMember> {
    Seq::new(members.len(), |i: int| members[i]@)
}

/// The value of the first member that stands under `key`.
pub fn find<'a>(members: &'a Vec<Member>, key: &str) -> (found: Option<&'a Document>)
    ensures
        match found {
            Some(value) => lookup(members_view(members@), key@) == Some(value@),
            None => lookup(members_view(members@), key@) is None,
        },
{
    let wanted = key.to_owned();
    let ghost views = members_view(members@);
    let mut i: usize = 0;
    while i < members.len()
        invariant
            i <= members.len(),
            wanted@ == key@,
            views == members_view(members@),
            forall|j: int| 0 <= j < i ==> (#[trigger] views[j]).key != key@,
        decreases members.len() - i,
    {
        if members[i].key == wanted {
            proof {
                assert(views[i as int] == members@[i as int]@);
                lemma_lookup_first(views, key@, i as int);
            }
            return Some(&members[i].value);
        }
        i = i + 1;
    }
    proof {
        lemma_lookup_absent(views, key@);
    }
    None
}

impl Member {
    pub open spec fn view(self) -> JsonMember
        decreases self,
    {
        JsonMember { key: self.key@, value: self.value.view() }
    }
}

impl Document {
    pub open spec fn view(self) -> Json
        decreases self,
    {
        match self {
            Document::Null => Json::Null,
            Document::Bool(b) => Json::Bool(b),
            Document::Integer(i) => Json::Integer(i as int),
            Document::Decimal(digits) => Json::Decimal(digits@),
            Document::Text(text) => Json::Text(text@),
            Document::Array(items) => Json::Array(
                Seq::new(
                    items@.len(),
                    |i: int|
                        if 0 <= i < items@.len() {
                            items@[i].view()
                        } else {
                            arbitrary()
                        },
                ),
            ),
            Document::Object(members) => Json::Object(
                Seq::new(
                    members@.len(),
                    |i: int|
                        if 0 <= i < members@.len() {
                            members@[i].view()
                        } else {
                            arbitrary()
                        },
                ),
            ),
        }
    }

    /// The value under `key`, if this is an object that has the key.
    pub fn get(&self, key: &str) -> (found: Option<&Document>)
        ensures
            match found {
                Some(value) => self@.get(key@) == Some(value@),
                None => self@.get(key@) is None,
            },
    {
        match self {
            Document::Object(members) => {
                assert(self@->Object_0 =~= members_view(members@));
                find(members, key)
            },
            _ => None,
        }
    }

    /// A copy of the document.
    pub fn duplicate(&self) -> (copy: Document)
        ensures
            copy@ == self@,
        decreases self,
    {
        match self {
            Document::Null => Document::Null,
            Document::Bool(b) => Document::Bool(*b),
            Document::Integer(i) => Document::Integer(*i),
            Document::Decimal(digits) => Document::Decimal(digits.clone()),
            Document::Text(text) => Document::Text(text.clone()),
            Document::Array(items) => {
                let mut out: Vec<Document> = Vec::new();
                let mut i: usize = 0;
                while i < items.len()
                    invariant
                        i <= items.len(),
                        out.len() == i,
                        forall|k: int| 0 <= k < i ==> out@[k]@ == items@[k]@,
                        decreases_to!(*self => *items),
                    decreases items.len() - i,
                {
                    proof {
                        vstd::std_specs::vec::axiom_vec_index_decreases(*items, i as int);
                    }
                    out.push(items[i].duplicate());
                    i = i + 1;
                }
                let copy = Document::Array(out);
                assert(copy@->Array_0 =~= self@->Array_0);
                copy
            },
            Document::Object(members) => {
                let mut out: Vec<Member> = Vec::new();
                let mut i: usize = 0;
                while i < members.len()
                    invariant
                        i <= members.len(),
                        out.len() == i,
                        forall|k: int| 0 <= k < i ==> out@[k]@ == members@[k]@,
                        decreases_to!(*self => *members),
                    decreases members.len() - i,
                {
                    proof {
                        vstd::std_specs::vec::axiom_vec_index_decreases(*members, i as int);
                    }
                    out.push(
                        Member { key: members[i].key.clone(), value: members[i].value.duplicate() },
                    );
                    i = i + 1;
                }
                let copy = Document::Object(out);
                assert(copy@->Object_0 =~= self@->Object_0);
                copy
            },
        }
    }

    /// Lays `upper` over `base`: the members of two objects are merged key by
    /// key, and in every other case `upper` stands.
    pub fn merge(upper: &Document, base: &Document) -> (out: Document)
        ensures
            out@ == merged(upper@, base@),
        decreases upper,
    {
        match (upper, base) {
            (Document::Object(above), Document::Object(below)) => {
                let ghost over = upper@->Object_0;
                let ghost under = base@->Object_0;
                let mut out: Vec<Member> = Vec::new();
                let mut i: usize = 0;
                while i < above.len()
                    invariant
                        i <= above.len(),
                        out.len() == i,
                        upper@ == Json::Object(over),
                        base@ == Json::Object(under),
                        over.len() == above@.len(),
                        forall|k: int| 0 <= k < above@.len() ==> over[k] == above@[k]@,
                        forall|k: int| 0 <= k < i ==> out@[k]@ == merged_member(over[k], under),
                        decreases_to!(*upper => *above),
                    decreases above.len() - i,
                {
                    proof {
                        vstd::std_specs::vec::axiom_vec_index_decreases(*above, i as int);
                        assert(over[i as int] == above@[i as int]@);
                    }
                    let value = match base.get(above[i].key.as_str()) {
                        Some(below_value) => Document::merge(&above[i].value, below_value),
                        None => above[i].value.duplicate(),
                    };
                    out.push(Member { key: above[i].key.clone(), value });
                    i = i + 1;
                }
                let ghost first = overlaid(over, under);
                let ghost absent = missing_from(over);
                let ghost mut kept: Seq<JsonMember> = Seq::empty();
                let mut j: usize = 0;
                proof {
                    reveal(Seq::filter);
                    assert(under.take(0).filter(absent) =~= Seq::empty());
                }
                while j < below.len()
                    invariant
                        j <= below.len(),
                        upper@ == Json::Object(over),
                        absent == missing_from(over),
                        under.len() == below@.len(),
                        first.len() == above@.len(),
                        forall|k: int| 0 <= k < below@.len() ==> under[k] == below@[k]@,
                        kept == under.take(j as int).filter(absent),
                        out.len() == first.len() + kept.len(),
                        forall|k: int| 0 <= k < first.len() ==> out@[k]@ == first[k],
                        forall|k: int| 0 <= k < kept.len() ==> out@[first.len() + k]@ == kept[k],
                    decreases below.len() - j,
                {
                    proof {
                        reveal(Seq::filter);
                        assert(under.take(j as int + 1).drop_last() =~= under.take(j as int));
                        assert(under.take(j as int + 1).last() == under[j as int]);
                        assert(under[j as int] == below@[j as int]@);
                        assert(absent(under[j as int]) == (upper@.get(below@[j as int].key@) is None));
                    }
                    if upper.get(below[j].key.as_str()).is_none() {
                        out.push(
                            Member { key: below[j].key.clone(), value: below[j].value.duplicate() },
                        );
                        proof {
                            kept = kept.push(under[j as int]);
                        }
                    }
                    j = j + 1;
                }
                let merged_document = Document::Object(out);
                proof {
                    assert(under.take(below@.len() as int) =~= under);
                    assert(merged_document@->Object_0 =~= first + under.filter(missing_from(over)));
                    assert(base@ == Json::Object(under));
                }
                merged_document
            },
            _ => upper.duplicate(),
        }
    }
}

} // verus!
