//! Stored attribute maps, composite keys, and typed reads of attributes.
use vstd::prelude::*;

use crate::errors::DynamoDbErrors;
use crate::id::{id_str, no_separator, parse_spec, IdView, ID};

verus! {

/// A stored attribute value.
#[derive(Debug)]
pub enum AttributeValue {
    S(String),
    Bool(bool),
}

/// The value of an attribute, as text or as a boolean.
pub enum AttrV {
    S(Seq<char>),
    Bool(bool),
}

impl View for AttributeValue {
    type V = AttrV;

    open spec fn view(&self) -> AttrV {
        match self {
            AttributeValue::S(s) => AttrV::S(s@),
            AttributeValue::Bool(b) => AttrV::Bool(*b),
        }
    }
}

impl Clone for AttributeValue {
    fn clone(&self) -> (r: Self)
        ensures
            r@ == self@,
    {
        match self {
            AttributeValue::S(s) => AttributeValue::S(s.clone()),
            AttributeValue::Bool(b) => AttributeValue::Bool(*b),
        }
    }
}

/// The attributes of a stored item, by name.
pub type Image = Map<Seq<char>, AttrV>;

/// The map that a list of assignments denotes: a later assignment to a name
/// replaces an earlier one.
pub open spec fn entries_map(s: Seq<(String, AttributeValue)>) -> Image
    decreases s.len(),
{
    if s.len() == 0 {
        Map::empty()
    } else {
        entries_map(s.drop_last()).insert(s.last().0@, s.last().1@)
    }
}

/// A suffix that never names `k` leaves what `k` maps to unchanged.
pub proof fn lemma_entries_suffix(s: Seq<(String, AttributeValue)>, i: int, k: Seq<char>)
    requires
        0 <= i <= s.len(),
        forall|j: int| i <= j < s.len() ==> (#[trigger] s[j]).0@ != k,
    ensures
        entries_map(s).contains_key(k) == entries_map(s.subrange(0, i)).contains_key(k),
        entries_map(s).contains_key(k) ==> entries_map(s)[k] == entries_map(s.subrange(0, i))[k],
    decreases s.len(),
{
    if s.len() > i {
        assert(s.drop_last().subrange(0, i) =~= s.subrange(0, i));
        assert(s[s.len() - 1].0@ != k);
        lemma_entries_suffix(s.drop_last(), i, k);
    } else {
        assert(s.subrange(0, i) =~= s);
    }
}

/// Attributes of an item, in the order they were assigned.
#[derive(Debug)]
pub struct RawAttributes {
    entries: Vec<(String, AttributeValue)>,
}

impl View for RawAttributes {
    type V = Image;

    closed spec fn view(&self) -> Image {
        entries_map(self.entries@)
    }
}

impl RawAttributes {
    pub fn new() -> (r: RawAttributes)
        ensures
            r@ == Map::<Seq<char>, AttrV>::empty(),
    {
        RawAttributes { entries: Vec::new() }
    }

    /// Sets `name` to `value`.
    pub fn insert(&mut self, name: String, value: AttributeValue)
        ensures
            final(self)@ == old(self)@.insert(name@, value@),
    {
        let ghost pre = self.entries@;
        self.entries.push((name, value));
        proof {
            assert(self.entries@.drop_last() =~= pre);
        }
    }

    /// The value of `name`, if it is set.
    pub fn get(&self, name: &str) -> (r: Option<&AttributeValue>)
        ensures
            match r {
                Some(v) => self@.contains_key(name@) && v@ == self@[name@],
                None => !self@.contains_key(name@),
            },
    {
        let key = String::from_str(name);
        let ghost s = self.entries@;
        let mut i: usize = self.entries.len();
        while i > 0
            invariant
                i <= s.len(),
                s == self.entries@,
                key@ == name@,
                forall|j: int| i <= j < s.len() ==> (#[trigger] s[j]).0@ != name@,
            decreases i,
        {
            i -= 1;
            if self.entries[i].0 == key {
                proof {
                    lemma_entries_suffix(s, i + 1, name@);
                    assert(s.subrange(0, i + 1).drop_last() =~= s.subrange(0, i as int));
                }
                return Some(&self.entries[i].1);
            }
        }
        proof {
            lemma_entries_suffix(s, 0, name@);
        }
        None
    }

    pub fn is_empty(&self) -> (r: bool)
        ensures
            r == (self@ == Map::<Seq<char>, AttrV>::empty()),
    {
        proof {
            let s = self.entries@;
            if s.len() > 0 {
                assert(entries_map(s).contains_key(s.last().0@));
            }
        }
        self.entries.len() == 0
    }

    /// Sets every attribute of `other` on `self`.
    pub fn merge(&mut self, other: &RawAttributes)
        ensures
            final(self)@ == old(self)@.union_prefer_right(other@),
    {
        let ghost base = self@;
        let mut i: usize = 0;
        while i < other.entries.len()
            invariant
                i <= other.entries@.len(),
                self@ == base.union_prefer_right(entries_map(other.entries@.subrange(0, i as int))),
            decreases other.entries@.len() - i,
        {
            let name = other.entries[i].0.clone();
            let value = other.entries[i].1.clone();
            self.insert(name, value);
            proof {
                let t = other.entries@.subrange(0, i + 1);
                assert(t.drop_last() =~= other.entries@.subrange(0, i as int));
                assert(self@ =~= base.union_prefer_right(entries_map(t)));
            }
            i += 1;
        }
        proof {
            assert(other.entries@.subrange(0, i as int) =~= other.entries@);
        }
    }

    /// The assignments, in order; a later one for a name replaces an earlier one.
    pub fn entries(&self) -> &Vec<(String, AttributeValue)> {
        &self.entries
    }
}

impl Clone for RawAttributes {
    fn clone(&self) -> (r: Self)
        ensures
            r@ == self@,
    {
        let mut out: Vec<(String, AttributeValue)> = Vec::new();
        let mut i: usize = 0;
        while i < self.entries.len()
            invariant
                i <= self.entries@.len(),
                out@.len() == i,
                forall|j: int|
                    0 <= j < i ==> (#[trigger] out@[j]).0@ == self.entries@[j].0@ && out@[j].1@
                        == self.entries@[j].1@,
            decreases self.entries@.len() - i,
        {
            let name = self.entries[i].0.clone();
            let value = self.entries[i].1.clone();
            out.push((name, value));
            i += 1;
        }
        proof {
            lemma_entries_same_views(out@, self.entries@);
        }
        RawAttributes { entries: out }
    }
}

/// Two assignment lists with equal names and values denote the same map.
pub proof fn lemma_entries_same_views(a: Seq<(String, AttributeValue)>, b: Seq<(String, AttributeValue)>)
    requires
        a.len() == b.len(),
        forall|j: int| 0 <= j < a.len() ==> (#[trigger] a[j]).0@ == b[j].0@ && a[j].1@ == b[j].1@,
    ensures
        entries_map(a) == entries_map(b),
    decreases a.len(),
{
    if a.len() > 0 {
        lemma_entries_same_views(a.drop_last(), b.drop_last());
    }
}

/// The text stored under `k`, if `k` holds text.
pub open spec fn string_attr(m: Image, k: Seq<char>) -> Option<Seq<char>> {
    if m.contains_key(k) {
        match m[k] {
            AttrV::S(s) => Some(s),
            AttrV::Bool(_) => None,
        }
    } else {
        None
    }
}

/// The boolean stored under `k`, if `k` holds a boolean.
pub open spec fn bool_attr(m: Image, k: Seq<char>) -> Option<bool> {
    if m.contains_key(k) {
        match m[k] {
            AttrV::Bool(b) => Some(b),
            AttrV::S(_) => None,
        }
    } else {
        None
    }
}

/// The identifier stored as text under `k`, if there is one.
pub open spec fn id_attr(m: Image, k: Seq<char>) -> Option<IdView> {
    match string_attr(m, k) {
        Some(s) => parse_spec(s),
        None => None,
    }
}

/// Typed reads of the attributes of a stored item.
pub trait AttributesGetterExt {
    spec fn attrs(&self) -> Image;

    fn get_id(&self, key: &str) -> (r: Result<ID, DynamoDbErrors>)
        ensures
            match id_attr(self.attrs(), key@) {
                Some(id) => r is Ok && r->Ok_0@ == id,
                None => r is Err && r->Err_0 is UnexpectedDataFormat,
            },
            forall|id: IdView|
                no_separator(id.kind) && string_attr(self.attrs(), key@) == Some(#[trigger] id_str(id))
                    ==> r is Ok && r->Ok_0@ == id,
    ;

    fn get_string(&self, key: &str) -> (r: Result<String, DynamoDbErrors>)
        ensures
            match string_attr(self.attrs(), key@) {
                Some(s) => r is Ok && r->Ok_0@ == s,
                None => r is Err && r->Err_0 is UnexpectedDataFormat,
            },
    ;

    fn get_bool(&self, key: &str) -> (r: Result<bool, DynamoDbErrors>)
        ensures
            match bool_attr(self.attrs(), key@) {
                Some(b) => r == Ok::<bool, DynamoDbErrors>(b),
                None => r is Err && r->Err_0 is UnexpectedDataFormat,
            },
    ;
}

fn format_error(message: &str) -> (r: DynamoDbErrors)
    ensures
        r is UnexpectedDataFormat,
{
    DynamoDbErrors::UnexpectedDataFormat(String::from_str(message))
}

impl AttributesGetterExt for RawAttributes {
    open spec fn attrs(&self) -> Image {
        self@
    }

    fn get_id(&self, key: &str) -> (r: Result<ID, DynamoDbErrors>) {
        let text = self.get_string(key)?;
        match ID::from_string(text.as_str()) {
            Ok(id) => Ok(id),
            Err(_) => Err(format_error("could not parse an ID")),
        }
    }

    fn get_string(&self, key: &str) -> (r: Result<String, DynamoDbErrors>) {
        match self.get(key) {
            Some(AttributeValue::S(s)) => Ok(s.clone()),
            Some(AttributeValue::Bool(_)) => Err(format_error("expected a string")),
            None => Err(format_error("missing key")),
        }
    }

    fn get_bool(&self, key: &str) -> (r: Result<bool, DynamoDbErrors>) {
        match self.get(key) {
            Some(AttributeValue::Bool(b)) => Ok(*b),
            Some(AttributeValue::S(_)) => Err(format_error("expected a bool")),
            None => Err(format_error("missing key")),
        }
    }
}

/// A composite primary key: the partition groups items, the sort key orders
/// them inside a partition.
#[derive(Debug)]
pub struct ItemKey<K> {
    pub partition: K,
    pub sort: K,
}

impl<K: View> View for ItemKey<K> {
    type V = (K::V, K::V);

    open spec fn view(&self) -> (K::V, K::V) {
        (self.partition@, self.sort@)
    }
}

impl Clone for ItemKey<ID> {
    fn clone(&self) -> (r: Self)
        ensures
            r == *self,
    {
        ItemKey { partition: self.partition.clone(), sort: self.sort.clone() }
    }
}

impl Clone for ItemKey<String> {
    fn clone(&self) -> (r: Self)
        ensures
            r == *self,
    {
        ItemKey { partition: self.partition.clone(), sort: self.sort.clone() }
    }
}

} // verus!
