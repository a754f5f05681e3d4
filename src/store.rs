//! The operations the tables need from a key-value store, and an in-memory
//! store that provides them.
use vstd::prelude::*;
use vstd::string::*;

use crate::errors::DynamoDbErrors;
use crate::item::{string_attr, AttrV, Image, ItemKey, RawAttributes};

verus! {

/// A key as its partition text and its sort text.
pub type KeyV = (Seq<char>, Seq<char>);

/// What a store holds: the attributes of each item, by primary key.
pub type Contents = Map<KeyV, Image>;

/// One write of a transaction.
#[derive(Debug)]
pub enum WriteOp {
    /// Store an item at a key, replacing what was there.
    Put(ItemKey<String>, RawAttributes),
    /// Remove the item at a key.
    Delete(ItemKey<String>),
}

pub open spec fn apply_op(c: Contents, op: WriteOp) -> Contents {
    match op {
        WriteOp::Put(k, a) => c.insert(k@, a@),
        WriteOp::Delete(k) => c.remove(k@),
    }
}

/// The contents after the writes, in order.
pub open spec fn apply_ops(c: Contents, ops: Seq<WriteOp>) -> Contents
    decreases ops.len(),
{
    if ops.len() == 0 {
        c
    } else {
        apply_op(apply_ops(c, ops.drop_last()), ops.last())
    }
}

/// The item an update leaves: what was stored (or `created` when nothing
/// was), with the assignments of `sets` on top.
pub open spec fn updated_image(c: Contents, k: KeyV, created: Image, sets: Image) -> Image {
    (if c.contains_key(k) {
        c[k]
    } else {
        created
    }).union_prefer_right(sets)
}

/// Which items a query or a scan returns.
#[derive(Debug)]
pub enum Selection {
    /// Items whose two named attributes hold the given texts (the secondary index).
    Attributes { partition_name: String, partition: String, sort_name: String, sort: String },
    /// Items of one partition whose sort key starts with a prefix.
    Partition { partition: String, sort_prefix: String },
    /// Items of every partition whose sort key starts with a prefix.
    SortPrefix { sort_prefix: String },
}

pub enum SelectionV {
    Attributes { partition_name: Seq<char>, partition: Seq<char>, sort_name: Seq<char>, sort: Seq<char> },
    Partition { partition: Seq<char>, sort_prefix: Seq<char> },
    SortPrefix { sort_prefix: Seq<char> },
}

impl View for Selection {
    type V = SelectionV;

    open spec fn view(&self) -> SelectionV {
        match self {
            Selection::Attributes { partition_name, partition, sort_name, sort } => SelectionV::Attributes {
                partition_name: partition_name@,
                partition: partition@,
                sort_name: sort_name@,
                sort: sort@,
            },
            Selection::Partition { partition, sort_prefix } => SelectionV::Partition {
                partition: partition@,
                sort_prefix: sort_prefix@,
            },
            Selection::SortPrefix { sort_prefix } => SelectionV::SortPrefix { sort_prefix: sort_prefix@ },
        }
    }
}

pub open spec fn selects(sel: SelectionV, k: KeyV, img: Image) -> bool {
    match sel {
        SelectionV::Attributes { partition_name, partition, sort_name, sort } => string_attr(
            img,
            partition_name,
        ) == Some(partition) && string_attr(img, sort_name) == Some(sort),
        SelectionV::Partition { partition, sort_prefix } => k.0 == partition && sort_prefix.is_prefix_of(
            k.1,
        ),
        SelectionV::SortPrefix { sort_prefix } => sort_prefix.is_prefix_of(k.1),
    }
}

/// `img` is the item stored at some key of `c` that `sel` selects.
pub open spec fn stored_and_selected(c: Contents, sel: SelectionV, img: Image) -> bool {
    exists|k: KeyV| #![trigger c[k]] c.contains_key(k) && selects(sel, k, c[k]) && img == c[k]
}

/// `img` is one of `items`.
pub open spec fn listed(items: Seq<Image>, img: Image) -> bool {
    exists|i: int| #![trigger items[i]] 0 <= i < items.len() && items[i] == img
}

/// `items[i]` is the item at `keys[i]`; the keys are distinct keys of `c`
/// that `sel` selects, and every key that `sel` selects is among them.
pub open spec fn selected_at(c: Contents, sel: SelectionV, keys: Seq<KeyV>, items: Seq<Image>) -> bool {
    &&& keys.len() == items.len()
    &&& forall|i: int|
        0 <= i < keys.len() ==> c.contains_key(#[trigger] keys[i]) && selects(sel, keys[i], c[keys[i]])
            && items[i] == c[keys[i]]
    &&& forall|i: int, j: int| 0 <= i < j < keys.len() ==> keys[i] != keys[j]
    &&& forall|k: KeyV| c.contains_key(k) && selects(sel, k, #[trigger] c[k]) ==> keys.contains(k)
}

/// `items` are the items of `c` that `sel` selects, each exactly once.
pub open spec fn exactly_selected(c: Contents, sel: SelectionV, items: Seq<Image>) -> bool {
    exists|keys: Seq<KeyV>| selected_at(c, sel, keys, items)
}

/// Each item is one that `sel` selects, and each selected item is listed.
pub proof fn lemma_selected_items(c: Contents, sel: SelectionV, items: Seq<Image>)
    requires
        exactly_selected(c, sel, items),
    ensures
        forall|i: int| 0 <= i < items.len() ==> stored_and_selected(c, sel, #[trigger] items[i]),
        forall|k: KeyV| c.contains_key(k) && selects(sel, k, c[k]) ==> listed(items, #[trigger] c[k]),
{
    let keys = choose|keys: Seq<KeyV>| selected_at(c, sel, keys, items);
    assert forall|i: int| 0 <= i < items.len() implies stored_and_selected(c, sel, #[trigger] items[i]) by {
        let k = keys[i];
        assert(c.contains_key(k) && selects(sel, k, c[k]) && items[i] == c[k]);
    }
    assert forall|k: KeyV| c.contains_key(k) && selects(sel, k, c[k]) implies listed(items, #[trigger] c[k]) by {
        assert(keys.contains(k));
        let i = choose|i: int| 0 <= i < keys.len() && keys[i] == k;
        assert(items[i] == c[k]);
    }
}

/// When `sel` selects exactly the key `k`, the results are exactly the item at `k`.
pub proof fn lemma_one_selected(c: Contents, sel: SelectionV, items: Seq<Image>, k: KeyV)
    requires
        exactly_selected(c, sel, items),
        c.contains_key(k),
        selects(sel, k, c[k]),
        forall|k2: KeyV| c.contains_key(k2) && selects(sel, k2, #[trigger] c[k2]) ==> k2 == k,
    ensures
        items.len() == 1,
        items[0] == c[k],
{
    let keys = choose|keys: Seq<KeyV>| selected_at(c, sel, keys, items);
    assert(keys.contains(k));
    if keys.len() > 1 {
        assert(keys[0] == k);
        assert(keys[1] == k);
    }
    let i = choose|i: int| 0 <= i < keys.len() && keys[i] == k;
    assert(i == 0);
}

/// Text order: by the first differing character's code point, a proper
/// prefix first (the order of UTF-8 bytes, which the store sorts keys by).
pub open spec fn text_lt(a: Seq<char>, b: Seq<char>) -> bool
    decreases a.len(),
{
    if a.len() == 0 {
        b.len() > 0
    } else if b.len() == 0 {
        false
    } else if a[0] != b[0] {
        (a[0] as int) < (b[0] as int)
    } else {
        text_lt(a.drop_first(), b.drop_first())
    }
}

pub proof fn lemma_text_lt_irreflexive(a: Seq<char>)
    ensures
        !text_lt(a, a),
    decreases a.len(),
{
    if a.len() > 0 {
        lemma_text_lt_irreflexive(a.drop_first());
    }
}

/// Two different texts are ordered one way, and only one.
pub proof fn lemma_text_lt_total(a: Seq<char>, b: Seq<char>)
    requires
        a != b,
    ensures
        text_lt(a, b) != text_lt(b, a),
    decreases a.len(),
{
    if a.len() > 0 && b.len() > 0 {
        if a[0] == b[0] {
            assert(a =~= seq![a[0]] + a.drop_first());
            assert(b =~= seq![b[0]] + b.drop_first());
            assert(a.drop_first() != b.drop_first());
            lemma_text_lt_total(a.drop_first(), b.drop_first());
        } else {
            assert((a[0] as int) != (b[0] as int));
        }
    } else if a.len() == 0 && b.len() == 0 {
        assert(a =~= b);
    }
}

pub proof fn lemma_text_lt_transitive(a: Seq<char>, b: Seq<char>, c: Seq<char>)
    requires
        text_lt(a, b),
        text_lt(b, c),
    ensures
        text_lt(a, c),
    decreases a.len(),
{
    if a.len() > 0 && b.len() > 0 && c.len() > 0 && a[0] == b[0] && b[0] == c[0] {
        lemma_text_lt_transitive(a.drop_first(), b.drop_first(), c.drop_first());
    }
}

/// The keys go up strictly in the order of their sort texts.
pub open spec fn sorted_by_sort_key(keys: Seq<KeyV>) -> bool {
    forall|i: int, j: int| 0 <= i < j < keys.len() ==> text_lt(#[trigger] keys[i].1, #[trigger] keys[j].1)
}

/// `items` are the items that `sel` selects, each once, in ascending order of sort key.
pub open spec fn selected_in_order(c: Contents, sel: SelectionV, items: Seq<Image>) -> bool {
    exists|keys: Seq<KeyV>| selected_at(c, sel, keys, items) && sorted_by_sort_key(keys)
}

pub open spec fn key_views(ks: Seq<ItemKey<String>>) -> Seq<KeyV> {
    ks.map_values(|k: ItemKey<String>| k@)
}

/// Whether `a` comes before `b` in text order.
pub fn text_less(a: &String, b: &String) -> (r: bool)
    ensures
        r == text_lt(a@, b@),
{
    let x = a.as_str();
    let y = b.as_str();
    let n = x.unicode_len();
    let m = y.unicode_len();
    let mut i: usize = 0;
    proof {
        assert(a@.subrange(0, n as int) =~= a@);
        assert(b@.subrange(0, m as int) =~= b@);
    }
    while i < n && i < m
        invariant
            x@ == a@,
            y@ == b@,
            n == a@.len(),
            m == b@.len(),
            i <= n,
            i <= m,
            text_lt(a@, b@) == text_lt(a@.subrange(i as int, n as int), b@.subrange(i as int, m as int)),
        decreases n - i,
    {
        let p = x.get_char(i);
        let q = y.get_char(i);
        proof {
            let sa = a@.subrange(i as int, n as int);
            let sb = b@.subrange(i as int, m as int);
            assert(sa[0] == p && sb[0] == q);
            assert(sa.drop_first() =~= a@.subrange(i + 1, n as int));
            assert(sb.drop_first() =~= b@.subrange(i + 1, m as int));
        }
        if p != q {
            return (p as u32) < (q as u32);
        }
        i += 1;
    }
    m > i
}

pub open spec fn images(v: Seq<RawAttributes>) -> Seq<Image> {
    v.map_values(|a: RawAttributes| a@)
}

/// The primitives of a key-value store with one secondary index and
/// all-or-nothing transactions.  A failed request changes nothing.
pub trait KeyValueStore {
    /// What the store holds.  An implementation that keeps this default
    /// cannot meet the write contracts once a write succeeds, so it cannot be
    /// verified; the default is for stores outside this crate (such as one
    /// reached over the network), which nothing here holds to the contracts.
    closed spec fn contents(&self) -> Contents {
        vstd::pervasive::arbitrary()
    }

    /// The store takes every request; a store that may refuse one keeps
    /// this default.
    closed spec fn accepts_all(&self) -> bool {
        false
    }

    /// The store refuses every transaction; a store that may take one keeps
    /// this default.
    closed spec fn rejects_transactions(&self) -> bool {
        false
    }

    /// The store answers every read; a store that may fail one keeps this
    /// default.
    closed spec fn serves_reads(&self) -> bool {
        false
    }

    /// Point read.
    fn get(&self, key: &ItemKey<String>, consistent_read: bool) -> (r: Result<
        Option<RawAttributes>,
        DynamoDbErrors,
    >)
        ensures
            self.serves_reads() ==> r is Ok,
            r is Ok ==> match r->Ok_0 {
                Some(a) => self.contents().contains_key(key@) && a@ == self.contents()[key@],
                None => !self.contents().contains_key(key@),
            },
    ;

    /// Unconditional upsert of a whole item.
    fn put(&mut self, key: &ItemKey<String>, item: RawAttributes) -> (r: Result<(), DynamoDbErrors>)
        ensures
            old(self).accepts_all() ==> r is Ok,
            final(self).accepts_all() == old(self).accepts_all(),
            final(self).serves_reads() == old(self).serves_reads(),
            final(self).contents() == if r is Ok {
                old(self).contents().insert(key@, item@)
            } else {
                old(self).contents()
            },
    ;

    /// Partial update with at least one assignment; gives back the new item.
    fn update(&mut self, key: &ItemKey<String>, created: &RawAttributes, sets: &RawAttributes) -> (r:
        Result<RawAttributes, DynamoDbErrors>)
        requires
            sets@ != Map::<Seq<char>, AttrV>::empty(),
        ensures
            old(self).accepts_all() ==> r is Ok,
            final(self).accepts_all() == old(self).accepts_all(),
            final(self).serves_reads() == old(self).serves_reads(),
            r is Ok ==> r->Ok_0@ == updated_image(old(self).contents(), key@, created@, sets@),
            final(self).contents() == if r is Ok {
                old(self).contents().insert(
                    key@,
                    updated_image(old(self).contents(), key@, created@, sets@),
                )
            } else {
                old(self).contents()
            },
    ;

    /// Removal; gives back the item as it was.
    fn delete(&mut self, key: &ItemKey<String>) -> (r: Result<Option<RawAttributes>, DynamoDbErrors>)
        ensures
            old(self).accepts_all() ==> r is Ok,
            final(self).accepts_all() == old(self).accepts_all(),
            final(self).serves_reads() == old(self).serves_reads(),
            r is Ok ==> match r->Ok_0 {
                Some(a) => old(self).contents().contains_key(key@) && a@ == old(self).contents()[key@],
                None => !old(self).contents().contains_key(key@),
            },
            final(self).contents() == if r is Ok {
                old(self).contents().remove(key@)
            } else {
                old(self).contents()
            },
    ;

    /// Every item the selection picks, all pages drained.
    fn query(&self, sel: &Selection) -> (r: Result<Vec<RawAttributes>, DynamoDbErrors>)
        ensures
            self.serves_reads() ==> r is Ok,
            r is Ok ==> exactly_selected(self.contents(), sel@, images(r->Ok_0@)),
            r is Ok && sel@ is Partition ==> selected_in_order(self.contents(), sel@, images(r->Ok_0@)),
    ;

    /// The writes as one unit: all of them take effect, or none.
    fn transact_write(&mut self, ops: Vec<WriteOp>) -> (r: Result<(), DynamoDbErrors>)
        ensures
            old(self).rejects_transactions() ==> r is Err,
            r is Err ==> r->Err_0 is RequestFailure,
            old(self).accepts_all() ==> r is Ok,
            final(self).accepts_all() == old(self).accepts_all(),
            final(self).serves_reads() == old(self).serves_reads(),
            final(self).contents() == if r is Ok {
                apply_ops(old(self).contents(), ops@)
            } else {
                old(self).contents()
            },
    ;
}

} // verus!
