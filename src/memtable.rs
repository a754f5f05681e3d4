//! A key-value store held in memory, for tests and local runs.
use vstd::prelude::*;

use crate::errors::DynamoDbErrors;
use crate::item::{AttributeValue, ItemKey, RawAttributes};
use crate::store::{
    key_views, lemma_text_lt_total, lemma_text_lt_transitive, selected_in_order, sorted_by_sort_key, text_less, text_lt,
    apply_ops, exactly_selected, selected_at, images, selects, Contents, KeyValueStore,
    KeyV, Selection, SelectionV, WriteOp,
};

verus! {

/// One write: a key, and the item stored there (`None` once it is removed).
pub type LogEntry = (ItemKey<String>, Option<RawAttributes>);

/// What a log of writes leaves in the store.
pub open spec fn log_contents(s: Seq<LogEntry>) -> Contents
    decreases s.len(),
{
    if s.len() == 0 {
        Map::empty()
    } else {
        let prev = log_contents(s.drop_last());
        let e = s.last();
        match e.1 {
            Some(a) => prev.insert(e.0@, a@),
            None => prev.remove(e.0@),
        }
    }
}

/// No write after `j` goes to the key of write `j`.
#[verifier::opaque]
pub open spec fn last_write(s: Seq<LogEntry>, j: int) -> bool {
    forall|j2: int| j < j2 < s.len() ==> (#[trigger] s[j2]).0@ != s[j].0@
}

/// The write at `j` is the last one to its key and stores an item.
pub open spec fn live(s: Seq<LogEntry>, j: int) -> bool {
    &&& s[j].1 is Some
    &&& last_write(s, j)
}

/// The write at `j` is live and stores an item that `sel` selects.
pub open spec fn picked(s: Seq<LogEntry>, sel: SelectionV, j: int) -> bool {
    live(s, j) && selects(sel, s[j].0@, s[j].1->0@)
}

/// Item `i` of `got` is that of write `src[i]`, a picked write before `j`.
pub open spec fn picks_sound(
    s: Seq<LogEntry>,
    sel: SelectionV,
    got: Seq<crate::item::Image>,
    src: Seq<int>,
    j: int,
) -> bool {
    &&& src.len() == got.len()
    &&& forall|i: int|
        0 <= i < got.len() ==> 0 <= #[trigger] src[i] < j && picked(s, sel, src[i]) && got[i] == s[src[i]].1->0@
    &&& forall|i1: int, i2: int| 0 <= i1 < i2 < got.len() ==> src[i1] < src[i2]
}

/// Each picked write `j2` before `j` has its item at `pos[j2]` in `got`.
pub open spec fn picks_complete(
    s: Seq<LogEntry>,
    sel: SelectionV,
    got: Seq<crate::item::Image>,
    src: Seq<int>,
    pos: Seq<int>,
    j: int,
) -> bool {
    &&& pos.len() == j
    &&& forall|j2: int|
        0 <= j2 < j && picked(s, sel, j2) ==> 0 <= #[trigger] pos[j2] < got.len() && got[pos[j2]] == s[j2].1->0@
            && src[pos[j2]] == j2
}

proof fn lemma_picks_selected(s: Seq<LogEntry>, sel: SelectionV, got: Seq<crate::item::Image>, src: Seq<int>, pos: Seq<int>)
    requires
        picks_sound(s, sel, got, src, s.len() as int),
        picks_complete(s, sel, got, src, pos, s.len() as int),
    ensures
        selected_at(log_contents(s), sel, Seq::new(got.len(), |i: int| s[src[i]].0@), got),
{
    reveal(last_write);
    let c = log_contents(s);
    let keys = Seq::new(got.len(), |i: int| s[src[i]].0@);
    assert forall|i: int| 0 <= i < keys.len() implies c.contains_key(#[trigger] keys[i]) && selects(
        sel,
        keys[i],
        c[keys[i]],
    ) && got[i] == c[keys[i]] by {
        lemma_log_last(s, src[i]);
    }
    assert forall|i: int, j: int| 0 <= i < j < keys.len() implies keys[i] != keys[j] by {
        assert(src[i] < src[j]);
        assert(last_write(s, src[i]));
    }
    assert forall|k: KeyV| c.contains_key(k) && selects(sel, k, #[trigger] c[k]) implies keys.contains(k) by {
        lemma_log_live(s, k);
        let j2 = choose|j2: int| 0 <= j2 < s.len() && s[j2].0@ == k && live(s, j2);
        lemma_log_last(s, j2);
        assert(picked(s, sel, j2));
        let i = pos[j2];
        assert(keys[i] == k);
    }
    assert(selected_at(c, sel, keys, got));
}

proof fn lemma_log_suffix(s: Seq<LogEntry>, i: int, k: KeyV)
    requires
        0 <= i <= s.len(),
        forall|j: int| i <= j < s.len() ==> (#[trigger] s[j]).0@ != k,
    ensures
        log_contents(s).contains_key(k) == log_contents(s.subrange(0, i)).contains_key(k),
        log_contents(s).contains_key(k) ==> log_contents(s)[k] == log_contents(s.subrange(0, i))[k],
    decreases s.len(),
{
    if s.len() > i {
        assert(s.drop_last().subrange(0, i) =~= s.subrange(0, i));
        assert(s[s.len() - 1].0@ != k);
        lemma_log_suffix(s.drop_last(), i, k);
    } else {
        assert(s.subrange(0, i) =~= s);
    }
}

/// The last write to a key decides what the key holds.
proof fn lemma_log_last(s: Seq<LogEntry>, i: int)
    requires
        0 <= i < s.len(),
        last_write(s, i),
    ensures
        log_contents(s).contains_key(s[i].0@) == s[i].1 is Some,
        s[i].1 is Some ==> log_contents(s)[s[i].0@] == s[i].1->0@,
{
    reveal(last_write);
    lemma_log_suffix(s, i + 1, s[i].0@);
    assert(s.subrange(0, i + 1).drop_last() =~= s.subrange(0, i));
}

/// Every stored item comes from a live write.
proof fn lemma_log_live(s: Seq<LogEntry>, k: KeyV)
    requires
        log_contents(s).contains_key(k),
    ensures
        exists|j: int| 0 <= j < s.len() && s[j].0@ == k && live(s, j),
    decreases s.len(),
{
    reveal(last_write);
    let n = s.len() as int;
    if s[n - 1].0@ == k {
        assert(live(s, n - 1));
    } else {
        lemma_log_live(s.drop_last(), k);
        let j = choose|j: int|
            0 <= j < s.drop_last().len() && s.drop_last()[j].0@ == k && live(s.drop_last(), j);
        assert(s[j] == s.drop_last()[j]);
        assert forall|j2: int| j < j2 < s.len() implies (#[trigger] s[j2]).0@ != s[j].0@ by {
            if j2 < n - 1 {
                assert(s[j2] == s.drop_last()[j2]);
            }
        }
        assert(live(s, j));
    }
}

/// An in-memory store: a log of writes whose last write to each key decides
/// what the key holds.  It can be told to reject transactions, to exercise
/// what callers do when the store fails.
#[derive(Debug)]
pub struct MemTable {
    log: Vec<LogEntry>,
    reject_transactions: bool,
}

fn same_key(a: &ItemKey<String>, b: &ItemKey<String>) -> (r: bool)
    ensures
        r == (a@ == b@),
{
    a.partition == b.partition && a.sort == b.sort
}

fn starts_with(s: &String, prefix: &String) -> (r: bool)
    ensures
        r == prefix@.is_prefix_of(s@),
{
    let text = s.as_str();
    let start = prefix.as_str();
    let n = start.unicode_len();
    if n > text.unicode_len() {
        return false;
    }
    let mut i: usize = 0;
    while i < n
        invariant
            n == prefix@.len(),
            n <= s@.len(),
            text@ == s@,
            start@ == prefix@,
            i <= n,
            forall|j: int| 0 <= j < i ==> prefix@[j] == s@[j],
        decreases n - i,
    {
        if text.get_char(i) != start.get_char(i) {
            return false;
        }
        i += 1;
    }
    true
}

fn text_attr_is(img: &RawAttributes, name: &String, expected: &String) -> (r: bool)
    ensures
        r == (crate::item::string_attr(img@, name@) == Some(expected@)),
{
    match img.get(name.as_str()) {
        Some(AttributeValue::S(t)) => *t == *expected,
        _ => false,
    }
}

/// Some `j` has key `k` and item `it`.
pub open spec fn pair_among(keys: Seq<ItemKey<String>>, items: Seq<RawAttributes>, k: KeyV, it: crate::item::Image) -> bool {
    exists|j: int| 0 <= j < keys.len() && keys[j]@ == k && items[j]@ == it
}

/// Some entry of `keys` is `k`.
pub open spec fn key_among(keys: Seq<ItemKey<String>>, k: KeyV) -> bool {
    exists|a: int| 0 <= a < keys.len() && keys[a]@ == k
}

/// The results put in ascending order of their sort keys, which must differ.
fn sort_by_sort_key(keys: &Vec<ItemKey<String>>, items: &Vec<RawAttributes>) -> (r: (
    Vec<ItemKey<String>>,
    Vec<RawAttributes>,
))
    requires
        keys@.len() == items@.len(),
        forall|i: int, j: int| 0 <= i < j < keys@.len() ==> keys@[i]@.1 != keys@[j]@.1,
    ensures
        r.0@.len() == r.1@.len(),
        forall|a: int| 0 <= a < r.0@.len() ==> pair_among(keys@, items@, #[trigger] r.0@[a]@, r.1@[a]@),
        forall|j: int| 0 <= j < keys@.len() ==> key_among(r.0@, #[trigger] keys@[j]@),
        sorted_by_sort_key(key_views(r.0@)),
{
    let mut ok: Vec<ItemKey<String>> = Vec::new();
    let mut oi: Vec<RawAttributes> = Vec::new();
    let ghost mut from: Seq<int> = Seq::empty();
    let ghost mut to: Seq<int> = Seq::empty();
    let mut i: usize = 0;
    while i < keys.len()
        invariant
            keys@.len() == items@.len(),
            forall|x: int, y: int| 0 <= x < y < keys@.len() ==> keys@[x]@.1 != keys@[y]@.1,
            i <= keys@.len(),
            ok@.len() == i,
            oi@.len() == i,
            from.len() == i,
            to.len() == i,
            forall|a: int|
                0 <= a < i ==> 0 <= #[trigger] from[a] < i && ok@[a]@ == keys@[from[a]]@ && oi@[a]@
                    == items@[from[a]]@,
            forall|j: int| 0 <= j < i ==> 0 <= #[trigger] to[j] < i && ok@[to[j]]@ == keys@[j]@,
            forall|a: int, b: int| 0 <= a < b < i ==> text_lt(#[trigger] ok@[a]@.1, #[trigger] ok@[b]@.1),
        decreases keys@.len() - i,
    {
        let k = keys[i].clone();
        let it = items[i].clone();
        let mut p: usize = 0;
        while p < ok.len() && text_less(&ok[p].sort, &k.sort)
            invariant
                p <= ok@.len(),
                forall|a: int| 0 <= a < p ==> text_lt(#[trigger] ok@[a]@.1, k@.1),
            decreases ok@.len() - p,
        {
            p += 1;
        }
        let ghost pre = ok@;
        proof {
            if p < pre.len() {
                assert(from[p as int] != i);
                assert(pre[p as int]@.1 != k@.1);
                lemma_text_lt_total(pre[p as int]@.1, k@.1);
                assert forall|b: int| p <= b < pre.len() implies text_lt(k@.1, #[trigger] pre[b]@.1) by {
                    if b > p {
                        lemma_text_lt_transitive(k@.1, pre[p as int]@.1, pre[b]@.1);
                    }
                }
            }
        }
        ok.insert(p, k);
        oi.insert(p, it);
        proof {
            let pp = p as int;
            let ii = i as int;
            from = from.insert(pp, ii);
            let old_to = to;
            to = Seq::new((ii + 1) as nat, |j: int| if j == ii { pp } else if old_to[j] >= pp { old_to[j] + 1 } else { old_to[j] });
            assert forall|a: int, b: int| 0 <= a < b < ii + 1 implies text_lt(#[trigger] ok@[a]@.1, #[trigger] ok@[b]@.1) by {
                if a < pp && b == pp {
                } else if a == pp {
                    assert(ok@[b] == pre[b - 1]);
                } else if a < pp && b > pp {
                    assert(ok@[b] == pre[b - 1]);
                    lemma_text_lt_transitive(ok@[a]@.1, k@.1, ok@[b]@.1);
                } else if a > pp {
                    assert(ok@[a] == pre[a - 1] && ok@[b] == pre[b - 1]);
                } else {
                    assert(ok@[a] == pre[a] && ok@[b] == pre[b]);
                }
            }
            assert forall|a: int| 0 <= a < ii + 1 implies 0 <= #[trigger] from[a] < ii + 1 && ok@[a]@
                == keys@[from[a]]@ && oi@[a]@ == items@[from[a]]@ by {}
            assert forall|j: int| 0 <= j < ii + 1 implies 0 <= #[trigger] to[j] < ii + 1 && ok@[to[j]]@ == keys@[j]@ by {}
        }
        i += 1;
    }
    proof {
        let kv = key_views(ok@);
        assert forall|a: int, b: int| 0 <= a < b < kv.len() implies text_lt(#[trigger] kv[a].1, #[trigger] kv[b].1) by {
            assert(kv[a] == ok@[a]@ && kv[b] == ok@[b]@);
        }
        assert forall|a: int| 0 <= a < ok@.len() implies pair_among(keys@, items@, #[trigger] ok@[a]@, oi@[a]@) by {
            let j = from[a];
            assert(0 <= j < keys@.len() && ok@[a]@ == keys@[j]@ && oi@[a]@ == items@[j]@);
        }
        assert forall|j: int| 0 <= j < keys@.len() implies key_among(ok@, #[trigger] keys@[j]@) by {
            let a = to[j];
            assert(0 <= a < ok@.len() && ok@[a]@ == keys@[j]@);
        }
    }
    (ok, oi)
}

impl Selection {
    /// Whether the selection picks the item stored at `key`.
    pub fn accepts(&self, key: &ItemKey<String>, img: &RawAttributes) -> (r: bool)
        ensures
            r == selects(self@, key@, img@),
    {
        match self {
            Selection::Attributes { partition_name, partition, sort_name, sort } => {
                text_attr_is(img, partition_name, partition) && text_attr_is(img, sort_name, sort)
            },
            Selection::Partition { partition, sort_prefix } => {
                key.partition == *partition && starts_with(&key.sort, sort_prefix)
            },
            Selection::SortPrefix { sort_prefix } => starts_with(&key.sort, sort_prefix),
        }
    }
}

impl MemTable {
    pub fn new() -> (r: MemTable)
        ensures
            r.contents() == Map::<KeyV, crate::item::Image>::empty(),
            !r.rejects_transactions(),
            r.accepts_all(),
            r.serves_reads(),
    {
        MemTable { log: Vec::new(), reject_transactions: false }
    }



    /// From now on, reject (or accept again) every transaction.
    pub fn set_reject_transactions(&mut self, reject: bool)
        ensures
            final(self).contents() == old(self).contents(),
            final(self).rejects_transactions() == reject,
            final(self).accepts_all() == !reject,
            final(self).serves_reads(),
    {
        self.reject_transactions = reject;
    }

    /// What `key` holds.
    fn lookup(&self, key: &ItemKey<String>) -> (r: Option<RawAttributes>)
        ensures
            match r {
                Some(a) => self.contents().contains_key(key@) && a@ == self.contents()[key@],
                None => !self.contents().contains_key(key@),
            },
    {
        let ghost s = self.log@;
        let mut i: usize = self.log.len();
        while i > 0
            invariant
                i <= s.len(),
                s == self.log@,
                forall|j: int| i <= j < s.len() ==> (#[trigger] s[j]).0@ != key@,
            decreases i,
        {
            i -= 1;
            if same_key(&self.log[i].0, key) {
                proof {
                    reveal(last_write);
                    lemma_log_last(s, i as int);
                }
                return match &self.log[i].1 {
                    Some(a) => Some(a.clone()),
                    None => None,
                };
            }
        }
        proof {
            lemma_log_suffix(s, 0, key@);
        }
        None
    }

    /// Whether no later write goes to the key of write `j`.
    fn is_last_write(&self, j: usize) -> (r: bool)
        requires
            j < self.log@.len(),
        ensures
            r == last_write(self.log@, j as int),
    {
        let n = self.log.len();
        let mut i: usize = j + 1;
        while i < n
            invariant
                n == self.log@.len(),
                j < i <= self.log@.len(),
                forall|j2: int| j < j2 < i ==> (#[trigger] self.log@[j2]).0@ != self.log@[j as int].0@,
            decreases self.log@.len() - i,
        {
            if same_key(&self.log[i].0, &self.log[j].0) {
                proof {
                    reveal(last_write);
                    assert(self.log@[i as int].0@ == self.log@[j as int].0@);
                }
                return false;
            }
            i += 1;
        }
        proof {
            reveal(last_write);
        }
        true
    }

    fn append(&mut self, key: &ItemKey<String>, item: Option<RawAttributes>)
        ensures
            final(self).contents() == match item {
                Some(a) => old(self).contents().insert(key@, a@),
                None => old(self).contents().remove(key@),
            },
            final(self).rejects_transactions() == old(self).rejects_transactions(),
    {
        let ghost pre = self.log@;
        self.log.push((key.clone(), item));
        proof {
            assert(self.log@.drop_last() =~= pre);
        }
    }
}

impl KeyValueStore for MemTable {
    closed spec fn contents(&self) -> Contents {
        log_contents(self.log@)
    }

    closed spec fn accepts_all(&self) -> bool {
        !self.reject_transactions
    }

    closed spec fn serves_reads(&self) -> bool {
        true
    }

    closed spec fn rejects_transactions(&self) -> bool {
        self.reject_transactions
    }

    fn get(&self, key: &ItemKey<String>, consistent_read: bool) -> (r: Result<
        Option<RawAttributes>,
        DynamoDbErrors,
    >) {
        Ok(self.lookup(key))
    }

    fn put(&mut self, key: &ItemKey<String>, item: RawAttributes) -> (r: Result<(), DynamoDbErrors>) {
        self.append(key, Some(item));
        Ok(())
    }

    fn update(&mut self, key: &ItemKey<String>, created: &RawAttributes, sets: &RawAttributes) -> (r:
        Result<RawAttributes, DynamoDbErrors>) {
        let mut item = match self.lookup(key) {
            Some(a) => a,
            None => created.clone(),
        };
        item.merge(sets);
        let result = item.clone();
        self.append(key, Some(item));
        Ok(result)
    }

    fn delete(&mut self, key: &ItemKey<String>) -> (r: Result<Option<RawAttributes>, DynamoDbErrors>) {
        let previous = self.lookup(key);
        self.append(key, None);
        Ok(previous)
    }

    fn query(&self, sel: &Selection) -> (r: Result<Vec<RawAttributes>, DynamoDbErrors>) {
        let ghost s = self.log@;
        let mut out: Vec<RawAttributes> = Vec::new();
        let mut okeys: Vec<ItemKey<String>> = Vec::new();
        let ghost mut got: Seq<crate::item::Image> = Seq::empty();
        let ghost mut src: Seq<int> = Seq::empty();
        let ghost mut pos: Seq<int> = Seq::empty();
        let mut j: usize = 0;
        while j < self.log.len()
            invariant
                s == self.log@,
                j <= s.len(),
                images(out@) == got,
                okeys@.len() == got.len(),
                forall|i: int| 0 <= i < okeys@.len() ==> (#[trigger] okeys@[i])@ == s[src[i]].0@,
                picks_sound(s, sel@, got, src, j as int),
                picks_complete(s, sel@, got, src, pos, j as int),
            decreases s.len() - j,
        {
            let ghost jj = j as int;
            let ghost n = got.len() as int;
            let mut taken = false;
            match &self.log[j].1 {
                Some(a) => {
                    if self.is_last_write(j) && sel.accepts(&self.log[j].0, a) {
                        out.push(a.clone());
                        okeys.push(self.log[j].0.clone());
                        taken = true;
                        proof {
                            got = got.push(a@);
                            src = src.push(jj);
                            assert(images(out@) =~= got);
                        }
                    }
                },
                None => {},
            }
            proof {
                assert(taken == picked(s, sel@, jj));
                pos = pos.push(n);
                assert forall|i: int| 0 <= i < got.len() implies 0 <= #[trigger] src[i] < jj + 1 && picked(
                    s,
                    sel@,
                    src[i],
                ) && got[i] == s[src[i]].1->0@ by {}
                assert forall|j2: int| 0 <= j2 < jj + 1 && picked(s, sel@, j2) implies 0
                    <= #[trigger] pos[j2] < got.len() && got[pos[j2]] == s[j2].1->0@ && src[pos[j2]] == j2 by {}
                assert forall|i1: int, i2: int| 0 <= i1 < i2 < got.len() implies src[i1] < src[i2] by {}
            }
            j += 1;
        }
        let ghost c = self.contents();
        let ghost keys = Seq::new(got.len(), |i: int| s[src[i]].0@);
        proof {
            lemma_picks_selected(s, sel@, got, src, pos);
            assert(key_views(okeys@) =~= keys);
        }
        match sel {
            Selection::Partition { .. } => {
                proof {
                    assert forall|x: int, y: int| 0 <= x < y < okeys@.len() implies okeys@[x]@.1 != okeys@[y]@.1 by {
                        assert(keys[x] == okeys@[x]@ && keys[y] == okeys@[y]@);
                        assert(keys[x] != keys[y]);
                    }
                }
                let (sorted_keys, sorted) = sort_by_sort_key(&okeys, &out);
                proof {
                    let kv = key_views(sorted_keys@);
                    let items = images(sorted@);
                    assert forall|x: int| 0 <= x < kv.len() implies c.contains_key(#[trigger] kv[x]) && crate::store::selects(
                        sel@,
                        kv[x],
                        c[kv[x]],
                    ) && items[x] == c[kv[x]] by {
                        assert(pair_among(okeys@, out@, sorted_keys@[x]@, sorted@[x]@));
                        let j = choose|j: int| 0 <= j < okeys@.len() && okeys@[j]@ == sorted_keys@[x]@ && out@[j]@ == sorted@[x]@;
                        assert(keys[j] == okeys@[j]@);
                        assert(got[j] == out@[j]@);
                    }
                    assert forall|x: int, y: int| 0 <= x < y < kv.len() implies kv[x] != kv[y] by {
                        assert(text_lt(kv[x].1, kv[y].1));
                        crate::store::lemma_text_lt_irreflexive(kv[x].1);
                    }
                    assert forall|k: KeyV| c.contains_key(k) && crate::store::selects(sel@, k, #[trigger] c[k]) implies kv.contains(k) by {
                        assert(keys.contains(k));
                        let j = choose|j: int| 0 <= j < keys.len() && keys[j] == k;
                        assert(okeys@[j]@ == k);
                        assert(key_among(sorted_keys@, okeys@[j]@));
                        let x = choose|x: int| 0 <= x < sorted_keys@.len() && sorted_keys@[x]@ == okeys@[j]@;
                        assert(kv[x] == k);
                    }
                    assert(selected_at(c, sel@, kv, items));
                    assert(selected_in_order(c, sel@, items));
                }
                Ok(sorted)
            },
            _ => Ok(out),
        }
    }

    fn transact_write(&mut self, ops: Vec<WriteOp>) -> (r: Result<(), DynamoDbErrors>) {
        if self.reject_transactions {
            return Err(DynamoDbErrors::RequestFailure);
        }
        let ghost start = self.contents();
        let mut i: usize = 0;
        while i < ops.len()
            invariant
                i <= ops@.len(),
                !self.reject_transactions,
                self.contents() == apply_ops(start, ops@.subrange(0, i as int)),
            decreases ops@.len() - i,
        {
            proof {
                assert(ops@.subrange(0, i + 1).drop_last() =~= ops@.subrange(0, i as int));
            }
            match &ops[i] {
                WriteOp::Put(k, a) => self.append(k, Some(a.clone())),
                WriteOp::Delete(k) => self.append(k, None),
            }
            i += 1;
        }
        proof {
            assert(ops@.subrange(0, i as int) =~= ops@);
        }
        Ok(())
    }
}

} // verus!
