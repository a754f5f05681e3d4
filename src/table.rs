//! Key-shaped access to one table: composite keys of identifiers, the
//! secondary projection stamped on every write, and transactions.
use vstd::prelude::*;

use crate::config::{config_wf, ConfigV, DynamoDBConfig};
use crate::errors::DynamoDbErrors;
use crate::id::{id_str, valid_id, IdView, ID};
use crate::item::{id_attr, string_attr, AttrV, AttributeValue, AttributesGetterExt, Image, ItemKey, RawAttributes};
use crate::store::{
    apply_ops, exactly_selected, images, updated_image, Contents, KeyValueStore, KeyV,
    Selection, SelectionV, WriteOp,
};

verus! {

/// The composite key of an entity: its owner (or itself) and itself.
pub type Key = ItemKey<ID>;

/// The store key of an identifier key.
pub open spec fn store_key(k: (IdView, IdView)) -> KeyV {
    (id_str(k.0), id_str(k.1))
}

/// The key attributes of the item stored at `k`.
pub open spec fn key_image(cfg: ConfigV, k: KeyV) -> Image {
    Map::empty().insert(cfg.partition_key, AttrV::S(k.0)).insert(cfg.sort_key, AttrV::S(k.1))
}

/// The key attributes, and the secondary projection set to the item's own
/// identifier (its sort key).
pub open spec fn stamp(cfg: ConfigV, k: KeyV) -> Image {
    key_image(cfg, k).insert(cfg.gsi1_partition_key, AttrV::S(k.1)).insert(
        cfg.gsi1_sort_key,
        AttrV::S(k.1),
    )
}

/// What a write of `attrs` at `k` stores.
pub open spec fn stamped(cfg: ConfigV, k: KeyV, attrs: Image) -> Image {
    attrs.union_prefer_right(stamp(cfg, k))
}

/// The item at `k` carries its key, and its projection names its own identifier.
pub open spec fn item_consistent(cfg: ConfigV, k: KeyV, img: Image) -> bool {
    &&& string_attr(img, cfg.partition_key) == Some(k.0)
    &&& string_attr(img, cfg.sort_key) == Some(k.1)
    &&& string_attr(img, cfg.gsi1_partition_key) == Some(k.1)
    &&& string_attr(img, cfg.gsi1_sort_key) == Some(k.1)
}

/// Every stored item is consistent with its key.
pub open spec fn projection_invariant(cfg: ConfigV, c: Contents) -> bool {
    forall|k: KeyV| c.contains_key(k) ==> item_consistent(cfg, k, #[trigger] c[k])
}

/// Every stored key is the text of two valid identifiers.
pub open spec fn keys_canonical(c: Contents) -> bool {
    forall|k: KeyV|
        #[trigger] c.contains_key(k) ==> exists|p: IdView, q: IdView|
            valid_id(p) && valid_id(q) && k == store_key((p, q))
}

/// A write goes to the key of two valid identifiers.
pub open spec fn canonical_key(k: KeyV) -> bool {
    exists|p: IdView, q: IdView| valid_id(p) && valid_id(q) && k == store_key((p, q))
}

/// No attribute of `m` is a key attribute.
pub open spec fn touches_no_key(cfg: ConfigV, m: Image) -> bool {
    &&& !m.contains_key(cfg.partition_key)
    &&& !m.contains_key(cfg.sort_key)
    &&& !m.contains_key(cfg.gsi1_partition_key)
    &&& !m.contains_key(cfg.gsi1_sort_key)
}

/// The items the secondary index finds for an identifier text.
pub open spec fn secondary_selection(cfg: ConfigV, own: Seq<char>) -> SelectionV {
    SelectionV::Attributes {
        partition_name: cfg.gsi1_partition_key,
        partition: own,
        sort_name: cfg.gsi1_sort_key,
        sort: own,
    }
}

/// Each put of the writes stores an item consistent with its key.
pub open spec fn ops_consistent(cfg: ConfigV, ops: Seq<WriteOp>) -> bool {
    forall|i: int|
        0 <= i < ops.len() ==> match #[trigger] ops[i] {
            WriteOp::Put(k, a) => item_consistent(cfg, k@, a@) && canonical_key(k@),
            WriteOp::Delete(_) => true,
        }
}

pub proof fn lemma_stamped_consistent(cfg: ConfigV, k: KeyV, attrs: Image)
    requires
        config_wf(cfg),
    ensures
        item_consistent(cfg, k, stamped(cfg, k, attrs)),
{
}

pub proof fn lemma_update_consistent(cfg: ConfigV, k: KeyV, base: Image, sets: Image)
    requires
        config_wf(cfg),
        item_consistent(cfg, k, base),
        touches_no_key(cfg, sets),
    ensures
        item_consistent(cfg, k, base.union_prefer_right(sets)),
{
}

pub proof fn lemma_ops_keep_invariant(cfg: ConfigV, c: Contents, ops: Seq<WriteOp>)
    requires
        projection_invariant(cfg, c),
        keys_canonical(c),
        ops_consistent(cfg, ops),
    ensures
        projection_invariant(cfg, apply_ops(c, ops)),
        keys_canonical(apply_ops(c, ops)),
    decreases ops.len(),
{
    if ops.len() > 0 {
        assert(ops_consistent(cfg, ops.drop_last())) by {
            assert forall|i: int| 0 <= i < ops.drop_last().len() implies match #[trigger] ops.drop_last()[i] {
                WriteOp::Put(k, a) => item_consistent(cfg, k@, a@) && canonical_key(k@),
                WriteOp::Delete(_) => true,
            } by {
                assert(ops.drop_last()[i] == ops[i]);
            }
        }
        lemma_ops_keep_invariant(cfg, c, ops.drop_last());
        assert(match ops[ops.len() - 1] {
            WriteOp::Put(k, a) => item_consistent(cfg, k@, a@) && canonical_key(k@),
            WriteOp::Delete(_) => true,
        });
    }
}

/// A table: a store, and the names its items are written under.
pub struct DynamoTable<S> {
    pub store: S,
    pub config: DynamoDBConfig,
}

impl<S: KeyValueStore> DynamoTable<S> {
    pub open spec fn contents(&self) -> Contents {
        self.store.contents()
    }

    /// The configuration is usable, every stored item is consistent with its
    /// key, and every key is the text of two valid identifiers.
    pub open spec fn wf(&self) -> bool {
        config_wf(self.config@) && projection_invariant(self.config@, self.contents()) && keys_canonical(
            self.contents(),
        )
    }

    pub fn new(store: S, config: DynamoDBConfig) -> (r: DynamoTable<S>)
        ensures
            r.store == store,
            r.config == config,
    {
        DynamoTable { store, config }
    }

    /// The store key of `key`.
    pub fn store_key(key: &Key) -> (r: ItemKey<String>)
        ensures
            r@ == store_key(key@),
            canonical_key(r@),
            valid_id(key@.0) && valid_id(key@.1),
    {
        proof {
            use_type_invariant(&key.partition);
            use_type_invariant(&key.sort);
        }
        ItemKey { partition: key.partition.to_string(), sort: key.sort.to_string() }
    }

    /// The key attributes of `key`, under their configured names.
    pub fn build_key_attributes(&self, key: &Key) -> (r: RawAttributes)
        ensures
            r@ == key_image(self.config@, store_key(key@)),
    {
        let mut map = RawAttributes::new();
        map.insert(self.config.partition_key.clone(), AttributeValue::S(key.partition.to_string()));
        map.insert(self.config.sort_key.clone(), AttributeValue::S(key.sort.to_string()));
        map
    }

    fn stamp_attributes(&self, key: &ItemKey<String>, attributes: &mut RawAttributes)
        ensures
            final(attributes)@ == stamped(self.config@, key@, old(attributes)@),
    {
        let ghost pre = attributes@;
        attributes.insert(self.config.partition_key.clone(), AttributeValue::S(key.partition.clone()));
        attributes.insert(self.config.sort_key.clone(), AttributeValue::S(key.sort.clone()));
        attributes.insert(self.config.gsi1_partition_key.clone(), AttributeValue::S(key.sort.clone()));
        attributes.insert(self.config.gsi1_sort_key.clone(), AttributeValue::S(key.sort.clone()));
        proof {
            assert(attributes@ =~= stamped(self.config@, key@, pre));
        }
    }

    /// Reads the identifier key stored in an item's key attributes.
    pub fn extract_key(&self, attributes: &RawAttributes) -> (r: Result<Key, DynamoDbErrors>)
        ensures
            match (
                id_attr(attributes@, self.config.partition_key@),
                id_attr(attributes@, self.config.sort_key@),
            ) {
                (Some(p), Some(s)) => r is Ok && r->Ok_0@ == (p, s),
                _ => r is Err && r->Err_0 is UnexpectedDataFormat,
            },
            forall|p: IdView, q: IdView|
                valid_id(p) && valid_id(q) && string_attr(attributes@, self.config.partition_key@) == Some(
                    #[trigger] id_str(p),
                ) && string_attr(attributes@, self.config.sort_key@) == Some(#[trigger] id_str(q)) ==> r is Ok
                    && r->Ok_0@ == (p, q),
    {
        let partition = attributes.get_id(self.config.partition_key.as_str())?;
        let sort = attributes.get_id(self.config.sort_key.as_str())?;
        Ok(ItemKey { partition, sort })
    }

    /// Point read.
    pub fn get_item(&self, key: &Key, consistent_read: bool) -> (r: Result<
        Option<RawAttributes>,
        DynamoDbErrors,
    >)
        ensures
            self.store.serves_reads() ==> r is Ok,
            r is Ok ==> match r->Ok_0 {
                Some(a) => self.contents().contains_key(store_key(key@)) && a@ == self.contents()[store_key(
                    key@,
                )],
                None => !self.contents().contains_key(store_key(key@)),
            },
    {
        let k = Self::store_key(key);
        self.store.get(&k, consistent_read)
    }

    /// Upsert of the item at `key`, with its key attributes and its projection.
    pub fn put_item(&mut self, key: &Key, attributes: RawAttributes) -> (r: Result<(), DynamoDbErrors>)
        ensures
            old(self).store.accepts_all() ==> r is Ok,
            final(self).store.accepts_all() == old(self).store.accepts_all(),
            final(self).store.serves_reads() == old(self).store.serves_reads(),
            final(self).config == old(self).config,
            final(self).contents() == if r is Ok {
                old(self).contents().insert(
                    store_key(key@),
                    stamped(old(self).config@, store_key(key@), attributes@),
                )
            } else {
                old(self).contents()
            },
            old(self).wf() ==> final(self).wf(),
    {
        let k = Self::store_key(key);
        let mut item = attributes;
        self.stamp_attributes(&k, &mut item);
        proof {
            if config_wf(self.config@) {
                lemma_stamped_consistent(self.config@, k@, attributes@);
            }
        }
        self.store.put(&k, item)
    }

    /// Partial update.  With no assignment it only reads the item back;
    /// otherwise it sets the given attributes and gives back the new item.
    pub fn update_item(&mut self, key: &Key, sets: &RawAttributes) -> (r: Result<
        Option<RawAttributes>,
        DynamoDbErrors,
    >)
        requires
            touches_no_key(old(self).config@, sets@),
        ensures
            old(self).store.accepts_all() && (old(self).store.serves_reads() || sets@ != Map::<
                Seq<char>,
                AttrV,
            >::empty()) ==> r is Ok,
            final(self).store.accepts_all() == old(self).store.accepts_all(),
            final(self).store.serves_reads() == old(self).store.serves_reads(),
            final(self).config == old(self).config,
            old(self).wf() ==> final(self).wf(),
            sets@ == Map::<Seq<char>, AttrV>::empty() ==> {
                &&& final(self).contents() == old(self).contents()
                &&& r is Ok ==> match r->Ok_0 {
                    Some(a) => old(self).contents().contains_key(store_key(key@)) && a@ == old(
                        self,
                    ).contents()[store_key(key@)],
                    None => !old(self).contents().contains_key(store_key(key@)),
                }
            },
            sets@ != Map::<Seq<char>, AttrV>::empty() ==> {
                let k = store_key(key@);
                let new_item = updated_image(
                    old(self).contents(),
                    k,
                    stamp(old(self).config@, k),
                    sets@,
                );
                &&& final(self).contents() == if r is Ok {
                    old(self).contents().insert(k, new_item)
                } else {
                    old(self).contents()
                }
                &&& r is Ok ==> (r->Ok_0 matches Some(a) && a@ == new_item)
            },
    {
        if sets.is_empty() {
            return self.get_item(key, true);
        }
        let k = Self::store_key(key);
        let mut created = RawAttributes::new();
        self.stamp_attributes(&k, &mut created);
        proof {
            assert(created@ =~= stamp(self.config@, k@));
            if self.wf() {
                let c = self.contents();
                let base = if c.contains_key(k@) {
                    c[k@]
                } else {
                    created@
                };
                lemma_update_consistent(self.config@, k@, base, sets@);
            }
        }
        match self.store.update(&k, &created, sets) {
            Ok(a) => Ok(Some(a)),
            Err(e) => Err(e),
        }
    }

    /// Removal; gives back the item as it was.
    pub fn delete_item(&mut self, key: &Key) -> (r: Result<Option<RawAttributes>, DynamoDbErrors>)
        ensures
            old(self).store.accepts_all() ==> r is Ok,
            final(self).store.accepts_all() == old(self).store.accepts_all(),
            final(self).store.serves_reads() == old(self).store.serves_reads(),
            final(self).config == old(self).config,
            old(self).wf() ==> final(self).wf(),
            r is Ok ==> match r->Ok_0 {
                Some(a) => old(self).contents().contains_key(store_key(key@)) && a@ == old(
                    self,
                ).contents()[store_key(key@)],
                None => !old(self).contents().contains_key(store_key(key@)),
            },
            final(self).contents() == if r is Ok {
                old(self).contents().remove(store_key(key@))
            } else {
                old(self).contents()
            },
    {
        let k = Self::store_key(key);
        self.store.delete(&k)
    }

    /// Items whose secondary projection is `gsi1_key`, whatever their partition.
    pub fn query_gsi1_get(&self, gsi1_key: &Key) -> (r: Result<Vec<RawAttributes>, DynamoDbErrors>)
        ensures
            self.store.serves_reads() ==> r is Ok,
            r is Ok ==> exactly_selected(
                self.contents(),
                SelectionV::Attributes {
                    partition_name: self.config.gsi1_partition_key@,
                    partition: id_str(gsi1_key.partition@),
                    sort_name: self.config.gsi1_sort_key@,
                    sort: id_str(gsi1_key.sort@),
                },
                images(r->Ok_0@),
            ),
    {
        let sel = Selection::Attributes {
            partition_name: self.config.gsi1_partition_key.clone(),
            partition: gsi1_key.partition.to_string(),
            sort_name: self.config.gsi1_sort_key.clone(),
            sort: gsi1_key.sort.to_string(),
        };
        self.store.query(&sel)
    }

    /// Items of the partition `pkey` whose sort key starts with `skey_prefix`.
    pub fn query_partition_by_prefix(&self, pkey: &ID, skey_prefix: &String) -> (r: Result<
        Vec<RawAttributes>,
        DynamoDbErrors,
    >)
        ensures
            self.store.serves_reads() ==> r is Ok,
            r is Ok ==> exactly_selected(
                self.contents(),
                SelectionV::Partition { partition: id_str(pkey@), sort_prefix: skey_prefix@ },
                images(r->Ok_0@),
            ),
            r is Ok ==> crate::store::selected_in_order(
                self.contents(),
                SelectionV::Partition { partition: id_str(pkey@), sort_prefix: skey_prefix@ },
                images(r->Ok_0@),
            ),
    {
        let sel = Selection::Partition { partition: pkey.to_string(), sort_prefix: skey_prefix.clone() };
        self.store.query(&sel)
    }

    /// Items of every partition whose sort key starts with `skey_prefix`.
    pub fn scan(&self, skey_prefix: &String) -> (r: Result<Vec<RawAttributes>, DynamoDbErrors>)
        ensures
            self.store.serves_reads() ==> r is Ok,
            r is Ok ==> exactly_selected(
                self.contents(),
                SelectionV::SortPrefix { sort_prefix: skey_prefix@ },
                images(r->Ok_0@),
            ),
    {
        let sel = Selection::SortPrefix { sort_prefix: skey_prefix.clone() };
        self.store.query(&sel)
    }

    /// A put for a transaction, stamped as `put_item` stamps.
    pub fn transact_put(&self, key: &Key, attributes: RawAttributes) -> (r: WriteOp)
        ensures
            r matches WriteOp::Put(k, a) && k@ == store_key(key@) && a@ == stamped(
                self.config@,
                store_key(key@),
                attributes@,
            ) && canonical_key(k@),
    {
        let k = Self::store_key(key);
        let mut item = attributes;
        self.stamp_attributes(&k, &mut item);
        WriteOp::Put(k, item)
    }

    /// A delete for a transaction.
    pub fn transact_delete(&self, key: &Key) -> (r: WriteOp)
        ensures
            r matches WriteOp::Delete(k) && k@ == store_key(key@),
    {
        WriteOp::Delete(Self::store_key(key))
    }

    /// The writes as one unit: all take effect, or none.
    pub fn transact_write(&mut self, ops: Vec<WriteOp>) -> (r: Result<(), DynamoDbErrors>)
        requires
            ops_consistent(old(self).config@, ops@),
        ensures
            old(self).store.rejects_transactions() ==> r is Err,
            r is Err ==> r->Err_0 is RequestFailure,
            old(self).store.accepts_all() ==> r is Ok,
            final(self).store.accepts_all() == old(self).store.accepts_all(),
            final(self).store.serves_reads() == old(self).store.serves_reads(),
            final(self).config == old(self).config,
            old(self).wf() ==> final(self).wf(),
            final(self).contents() == if r is Ok {
                apply_ops(old(self).contents(), ops@)
            } else {
                old(self).contents()
            },
    {
        proof {
            if self.wf() {
                lemma_ops_keep_invariant(self.config@, self.contents(), ops@);
            }
        }
        self.store.transact_write(ops)
    }
}

} // verus!
