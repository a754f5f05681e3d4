//! Items ("todos"): stored in the partition of the list that owns them, or
//! in their own, and found by their own identifier through the projection.
use vstd::prelude::*;

use crate::config::{complete_attr, complete_name, config_wf, title_attr, title_name, ConfigV};
use crate::errors::{is_format_error, Errors};
use crate::id::{id_str, prefix_text, valid_id, IdView, ID};
use crate::item::{
    bool_attr, id_attr, string_attr, AttrV, AttributeValue, AttributesGetterExt, Image, ItemKey,
    RawAttributes,
};
use crate::store::{
    apply_ops, exactly_selected, images, lemma_selected_items, listed, selects, stored_and_selected, updated_image,
    Contents, KeyValueStore, KeyV, SelectionV, WriteOp,
};
use crate::table::{
    canonical_key, item_consistent, keys_canonical, ops_consistent, projection_invariant, secondary_selection, stamp,
    stamped, store_key,
    DynamoTable, Key,
};

verus! {

pub open spec fn todo_kind_text() -> Seq<char> {
    seq!['t', 'o', 'd', 'o']
}

/// The kind tag of items.
pub fn todo_kind() -> (r: &'static str)
    ensures
        r@ == todo_kind_text(),
{
    proof {
        reveal_strlit("todo");
    }
    "todo"
}

/// An item, owned by the list `list_id` or by nobody.
#[derive(Debug)]
pub struct Todo {
    pub id: ID,
    pub title: String,
    pub complete: bool,
    pub list_id: Option<ID>,
}

pub struct TodoV {
    pub id: IdView,
    pub title: Seq<char>,
    pub complete: bool,
    pub list_id: Option<IdView>,
}

pub open spec fn opt_view(o: Option<ID>) -> Option<IdView> {
    match o {
        Some(i) => Some(i@),
        None => None,
    }
}

impl View for Todo {
    type V = TodoV;

    open spec fn view(&self) -> TodoV {
        TodoV {
            id: self.id@,
            title: self.title@,
            complete: self.complete,
            list_id: opt_view(self.list_id),
        }
    }
}

pub fn clone_opt_id(o: &Option<ID>) -> (r: Option<ID>)
    ensures
        opt_view(r) == opt_view(*o),
{
    match o {
        Some(i) => Some(i.clone()),
        None => None,
    }
}

impl Clone for Todo {
    fn clone(&self) -> (r: Self)
        ensures
            r@ == self@,
    {
        Todo {
            id: self.id.clone(),
            title: self.title.clone(),
            complete: self.complete,
            list_id: clone_opt_id(&self.list_id),
        }
    }
}

/// The owner, or the item itself when it has none.
pub open spec fn owner_or_self(owner: Option<IdView>, id: IdView) -> IdView {
    match owner {
        Some(o) => o,
        None => id,
    }
}

/// Where an item is stored: under its owner (or itself), sorted by itself.
pub open spec fn todo_key_of(t: TodoV) -> (IdView, IdView) {
    (owner_or_self(t.list_id, t.id), t.id)
}

/// The entity attributes of an item.
pub open spec fn todo_attrs(t: TodoV) -> Image {
    Map::empty().insert(title_name(), AttrV::S(t.title)).insert(complete_name(), AttrV::Bool(t.complete))
}

/// What the table stores for an item.
pub open spec fn todo_image(cfg: ConfigV, t: TodoV) -> Image {
    stamped(cfg, store_key(todo_key_of(t)), todo_attrs(t))
}

/// The item that a stored item denotes at `key`: a partition other than the
/// item's own identifier is its owner.
pub open spec fn todo_from(key: (IdView, IdView), img: Image) -> Option<TodoV> {
    match (string_attr(img, title_name()), bool_attr(img, complete_name())) {
        (Some(title), Some(complete)) => Some(
            TodoV {
                id: key.1,
                title,
                complete,
                list_id: if key.0 != key.1 {
                    Some(key.0)
                } else {
                    None
                },
            },
        ),
        _ => None,
    }
}

/// The identifier key written in a stored item's key attributes.
pub open spec fn read_key(cfg: ConfigV, img: Image) -> Option<(IdView, IdView)> {
    match (id_attr(img, cfg.partition_key), id_attr(img, cfg.sort_key)) {
        (Some(p), Some(s)) => Some((p, s)),
        _ => None,
    }
}

/// The item a stored item denotes, read from its own key attributes.
pub open spec fn decode_todo(cfg: ConfigV, img: Image) -> Option<TodoV> {
    match read_key(cfg, img) {
        Some(key) => todo_from(key, img),
        None => None,
    }
}

/// The assignments that turn `old` into `new`: only the fields that changed.
pub open spec fn todo_diff(old: TodoV, new: TodoV) -> Image {
    let m = if old.title != new.title {
        Map::empty().insert(title_name(), AttrV::S(new.title))
    } else {
        Map::empty()
    };
    if old.complete != new.complete {
        m.insert(complete_name(), AttrV::Bool(new.complete))
    } else {
        m
    }
}

/// The item `old` becomes: its identifier, with the fields and owner of `new`.
pub open spec fn moved_todo(old: TodoV, new: TodoV) -> TodoV {
    TodoV { id: old.id, title: new.title, complete: new.complete, list_id: new.list_id }
}

/// Some stored item that the projection finds for `id` has key `key` and denotes `t`.
pub open spec fn found_todo(cfg: ConfigV, c: Contents, id: IdView, key: (IdView, IdView), t: TodoV) -> bool {
    exists|k: KeyV|
        #![trigger c[k]]
        c.contains_key(k) && selects(secondary_selection(cfg, id_str(id)), k, c[k]) && read_key(cfg, c[k])
            == Some(key) && todo_from(key, c[k]) == Some(t)
}

/// The projection finds no stored item for `id`.
pub open spec fn no_item_for(cfg: ConfigV, c: Contents, id: IdView) -> bool {
    forall|k: KeyV| c.contains_key(k) ==> !selects(secondary_selection(cfg, id_str(id)), k, #[trigger] c[k])
}

/// What an in-place update of the item at `key` from `old` to `new` leaves
/// (`c0` before, `c1` after) and gives back.
pub open spec fn inplace_outcome(
    cfg: ConfigV,
    c0: Contents,
    c1: Contents,
    key: (IdView, IdView),
    old: TodoV,
    new: TodoV,
    r: Result<(Key, Todo), Errors>,
) -> bool {
    let k = store_key(key);
    let sets = todo_diff(old, new);
    let new_item = updated_image(c0, k, stamp(cfg, k), sets);
    if sets == Map::<Seq<char>, AttrV>::empty() {
        &&& c1 == c0
        &&& r is Ok ==> c0.contains_key(k) && r->Ok_0.0@ == key && todo_from(key, c0[k]) == Some(r->Ok_0.1@)
    } else {
        &&& c1 == c0 || c1 == c0.insert(k, new_item)
        &&& r is Ok ==> c1 == c0.insert(k, new_item) && r->Ok_0.0@ == key && todo_from(key, new_item) == Some(
            r->Ok_0.1@,
        )
    }
}

/// What relocating the item at `old_key` to `new_key` as `moved` leaves and
/// gives back: both writes, or neither.
pub open spec fn relocation_outcome(
    cfg: ConfigV,
    c0: Contents,
    c1: Contents,
    old_key: (IdView, IdView),
    new_key: (IdView, IdView),
    moved: TodoV,
    r: Result<(Key, Todo), Errors>,
) -> bool {
    &&& c1 == if r is Ok {
        c0.remove(store_key(old_key)).insert(store_key(new_key), todo_image(cfg, moved))
    } else {
        c0
    }
    &&& r is Ok ==> r->Ok_0.0@ == new_key && r->Ok_0.1@ == moved
}

/// Some stored item that the projection finds for `id` names `key` in its key attributes.
pub open spec fn found_key(cfg: ConfigV, c: Contents, id: IdView, key: (IdView, IdView)) -> bool {
    exists|k: KeyV|
        #![trigger c[k]]
        c.contains_key(k) && selects(secondary_selection(cfg, id_str(id)), k, c[k]) && read_key(cfg, c[k])
            == Some(key)
}

/// The item at the key found for `id` denoted `t`, and is gone from `c1`.
pub open spec fn deleted_todo(cfg: ConfigV, c0: Contents, c1: Contents, id: IdView, t: TodoV) -> bool {
    exists|key: (IdView, IdView)|
        #![trigger store_key(key)]
        found_key(cfg, c0, id, key) && c0.contains_key(store_key(key)) && todo_from(key, c0[store_key(key)])
            == Some(t) && c1 == c0.remove(store_key(key))
}

/// `items` are what `sel` selects in `c`, and `v` what `decode` reads from each.
pub open spec fn listing(
    c: Contents,
    sel: SelectionV,
    decode: spec_fn(Image) -> Option<TodoV>,
    v: Seq<Todo>,
) -> bool {
    exists|imgs: Seq<Image>|
        #![trigger exactly_selected(c, sel, imgs)]
        exactly_selected(c, sel, imgs) && imgs.len() == v.len() && forall|i: int|
            0 <= i < imgs.len() ==> decode(#[trigger] imgs[i]) == Some(v[i]@)
}

/// `v` is what `decode` reads from the items `sel` picks in `c`, in
/// ascending order of their sort keys.
pub open spec fn ordered_listing(
    c: Contents,
    sel: SelectionV,
    decode: spec_fn(Image) -> Option<TodoV>,
    v: Seq<Todo>,
) -> bool {
    exists|imgs: Seq<Image>|
        #![trigger crate::store::selected_in_order(c, sel, imgs)]
        crate::store::selected_in_order(c, sel, imgs) && imgs.len() == v.len() && forall|i: int|
            0 <= i < imgs.len() ==> decode(#[trigger] imgs[i]) == Some(v[i]@)
}

/// The item a stored item of the list `owner` denotes.
pub open spec fn child_todo(cfg: ConfigV, owner: IdView, img: Image) -> Option<TodoV> {
    match (id_attr(img, cfg.gsi1_partition_key), string_attr(img, title_name()), bool_attr(img, complete_name())) {
        (Some(id), Some(title), Some(complete)) => Some(TodoV { id, title, complete, list_id: Some(owner) }),
        _ => None,
    }
}

/// No two stored items share a sort key, that is an identity.
pub open spec fn identities_unique(c: Contents) -> bool {
    forall|k1: KeyV, k2: KeyV| c.contains_key(k1) && c.contains_key(k2) && k1.1 == k2.1 ==> k1 == k2
}

/// The keys of the stored items that the projection finds for an identifier text.
pub open spec fn secondary_hits(cfg: ConfigV, c: Contents, own: Seq<char>) -> Set<KeyV> {
    Set::new(|k: KeyV| c.contains_key(k) && selects(secondary_selection(cfg, own), k, c[k]))
}

/// After storing `img` at `k` in place of every item with the identity of
/// `k`, the projection finds exactly that one item for the identity.
proof fn lemma_single_hit(cfg: ConfigV, c: Contents, c2: Contents, k: KeyV, img: Image)
    requires
        config_wf(cfg),
        projection_invariant(cfg, c),
        identities_unique(c),
        item_consistent(cfg, k, img),
        c2.contains_key(k),
        c2[k] == img,
        forall|k2: KeyV| #[trigger] c2.contains_key(k2) && k2 != k ==> c.contains_key(k2) && c2[k2] == c[k2] && k2.1 != k.1,
    ensures
        projection_invariant(cfg, c2),
        identities_unique(c2),
        secondary_hits(cfg, c2, k.1) == set![k],
{
    assert forall|k2: KeyV| c2.contains_key(k2) implies item_consistent(cfg, k2, #[trigger] c2[k2]) by {
        if k2 != k {
            assert(c.contains_key(k2));
        }
    }
    assert(secondary_hits(cfg, c2, k.1) =~= set![k]);
}

/// A lookup through the secondary index for an identity with one hit gives
/// back exactly one item, the one stored at that hit.
pub proof fn lemma_lookup_returns_one(cfg: ConfigV, c: Contents, own: Seq<char>, k: KeyV, items: Seq<Image>)
    requires
        secondary_hits(cfg, c, own) == set![k],
        exactly_selected(c, secondary_selection(cfg, own), items),
    ensures
        items.len() == 1,
        items[0] == c[k],
{
    let sel = secondary_selection(cfg, own);
    assert(secondary_hits(cfg, c, own).contains(k));
    assert forall|k2: KeyV| c.contains_key(k2) && selects(sel, k2, #[trigger] c[k2]) implies k2 == k by {
        assert(secondary_hits(cfg, c, own).contains(k2));
    }
    crate::store::lemma_one_selected(c, sel, items, k);
}

/// With one item per identity, every item the projection finds for `id`
/// has the same key and value.
pub proof fn lemma_found_item_unique(
    cfg: ConfigV,
    c: Contents,
    id: IdView,
    key1: (IdView, IdView),
    t1: TodoV,
    key2: (IdView, IdView),
    t2: TodoV,
)
    requires
        config_wf(cfg),
        projection_invariant(cfg, c),
        identities_unique(c),
        found_todo(cfg, c, id, key1, t1),
        found_todo(cfg, c, id, key2, t2),
    ensures
        key1 == key2,
        t1 == t2,
{
    let sel = secondary_selection(cfg, id_str(id));
    let k1 = choose|k: KeyV|
        #![trigger c[k]]
        c.contains_key(k) && selects(sel, k, c[k]) && read_key(cfg, c[k]) == Some(key1) && todo_from(key1, c[k])
            == Some(t1);
    let k2 = choose|k: KeyV|
        #![trigger c[k]]
        c.contains_key(k) && selects(sel, k, c[k]) && read_key(cfg, c[k]) == Some(key2) && todo_from(key2, c[k])
            == Some(t2);
    assert(item_consistent(cfg, k1, c[k1]));
    assert(item_consistent(cfg, k2, c[k2]));
    assert(k1 == k2);
}

/// Secondary projection after a create: an item stored with an identity that
/// no stored item has is, afterwards, the one item the projection finds for it.
pub proof fn lemma_created_found_by_identity(cfg: ConfigV, c: Contents, t: TodoV)
    requires
        config_wf(cfg),
        projection_invariant(cfg, c),
        identities_unique(c),
        forall|k: KeyV| c.contains_key(k) ==> k.1 != id_str(t.id),
    ensures
        ({
            let k = store_key(todo_key_of(t));
            let c2 = c.insert(k, todo_image(cfg, t));
            &&& projection_invariant(cfg, c2)
            &&& identities_unique(c2)
            &&& secondary_hits(cfg, c2, id_str(t.id)) == set![k]
            &&& c2[k] == todo_image(cfg, t)
        }),
{
    let k = store_key(todo_key_of(t));
    let c2 = c.insert(k, todo_image(cfg, t));
    crate::table::lemma_stamped_consistent(cfg, k, todo_attrs(t));
    assert forall|k2: KeyV| #[trigger] c2.contains_key(k2) && k2 != k implies c.contains_key(k2) && c2[k2]
        == c[k2] && k2.1 != k.1 by {}
    lemma_single_hit(cfg, c, c2, k, todo_image(cfg, t));
}

/// Secondary projection after an in-place update: an item rewritten at its
/// own key stays the one item the projection finds for its identity.
pub proof fn lemma_updated_found_by_identity(cfg: ConfigV, c: Contents, k: KeyV, sets: Image)
    requires
        config_wf(cfg),
        projection_invariant(cfg, c),
        identities_unique(c),
        c.contains_key(k),
        crate::table::touches_no_key(cfg, sets),
    ensures
        ({
            let img = updated_image(c, k, stamp(cfg, k), sets);
            let c2 = c.insert(k, img);
            &&& projection_invariant(cfg, c2)
            &&& identities_unique(c2)
            &&& secondary_hits(cfg, c2, k.1) == set![k]
            &&& c2[k] == img
        }),
{
    let img = updated_image(c, k, stamp(cfg, k), sets);
    let c2 = c.insert(k, img);
    let base = if c.contains_key(k) {
        c[k]
    } else {
        stamp(cfg, k)
    };
    crate::table::lemma_update_consistent(cfg, k, base, sets);
    assert forall|k2: KeyV| #[trigger] c2.contains_key(k2) && k2 != k implies c.contains_key(k2) && c2[k2]
        == c[k2] && k2.1 != k.1 by {
        if k2.1 == k.1 {
            assert(k2 == k);
        }
    }
    lemma_single_hit(cfg, c, c2, k, img);
}

/// Secondary projection after a move: the relocated item is the one item the
/// projection finds for its identity, under its new key.
pub proof fn lemma_moved_found_by_identity(
    cfg: ConfigV,
    c: Contents,
    old_key: (IdView, IdView),
    moved: TodoV,
)
    requires
        config_wf(cfg),
        projection_invariant(cfg, c),
        identities_unique(c),
        c.contains_key(store_key(old_key)),
        old_key.1 == moved.id,
    ensures
        ({
            let k = store_key(todo_key_of(moved));
            let c2 = c.remove(store_key(old_key)).insert(k, todo_image(cfg, moved));
            &&& projection_invariant(cfg, c2)
            &&& identities_unique(c2)
            &&& secondary_hits(cfg, c2, id_str(moved.id)) == set![k]
            &&& c2[k] == todo_image(cfg, moved)
            &&& !c2.contains_key(store_key(old_key)) || store_key(old_key) == k
        }),
{
    let k = store_key(todo_key_of(moved));
    let ko = store_key(old_key);
    let c2 = c.remove(ko).insert(k, todo_image(cfg, moved));
    crate::table::lemma_stamped_consistent(cfg, k, todo_attrs(moved));
    assert forall|k2: KeyV| #[trigger] c2.contains_key(k2) && k2 != k implies c.contains_key(k2) && c2[k2]
        == c[k2] && k2.1 != k.1 by {
        if k2.1 == k.1 {
            assert(k2 == ko);
        }
    }
    lemma_single_hit(cfg, c, c2, k, todo_image(cfg, moved));
}

/// Every stored item that the projection finds for `id` denotes an item.
pub open spec fn item_decodes(cfg: ConfigV, c: Contents, id: IdView) -> bool {
    forall|k: KeyV|
        c.contains_key(k) && selects(secondary_selection(cfg, id_str(id)), k, #[trigger] c[k]) ==> decode_todo(
            cfg,
            c[k],
        ) is Some
}

/// Every stored item that `sel` picks denotes something under `decode`.
pub open spec fn all_decode(c: Contents, sel: SelectionV, decode: spec_fn(Image) -> Option<TodoV>) -> bool {
    forall|k: KeyV| c.contains_key(k) && selects(sel, k, #[trigger] c[k]) ==> decode(c[k]) is Some
}

/// `key` is the key of a stored item the projection finds for `id`, and
/// whenever only one item has that identity, `key` denotes exactly the
/// identifiers its key texts were written from.
pub open spec fn key_found_at(cfg: ConfigV, c: Contents, id: IdView, key: (IdView, IdView)) -> bool {
    &&& c.contains_key(store_key(key))
    &&& selects(secondary_selection(cfg, id_str(id)), store_key(key), c[store_key(key)])
    &&& identities_unique(c) ==> forall|p: IdView, q: IdView|
        valid_id(p) && valid_id(q) && c.contains_key(#[trigger] store_key((p, q))) && selects(
            secondary_selection(cfg, id_str(id)),
            store_key((p, q)),
            c[store_key((p, q))],
        ) ==> key == (p, q)
}

/// Under the table's invariant, the key read back from a found item is the
/// key the item is stored at, given that reading key texts written from
/// valid identifiers gives those identifiers back.
proof fn lemma_found_at_key(cfg: ConfigV, c: Contents, id: IdView, k: KeyV, item: Image, key: (IdView, IdView))
    requires
        config_wf(cfg),
        projection_invariant(cfg, c),
        keys_canonical(c),
        c.contains_key(k),
        selects(secondary_selection(cfg, id_str(id)), k, c[k]),
        item == c[k],
        forall|p: IdView, q: IdView|
            valid_id(p) && valid_id(q) && string_attr(item, cfg.partition_key) == Some(#[trigger] id_str(p))
                && string_attr(item, cfg.sort_key) == Some(#[trigger] id_str(q)) ==> key == (p, q),
    ensures
        key_found_at(cfg, c, id, key),
        store_key(key) == k,
{
    let sel = secondary_selection(cfg, id_str(id));
    assert(item_consistent(cfg, k, c[k]));
    let (owner_id, own_id) = choose|p: IdView, q: IdView| valid_id(p) && valid_id(q) && k == store_key((p, q));
    assert(key == (owner_id, own_id));
    if identities_unique(c) {
        assert forall|p: IdView, q: IdView|
            valid_id(p) && valid_id(q) && c.contains_key(#[trigger] store_key((p, q))) && selects(
                sel,
                store_key((p, q)),
                c[store_key((p, q))],
            ) implies key == (p, q) by {
            let k2 = store_key((p, q));
            assert(item_consistent(cfg, k2, c[k2]));
            assert(k2.1 == k.1);
            assert(k2 == k);
        }
    }
}

/// Where an item is stored.
pub fn todo_key(todo: &Todo) -> (r: Key)
    ensures
        r@ == todo_key_of(todo@),
{
    let partition = match &todo.list_id {
        Some(l) => l.clone(),
        None => todo.id.clone(),
    };
    ItemKey { partition, sort: todo.id.clone() }
}

fn todo_attributes(todo: &Todo) -> (r: RawAttributes)
    ensures
        r@ == todo_attrs(todo@),
{
    let mut a = RawAttributes::new();
    a.insert(String::from_str(title_attr()), AttributeValue::S(todo.title.clone()));
    a.insert(String::from_str(complete_attr()), AttributeValue::Bool(todo.complete));
    a
}

/// The assignments that turn `old` into `new`.
pub fn todo_changes(old: &Todo, new: &Todo) -> (r: RawAttributes)
    ensures
        r@ == todo_diff(old@, new@),
{
    let mut a = RawAttributes::new();
    if old.title != new.title {
        a.insert(String::from_str(title_attr()), AttributeValue::S(new.title.clone()));
    }
    if old.complete != new.complete {
        a.insert(String::from_str(complete_attr()), AttributeValue::Bool(new.complete));
    }
    proof {
        assert(a@ =~= todo_diff(old@, new@));
    }
    a
}

/// The item a stored item denotes at `key`.
pub fn build_todo(key: &Key, item: &RawAttributes) -> (r: Result<Todo, Errors>)
    ensures
        match todo_from(key@, item@) {
            Some(t) => r is Ok && r->Ok_0@ == t,
            None => r is Err && is_format_error(r->Err_0),
        },
{
    let list_id = if !(key.partition == key.sort) {
        Some(key.partition.clone())
    } else {
        None
    };
    let title = match item.get_string(title_attr()) {
        Ok(t) => t,
        Err(e) => return Err(Errors::Database(e)),
    };
    let complete = match item.get_bool(complete_attr()) {
        Ok(c) => c,
        Err(e) => return Err(Errors::Database(e)),
    };
    Ok(Todo { id: key.sort.clone(), title, complete, list_id })
}

impl<S: KeyValueStore> DynamoTable<S> {
    /// Stores an item under its owner (or itself), with the projection set
    /// to its own identifier.
    pub fn put_todo(&mut self, todo: &Todo) -> (r: Result<bool, Errors>)
        ensures
            final(self).config == old(self).config,
            final(self).store.accepts_all() == old(self).store.accepts_all(),
            final(self).store.serves_reads() == old(self).store.serves_reads(),
            old(self).wf() ==> final(self).wf(),
            final(self).contents() == if r is Ok {
                old(self).contents().insert(store_key(todo_key_of(todo@)), todo_image(old(self).config@, todo@))
            } else {
                old(self).contents()
            },
            old(self).store.accepts_all() ==> r is Ok,
            r is Ok ==> r->Ok_0,
            r is Err ==> r->Err_0 is Database,
    {
        let key = todo_key(todo);
        match self.put_item(&key, todo_attributes(todo)) {
            Ok(()) => Ok(true),
            Err(e) => Err(Errors::Database(e)),
        }
    }

    /// Finds an item by its own identifier, wherever it is stored, and gives
    /// back its key and value.
    pub fn get_todo(&self, id: &ID) -> (r: Result<Option<(Key, Todo)>, Errors>)
        ensures
            match r {
                Ok(Some((key, todo))) => found_todo(self.config@, self.contents(), id@, key@, todo@),
                Ok(None) => no_item_for(self.config@, self.contents(), id@),
                Err(e) => e is Database,
            },
            self.store.serves_reads() && r is Err ==> is_format_error(r->Err_0),
            self.store.serves_reads() && item_decodes(self.config@, self.contents(), id@) ==> r is Ok,
            self.wf() ==> match r {
                Ok(Some((key, todo))) => key_found_at(self.config@, self.contents(), id@, key@) && todo_from(
                    key@,
                    self.contents()[store_key(key@)],
                ) == Some(todo@),
                _ => true,
            },
    {
        let gsi1_key = ItemKey { partition: id.clone(), sort: id.clone() };
        let mut items = match self.query_gsi1_get(&gsi1_key) {
            Ok(v) => v,
            Err(e) => return Err(Errors::Database(e)),
        };
        let ghost imgs = images(items@);
        let ghost c = self.contents();
        let ghost sel = secondary_selection(self.config@, id_str(id@));
        proof {
            lemma_selected_items(c, sel, imgs);
        }
        match items.pop() {
            Some(item) => {
                let ghost k = choose|k: KeyV| #![trigger c[k]] c.contains_key(k) && selects(sel, k, c[k]) && item@ == c[k];
                proof {
                    assert(imgs[imgs.len() - 1] == item@);
                    assert(stored_and_selected(c, sel, imgs[imgs.len() - 1]));
                }
                let key = match self.extract_key(&item) {
                    Ok(k) => k,
                    Err(e) => return Err(Errors::Database(e)),
                };
                let todo = build_todo(&key, &item)?;
                proof {
                    assert(c.contains_key(k) && selects(sel, k, c[k]) && read_key(self.config@, c[k]) == Some(key@)
                        && todo_from(key@, c[k]) == Some(todo@));
                    if self.wf() {
                        lemma_found_at_key(self.config@, c, id@, k, item@, key@);
                    }
                }
                Ok(Some((key, todo)))
            },
            None => {
                proof {
                    assert forall|k: KeyV| c.contains_key(k) implies !selects(sel, k, #[trigger] c[k]) by {
                        if selects(sel, k, c[k]) {
                            assert(listed(imgs, c[k]));
                        }
                    }
                }
                Ok(None)
            },
        }
    }

    /// Applies `new_todo` to the item `old_todo` stored at `old_key`.  When
    /// its owner stays, only the changed fields are written in place; when
    /// it changes, one transaction deletes the old key and writes the new one.
    pub fn update_todo(&mut self, old_key: Key, old_todo: Todo, new_todo: Todo) -> (r: Result<
        (Key, Todo),
        Errors,
    >)
        requires
            config_wf(old(self).config@),
        ensures
            (owner_or_self(new_todo@.list_id, old_todo@.id), old_todo@.id) != old_key@
                && old(self).store.rejects_transactions() ==> r is Err && final(self).contents() == old(self).contents(),
            final(self).config == old(self).config,
            final(self).store.accepts_all() == old(self).store.accepts_all(),
            final(self).store.serves_reads() == old(self).store.serves_reads(),
            old(self).wf() ==> final(self).wf(),
            ({
                let new_key = (owner_or_self(new_todo@.list_id, old_todo@.id), old_todo@.id);
                if new_key == old_key@ {
                    inplace_outcome(
                        old(self).config@,
                        old(self).contents(),
                        final(self).contents(),
                        old_key@,
                        old_todo@,
                        new_todo@,
                        r,
                    )
                } else {
                    relocation_outcome(
                        old(self).config@,
                        old(self).contents(),
                        final(self).contents(),
                        old_key@,
                        new_key,
                        moved_todo(old_todo@, new_todo@),
                        r,
                    )
                }
            }),
            r is Err ==> r->Err_0 is Database || r->Err_0 is NotFound,
            r is Err && r->Err_0 is NotFound ==> final(self).contents() == old(self).contents(),
            old(self).contents().contains_key(store_key(old_key@)) ==> !(r is Err && r->Err_0 is NotFound),
            (owner_or_self(new_todo@.list_id, old_todo@.id), old_todo@.id) != old_key@
                && old(self).store.accepts_all() ==> r is Ok,
            old(self).store.accepts_all() && old(self).store.serves_reads() && old(self).contents().contains_key(store_key(old_key@)) && todo_from(
                old_key@,
                old(self).contents()[store_key(old_key@)],
            ) is Some ==> r is Ok,
    {
        let new_key = ItemKey {
            partition: match &new_todo.list_id {
                Some(l) => l.clone(),
                None => old_todo.id.clone(),
            },
            sort: old_todo.id.clone(),
        };
        if new_key.partition == old_key.partition && new_key.sort == old_key.sort {
            self.update_todo_inplace(old_key, &old_todo, &new_todo)
        } else {
            let moved = Todo {
                id: old_todo.id.clone(),
                title: new_todo.title,
                complete: new_todo.complete,
                list_id: new_todo.list_id,
            };
            self.move_todo(&old_key, new_key, moved)
        }
    }

    /// Deletes the item with identifier `id`, wherever it is stored, and gives
    /// back what it was.
    pub fn delete_todo(&mut self, id: &ID) -> (r: Result<Option<Todo>, Errors>)
        ensures
            final(self).config == old(self).config,
            final(self).store.accepts_all() == old(self).store.accepts_all(),
            final(self).store.serves_reads() == old(self).store.serves_reads(),
            old(self).wf() ==> final(self).wf(),
            match r {
                Ok(Some(t)) => deleted_todo(
                    old(self).config@,
                    old(self).contents(),
                    final(self).contents(),
                    id@,
                    t@,
                ),
                Ok(None) => final(self).contents() == old(self).contents(),
                Err(e) => e is Database,
            },
            r is Err ==> final(self).contents() == old(self).contents() || exists|key: (IdView, IdView)|
                found_key(old(self).config@, old(self).contents(), id@, key) && final(self).contents()
                    == old(self).contents().remove(store_key(key)),
            old(self).wf() ==> match r {
                Ok(Some(t)) => exists|key: (IdView, IdView)|
                    key_found_at(old(self).config@, old(self).contents(), id@, key) && todo_from(
                        key,
                        old(self).contents()[store_key(key)],
                    ) == Some(t@) && final(self).contents() == old(self).contents().remove(store_key(key)),
                _ => true,
            },
            old(self).wf() && r is Ok && r->Ok_0 is None ==> no_item_for(old(self).config@, old(self).contents(), id@),
            old(self).store.accepts_all() && old(self).store.serves_reads() && old(self).wf() && item_decodes(
                old(self).config@,
                old(self).contents(),
                id@,
            ) ==> r is Ok,
    {
        let gsi1_key = ItemKey { partition: id.clone(), sort: id.clone() };
        let mut items = match self.query_gsi1_get(&gsi1_key) {
            Ok(v) => v,
            Err(e) => return Err(Errors::Database(e)),
        };
        let ghost imgs = images(items@);
        let ghost c = self.contents();
        let ghost sel = secondary_selection(self.config@, id_str(id@));
        proof {
            lemma_selected_items(c, sel, imgs);
        }
        match items.pop() {
            Some(item) => {
                let ghost k = choose|k: KeyV| #![trigger c[k]] c.contains_key(k) && selects(sel, k, c[k]) && item@ == c[k];
                proof {
                    assert(imgs[imgs.len() - 1] == item@);
                    assert(stored_and_selected(c, sel, imgs[imgs.len() - 1]));
                }
                let key = match self.extract_key(&item) {
                    Ok(k) => k,
                    Err(e) => return Err(Errors::Database(e)),
                };
                proof {
                    assert(c.contains_key(k) && selects(sel, k, c[k]) && read_key(self.config@, c[k]) == Some(key@));
                    assert(found_key(self.config@, c, id@, key@));
                    if self.wf() {
                        lemma_found_at_key(self.config@, c, id@, k, item@, key@);
                    }
                }
                match self.delete_item(&key) {
                    Ok(Some(previous)) => {
                        let todo = build_todo(&key, &previous)?;
                        proof {
                            assert(found_key(self.config@, c, id@, key@) && c.contains_key(store_key(key@))
                                && todo_from(key@, c[store_key(key@)]) == Some(todo@) && self.contents()
                                == c.remove(store_key(key@)));
                        }
                        Ok(Some(todo))
                    },
                    Ok(None) => {
                        proof {
                            assert(self.contents() =~= c);
                        }
                        Ok(None)
                    },
                    Err(e) => Err(Errors::Database(e)),
                }
            },
            None => {
                proof {
                    assert forall|k: KeyV| c.contains_key(k) implies !selects(sel, k, #[trigger] c[k]) by {
                        if selects(sel, k, c[k]) {
                            assert(listed(imgs, c[k]));
                        }
                    }
                }
                Ok(None)
            },
        }
    }

    /// The items that stored items denote, read from their own key attributes.
    pub fn decode_todos(&self, items: &Vec<RawAttributes>) -> (r: Result<Vec<Todo>, Errors>)
        ensures
            r is Ok <==> forall|i: int| 0 <= i < items@.len() ==> decode_todo(self.config@, #[trigger] items@[i]@) is Some,
            r is Ok ==> r->Ok_0@.len() == items@.len() && forall|i: int|
                0 <= i < items@.len() ==> decode_todo(self.config@, items@[i]@) == Some((#[trigger] r->Ok_0@[i])@),
            r is Err ==> is_format_error(r->Err_0),
    {
        let mut todos: Vec<Todo> = Vec::new();
        let mut i: usize = 0;
        while i < items.len()
            invariant
                i <= items@.len(),
                todos@.len() == i,
                forall|j: int| 0 <= j < i ==> decode_todo(self.config@, items@[j]@) == Some((#[trigger] todos@[j])@),
            decreases items@.len() - i,
        {
            let key = match self.extract_key(&items[i]) {
                Ok(k) => k,
                Err(e) => {
                    proof {
                        assert(decode_todo(self.config@, items@[i as int]@) is None);
                    }
                    return Err(Errors::Database(e));
                },
            };
            let todo = match build_todo(&key, &items[i]) {
                Ok(t) => t,
                Err(e) => {
                    proof {
                        assert(decode_todo(self.config@, items@[i as int]@) is None);
                    }
                    return Err(e);
                },
            };
            todos.push(todo);
            i += 1;
        }
        proof {
            assert forall|j: int| 0 <= j < items@.len() implies decode_todo(self.config@, #[trigger] items@[j]@) is Some by {
                assert(decode_todo(self.config@, items@[j]@) == Some(todos@[j]@));
            }
        }
        Ok(todos)
    }

    /// The items of the list `owner` that stored items denote.
    pub fn decode_children(&self, owner: &ID, items: &Vec<RawAttributes>) -> (r: Result<Vec<Todo>, Errors>)
        ensures
            r is Ok <==> forall|i: int| 0 <= i < items@.len() ==> child_todo(self.config@, owner@, #[trigger] items@[i]@) is Some,
            r is Ok ==> r->Ok_0@.len() == items@.len() && forall|i: int|
                0 <= i < items@.len() ==> child_todo(self.config@, owner@, items@[i]@) == Some((#[trigger] r->Ok_0@[i])@),
            r is Err ==> is_format_error(r->Err_0),
    {
        let mut todos: Vec<Todo> = Vec::new();
        let mut i: usize = 0;
        while i < items.len()
            invariant
                i <= items@.len(),
                todos@.len() == i,
                forall|j: int| 0 <= j < i ==> child_todo(self.config@, owner@, items@[j]@) == Some((#[trigger] todos@[j])@),
            decreases items@.len() - i,
        {
            let item = &items[i];
            let ghost bad = child_todo(self.config@, owner@, items@[i as int]@) is None;
            let todo_id = match item.get_id(self.config.gsi1_partition_key.as_str()) {
                Ok(t) => t,
                Err(e) => {
                    proof {
                        assert(bad);
                    }
                    return Err(Errors::Database(e));
                },
            };
            let title = match item.get_string(title_attr()) {
                Ok(t) => t,
                Err(e) => {
                    proof {
                        assert(bad);
                    }
                    return Err(Errors::Database(e));
                },
            };
            let complete = match item.get_bool(complete_attr()) {
                Ok(c) => c,
                Err(e) => {
                    proof {
                        assert(bad);
                    }
                    return Err(Errors::Database(e));
                },
            };
            todos.push(Todo { id: todo_id, title, complete, list_id: Some(owner.clone()) });
            i += 1;
        }
        proof {
            assert forall|j: int| 0 <= j < items@.len() implies child_todo(self.config@, owner@, #[trigger] items@[j]@) is Some by {
                assert(child_todo(self.config@, owner@, items@[j]@) == Some(todos@[j]@));
            }
        }
        Ok(todos)
    }

    /// Every item of every list, and every item of none.
    pub fn scan_todo(&self) -> (r: Result<Vec<Todo>, Errors>)
        ensures
            r is Ok ==> listing(
                self.contents(),
                SelectionV::SortPrefix { sort_prefix: prefix_text(todo_kind_text()) },
                |img: Image| decode_todo(self.config@, img),
                r->Ok_0@,
            ),
            r is Err ==> r->Err_0 is Database,
            self.store.serves_reads() && r is Err ==> is_format_error(r->Err_0),
            self.store.serves_reads() && all_decode(
                self.contents(),
                SelectionV::SortPrefix { sort_prefix: prefix_text(todo_kind_text()) },
                |img: Image| decode_todo(self.config@, img),
            ) ==> r is Ok,
    {
        let prefix = ID::prefix(todo_kind());
        let items = match self.scan(&prefix) {
            Ok(v) => v,
            Err(e) => return Err(Errors::Database(e)),
        };
        let ghost imgs = images(items@);
        let ghost sel = SelectionV::SortPrefix { sort_prefix: prefix_text(todo_kind_text()) };
        proof {
            lemma_selected_items(self.contents(), sel, imgs);
            assert forall|i: int| 0 <= i < items@.len() && all_decode(self.contents(), sel, |img: Image| decode_todo(self.config@, img))
                implies decode_todo(self.config@, #[trigger] items@[i]@) is Some by {
                assert(imgs[i] == items@[i]@);
                assert(stored_and_selected(self.contents(), sel, imgs[i]));
            }
        }
        let todos = self.decode_todos(&items)?;
        proof {
            assert(forall|j: int| 0 <= j < imgs.len() ==> (|img: Image| decode_todo(self.config@, img))(#[trigger] imgs[j]) == Some(todos@[j]@));
        }
        Ok(todos)
    }

    /// The items of the list `id`.
    pub fn get_todo_list_todos(&self, id: &ID) -> (r: Result<Vec<Todo>, Errors>)
        ensures
            r is Ok ==> listing(
                self.contents(),
                SelectionV::Partition { partition: id_str(id@), sort_prefix: prefix_text(todo_kind_text()) },
                |img: Image| child_todo(self.config@, id@, img),
                r->Ok_0@,
            ),
            r is Ok ==> ordered_listing(
                self.contents(),
                SelectionV::Partition { partition: id_str(id@), sort_prefix: prefix_text(todo_kind_text()) },
                |img: Image| child_todo(self.config@, id@, img),
                r->Ok_0@,
            ),
            r is Err ==> r->Err_0 is Database,
            self.store.serves_reads() && r is Err ==> is_format_error(r->Err_0),
            self.store.serves_reads() && all_decode(
                self.contents(),
                SelectionV::Partition { partition: id_str(id@), sort_prefix: prefix_text(todo_kind_text()) },
                |img: Image| child_todo(self.config@, id@, img),
            ) ==> r is Ok,
    {
        let prefix = ID::prefix(todo_kind());
        let items = match self.query_partition_by_prefix(id, &prefix) {
            Ok(v) => v,
            Err(e) => return Err(Errors::Database(e)),
        };
        let ghost imgs = images(items@);
        let ghost sel = SelectionV::Partition { partition: id_str(id@), sort_prefix: prefix_text(todo_kind_text()) };
        proof {
            lemma_selected_items(self.contents(), sel, imgs);
            assert forall|i: int| 0 <= i < items@.len() && all_decode(self.contents(), sel, |img: Image| child_todo(self.config@, id@, img))
                implies child_todo(self.config@, id@, #[trigger] items@[i]@) is Some by {
                assert(imgs[i] == items@[i]@);
                assert(stored_and_selected(self.contents(), sel, imgs[i]));
            }
        }
        let todos = self.decode_children(id, &items)?;
        proof {
            assert(forall|j: int| 0 <= j < imgs.len() ==> (|img: Image| child_todo(self.config@, id@, img))(#[trigger] imgs[j]) == Some(todos@[j]@));
        }
        Ok(todos)
    }

    fn update_todo_inplace(&mut self, key: Key, old_todo: &Todo, new_todo: &Todo) -> (r: Result<
        (Key, Todo),
        Errors,
    >)
        requires
            config_wf(old(self).config@),
        ensures
            final(self).config == old(self).config,
            final(self).store.accepts_all() == old(self).store.accepts_all(),
            final(self).store.serves_reads() == old(self).store.serves_reads(),
            old(self).wf() ==> final(self).wf(),
            inplace_outcome(
                old(self).config@,
                old(self).contents(),
                final(self).contents(),
                key@,
                old_todo@,
                new_todo@,
                r,
            ),
            r is Err ==> r->Err_0 is Database || r->Err_0 is NotFound,
            r is Err && r->Err_0 is NotFound ==> final(self).contents() == old(self).contents(),
            old(self).contents().contains_key(store_key(key@)) ==> !(r is Err && r->Err_0 is NotFound),
            old(self).store.accepts_all() && old(self).store.serves_reads() && old(self).contents().contains_key(store_key(key@)) && todo_from(
                key@,
                old(self).contents()[store_key(key@)],
            ) is Some ==> r is Ok,
    {
        let sets = todo_changes(old_todo, new_todo);
        match self.update_item(&key, &sets) {
            Ok(Some(item)) => {
                let todo = build_todo(&key, &item)?;
                Ok((key, todo))
            },
            Ok(None) => Err(Errors::NotFound),
            Err(e) => Err(Errors::Database(e)),
        }
    }

    fn move_todo(&mut self, old_key: &Key, new_key: Key, new_todo: Todo) -> (r: Result<
        (Key, Todo),
        Errors,
    >)
        requires
            config_wf(old(self).config@),
            new_key@ == todo_key_of(new_todo@),
        ensures
            old(self).store.rejects_transactions() ==> r is Err,
            final(self).config == old(self).config,
            final(self).store.accepts_all() == old(self).store.accepts_all(),
            final(self).store.serves_reads() == old(self).store.serves_reads(),
            old(self).wf() ==> final(self).wf(),
            relocation_outcome(
                old(self).config@,
                old(self).contents(),
                final(self).contents(),
                old_key@,
                new_key@,
                new_todo@,
                r,
            ),
            old(self).store.accepts_all() ==> r is Ok,
            r is Err ==> r->Err_0 is Database,
    {
        let delete = self.transact_delete(old_key);
        let put = self.transact_put(&new_key, todo_attributes(&new_todo));
        let mut ops: Vec<WriteOp> = Vec::new();
        ops.push(delete);
        ops.push(put);
        proof {
            reveal_with_fuel(apply_ops, 3);
            assert(ops@.drop_last().drop_last() =~= Seq::<WriteOp>::empty());
            crate::table::lemma_stamped_consistent(
                self.config@,
                store_key(new_key@),
                todo_attrs(new_todo@),
            );
            assert(ops_consistent(self.config@, ops@)) by {
                assert forall|i: int| 0 <= i < ops@.len() implies match #[trigger] ops@[i] {
                    WriteOp::Put(k, a) => crate::table::item_consistent(self.config@, k@, a@),
                    WriteOp::Delete(_) => true,
                } by {
                    if i == 1 {
                        assert(ops@[1] == put);
                    }
                }
            }
        }
        match self.transact_write(ops) {
            Ok(()) => Ok((new_key, new_todo)),
            Err(e) => Err(Errors::Database(e)),
        }
    }
}

} // verus!
