//! Lists ("todo lists"): each stored in its own partition, keyed by itself.
use vstd::prelude::*;

use crate::config::{config_wf, title_attr, title_name, ConfigV};
use crate::errors::{is_format_error, Errors};
use crate::id::{prefix_text, IdView, ID};
use crate::item::{id_attr, string_attr, AttrV, AttributeValue, AttributesGetterExt, Image, ItemKey, RawAttributes};
use crate::store::{
    exactly_selected, images, lemma_selected_items, stored_and_selected, updated_image, Contents, KeyValueStore, KeyV,
    SelectionV,
};
use crate::table::{stamp, stamped, store_key, DynamoTable, Key};

verus! {

pub open spec fn todo_list_kind_text() -> Seq<char> {
    seq!['t', 'o', 'd', 'o', '_', 'l', 'i', 's', 't']
}

/// The kind tag of lists.
pub fn todo_list_kind() -> (r: &'static str)
    ensures
        r@ == todo_list_kind_text(),
{
    proof {
        reveal_strlit("todo_list");
    }
    "todo_list"
}

/// A list of items.
#[derive(Debug)]
pub struct TodoList {
    pub id: ID,
    pub title: String,
}

pub struct TodoListV {
    pub id: IdView,
    pub title: Seq<char>,
}

impl View for TodoList {
    type V = TodoListV;

    open spec fn view(&self) -> TodoListV {
        TodoListV { id: self.id@, title: self.title@ }
    }
}

impl Clone for TodoList {
    fn clone(&self) -> (r: Self)
        ensures
            r@ == self@,
    {
        TodoList { id: self.id.clone(), title: self.title.clone() }
    }
}

/// A list is stored under its own identifier, twice.
pub open spec fn list_key(id: IdView) -> (IdView, IdView) {
    (id, id)
}

pub open spec fn list_attrs(title: Seq<char>) -> Image {
    Map::empty().insert(title_name(), AttrV::S(title))
}

/// What the table stores for a list.
pub open spec fn list_image(cfg: ConfigV, l: TodoListV) -> Image {
    stamped(cfg, store_key(list_key(l.id)), list_attrs(l.title))
}

/// The list with identifier `id` that a stored item denotes.
pub open spec fn list_from(id: IdView, img: Image) -> Option<TodoListV> {
    match string_attr(img, title_name()) {
        Some(title) => Some(TodoListV { id, title }),
        None => None,
    }
}

/// The list a stored item denotes, its identifier read from its partition key.
pub open spec fn decode_list(cfg: ConfigV, img: Image) -> Option<TodoListV> {
    match id_attr(img, cfg.partition_key) {
        Some(id) => list_from(id, img),
        None => None,
    }
}

/// `items` are what `sel` selects in `c`, and `v` the lists read from them.
pub open spec fn list_listing(cfg: ConfigV, c: Contents, sel: SelectionV, v: Seq<TodoList>) -> bool {
    exists|imgs: Seq<Image>|
        #![trigger exactly_selected(c, sel, imgs)]
        exactly_selected(c, sel, imgs) && imgs.len() == v.len() && forall|i: int|
            0 <= i < imgs.len() ==> decode_list(cfg, #[trigger] imgs[i]) == Some(v[i]@)
}

fn self_key(id: &ID) -> (r: Key)
    ensures
        r@ == list_key(id@),
{
    ItemKey { partition: id.clone(), sort: id.clone() }
}

fn title_attributes(title: &String) -> (r: RawAttributes)
    ensures
        r@ == list_attrs(title@),
{
    let mut a = RawAttributes::new();
    a.insert(String::from_str(title_attr()), AttributeValue::S(title.clone()));
    a
}

/// The list with identifier `id` that a stored item denotes.
pub fn build_todo_list(id: &ID, item: &RawAttributes) -> (r: Result<TodoList, Errors>)
    ensures
        match list_from(id@, item@) {
            Some(l) => r is Ok && r->Ok_0@ == l,
            None => r is Err && is_format_error(r->Err_0),
        },
{
    match item.get_string(title_attr()) {
        Ok(title) => Ok(TodoList { id: id.clone(), title }),
        Err(e) => Err(Errors::Database(e)),
    }
}

impl<S: KeyValueStore> DynamoTable<S> {
    /// Stores a list under its own identifier.
    pub fn put_todo_list(&mut self, todo_list: &TodoList) -> (r: Result<bool, Errors>)
        ensures
            final(self).config == old(self).config,
            final(self).store.accepts_all() == old(self).store.accepts_all(),
            final(self).store.serves_reads() == old(self).store.serves_reads(),
            old(self).wf() ==> final(self).wf(),
            final(self).contents() == if r is Ok {
                old(self).contents().insert(
                    store_key(list_key(todo_list@.id)),
                    list_image(old(self).config@, todo_list@),
                )
            } else {
                old(self).contents()
            },
            old(self).store.accepts_all() ==> r is Ok,
            r is Ok ==> r->Ok_0,
            r is Err ==> r->Err_0 is Database,
    {
        let key = self_key(&todo_list.id);
        match self.put_item(&key, title_attributes(&todo_list.title)) {
            Ok(()) => Ok(true),
            Err(e) => Err(Errors::Database(e)),
        }
    }

    /// The list with identifier `id`, if one is stored.
    pub fn get_todo_list(&self, id: &ID) -> (r: Result<Option<TodoList>, Errors>)
        ensures
            match r {
                Ok(Some(l)) => self.contents().contains_key(store_key(list_key(id@))) && list_from(
                    id@,
                    self.contents()[store_key(list_key(id@))],
                ) == Some(l@),
                Ok(None) => !self.contents().contains_key(store_key(list_key(id@))),
                Err(e) => e is Database,
            },
            self.store.serves_reads() && (self.contents().contains_key(store_key(list_key(id@))) ==> list_from(
                id@,
                self.contents()[store_key(list_key(id@))],
            ) is Some) ==> r is Ok,
    {
        let key = self_key(id);
        match self.get_item(&key, false) {
            Ok(Some(item)) => {
                let l = build_todo_list(id, &item)?;
                Ok(Some(l))
            },
            Ok(None) => Ok(None),
            Err(e) => Err(Errors::Database(e)),
        }
    }

    /// Sets the title of the list `id` and gives back the list as stored.
    pub fn update_todo_list(&mut self, id: &ID, new_title: String) -> (r: Result<TodoList, Errors>)
        requires
            config_wf(old(self).config@),
        ensures
            final(self).config == old(self).config,
            final(self).store.accepts_all() == old(self).store.accepts_all(),
            final(self).store.serves_reads() == old(self).store.serves_reads(),
            old(self).wf() ==> final(self).wf(),
            ({
                let k = store_key(list_key(id@));
                let new_item = updated_image(
                    old(self).contents(),
                    k,
                    stamp(old(self).config@, k),
                    list_attrs(new_title@),
                );
                &&& final(self).contents() == old(self).contents() || final(self).contents()
                    == old(self).contents().insert(k, new_item)
                &&& r is Ok ==> final(self).contents() == old(self).contents().insert(k, new_item)
                    && r->Ok_0@ == (TodoListV { id: id@, title: new_title@ })
            }),
            r is Err ==> r->Err_0 is Database,
            old(self).store.accepts_all() ==> r is Ok,
    {
        let key = self_key(id);
        let sets = title_attributes(&new_title);
        proof {
            assert(sets@.contains_key(title_name()));
        }
        match self.update_item(&key, &sets) {
            Ok(Some(item)) => build_todo_list(id, &item),
            Ok(None) => Err(Errors::Database(crate::errors::DynamoDbErrors::UnexpectedDataFormat(
                String::from_str("missing attributes"),
            ))),
            Err(e) => Err(Errors::Database(e)),
        }
    }

    /// Deletes the list `id` and gives back what it was.  Its items stay.
    pub fn delete_todo_list(&mut self, id: &ID) -> (r: Result<Option<TodoList>, Errors>)
        ensures
            final(self).config == old(self).config,
            final(self).store.accepts_all() == old(self).store.accepts_all(),
            final(self).store.serves_reads() == old(self).store.serves_reads(),
            old(self).wf() ==> final(self).wf(),
            ({
                let k = store_key(list_key(id@));
                &&& final(self).contents() == old(self).contents() || final(self).contents()
                    == old(self).contents().remove(k)
                &&& match r {
                    Ok(Some(l)) => old(self).contents().contains_key(k) && list_from(
                        id@,
                        old(self).contents()[k],
                    ) == Some(l@) && final(self).contents() == old(self).contents().remove(k),
                    Ok(None) => !old(self).contents().contains_key(k) && final(self).contents()
                        == old(self).contents().remove(k),
                    Err(e) => e is Database,
                }
            }),
            old(self).store.accepts_all() && (old(self).contents().contains_key(store_key(list_key(id@)))
                ==> list_from(id@, old(self).contents()[store_key(list_key(id@))]) is Some) ==> r is Ok,
    {
        let key = self_key(id);
        match self.delete_item(&key) {
            Ok(Some(item)) => {
                let l = build_todo_list(id, &item)?;
                Ok(Some(l))
            },
            Ok(None) => Ok(None),
            Err(e) => Err(Errors::Database(e)),
        }
    }

    /// The lists that stored items denote, each identified by its partition key.
    pub fn decode_todo_lists(&self, items: &Vec<RawAttributes>) -> (r: Result<Vec<TodoList>, Errors>)
        ensures
            r is Ok <==> forall|i: int| 0 <= i < items@.len() ==> decode_list(self.config@, #[trigger] items@[i]@) is Some,
            r is Ok ==> r->Ok_0@.len() == items@.len() && forall|i: int|
                0 <= i < items@.len() ==> decode_list(self.config@, items@[i]@) == Some((#[trigger] r->Ok_0@[i])@),
            r is Err ==> is_format_error(r->Err_0),
    {
        let mut lists: Vec<TodoList> = Vec::new();
        let mut i: usize = 0;
        while i < items.len()
            invariant
                i <= items@.len(),
                lists@.len() == i,
                forall|j: int| 0 <= j < i ==> decode_list(self.config@, items@[j]@) == Some((#[trigger] lists@[j])@),
            decreases items@.len() - i,
        {
            let item = &items[i];
            let id = match item.get_id(self.config.partition_key.as_str()) {
                Ok(t) => t,
                Err(e) => {
                    proof {
                        assert(decode_list(self.config@, items@[i as int]@) is None);
                    }
                    return Err(Errors::Database(e));
                },
            };
            let l = match build_todo_list(&id, item) {
                Ok(l) => l,
                Err(e) => {
                    proof {
                        assert(decode_list(self.config@, items@[i as int]@) is None);
                    }
                    return Err(e);
                },
            };
            lists.push(l);
            i += 1;
        }
        proof {
            assert forall|j: int| 0 <= j < items@.len() implies decode_list(self.config@, #[trigger] items@[j]@) is Some by {
                assert(decode_list(self.config@, items@[j]@) == Some(lists@[j]@));
            }
        }
        Ok(lists)
    }

    /// Every list.
    pub fn scan_todo_list(&self) -> (r: Result<Vec<TodoList>, Errors>)
        ensures
            r is Ok ==> list_listing(
                self.config@,
                self.contents(),
                SelectionV::SortPrefix { sort_prefix: prefix_text(todo_list_kind_text()) },
                r->Ok_0@,
            ),
            r is Err ==> r->Err_0 is Database,
            self.store.serves_reads() && r is Err ==> is_format_error(r->Err_0),
            self.store.serves_reads() && (forall|k: KeyV|
                self.contents().contains_key(k) && prefix_text(todo_list_kind_text()).is_prefix_of(k.1)
                    ==> decode_list(self.config@, #[trigger] self.contents()[k]) is Some) ==> r is Ok,
    {
        let prefix = ID::prefix(todo_list_kind());
        let items = match self.scan(&prefix) {
            Ok(v) => v,
            Err(e) => return Err(Errors::Database(e)),
        };
        let ghost imgs = images(items@);
        let ghost c = self.contents();
        let ghost sel = SelectionV::SortPrefix { sort_prefix: prefix_text(todo_list_kind_text()) };
        proof {
            lemma_selected_items(c, sel, imgs);
            if forall|k: KeyV| c.contains_key(k) && prefix_text(todo_list_kind_text()).is_prefix_of(k.1)
                ==> decode_list(self.config@, #[trigger] c[k]) is Some {
                assert forall|i: int| 0 <= i < items@.len() implies decode_list(self.config@, #[trigger] items@[i]@) is Some by {
                    assert(imgs[i] == items@[i]@);
                    assert(stored_and_selected(c, sel, imgs[i]));
                }
            }
        }
        let lists = self.decode_todo_lists(&items)?;
        proof {
            assert(forall|j: int| 0 <= j < imgs.len() ==> decode_list(self.config@, #[trigger] imgs[j]) == Some(lists@[j]@));
        }
        Ok(lists)
    }
}

} // verus!
