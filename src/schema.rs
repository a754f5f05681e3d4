//! The requests the service answers: queries and mutations of items and
//! lists, each checking the kind of the identifiers it is given.
use vstd::prelude::*;

use crate::config::{config_wf, ConfigV};
use crate::errors::{check_id_kind, Errors};
use crate::id::{IdView, ID};
use crate::store::{updated_image, Contents, KeyValueStore};
use crate::table::{stamp, store_key, DynamoTable, Key};
use crate::todo::{
    all_decode, found_todo, item_decodes, moved_todo, no_item_for, opt_view, owner_or_self, todo_diff,
    todo_image, todo_key_of, todo_kind, todo_kind_text, Todo, TodoV,
};
use crate::todo_list::{
    list_from, list_image, list_key, todo_list_kind, todo_list_kind_text, TodoList, TodoListV,
};

verus! {

/// Links a new item to a list.
#[derive(Debug)]
pub struct TodoRelationTodoListLinkInput {
    pub link: ID,
}

/// Fields of a new item.
#[derive(Debug)]
pub struct TodoCreateInput {
    pub title: String,
    pub complete: Option<bool>,
    pub list: Option<TodoRelationTodoListLinkInput>,
}

/// A change of an item's owner: link it to a list, or unlink it from the
/// list it is linked to.
#[derive(Debug)]
pub enum TodoRelationTodoListUpdateInput {
    Link(ID),
    Unlink(ID),
}

/// Changes to an item; absent fields stay as they are.
#[derive(Debug)]
pub struct TodoUpdateInput {
    pub id: ID,
    pub title: Option<String>,
    pub list: Option<TodoRelationTodoListUpdateInput>,
    pub complete: Option<bool>,
}

/// Fields of a new list.
#[derive(Debug)]
pub struct TodoListInputCreate {
    pub title: String,
}

/// Changes to a list; an absent title stays as it is.
#[derive(Debug)]
pub struct TodoListInputUpdate {
    pub id: ID,
    pub title: Option<String>,
}

/// The owner an item gets from a relation change, given the key it is
/// stored at: unlinking names the list it is stored under, or is refused.
pub open spec fn resolved_owner(
    key: (IdView, IdView),
    current: Option<IdView>,
    relation: Option<TodoRelationTodoListUpdateInput>,
) -> Option<Option<IdView>> {
    match relation {
        None => Some(current),
        Some(TodoRelationTodoListUpdateInput::Link(l)) => Some(Some(l@)),
        Some(TodoRelationTodoListUpdateInput::Unlink(u)) => if key.0 == u@ {
            Some(None)
        } else {
            None
        },
    }
}

/// The item a request makes of the item `t` stored at `key`, when its
/// relation change is accepted.
pub open spec fn requested_todo(key: (IdView, IdView), t: TodoV, input: TodoUpdateInput) -> TodoV {
    TodoV {
        id: t.id,
        title: match input.title {
            Some(title) => title@,
            None => t.title,
        },
        complete: match input.complete {
            Some(c) => c,
            None => t.complete,
        },
        list_id: resolved_owner(key, t.list_id, input.list)->0,
    }
}

/// What applying `n` to the item `t` stored at `key` leaves (`c0` before,
/// `c1` after) and gives back: written in place when the key stays, moved
/// by one transaction when it changes.
pub open spec fn applied_update(
    cfg: ConfigV,
    c0: Contents,
    c1: Contents,
    key: (IdView, IdView),
    t: TodoV,
    n: TodoV,
    res: TodoV,
) -> bool {
    let new_key = (owner_or_self(n.list_id, t.id), t.id);
    let k = store_key(key);
    if new_key == key {
        &&& c1 == c0.insert(k, updated_image(c0, k, stamp(cfg, k), todo_diff(t, n)))
        &&& res.id == t.id && res.title == n.title && res.complete == n.complete
        &&& owner_or_self(res.list_id, res.id) == key.0
    } else {
        &&& c1 == c0.remove(k).insert(store_key(new_key), todo_image(cfg, moved_todo(t, n)))
        &&& res == moved_todo(t, n)
    }
}

/// An update request on a well-formed table whose store takes every request,
/// for an item that exists and decodes.
pub open spec fn update_ready(cfg: ConfigV, c: Contents, wf: bool, accepts: bool, input: TodoUpdateInput) -> bool {
    &&& wf && accepts
    &&& input.id@.kind == todo_kind_text()
    &&& item_decodes(cfg, c, input.id@)
    &&& !no_item_for(cfg, c, input.id@)
}

/// The request succeeds: every item found for the identifier accepts its relation change.
pub open spec fn update_owed(cfg: ConfigV, c: Contents, wf: bool, accepts: bool, input: TodoUpdateInput) -> bool {
    &&& update_ready(cfg, c, wf, accepts, input)
    &&& forall|key: (IdView, IdView), t: TodoV|
        #[trigger] found_todo(cfg, c, input.id@, key, t) ==> resolved_owner(key, t.list_id, input.list) is Some
}

/// The request is refused: every item found for the identifier refuses its relation change.
pub open spec fn refusal_owed(cfg: ConfigV, c: Contents, wf: bool, accepts: bool, input: TodoUpdateInput) -> bool {
    &&& update_ready(cfg, c, wf, accepts, input)
    &&& forall|key: (IdView, IdView), t: TodoV|
        #[trigger] found_todo(cfg, c, input.id@, key, t) ==> resolved_owner(key, t.list_id, input.list) is None
}

/// The list `id`, if stored, denotes a list.
pub open spec fn list_decodes(cfg: ConfigV, c: Contents, id: IdView) -> bool {
    c.contains_key(store_key(list_key(id))) ==> list_from(id, c[store_key(list_key(id))]) is Some
}

/// The owner an item stored at `old_key` gets from `relation`.
pub fn resolve_list_id(
    old_key: &Key,
    old_todo: &Todo,
    relation: &Option<TodoRelationTodoListUpdateInput>,
) -> (r: Result<Option<ID>, Errors>)
    ensures
        match resolved_owner(old_key@, old_todo@.list_id, *relation) {
            Some(owner) => r is Ok && opt_view(r->Ok_0) == owner,
            None => r is Err && r->Err_0 is InvalidValue,
        },
{
    match relation {
        None => Ok(crate::todo::clone_opt_id(&old_todo.list_id)),
        Some(TodoRelationTodoListUpdateInput::Link(link)) => Ok(Some(link.clone())),
        Some(TodoRelationTodoListUpdateInput::Unlink(unlink)) => {
            if !(old_key.partition == *unlink) {
                let mut message = String::from_str("Todo is not linked to the todo list '");
                message.append(unlink.to_string().as_str());
                message.append("'");
                Err(Errors::InvalidValue(message))
            } else {
                Ok(None)
            }
        },
    }
}

/// Unlink rejection: on a well-formed table with one item per identity, an
/// update that unlinks the found item from a list other than its owner is a
/// request the contract of `todo_update` refuses with `InvalidValue`,
/// leaving the table as it was.
pub proof fn lemma_wrong_unlink_refused(
    cfg: ConfigV,
    c: Contents,
    accepts: bool,
    input: TodoUpdateInput,
    key: (IdView, IdView),
    t: TodoV,
    u: ID,
)
    requires
        update_ready(cfg, c, true, accepts, input),
        config_wf(cfg),
        crate::table::projection_invariant(cfg, c),
        crate::todo::identities_unique(c),
        found_todo(cfg, c, input.id@, key, t),
        input.list == Some(TodoRelationTodoListUpdateInput::Unlink(u)),
        u@ != key.0,
    ensures
        refusal_owed(cfg, c, true, accepts, input),
{
    assert forall|key2: (IdView, IdView), t2: TodoV|
        #[trigger] found_todo(cfg, c, input.id@, key2, t2) implies resolved_owner(key2, t2.list_id, input.list) is None by {
        crate::todo::lemma_found_item_unique(cfg, c, input.id@, key, t, key2, t2);
    }
}

/// Queries of items.
#[derive(Debug, Default)]
pub struct TodoQuery;

impl TodoQuery {
    pub fn todo_collection<S: KeyValueStore>(&self, db: &DynamoTable<S>) -> (r: Result<Vec<Todo>, Errors>)
        ensures
            r is Ok ==> crate::todo::listing(
                db.contents(),
                crate::store::SelectionV::SortPrefix {
                    sort_prefix: crate::id::prefix_text(todo_kind_text()),
                },
                |img: crate::item::Image| crate::todo::decode_todo(db.config@, img),
                r->Ok_0@,
            ),
            db.store.serves_reads() && all_decode(
                db.contents(),
                crate::store::SelectionV::SortPrefix {
                    sort_prefix: crate::id::prefix_text(todo_kind_text()),
                },
                |img: crate::item::Image| crate::todo::decode_todo(db.config@, img),
            ) ==> r is Ok,
    {
        db.scan_todo()
    }

    /// The item `id`; an identifier of another kind is refused before the
    /// store is asked.
    pub fn todo<S: KeyValueStore>(&self, db: &DynamoTable<S>, id: ID) -> (r: Result<Todo, Errors>)
        ensures
            id@.kind != todo_kind_text() ==> r is Err && r->Err_0 is InvalidValue,
            id@.kind == todo_kind_text() ==> match r {
                Ok(t) => exists|key: (IdView, IdView)| found_todo(db.config@, db.contents(), id@, key, t@),
                Err(e) => !(e is InvalidValue) && (e is NotFound ==> no_item_for(db.config@, db.contents(), id@)),
            },
            id@.kind == todo_kind_text() && db.store.serves_reads() && item_decodes(db.config@, db.contents(), id@)
                ==> (r is Ok <==> !no_item_for(db.config@, db.contents(), id@)) && (r is Err ==> r->Err_0 is NotFound),
    {
        if let Err(e) = check_id_kind(&id, todo_kind()) {
            return Err(e);
        }
        match db.get_todo(&id) {
            Ok(Some((_, todo))) => Ok(todo),
            Ok(None) => Err(Errors::NotFound),
            Err(e) => Err(e),
        }
    }
}

/// Mutations of items.
#[derive(Debug, Default)]
pub struct TodoMutation;

impl TodoMutation {
    /// Creates an item with a fresh identifier, linked to the given list if any.
    pub fn todo_create<S: KeyValueStore>(&self, db: &mut DynamoTable<S>, input: TodoCreateInput) -> (r:
        Result<Todo, Errors>)
        ensures
            final(db).config == old(db).config,
            final(db).store.accepts_all() == old(db).store.accepts_all(),
            final(db).store.serves_reads() == old(db).store.serves_reads(),
            old(db).wf() ==> final(db).wf(),
            r is Ok ==> {
                let t = r->Ok_0@;
                &&& t.id.kind == todo_kind_text()
                &&& t.title == input.title@
                &&& t.complete == match input.complete {
                    Some(c) => c,
                    None => false,
                }
                &&& t.list_id == match input.list {
                    Some(rel) => Some(rel.link@),
                    None => None::<IdView>,
                }
                &&& final(db).contents() == old(db).contents().insert(
                    store_key(todo_key_of(t)),
                    todo_image(old(db).config@, t),
                )
            },
            r is Err ==> final(db).contents() == old(db).contents(),
            old(db).store.accepts_all() ==> r is Ok,
    {
        let todo = Todo {
            id: ID::new(todo_kind()),
            title: input.title,
            complete: match input.complete {
                Some(c) => c,
                None => false,
            },
            list_id: match input.list {
                Some(rel) => Some(rel.link),
                None => None,
            },
        };
        match db.put_todo(&todo) {
            Ok(_) => Ok(todo),
            Err(e) => Err(e),
        }
    }

    /// Changes an item's fields and owner.  Unlinking from a list the item is
    /// not stored under is refused before anything is written.
    pub fn todo_update<S: KeyValueStore>(&self, db: &mut DynamoTable<S>, input: TodoUpdateInput) -> (r:
        Result<Todo, Errors>)
        requires
            config_wf(old(db).config@),
        ensures
            final(db).config == old(db).config,
            final(db).store.accepts_all() == old(db).store.accepts_all(),
            final(db).store.serves_reads() == old(db).store.serves_reads(),
            old(db).wf() ==> final(db).wf(),
            input.id@.kind != todo_kind_text() ==> r is Err && r->Err_0 is InvalidValue,
            r is Err && (r->Err_0 is InvalidValue || r->Err_0 is NotFound) ==> final(db).contents() == old(
                db,
            ).contents(),
            r is Err && r->Err_0 is InvalidValue ==> input.id@.kind != todo_kind_text() || exists|
                key: (IdView, IdView),
                t: TodoV,
            |
                found_todo(old(db).config@, old(db).contents(), input.id@, key, t) && resolved_owner(
                    key,
                    t.list_id,
                    input.list,
                ) is None,
            old(db).wf() && r is Err && r->Err_0 is NotFound ==> no_item_for(
                old(db).config@,
                old(db).contents(),
                input.id@,
            ),
            old(db).wf() && r is Ok ==> exists|key: (IdView, IdView), t: TodoV|
                found_todo(old(db).config@, old(db).contents(), input.id@, key, t) && resolved_owner(
                    key,
                    t.list_id,
                    input.list,
                ) is Some && applied_update(
                    old(db).config@,
                    old(db).contents(),
                    final(db).contents(),
                    key,
                    t,
                    requested_todo(key, t, input),
                    r->Ok_0@,
                ),
            input.id@.kind == todo_kind_text() && old(db).store.serves_reads() && no_item_for(
                old(db).config@,
                old(db).contents(),
                input.id@,
            ) ==> r is Err && r->Err_0 is NotFound && final(db).contents() == old(db).contents(),
            update_owed(old(db).config@, old(db).contents(), old(db).wf(), old(db).store.accepts_all() && old(db).store.serves_reads(), input)
                ==> r is Ok,
            refusal_owed(old(db).config@, old(db).contents(), old(db).wf(), old(db).store.accepts_all() && old(db).store.serves_reads(), input)
                ==> r is Err && r->Err_0 is InvalidValue,
    {
        if let Err(e) = check_id_kind(&input.id, todo_kind()) {
            return Err(e);
        }
        let (old_key, old_todo) = match db.get_todo(&input.id) {
            Ok(Some(found)) => found,
            Ok(None) => return Err(Errors::NotFound),
            Err(e) => return Err(e),
        };
        let new_list_id = match resolve_list_id(&old_key, &old_todo, &input.list) {
            Ok(l) => l,
            Err(e) => return Err(e),
        };
        let ghost key = old_key@;
        let ghost t = old_todo@;
        let ghost c0 = db.contents();
        let ghost cfg = db.config@;
        let ghost was_wf = db.wf();
        let ghost request = input;
        let new_todo = Todo {
            id: old_todo.id.clone(),
            title: match input.title {
                Some(t) => t,
                None => old_todo.title.clone(),
            },
            complete: match input.complete {
                Some(c) => c,
                None => old_todo.complete,
            },
            list_id: new_list_id,
        };
        let ghost n = new_todo@;
        proof {
            assert(n == requested_todo(key, t, request));
        }
        match db.update_todo(old_key, old_todo, new_todo) {
            Ok((_, todo)) => {
                proof {
                    if was_wf {
                        let k = store_key(key);
                        let new_key = (owner_or_self(n.list_id, t.id), t.id);
                        if new_key == key {
                            let img = updated_image(c0, k, stamp(cfg, k), todo_diff(t, n));
                            assert(c0.contains_key(k));
                            assert(img == c0[k].union_prefer_right(todo_diff(t, n)));
                            if todo_diff(t, n) == Map::<Seq<char>, crate::item::AttrV>::empty() {
                                assert(img =~= c0[k]);
                                assert(c0.insert(k, img) =~= c0);
                                assert(todo@ == t);
                            } else {
                                assert(crate::todo::todo_from(key, img) == Some(todo@));
                            }
                            assert(db.contents() == c0.insert(k, img));
                            assert(todo@.title == n.title);
                            assert(todo@.complete == n.complete);
                            assert(todo@.id == t.id);
                        }
                        assert(applied_update(cfg, c0, db.contents(), key, t, n, todo@));
                    }
                }
                Ok(todo)
            },
            Err(e) => Err(e),
        }
    }

    /// Deletes the item `id` and gives back what it was.
    pub fn todo_delete<S: KeyValueStore>(&self, db: &mut DynamoTable<S>, id: ID) -> (r: Result<Todo, Errors>)
        ensures
            final(db).config == old(db).config,
            final(db).store.accepts_all() == old(db).store.accepts_all(),
            final(db).store.serves_reads() == old(db).store.serves_reads(),
            old(db).wf() ==> final(db).wf(),
            id@.kind != todo_kind_text() ==> r is Err && r->Err_0 is InvalidValue,
            r is Err && (r->Err_0 is InvalidValue || r->Err_0 is NotFound) ==> final(db).contents() == old(
                db,
            ).contents(),
            r is Ok ==> crate::todo::deleted_todo(
                old(db).config@,
                old(db).contents(),
                final(db).contents(),
                id@,
                r->Ok_0@,
            ),
            id@.kind == todo_kind_text() ==> !(r is Err && r->Err_0 is InvalidValue),
            old(db).wf() && r is Err && r->Err_0 is NotFound ==> no_item_for(old(db).config@, old(db).contents(), id@),
            id@.kind == todo_kind_text() && old(db).store.accepts_all() && old(db).store.serves_reads() && old(db).wf() && item_decodes(
                old(db).config@,
                old(db).contents(),
                id@,
            ) ==> (r is Ok <==> !no_item_for(old(db).config@, old(db).contents(), id@)) && (r is Err
                ==> r->Err_0 is NotFound),
    {
        if let Err(e) = check_id_kind(&id, todo_kind()) {
            return Err(e);
        }
        match db.delete_todo(&id) {
            Ok(Some(todo)) => Ok(todo),
            Ok(None) => Err(Errors::NotFound),
            Err(e) => Err(e),
        }
    }
}

/// Queries of lists.
#[derive(Debug, Default)]
pub struct TodoListQuery;

impl TodoListQuery {
    pub fn todo_list_collection<S: KeyValueStore>(&self, db: &DynamoTable<S>) -> (r: Result<
        Vec<TodoList>,
        Errors,
    >)
        ensures
            r is Ok ==> crate::todo_list::list_listing(
                db.config@,
                db.contents(),
                crate::store::SelectionV::SortPrefix {
                    sort_prefix: crate::id::prefix_text(todo_list_kind_text()),
                },
                r->Ok_0@,
            ),
            db.store.serves_reads() && (forall|k: crate::store::KeyV|
                db.contents().contains_key(k) && crate::id::prefix_text(todo_list_kind_text()).is_prefix_of(k.1)
                    ==> crate::todo_list::decode_list(db.config@, #[trigger] db.contents()[k]) is Some) ==> r is Ok,
    {
        db.scan_todo_list()
    }

    /// The list `id`; an identifier of another kind is refused before the
    /// store is asked.
    pub fn todo_list<S: KeyValueStore>(&self, db: &DynamoTable<S>, id: ID) -> (r: Result<TodoList, Errors>)
        ensures
            id@.kind != todo_list_kind_text() ==> r is Err && r->Err_0 is InvalidValue,
            id@.kind == todo_list_kind_text() ==> match r {
                Ok(l) => db.contents().contains_key(store_key(list_key(id@))) && list_from(
                    id@,
                    db.contents()[store_key(list_key(id@))],
                ) == Some(l@),
                Err(e) => !(e is InvalidValue) && (e is NotFound ==> !db.contents().contains_key(
                    store_key(list_key(id@)),
                )),
            },
            id@.kind == todo_list_kind_text() && db.store.serves_reads() && list_decodes(db.config@, db.contents(), id@)
                ==> (r is Ok <==> db.contents().contains_key(store_key(list_key(id@)))) && (r is Err
                ==> r->Err_0 is NotFound),
    {
        if let Err(e) = check_id_kind(&id, todo_list_kind()) {
            return Err(e);
        }
        match db.get_todo_list(&id) {
            Ok(Some(l)) => Ok(l),
            Ok(None) => Err(Errors::NotFound),
            Err(e) => Err(e),
        }
    }

    /// The items of the list `id`.
    pub fn todos<S: KeyValueStore>(&self, db: &DynamoTable<S>, id: &ID) -> (r: Result<Vec<Todo>, Errors>)
        ensures
            r is Ok ==> crate::todo::listing(
                db.contents(),
                crate::store::SelectionV::Partition {
                    partition: crate::id::id_str(id@),
                    sort_prefix: crate::id::prefix_text(todo_kind_text()),
                },
                |img: crate::item::Image| crate::todo::child_todo(db.config@, id@, img),
                r->Ok_0@,
            ),
            r is Ok ==> crate::todo::ordered_listing(
                db.contents(),
                crate::store::SelectionV::Partition {
                    partition: crate::id::id_str(id@),
                    sort_prefix: crate::id::prefix_text(todo_kind_text()),
                },
                |img: crate::item::Image| crate::todo::child_todo(db.config@, id@, img),
                r->Ok_0@,
            ),
            db.store.serves_reads() && all_decode(
                db.contents(),
                crate::store::SelectionV::Partition {
                    partition: crate::id::id_str(id@),
                    sort_prefix: crate::id::prefix_text(todo_kind_text()),
                },
                |img: crate::item::Image| crate::todo::child_todo(db.config@, id@, img),
            ) ==> r is Ok,
    {
        db.get_todo_list_todos(id)
    }
}

/// Mutations of lists.
#[derive(Debug, Default)]
pub struct TodoListMutation;

impl TodoListMutation {
    /// Creates a list with a fresh identifier.
    pub fn todo_list_create<S: KeyValueStore>(&self, db: &mut DynamoTable<S>, input: TodoListInputCreate) -> (r:
        Result<TodoList, Errors>)
        ensures
            final(db).config == old(db).config,
            final(db).store.accepts_all() == old(db).store.accepts_all(),
            final(db).store.serves_reads() == old(db).store.serves_reads(),
            old(db).wf() ==> final(db).wf(),
            r is Ok ==> {
                let l = r->Ok_0@;
                &&& l.id.kind == todo_list_kind_text()
                &&& l.title == input.title@
                &&& final(db).contents() == old(db).contents().insert(
                    store_key(list_key(l.id)),
                    list_image(old(db).config@, l),
                )
            },
            r is Err ==> final(db).contents() == old(db).contents(),
            old(db).store.accepts_all() ==> r is Ok,
    {
        let todo_list = TodoList { id: ID::new(todo_list_kind()), title: input.title };
        match db.put_todo_list(&todo_list) {
            Ok(_) => Ok(todo_list),
            Err(e) => Err(e),
        }
    }

    /// Sets the title of a list; without a title, gives the list back as it is.
    pub fn todo_list_update<S: KeyValueStore>(&self, db: &mut DynamoTable<S>, input: TodoListInputUpdate) -> (r:
        Result<TodoList, Errors>)
        requires
            config_wf(old(db).config@),
        ensures
            final(db).config == old(db).config,
            final(db).store.accepts_all() == old(db).store.accepts_all(),
            final(db).store.serves_reads() == old(db).store.serves_reads(),
            old(db).wf() ==> final(db).wf(),
            input.id@.kind != todo_list_kind_text() ==> r is Err && r->Err_0 is InvalidValue,
            input.title is None ==> final(db).contents() == old(db).contents(),
            r is Ok && input.title is Some ==> r->Ok_0@ == (TodoListV {
                id: input.id@,
                title: input.title->0@,
            }),
            input.id@.kind == todo_list_kind_text() ==> !(r is Err && r->Err_0 is InvalidValue),
            input.title is None && r is Ok ==> old(db).contents().contains_key(store_key(list_key(input.id@)))
                && list_from(input.id@, old(db).contents()[store_key(list_key(input.id@))]) == Some(r->Ok_0@),
            input.title is None && r is Err && r->Err_0 is NotFound ==> !old(db).contents().contains_key(
                store_key(list_key(input.id@)),
            ),
            input.id@.kind == todo_list_kind_text() && old(db).store.accepts_all() && input.title is Some ==> r is Ok,
            input.id@.kind == todo_list_kind_text() && old(db).store.serves_reads() && input.title is None
                && list_decodes(old(db).config@, old(db).contents(), input.id@) ==> (r is Ok
                <==> old(db).contents().contains_key(store_key(list_key(input.id@)))) && (r is Err
                ==> r->Err_0 is NotFound),
    {
        if let Err(e) = check_id_kind(&input.id, todo_list_kind()) {
            return Err(e);
        }
        match input.title {
            Some(title) => db.update_todo_list(&input.id, title),
            None => match db.get_todo_list(&input.id) {
                Ok(Some(l)) => Ok(l),
                Ok(None) => Err(Errors::NotFound),
                Err(e) => Err(e),
            },
        }
    }

    /// Deletes a list and gives back what it was.
    pub fn todo_list_delete<S: KeyValueStore>(&self, db: &mut DynamoTable<S>, id: ID) -> (r: Result<
        TodoList,
        Errors,
    >)
        ensures
            final(db).config == old(db).config,
            final(db).store.accepts_all() == old(db).store.accepts_all(),
            final(db).store.serves_reads() == old(db).store.serves_reads(),
            old(db).wf() ==> final(db).wf(),
            id@.kind != todo_list_kind_text() ==> r is Err && r->Err_0 is InvalidValue,
            r is Err && r->Err_0 is InvalidValue ==> final(db).contents() == old(db).contents(),
            r is Ok ==> old(db).contents().contains_key(store_key(list_key(id@))) && list_from(
                id@,
                old(db).contents()[store_key(list_key(id@))],
            ) == Some(r->Ok_0@) && final(db).contents() == old(db).contents().remove(
                store_key(list_key(id@)),
            ),
            id@.kind == todo_list_kind_text() ==> !(r is Err && r->Err_0 is InvalidValue),
            r is Err && r->Err_0 is NotFound ==> !old(db).contents().contains_key(store_key(list_key(id@))),
            id@.kind == todo_list_kind_text() && old(db).store.accepts_all() && list_decodes(
                old(db).config@,
                old(db).contents(),
                id@,
            ) ==> (r is Ok <==> old(db).contents().contains_key(store_key(list_key(id@)))) && (r is Err
                ==> r->Err_0 is NotFound),
    {
        if let Err(e) = check_id_kind(&id, todo_list_kind()) {
            return Err(e);
        }
        match db.delete_todo_list(&id) {
            Ok(Some(l)) => Ok(l),
            Ok(None) => Err(Errors::NotFound),
            Err(e) => Err(e),
        }
    }
}

/// Every query the service answers.
#[derive(Debug, Default)]
pub struct Query(pub TodoQuery, pub TodoListQuery);

/// Every mutation the service answers.
#[derive(Debug, Default)]
pub struct Mutation(pub TodoMutation, pub TodoListMutation);

} // verus!
