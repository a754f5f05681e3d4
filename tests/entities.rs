use todo_store::config::DynamoDBConfig;
use todo_store::errors::{check_id_kind, DynamoDbErrors, Errors};
use todo_store::id::ID;
use todo_store::item::{AttributeValue, AttributesGetterExt, ItemKey, RawAttributes};
use todo_store::memtable::MemTable;
use todo_store::schema::{
    resolve_list_id, Mutation, Query, TodoCreateInput, TodoListInputCreate, TodoListInputUpdate,
    TodoListMutation, TodoListQuery, TodoMutation, TodoQuery, TodoRelationTodoListLinkInput,
    TodoRelationTodoListUpdateInput, TodoUpdateInput,
};
use todo_store::table::DynamoTable;
use todo_store::todo::{build_todo, todo_changes, todo_key, Todo};
use todo_store::todo_list::{build_todo_list, TodoList};

fn config() -> DynamoDBConfig {
    DynamoDBConfig {
        table: "todos".to_string(),
        partition_key: "pk".to_string(),
        sort_key: "sk".to_string(),
        gsi1_name: "gsi1".to_string(),
        gsi1_partition_key: "gsi1pk".to_string(),
        gsi1_sort_key: "gsi1sk".to_string(),
    }
}

fn table() -> DynamoTable<MemTable> {
    DynamoTable::new(MemTable::new(), config())
}

fn new_list(db: &mut DynamoTable<MemTable>, title: &str) -> TodoList {
    TodoListMutation.todo_list_create(db, TodoListInputCreate { title: title.to_string() }).unwrap()
}

fn new_todo(db: &mut DynamoTable<MemTable>, title: &str, list: Option<&ID>) -> Todo {
    let input = TodoCreateInput {
        title: title.to_string(),
        complete: None,
        list: list.map(|l| TodoRelationTodoListLinkInput { link: l.clone() }),
    };
    TodoMutation.todo_create(db, input).unwrap()
}

fn relink(id: &ID, relation: TodoRelationTodoListUpdateInput) -> TodoUpdateInput {
    TodoUpdateInput { id: id.clone(), title: None, list: Some(relation), complete: None }
}

#[test]
fn config_well_formedness() {
    assert!(config().is_well_formed());
    let mut c = config();
    c.sort_key = "pk".to_string();
    assert!(!c.is_well_formed());
    let mut c = config();
    c.gsi1_sort_key = "title".to_string();
    assert!(!c.is_well_formed());
}

#[test]
fn key_attributes_use_configured_names() {
    let db = table();
    let id = ID::new("todo");
    let list = ID::new("todo_list");
    let key = ItemKey { partition: list.clone(), sort: id.clone() };
    let attrs = db.build_key_attributes(&key);
    assert_eq!(attrs.get_string("pk").unwrap(), list.to_string());
    assert_eq!(attrs.get_string("sk").unwrap(), id.to_string());
    let back = db.extract_key(&attrs).unwrap();
    assert!(back.partition == list && back.sort == id);
    let store_key = DynamoTable::<MemTable>::store_key(&key);
    assert_eq!(store_key.partition, list.to_string());
    assert!(matches!(db.extract_key(&RawAttributes::new()), Err(DynamoDbErrors::UnexpectedDataFormat(_))));
}

#[test]
fn create_stamps_projection_with_own_identifier() {
    let mut db = table();
    let l1 = new_list(&mut db, "L1");
    let a = new_todo(&mut db, "A", Some(&l1.id));
    assert!(!a.complete);
    let key = ItemKey { partition: l1.id.clone(), sort: a.id.clone() };
    let stored = db.get_item(&key, true).unwrap().unwrap();
    assert_eq!(stored.get_string("gsi1pk").unwrap(), a.id.to_string());
    assert_eq!(stored.get_string("gsi1sk").unwrap(), a.id.to_string());
    assert_eq!(stored.get_string("pk").unwrap(), l1.id.to_string());
    assert_eq!(stored.get_string("title").unwrap(), "A");
    let hits = db.query_gsi1_get(&ItemKey { partition: a.id.clone(), sort: a.id.clone() }).unwrap();
    assert_eq!(hits.len(), 1);
}

#[test]
fn create_then_relocate() {
    let mut db = table();
    let l1 = new_list(&mut db, "L1");
    let l2 = new_list(&mut db, "L2");
    let a = new_todo(&mut db, "A", Some(&l1.id));
    let (key, found) = db.get_todo(&a.id).unwrap().unwrap();
    assert!(key.partition == l1.id && key.sort == a.id);
    assert!(found.list_id.as_ref().unwrap() == &l1.id);
    let moved = TodoMutation
        .todo_update(&mut db, relink(&a.id, TodoRelationTodoListUpdateInput::Link(l2.id.clone())))
        .unwrap();
    assert!(moved.id == a.id);
    assert!(moved.list_id.as_ref().unwrap() == &l2.id);
    let (key, found) = db.get_todo(&a.id).unwrap().unwrap();
    assert!(key.partition == l2.id && key.sort == a.id);
    assert_eq!(found.title, "A");
    let old_key = ItemKey { partition: l1.id.clone(), sort: a.id.clone() };
    assert!(db.get_item(&old_key, true).unwrap().is_none());
    let hits = db.query_gsi1_get(&ItemKey { partition: a.id.clone(), sort: a.id.clone() }).unwrap();
    assert_eq!(hits.len(), 1);
    assert_eq!(hits[0].get_string("pk").unwrap(), l2.id.to_string());
    assert_eq!(TodoListQuery.todos(&db, &l1.id).unwrap().len(), 0);
    assert_eq!(TodoListQuery.todos(&db, &l2.id).unwrap().len(), 1);
}

#[test]
fn unlink_rejection() {
    let mut db = table();
    let l1 = new_list(&mut db, "L1");
    let l3 = new_list(&mut db, "L3");
    let a = new_todo(&mut db, "A", Some(&l1.id));
    let r = TodoMutation.todo_update(&mut db, relink(&a.id, TodoRelationTodoListUpdateInput::Unlink(l3.id.clone())));
    assert!(matches!(r, Err(Errors::InvalidValue(_))));
    let (key, found) = db.get_todo(&a.id).unwrap().unwrap();
    assert!(key.partition == l1.id);
    assert_eq!(found.title, "A");
    assert_eq!(TodoListQuery.todos(&db, &l3.id).unwrap().len(), 0);
}

#[test]
fn unlink_from_owner_detaches() {
    let mut db = table();
    let l1 = new_list(&mut db, "L1");
    let a = new_todo(&mut db, "A", Some(&l1.id));
    let t = TodoMutation
        .todo_update(&mut db, relink(&a.id, TodoRelationTodoListUpdateInput::Unlink(l1.id.clone())))
        .unwrap();
    assert!(t.list_id.is_none());
    let (key, _) = db.get_todo(&a.id).unwrap().unwrap();
    assert!(key.partition == a.id && key.sort == a.id);
}

#[test]
fn kind_mismatch() {
    let mut db = table();
    let a = new_todo(&mut db, "A", None);
    let r = TodoListQuery.todo_list(&db, a.id.clone());
    assert!(matches!(r, Err(Errors::InvalidValue(_))));
    let l = new_list(&mut db, "L");
    assert!(matches!(TodoQuery.todo(&db, l.id.clone()), Err(Errors::InvalidValue(_))));
    assert!(matches!(TodoMutation.todo_delete(&mut db, l.id.clone()), Err(Errors::InvalidValue(_))));
    assert!(matches!(TodoListMutation.todo_list_delete(&mut db, a.id.clone()), Err(Errors::InvalidValue(_))));
    assert!(check_id_kind(&a.id, "todo").is_ok());
    assert!(matches!(check_id_kind(&a.id, "todo_list"), Err(Errors::InvalidValue(_))));
}

#[test]
fn move_atomicity() {
    let mut db = table();
    let l1 = new_list(&mut db, "L1");
    let l2 = new_list(&mut db, "L2");
    let a = new_todo(&mut db, "A", Some(&l1.id));
    db.store.set_reject_transactions(true);
    let r = TodoMutation.todo_update(&mut db, relink(&a.id, TodoRelationTodoListUpdateInput::Link(l2.id.clone())));
    assert!(matches!(r, Err(Errors::Database(DynamoDbErrors::RequestFailure))));
    let at_old = db.get_item(&ItemKey { partition: l1.id.clone(), sort: a.id.clone() }, true).unwrap().unwrap();
    assert_eq!(at_old.get_string("title").unwrap(), "A");
    assert_eq!(at_old.get_bool("complete").unwrap(), false);
    assert!(db.get_item(&ItemKey { partition: l2.id.clone(), sort: a.id.clone() }, true).unwrap().is_none());
    let (key, _) = db.get_todo(&a.id).unwrap().unwrap();
    assert!(key.partition == l1.id);
}

#[test]
fn noop_update_changes_nothing() {
    let mut db = table();
    let l1 = new_list(&mut db, "L1");
    let a = new_todo(&mut db, "A", Some(&l1.id));
    let input = TodoUpdateInput { id: a.id.clone(), title: None, list: None, complete: None };
    let t = TodoMutation.todo_update(&mut db, input).unwrap();
    assert_eq!(t.title, "A");
    assert!(!t.complete);
    assert!(t.list_id.as_ref().unwrap() == &l1.id);
    let key = ItemKey { partition: l1.id.clone(), sort: a.id.clone() };
    let read = db.update_item(&key, &RawAttributes::new()).unwrap().unwrap();
    assert_eq!(read.get_string("title").unwrap(), "A");
    let missing = ItemKey { partition: l1.id.clone(), sort: ID::new("todo") };
    assert!(db.update_item(&missing, &RawAttributes::new()).unwrap().is_none());
    assert!(db.get_item(&missing, true).unwrap().is_none());
}

#[test]
fn in_place_update_sets_changed_fields() {
    let mut db = table();
    let a = new_todo(&mut db, "A", None);
    let input = TodoUpdateInput { id: a.id.clone(), title: Some("B".to_string()), list: None, complete: Some(true) };
    let t = TodoMutation.todo_update(&mut db, input).unwrap();
    assert_eq!(t.title, "B");
    assert!(t.complete);
    let (_, found) = db.get_todo(&a.id).unwrap().unwrap();
    assert_eq!(found.title, "B");
    assert!(found.complete);
    let hits = db.query_gsi1_get(&ItemKey { partition: a.id.clone(), sort: a.id.clone() }).unwrap();
    assert_eq!(hits.len(), 1);
    assert_eq!(hits[0].get_string("title").unwrap(), "B");
}

#[test]
fn todo_changes_lists_only_differences() {
    let id = ID::new("todo");
    let old = Todo { id: id.clone(), title: "A".to_string(), complete: false, list_id: None };
    let same = old.clone();
    assert!(todo_changes(&old, &same).is_empty());
    let new = Todo { id: id.clone(), title: "A".to_string(), complete: true, list_id: None };
    let diff = todo_changes(&old, &new);
    assert!(diff.get("title").is_none());
    assert_eq!(diff.get_bool("complete").unwrap(), true);
}

#[test]
fn todo_key_uses_owner_or_self() {
    let id = ID::new("todo");
    let list = ID::new("todo_list");
    let owned = Todo { id: id.clone(), title: "A".to_string(), complete: false, list_id: Some(list.clone()) };
    let k = todo_key(&owned);
    assert!(k.partition == list && k.sort == id);
    let free = Todo { id: id.clone(), title: "A".to_string(), complete: false, list_id: None };
    let k = todo_key(&free);
    assert!(k.partition == id && k.sort == id);
}

#[test]
fn build_todo_reads_owner_from_partition() {
    let id = ID::new("todo");
    let list = ID::new("todo_list");
    let mut item = RawAttributes::new();
    item.insert("title".to_string(), AttributeValue::S("T".to_string()));
    item.insert("complete".to_string(), AttributeValue::Bool(true));
    let t = build_todo(&ItemKey { partition: list.clone(), sort: id.clone() }, &item).unwrap();
    assert!(t.list_id.unwrap() == list);
    assert!(t.complete);
    let t = build_todo(&ItemKey { partition: id.clone(), sort: id.clone() }, &item).unwrap();
    assert!(t.list_id.is_none());
    let r = build_todo(&ItemKey { partition: id.clone(), sort: id.clone() }, &RawAttributes::new());
    assert!(matches!(r, Err(Errors::Database(DynamoDbErrors::UnexpectedDataFormat(_)))));
    let l = build_todo_list(&list, &item).unwrap();
    assert_eq!(l.title, "T");
}

#[test]
fn delete_todo_gives_back_old_value() {
    let mut db = table();
    let l1 = new_list(&mut db, "L1");
    let a = new_todo(&mut db, "A", Some(&l1.id));
    let gone = TodoMutation.todo_delete(&mut db, a.id.clone()).unwrap();
    assert_eq!(gone.title, "A");
    assert!(db.get_todo(&a.id).unwrap().is_none());
    assert!(matches!(TodoMutation.todo_delete(&mut db, a.id.clone()), Err(Errors::NotFound)));
    assert!(matches!(TodoQuery.todo(&db, a.id.clone()), Err(Errors::NotFound)));
}

#[test]
fn listings_drain_everything_of_a_kind() {
    let mut db = table();
    let l1 = new_list(&mut db, "L1");
    let l2 = new_list(&mut db, "L2");
    new_todo(&mut db, "A", Some(&l1.id));
    new_todo(&mut db, "B", Some(&l1.id));
    new_todo(&mut db, "C", None);
    let all = TodoQuery.todo_collection(&db).unwrap();
    assert_eq!(all.len(), 3);
    let owned = all.iter().filter(|t| t.list_id.is_some()).count();
    assert_eq!(owned, 2);
    let lists = TodoListQuery.todo_list_collection(&db).unwrap();
    assert_eq!(lists.len(), 2);
    let mut in_l1: Vec<String> = TodoListQuery.todos(&db, &l1.id).unwrap().into_iter().map(|t| t.title).collect();
    in_l1.sort();
    assert_eq!(in_l1, vec!["A".to_string(), "B".to_string()]);
    assert!(TodoListQuery.todos(&db, &l2.id).unwrap().is_empty());
}

#[test]
fn list_update_read_and_delete() {
    let mut db = table();
    let l = new_list(&mut db, "L");
    let same = TodoListMutation
        .todo_list_update(&mut db, TodoListInputUpdate { id: l.id.clone(), title: None })
        .unwrap();
    assert_eq!(same.title, "L");
    let renamed = TodoListMutation
        .todo_list_update(&mut db, TodoListInputUpdate { id: l.id.clone(), title: Some("M".to_string()) })
        .unwrap();
    assert_eq!(renamed.title, "M");
    assert_eq!(TodoListQuery.todo_list(&db, l.id.clone()).unwrap().title, "M");
    let gone = TodoListMutation.todo_list_delete(&mut db, l.id.clone()).unwrap();
    assert_eq!(gone.title, "M");
    assert!(matches!(TodoListQuery.todo_list(&db, l.id.clone()), Err(Errors::NotFound)));
    let missing = ID::new("todo_list");
    let r = TodoListMutation.todo_list_update(&mut db, TodoListInputUpdate { id: missing, title: None });
    assert!(matches!(r, Err(Errors::NotFound)));
}

#[test]
fn resolve_owner_rules() {
    let id = ID::new("todo");
    let l1 = ID::new("todo_list");
    let l2 = ID::new("todo_list");
    let key = ItemKey { partition: l1.clone(), sort: id.clone() };
    let t = Todo { id: id.clone(), title: "A".to_string(), complete: false, list_id: Some(l1.clone()) };
    assert!(resolve_list_id(&key, &t, &None).unwrap().unwrap() == l1);
    let link = Some(TodoRelationTodoListUpdateInput::Link(l2.clone()));
    assert!(resolve_list_id(&key, &t, &link).unwrap().unwrap() == l2);
    let unlink = Some(TodoRelationTodoListUpdateInput::Unlink(l1.clone()));
    assert!(resolve_list_id(&key, &t, &unlink).unwrap().is_none());
    let wrong = Some(TodoRelationTodoListUpdateInput::Unlink(l2.clone()));
    assert!(matches!(resolve_list_id(&key, &t, &wrong), Err(Errors::InvalidValue(_))));
}

#[test]
fn merged_roots_hold_every_operation() {
    let q = Query::default();
    let m = Mutation::default();
    let mut db = table();
    let l = m.1.todo_list_create(&mut db, TodoListInputCreate { title: "L".to_string() }).unwrap();
    assert_eq!(q.1.todo_list(&db, l.id.clone()).unwrap().title, "L");
    assert!(q.0.todo_collection(&db).unwrap().is_empty());
}

#[test]
fn decoders_accept_good_items_and_refuse_bad_ones() {
    let mut db = table();
    let l1 = new_list(&mut db, "L1");
    let a = new_todo(&mut db, "A", Some(&l1.id));
    let stored = db.get_item(&ItemKey { partition: l1.id.clone(), sort: a.id.clone() }, true).unwrap().unwrap();
    let todos = db.decode_todos(&vec![stored.clone()]).unwrap();
    assert_eq!(todos.len(), 1);
    assert!(todos[0].id == a.id);
    assert!(todos[0].list_id.as_ref().unwrap() == &l1.id);
    let children = db.decode_children(&l1.id, &vec![stored.clone()]).unwrap();
    assert_eq!(children[0].title, "A");
    let mut bad = RawAttributes::new();
    bad.insert("title".to_string(), AttributeValue::S("X".to_string()));
    assert!(matches!(db.decode_todos(&vec![stored.clone(), bad.clone()]), Err(Errors::Database(_))));
    assert!(matches!(db.decode_children(&l1.id, &vec![bad.clone()]), Err(Errors::Database(_))));
    let list_item = db.get_item(&ItemKey { partition: l1.id.clone(), sort: l1.id.clone() }, true).unwrap().unwrap();
    let lists = db.decode_todo_lists(&vec![list_item]).unwrap();
    assert_eq!(lists[0].title, "L1");
    assert!(db.decode_todo_lists(&vec![bad]).is_err());
    assert!(db.decode_todos(&Vec::new()).unwrap().is_empty());
}

#[test]
fn failed_move_leaves_item_readable_by_id() {
    let mut db = table();
    let l1 = new_list(&mut db, "L1");
    let l2 = new_list(&mut db, "L2");
    let a = new_todo(&mut db, "A", Some(&l1.id));
    db.store.set_reject_transactions(true);
    let (key, old) = db.get_todo(&a.id).unwrap().unwrap();
    let moved = Todo { id: a.id.clone(), title: "A".to_string(), complete: false, list_id: Some(l2.id.clone()) };
    let r = db.update_todo(key, old, moved);
    assert!(matches!(r, Err(Errors::Database(DynamoDbErrors::RequestFailure))));
    let (key, found) = db.get_todo(&a.id).unwrap().unwrap();
    assert!(key.partition == l1.id && key.sort == a.id);
    assert_eq!(found.title, "A");
}

#[test]
fn children_come_in_sort_key_order() {
    let mut db = table();
    let l1 = new_list(&mut db, "L1");
    for i in 0..6 {
        new_todo(&mut db, &format!("T{i}"), Some(&l1.id));
    }
    let todos = TodoListQuery.todos(&db, &l1.id).unwrap();
    assert_eq!(todos.len(), 6);
    let texts: Vec<String> = todos.iter().map(|t| t.id.to_string()).collect();
    let mut sorted = texts.clone();
    sorted.sort();
    assert_eq!(texts, sorted);
}
