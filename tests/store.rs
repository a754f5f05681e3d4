use todo_store::errors::DynamoDbErrors;
use todo_store::item::{AttributeValue, AttributesGetterExt, ItemKey, RawAttributes};
use todo_store::memtable::MemTable;
use todo_store::store::{KeyValueStore, Selection, WriteOp};

fn key(p: &str, s: &str) -> ItemKey<String> {
    ItemKey { partition: p.to_string(), sort: s.to_string() }
}

fn titled(title: &str) -> RawAttributes {
    let mut a = RawAttributes::new();
    a.insert("title".to_string(), AttributeValue::S(title.to_string()));
    a
}

fn title_of(a: &RawAttributes) -> String {
    a.get_string("title").unwrap()
}

#[test]
fn attributes_later_assignment_wins() {
    let mut a = RawAttributes::new();
    assert!(a.is_empty());
    a.insert("x".to_string(), AttributeValue::Bool(true));
    a.insert("x".to_string(), AttributeValue::S("v".to_string()));
    assert!(!a.is_empty());
    assert_eq!(a.get_string("x").unwrap(), "v");
    assert!(matches!(a.get_bool("x"), Err(DynamoDbErrors::UnexpectedDataFormat(_))));
    assert!(matches!(a.get_string("y"), Err(DynamoDbErrors::UnexpectedDataFormat(_))));
    assert!(a.get("y").is_none());
}

#[test]
fn attributes_merge_and_clone() {
    let mut a = titled("one");
    let mut b = RawAttributes::new();
    b.insert("title".to_string(), AttributeValue::S("two".to_string()));
    b.insert("complete".to_string(), AttributeValue::Bool(true));
    a.merge(&b);
    let c = a.clone();
    assert_eq!(title_of(&c), "two");
    assert_eq!(c.get_bool("complete").unwrap(), true);
}

#[test]
fn memtable_put_get_delete() {
    let mut t = MemTable::new();
    assert!(t.get(&key("a", "b"), false).unwrap().is_none());
    t.put(&key("a", "b"), titled("first")).unwrap();
    t.put(&key("a", "b"), titled("second")).unwrap();
    assert_eq!(title_of(&t.get(&key("a", "b"), true).unwrap().unwrap()), "second");
    let old = t.delete(&key("a", "b")).unwrap().unwrap();
    assert_eq!(title_of(&old), "second");
    assert!(t.get(&key("a", "b"), false).unwrap().is_none());
    assert!(t.delete(&key("a", "b")).unwrap().is_none());
}

#[test]
fn memtable_update_merges_or_creates() {
    let mut t = MemTable::new();
    let mut created = RawAttributes::new();
    created.insert("sk".to_string(), AttributeValue::S("b".to_string()));
    let new = t.update(&key("a", "b"), &created, &titled("x")).unwrap();
    assert_eq!(title_of(&new), "x");
    assert_eq!(new.get_string("sk").unwrap(), "b");
    let mut sets = RawAttributes::new();
    sets.insert("complete".to_string(), AttributeValue::Bool(true));
    let newer = t.update(&key("a", "b"), &RawAttributes::new(), &sets).unwrap();
    assert_eq!(title_of(&newer), "x");
    assert_eq!(newer.get_bool("complete").unwrap(), true);
    assert_eq!(newer.get_string("sk").unwrap(), "b");
}

#[test]
fn memtable_queries_select_live_items_once() {
    let mut t = MemTable::new();
    t.put(&key("p", "todo#1"), titled("a")).unwrap();
    t.put(&key("p", "todo#2"), titled("b")).unwrap();
    t.put(&key("q", "todo#3"), titled("c")).unwrap();
    t.put(&key("p", "todo_list#4"), titled("d")).unwrap();
    t.put(&key("p", "todo#1"), titled("a2")).unwrap();
    t.delete(&key("p", "todo#2")).unwrap();
    let in_p = t
        .query(&Selection::Partition { partition: "p".to_string(), sort_prefix: "todo#".to_string() })
        .unwrap();
    assert_eq!(in_p.len(), 1);
    assert_eq!(title_of(&in_p[0]), "a2");
    let all = t.query(&Selection::SortPrefix { sort_prefix: "todo#".to_string() }).unwrap();
    let mut titles: Vec<String> = all.iter().map(title_of).collect();
    titles.sort();
    assert_eq!(titles, vec!["a2".to_string(), "c".to_string()]);
    let lists = t.query(&Selection::SortPrefix { sort_prefix: "todo_list#".to_string() }).unwrap();
    assert_eq!(lists.len(), 1);
}

#[test]
fn memtable_query_by_attributes() {
    let mut t = MemTable::new();
    let mut a = titled("a");
    a.insert("g1".to_string(), AttributeValue::S("x".to_string()));
    a.insert("g2".to_string(), AttributeValue::S("x".to_string()));
    t.put(&key("p", "x"), a).unwrap();
    let mut b = titled("b");
    b.insert("g1".to_string(), AttributeValue::S("x".to_string()));
    b.insert("g2".to_string(), AttributeValue::S("y".to_string()));
    t.put(&key("p", "y"), b).unwrap();
    let sel = Selection::Attributes {
        partition_name: "g1".to_string(),
        partition: "x".to_string(),
        sort_name: "g2".to_string(),
        sort: "x".to_string(),
    };
    let hits = t.query(&sel).unwrap();
    assert_eq!(hits.len(), 1);
    assert_eq!(title_of(&hits[0]), "a");
}

#[test]
fn memtable_transaction_is_all_or_nothing() {
    let mut t = MemTable::new();
    t.put(&key("a", "x"), titled("old")).unwrap();
    t.set_reject_transactions(true);
    let ops = vec![WriteOp::Delete(key("a", "x")), WriteOp::Put(key("b", "x"), titled("new"))];
    assert!(matches!(t.transact_write(ops), Err(DynamoDbErrors::RequestFailure)));
    assert_eq!(title_of(&t.get(&key("a", "x"), true).unwrap().unwrap()), "old");
    assert!(t.get(&key("b", "x"), true).unwrap().is_none());
    t.set_reject_transactions(false);
    let ops = vec![WriteOp::Delete(key("a", "x")), WriteOp::Put(key("b", "x"), titled("new"))];
    t.transact_write(ops).unwrap();
    assert!(t.get(&key("a", "x"), true).unwrap().is_none());
    assert_eq!(title_of(&t.get(&key("b", "x"), true).unwrap().unwrap()), "new");
}
