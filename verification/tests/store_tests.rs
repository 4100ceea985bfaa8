use todomvc::store::{Item, ItemList, ItemListSlice, ItemListTrait, ItemQuery, ItemUpdate, Store, StoredEntry};

fn item(id: &str, title: &str, completed: bool) -> Item {
    Item { id: id.to_string(), title: title.to_string(), completed }
}

fn entry(id: &str, title: &str, completed: bool) -> StoredEntry {
    StoredEntry { title: Some(title.to_string()), completed: Some(completed), id: Some(id.to_string()) }
}

fn loaded_store() -> Store {
    let mut store = Store::new("todos-wasmbindgen");
    store.load_entries(&vec![entry("1", "buy milk", false), entry("2", "walk dog", true), entry("3", "write code", false)]);
    store
}

fn ids_of(slice: &ItemListSlice) -> Vec<String> {
    slice.iter().map(|i| i.id.clone()).collect()
}

#[test]
fn new_store_is_not_loaded() {
    let store = Store::new("todos");
    assert_eq!(store.name(), "todos");
    assert!(!store.is_loaded());
    assert!(store.find(ItemQuery::EmptyItemQuery).is_none());
    assert!(store.count().is_none());
}

#[test]
fn operations_on_unloaded_store_do_nothing() {
    let mut store = Store::new("todos");
    store.insert(item("1", "a", false));
    store.update(ItemUpdate::Completed { id: "1".to_string(), completed: true });
    store.remove(ItemQuery::EmptyItemQuery);
    assert!(!store.is_loaded());
    assert!(store.take_unsaved().is_none());
}

#[test]
fn load_skips_incomplete_entries() {
    let mut store = Store::new("todos");
    let entries = vec![
        entry("1", "a", false),
        StoredEntry { title: Some("b".to_string()), completed: Some(true), id: None },
        StoredEntry { title: None, completed: Some(true), id: Some("3".to_string()) },
        StoredEntry { title: Some("d".to_string()), completed: None, id: Some("4".to_string()) },
        entry("5", "e", true),
    ];
    store.load_entries(&entries);
    assert!(store.is_loaded());
    let all = store.find(ItemQuery::EmptyItemQuery).unwrap();
    assert_eq!(ids_of(&all), vec!["1".to_string(), "5".to_string()]);
}

#[test]
fn load_keeps_a_list_already_held() {
    let mut store = loaded_store();
    store.load_entries(&vec![entry("9", "other", false)]);
    assert_eq!(store.count(), Some((3, 2, 1)));
}

#[test]
fn find_by_completed_state() {
    let store = loaded_store();
    let done = store.find(ItemQuery::Completed { completed: true }).unwrap();
    assert_eq!(ids_of(&done), vec!["2".to_string()]);
    let active = store.find(ItemQuery::Completed { completed: false }).unwrap();
    assert_eq!(ids_of(&active), vec!["1".to_string(), "3".to_string()]);
}

#[test]
fn find_by_id() {
    let store = loaded_store();
    let found = store.find(ItemQuery::Id { id: "3".to_string() }).unwrap();
    assert_eq!(found.length(), 1);
    assert_eq!(found.get(0).unwrap().title, "write code");
    assert!(store.find(ItemQuery::Id { id: "7".to_string() }).unwrap().get(0).is_none());
}

#[test]
fn insert_appends_and_marks_unsaved() {
    let mut store = loaded_store();
    assert!(store.take_unsaved().is_none());
    store.insert(item("4", "new", false));
    let all = store.find(ItemQuery::EmptyItemQuery).unwrap();
    assert_eq!(ids_of(&all), vec!["1".to_string(), "2".to_string(), "3".to_string(), "4".to_string()]);
    let found = store.find(ItemQuery::Id { id: "4".to_string() }).unwrap();
    assert_eq!(found.get(0).unwrap().title, "new");
    assert_eq!(store.count(), Some((4, 3, 1)));
    let written = store.take_unsaved().unwrap();
    assert_eq!(written.len(), 4);
    assert!(store.take_unsaved().is_none());
}

#[test]
fn update_title_and_completed() {
    let mut store = loaded_store();
    store.update(ItemUpdate::Title { id: "1".to_string(), title: "buy oat milk".to_string() });
    store.update(ItemUpdate::Completed { id: "3".to_string(), completed: true });
    let all = store.find(ItemQuery::EmptyItemQuery).unwrap();
    assert_eq!(all.get(0).unwrap().title, "buy oat milk");
    assert!(!all.get(0).unwrap().completed);
    assert!(all.get(2).unwrap().completed);
    assert_eq!(all.get(2).unwrap().title, "write code");
    assert_eq!(store.count(), Some((3, 1, 2)));
}

#[test]
fn update_of_unknown_id_changes_nothing() {
    let mut store = loaded_store();
    store.update(ItemUpdate::Completed { id: "42".to_string(), completed: true });
    assert_eq!(store.count(), Some((3, 2, 1)));
}

#[test]
fn remove_takes_out_matching_items() {
    let mut store = loaded_store();
    store.remove(ItemQuery::Completed { completed: true });
    let all = store.find(ItemQuery::EmptyItemQuery).unwrap();
    assert_eq!(ids_of(&all), vec!["1".to_string(), "3".to_string()]);
    assert_eq!(store.find(ItemQuery::Completed { completed: true }).unwrap().length(), 0);
    store.remove(ItemQuery::Id { id: "1".to_string() });
    let all = store.find(ItemQuery::EmptyItemQuery).unwrap();
    assert_eq!(ids_of(&all), vec!["3".to_string()]);
}

#[test]
fn remove_then_find_finds_nothing() {
    let mut store = loaded_store();
    store.remove(ItemQuery::Id { id: "2".to_string() });
    assert_eq!(store.find(ItemQuery::Id { id: "2".to_string() }).unwrap().length(), 0);
    store.remove(ItemQuery::EmptyItemQuery);
    assert_eq!(store.count(), Some((0, 0, 0)));
}

#[test]
fn count_totals() {
    let store = loaded_store();
    let (total, active, completed) = store.count().unwrap();
    assert_eq!((total, active, completed), (3, 2, 1));
    assert_eq!(active + completed, total);
    assert_eq!(active, store.find(ItemQuery::Completed { completed: false }).unwrap().length());
}

#[test]
fn written_entries_read_back_as_the_list() {
    let mut store = loaded_store();
    store.insert(item("4", "<b>", true));
    let written = store.take_unsaved().unwrap();
    let mut other = Store::new("copy");
    other.load_entries(&written);
    let a = store.find(ItemQuery::EmptyItemQuery).unwrap();
    let b = other.find(ItemQuery::EmptyItemQuery).unwrap();
    assert_eq!(a.length(), b.length());
    for i in 0..a.length() {
        let (x, y) = (a.get(i).unwrap(), b.get(i).unwrap());
        assert_eq!((&x.id, &x.title, x.completed), (&y.id, &y.title, y.completed));
    }
}

#[test]
fn item_list_operations() {
    let mut list = ItemList::new();
    assert_eq!(list.length(), 0);
    assert!(list.get(0).is_none());
    list.push(item("1", "a", false));
    list.push(item("2", "b", true));
    assert_eq!(list.length(), 2);
    assert_eq!(list.get(1).unwrap().id, "2");
    let titles: Vec<&str> = list.iter().map(|i| i.title.as_str()).collect();
    assert_eq!(titles, vec!["a", "b"]);
    let ids: Vec<String> = list.into_iter().map(|i| i.id).collect();
    assert_eq!(ids, vec!["1".to_string(), "2".to_string()]);
}

#[test]
fn item_list_entries() {
    let list = ItemList::from_iter(vec![item("1", "a", false), item("2", "b", true)]);
    let entries = list.to_entries();
    assert_eq!(entries.len(), 2);
    assert_eq!(entries[1].title.as_deref(), Some("b"));
    assert_eq!(entries[1].completed, Some(true));
    assert_eq!(entries[1].id.as_deref(), Some("2"));
    let back = ItemList::from_entries(&entries);
    assert_eq!(back.length(), 2);
    assert_eq!(back.get(0).unwrap().title, "a");
}

#[test]
fn slice_into_owned_list() {
    let a = item("1", "a", false);
    let b = item("2", "b", true);
    let mut slice = ItemListSlice::new();
    slice.push(&a);
    slice.push(&b);
    assert_eq!(slice.length(), 2);
    let owned = slice.into();
    assert_eq!(owned.length(), 2);
    assert_eq!(owned.get(1).unwrap().title, "b");
    assert!(owned.get(1).unwrap().completed);
}

#[test]
fn item_update_and_query() {
    let mut it = item("7", "old", false);
    it.update(&ItemUpdate::Title { id: "7".to_string(), title: "new".to_string() });
    assert_eq!(it.title, "new");
    it.update(&ItemUpdate::Completed { id: "7".to_string(), completed: true });
    assert!(it.completed);
    assert!(ItemQuery::Id { id: "7".to_string() }.matches(&it));
    assert!(!ItemQuery::Id { id: "8".to_string() }.matches(&it));
    assert!(ItemQuery::Completed { completed: true }.matches(&it));
    assert!(ItemQuery::EmptyItemQuery.matches(&it));
    assert_eq!(ItemUpdate::Completed { id: "9".to_string(), completed: false }.id(), "9");
    let c = it.copy();
    assert_eq!((c.id, c.title, c.completed), ("7".to_string(), "new".to_string(), true));
}
