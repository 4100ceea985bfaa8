use todomvc::controller::{Controller, ControllerMessage};
use todomvc::store::{ItemListTrait, Store, StoredEntry};
use todomvc::view::ViewMessage;

fn entry(id: &str, title: &str, completed: bool) -> StoredEntry {
    StoredEntry { title: Some(title.to_string()), completed: Some(completed), id: Some(id.to_string()) }
}

fn controller() -> Controller {
    let mut store = Store::new("todos-wasmbindgen");
    store.load_entries(&vec![entry("1", "buy milk", false), entry("2", "walk dog", true), entry("3", "write code", false)]);
    Controller::new(store)
}

fn describe(m: &ViewMessage) -> String {
    match m {
        ViewMessage::UpdateFilterButtons(r) => format!("filters {}", r),
        ViewMessage::ClearNewTodo() => "clear".to_string(),
        ViewMessage::ShowItems(list) => {
            let parts: Vec<String> = list.iter().map(|i| format!("{}:{}:{}", i.id, i.title, i.completed)).collect();
            format!("show [{}]", parts.join(","))
        }
        ViewMessage::SetItemsLeft(n) => format!("left {}", n),
        ViewMessage::SetClearCompletedButtonVisibility(v) => format!("clear-button {}", v),
        ViewMessage::SetCompleteAllCheckbox(v) => format!("all-checked {}", v),
        ViewMessage::SetMainVisibility(v) => format!("main {}", v),
        ViewMessage::RemoveItem(id) => format!("remove {}", id),
        ViewMessage::EditItemDone(id, t) => format!("edit-done {} {}", id, t),
        ViewMessage::SetItemComplete(id, c) => format!("complete {} {}", id, c),
    }
}

fn run(c: &mut Controller, m: ControllerMessage) -> Vec<String> {
    c.call_at(m, 1_700_000_000_000).iter().map(describe).collect()
}

fn stored(c: &mut Controller) -> Vec<(String, String, bool)> {
    c.take_unsaved()
        .unwrap()
        .into_iter()
        .map(|e| (e.id.unwrap(), e.title.unwrap(), e.completed.unwrap()))
        .collect()
}

fn counts(left: usize, any_done: bool, all_done: bool, any: bool) -> Vec<String> {
    vec![
        format!("left {}", left),
        format!("clear-button {}", any_done),
        format!("all-checked {}", all_done),
        format!("main {}", any),
    ]
}

#[test]
fn active_route_from_hash_shows_active_items() {
    let mut c = controller();
    let out = run(&mut c, ControllerMessage::SetPage("#/active".to_string()));
    let mut expected = vec!["show [1:buy milk:false,3:write code:false]".to_string()];
    expected.extend(counts(2, true, false, true));
    expected.push("filters active".to_string());
    assert_eq!(out, expected);
}

#[test]
fn first_page_shows_counts_but_not_the_list() {
    let mut c = controller();
    let out = run(&mut c, ControllerMessage::SetPage(String::new()));
    let mut expected = counts(2, true, false, true);
    expected.push("filters ".to_string());
    assert_eq!(out, expected);
    assert!(c.take_unsaved().is_none());
}

#[test]
fn set_page_to_a_route_shows_its_items() {
    let mut c = controller();
    let out = run(&mut c, ControllerMessage::SetPage("completed".to_string()));
    let mut expected = vec!["show [2:walk dog:true]".to_string()];
    expected.extend(counts(2, true, false, true));
    expected.push("filters completed".to_string());
    assert_eq!(out, expected);
    let out = run(&mut c, ControllerMessage::SetPage("active".to_string()));
    assert_eq!(out[0], "show [1:buy milk:false,3:write code:false]");
    let out = run(&mut c, ControllerMessage::SetPage("#/completed".to_string()));
    assert_eq!(out[0], "show [2:walk dog:true]");
    assert_eq!(out.last().unwrap(), "filters completed");
    let out = run(&mut c, ControllerMessage::SetPage("#/".to_string()));
    assert_eq!(out[0], "show [1:buy milk:false,2:walk dog:true,3:write code:false]");
    assert_eq!(out.last().unwrap(), "filters ");
}

#[test]
fn add_item_appends_an_active_item() {
    let mut c = controller();
    let out = run(&mut c, ControllerMessage::AddItem("new one".to_string()));
    assert_eq!(out[0], "clear");
    assert_eq!(out[1], "show [1:buy milk:false,2:walk dog:true,3:write code:false,1700000000000:new one:false]");
    assert_eq!(out[2..].to_vec(), counts(3, true, false, true));
    let s = stored(&mut c);
    assert_eq!(s.len(), 4);
    assert_eq!(s[3], ("1700000000000".to_string(), "new one".to_string(), false));
}

#[test]
fn toggle_item_marks_it() {
    let mut c = controller();
    let out = run(&mut c, ControllerMessage::ToggleItem(1, true));
    let mut expected = vec!["complete 1 true".to_string(), "show [1:buy milk:true,2:walk dog:true,3:write code:false]".to_string()];
    expected.extend(counts(1, true, false, true));
    assert_eq!(out, expected);
    assert_eq!(stored(&mut c)[0], ("1".to_string(), "buy milk".to_string(), true));
}

#[test]
fn toggle_all_marks_every_item() {
    let mut c = controller();
    let out = run(&mut c, ControllerMessage::ToggleAll(true));
    let mut expected = vec!["complete 1 true".to_string(), "complete 3 true".to_string()];
    expected.extend(counts(0, true, true, true));
    assert_eq!(out, expected);
    assert!(stored(&mut c).iter().all(|(_, _, done)| *done));
    let out = run(&mut c, ControllerMessage::ToggleAll(false));
    assert_eq!(out[..3].to_vec(), vec!["complete 1 false", "complete 2 false", "complete 3 false"]);
    assert!(stored(&mut c).iter().all(|(_, _, done)| !*done));
}

#[test]
fn toggle_all_with_nothing_to_change_writes_nothing() {
    let mut c = controller();
    run(&mut c, ControllerMessage::ToggleAll(true));
    c.take_unsaved();
    let out = run(&mut c, ControllerMessage::ToggleAll(true));
    assert_eq!(out, counts(0, true, true, true));
    assert!(c.take_unsaved().is_none());
}

#[test]
fn remove_completed_keeps_active_items() {
    let mut c = controller();
    let out = run(&mut c, ControllerMessage::RemoveCompleted());
    assert_eq!(out, counts(2, false, false, true));
    let s = stored(&mut c);
    assert_eq!(s.iter().map(|e| e.0.as_str()).collect::<Vec<_>>(), vec!["1", "3"]);
}

#[test]
fn remove_item_takes_it_out() {
    let mut c = controller();
    let out = run(&mut c, ControllerMessage::RemoveItem(2u64));
    let mut expected = counts(2, false, false, true);
    expected.push("remove 2".to_string());
    assert_eq!(out, expected);
    let s = stored(&mut c);
    assert_eq!(s.iter().map(|e| e.0.as_str()).collect::<Vec<_>>(), vec!["1", "3"]);
}

#[test]
fn edit_item_save_sets_the_title() {
    let mut c = controller();
    let out = run(&mut c, ControllerMessage::EditItemSave(3, "write tests".to_string()));
    assert_eq!(out, vec!["edit-done 3 write tests".to_string()]);
    assert_eq!(stored(&mut c)[2].1, "write tests");
}

#[test]
fn edit_item_save_with_empty_title_removes_the_item() {
    let mut c = controller();
    let out = run(&mut c, ControllerMessage::EditItemSave(1, String::new()));
    assert_eq!(out.last().unwrap(), "remove 1");
    assert_eq!(stored(&mut c).len(), 2);
}

#[test]
fn edit_item_cancel_restores_the_title() {
    let mut c = controller();
    assert_eq!(run(&mut c, ControllerMessage::EditItemCancel(1)), vec!["edit-done 1 buy milk".to_string()]);
    assert!(run(&mut c, ControllerMessage::EditItemCancel(9)).is_empty());
    assert!(c.take_unsaved().is_none());
}

#[test]
fn unloaded_controller_reports_nothing_about_items() {
    let mut c = Controller::new(Store::new("todos"));
    assert!(!c.is_loaded());
    let out = run(&mut c, ControllerMessage::RemoveCompleted());
    assert!(out.is_empty());
    assert!(c.take_unsaved().is_none());
    let mut store = Store::new("todos");
    store.load_entries(&vec![entry("5", "x", true)]);
    let c2 = Controller::new(store);
    assert!(c2.is_loaded());
    assert_eq!(c2.store_name(), "todos");
}
