use todomvc::controller::{Controller, ControllerMessage};
use todomvc::scheduler::{Next, Scheduler};
use todomvc::store::{Store, StoredEntry};
use todomvc::view::ViewMessage;
use todomvc::Message;

fn entry(id: &str, title: &str, completed: bool) -> StoredEntry {
    StoredEntry { title: Some(title.to_string()), completed: Some(completed), id: Some(id.to_string()) }
}

fn scheduler() -> Scheduler {
    let mut sched = Scheduler::new();
    let mut store = Store::new("todos-wasmbindgen");
    store.load_entries(&vec![entry("1", "a", false), entry("2", "b", true)]);
    sched.set_controller(Controller::new(store));
    sched
}

fn name(m: &ViewMessage) -> &'static str {
    match m {
        ViewMessage::UpdateFilterButtons(_) => "filters",
        ViewMessage::ClearNewTodo() => "clear",
        ViewMessage::ShowItems(_) => "show",
        ViewMessage::SetItemsLeft(_) => "left",
        ViewMessage::SetClearCompletedButtonVisibility(_) => "clear-button",
        ViewMessage::SetCompleteAllCheckbox(_) => "all-checked",
        ViewMessage::SetMainVisibility(_) => "main",
        ViewMessage::RemoveItem(_) => "remove",
        ViewMessage::EditItemDone(_, _) => "edit-done",
        ViewMessage::SetItemComplete(_, _) => "complete",
    }
}

fn drain(sched: &mut Scheduler) -> Vec<&'static str> {
    let mut seen = Vec::new();
    loop {
        match sched.next_message() {
            Next::Idle => return seen,
            Next::Handled => seen.push("handled"),
            Next::View(v) => seen.push(name(&v)),
        }
    }
}

#[test]
fn first_message_starts_the_loop() {
    let mut sched = scheduler();
    assert!(sched.add_message(Message::View(ViewMessage::ClearNewTodo())));
    assert!(!sched.add_message(Message::View(ViewMessage::SetItemsLeft(1))));
    assert_eq!(drain(&mut sched), vec!["clear", "left"]);
    assert!(sched.add_message(Message::View(ViewMessage::ClearNewTodo())));
}

#[test]
fn idle_scheduler_has_nothing_to_do() {
    let mut sched = Scheduler::new();
    assert!(matches!(sched.next_message(), Next::Idle));
    assert!(sched.take_unsaved().is_none());
    assert!(sched.store_name().is_none());
}

#[test]
fn controller_requests_are_handled_in_order() {
    let mut sched = scheduler();
    assert!(sched.add_message(Message::Controller(ControllerMessage::SetPage("active".to_string()))));
    assert_eq!(
        drain(&mut sched),
        vec!["handled", "show", "left", "clear-button", "all-checked", "main", "filters"]
    );
}

#[test]
fn changes_are_handed_out_to_be_written() {
    let mut sched = scheduler();
    sched.add_message(Message::Controller(ControllerMessage::RemoveCompleted()));
    drain(&mut sched);
    let written = sched.take_unsaved().unwrap();
    assert_eq!(written.len(), 1);
    assert_eq!(written[0].id.as_deref(), Some("1"));
    assert!(sched.take_unsaved().is_none());
    assert_eq!(sched.store_name(), Some("todos-wasmbindgen"));
}

#[test]
fn messages_for_a_missing_controller_are_dropped() {
    let mut sched = Scheduler::new();
    sched.add_message(Message::Controller(ControllerMessage::RemoveCompleted()));
    assert_eq!(drain(&mut sched), vec!["handled"]);
}

#[test]
fn messages_queued_while_running_come_after_those_pending() {
    let mut sched = scheduler();
    assert!(sched.add_message(Message::Controller(ControllerMessage::RemoveItem(1))));
    assert!(!sched.add_message(Message::View(ViewMessage::ClearNewTodo())));
    assert_eq!(
        drain(&mut sched),
        vec!["handled", "clear", "left", "clear-button", "all-checked", "main", "remove"]
    );
    assert!(sched.take_unsaved().is_some());
}
