//! What the controller asks of the view, and the parts of the view's work
//! that only compute: the selectors it looks elements up by and the class
//! names it gives them.  Touching the page itself is not done here.

use vstd::prelude::*;

use crate::store::{ItemData, ItemList};
use crate::text::{trim, trimmed};

verus! {

/// A request to the view.
pub enum ViewMessage {
    UpdateFilterButtons(String),
    ClearNewTodo(),
    ShowItems(ItemList),
    SetItemsLeft(usize),
    SetClearCompletedButtonVisibility(bool),
    SetCompleteAllCheckbox(bool),
    SetMainVisibility(bool),
    RemoveItem(String),
    EditItemDone(String, String),
    SetItemComplete(String, bool),
}

/// A request to the view, as plain values.
pub enum ViewRequest {
    UpdateFilterButtons(Seq<char>),
    ClearNewTodo,
    ShowItems(Seq<ItemData>),
    SetItemsLeft(nat),
    SetClearCompletedButtonVisibility(bool),
    SetCompleteAllCheckbox(bool),
    SetMainVisibility(bool),
    RemoveItem(Seq<char>),
    EditItemDone(Seq<char>, Seq<char>),
    SetItemComplete(Seq<char>, bool),
}

impl View for ViewMessage {
    type V = ViewRequest;

    open spec fn view(&self) -> ViewRequest {
        match self {
            ViewMessage::UpdateFilterButtons(route) => ViewRequest::UpdateFilterButtons(route@),
            ViewMessage::ClearNewTodo() => ViewRequest::ClearNewTodo,
            ViewMessage::ShowItems(items) => ViewRequest::ShowItems(items@),
            ViewMessage::SetItemsLeft(n) => ViewRequest::SetItemsLeft(*n as nat),
            ViewMessage::SetClearCompletedButtonVisibility(v) => ViewRequest::SetClearCompletedButtonVisibility(*v),
            ViewMessage::SetCompleteAllCheckbox(v) => ViewRequest::SetCompleteAllCheckbox(*v),
            ViewMessage::SetMainVisibility(v) => ViewRequest::SetMainVisibility(*v),
            ViewMessage::RemoveItem(id) => ViewRequest::RemoveItem(id@),
            ViewMessage::EditItemDone(id, title) => ViewRequest::EditItemDone(id@, title@),
            ViewMessage::SetItemComplete(id, c) => ViewRequest::SetItemComplete(id@, *c),
        }
    }
}

/// The plain values of a sequence of view messages.
pub open spec fn requests(msgs: Seq<ViewMessage>) -> Seq<ViewRequest> {
    msgs.map_values(|m: ViewMessage| m@)
}

/// The key code of the Enter key.
pub const ENTER_KEY: u32 = 13;

/// The key code of the Escape key.
pub const ESCAPE_KEY: u32 = 27;

/// The selector of the list element of the item with id `id`.
pub fn item_selector(id: &str) -> (res: String)
    ensures
        res@ == "[data-id=\""@ + id@ + "\"]"@,
{
    let mut s: String = String::from_str("[data-id=\"");
    s.append(id);
    s.append("\"]");
    s
}

/// The selector of the filter link for `route`.
pub fn filter_selector(route: &str) -> (res: String)
    ensures
        res@ == ".filters [href=\"#"@ + route@ + "\"]"@,
{
    let mut s: String = String::from_str(".filters [href=\"#");
    s.append(route);
    s.append("\"]");
    s
}

/// The class name of the list element of an item: `completed` or none.
pub fn item_class(completed: bool) -> (res: &'static str)
    ensures
        res@ == (if completed { "completed"@ } else { Seq::empty() }),
{
    proof {
        reveal_strlit("");
    }
    if completed {
        "completed"
    } else {
        ""
    }
}

/// The title of a new todo typed as `value`: the text without its leading
/// and trailing white space, when any is left.
pub fn new_todo_title(value: &str) -> (res: Option<String>)
    ensures
        res is Some <==> trimmed(value@).len() > 0,
        res matches Some(t) ==> t@ == trimmed(value@),
{
    let title: &str = trim(value);
    if title.is_empty() {
        None
    } else {
        Some(String::from_str(title))
    }
}

/// The id of the todo that a list element belongs to, from the `data-id` of
/// the element's parent (`parent_id`, absent when the parent is not an HTML
/// element) and of its grandparent (`grandparent_id`, absent when there is no
/// grandparent or it is not an HTML element): the parent's when it is not
/// empty, else the grandparent's.
pub fn item_id_of(parent_id: Option<String>, grandparent_id: Option<String>) -> (res: Option<
    String,
>)
    ensures
        (parent_id matches Some(p) && p@.len() > 0) ==> res == parent_id,
        !(parent_id matches Some(p) && p@.len() > 0) ==> res == grandparent_id,
{
    match parent_id {
        Some(p) => if p.as_str().is_empty() {
            grandparent_id
        } else {
            Some(p)
        },
        None => grandparent_id,
    }
}

} // verus!
