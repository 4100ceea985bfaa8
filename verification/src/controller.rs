//! The controller: it reacts to the user's actions by changing the store and
//! by asking the view to show the result.

use vstd::prelude::*;

use crate::store::{
    completed_count, decoded, is_entry_of, selected, unselected, with_completed, with_title, Item,
    ItemData, ItemListTrait, ItemQuery, ItemUpdate, Store, StoredEntry,
};
use crate::json::text_items;
use crate::text::{decimal, decimal_string, route_from_hash, route_of_hash};
use crate::view::{requests, ViewMessage, ViewRequest};

verus! {

/// A user action that the controller handles.
pub enum ControllerMessage {
    AddItem(String),
    SetPage(String),
    EditItemSave(u64, String),
    ToggleItem(u64, bool),
    EditItemCancel(u64),
    RemoveCompleted(),
    RemoveItem(u64),
    ToggleAll(bool),
}

/// What the controller holds, as plain values.
pub struct ControllerData {
    /// The list of the store, when it is loaded.
    pub items: Option<Seq<ItemData>>,
    pub active_route: Seq<char>,
    pub last_active_route: Seq<char>,
}

/// The query that selects the items shown on `route`.
pub open spec fn route_query(route: Seq<char>) -> ItemQuery {
    if route == "completed"@ {
        ItemQuery::Completed { completed: true }
    } else if route == "active"@ {
        ItemQuery::Completed { completed: false }
    } else {
        ItemQuery::EmptyItemQuery
    }
}

/// The requests that show the counts of `items`.
pub open spec fn count_requests(items: Seq<ItemData>) -> Seq<ViewRequest> {
    let total = items.len();
    let completed = completed_count(items);
    seq![
        ViewRequest::SetItemsLeft((total - completed) as nat),
        ViewRequest::SetClearCompletedButtonVisibility(completed > 0),
        ViewRequest::SetCompleteAllCheckbox(completed == total),
        ViewRequest::SetMainVisibility(total > 0),
    ]
}

/// Whether the list is shown again when refreshing.
pub open spec fn shows_list(d: ControllerData, force: bool) -> bool {
    force || d.last_active_route.len() != 0 || d.last_active_route != d.active_route
}

/// Refreshing the list for the current route: what the controller then holds,
/// and what it asks of the view.
pub open spec fn refreshed(d: ControllerData, force: bool) -> (ControllerData, Seq<ViewRequest>) {
    let shown = if shows_list(d, force) {
        match d.items {
            Some(items) => seq![ViewRequest::ShowItems(selected(items, route_query(d.active_route)))],
            None => Seq::empty(),
        }
    } else {
        Seq::empty()
    };
    let counts = match d.items {
        Some(items) => count_requests(items),
        None => Seq::empty(),
    };
    (ControllerData { last_active_route: d.active_route, ..d }, shown + counts)
}

/// `d` with its list, if loaded, changed by `f`.
pub open spec fn with_items(d: ControllerData, f: spec_fn(Seq<ItemData>) -> Seq<ItemData>) -> ControllerData {
    ControllerData {
        items: match d.items {
            Some(items) => Some(f(items)),
            None => None,
        },
        ..d
    }
}

/// The items of `items` with the id `id`, in order.
pub open spec fn having_id(items: Seq<ItemData>, id: Seq<char>) -> Seq<ItemData> {
    items.filter(|it: ItemData| it.id == id)
}

/// The items of `items` without the id `id`, in order.
pub open spec fn without_id(items: Seq<ItemData>, id: Seq<char>) -> Seq<ItemData> {
    items.filter(|it: ItemData| it.id != id)
}

/// Marking the items with id `id` as `completed`.
pub open spec fn completed_set(d: ControllerData, id: Seq<char>, completed: bool) -> (
    ControllerData,
    Seq<ViewRequest>,
) {
    (
        with_items(d, |items: Seq<ItemData>| with_completed(items, id, completed)),
        seq![ViewRequest::SetItemComplete(id, completed)],
    )
}

/// Marking the items with each of `ids` as `completed`, one id after the other.
pub open spec fn all_completed_set(d: ControllerData, ids: Seq<Seq<char>>, completed: bool) -> (
    ControllerData,
    Seq<ViewRequest>,
)
    decreases ids.len(),
{
    if ids.len() == 0 {
        (d, Seq::empty())
    } else {
        let (d1, o1) = all_completed_set(d, ids.drop_last(), completed);
        let (d2, o2) = completed_set(d1, ids.last(), completed);
        (d2, o1 + o2)
    }
}

/// Removing the items with id `id`.
pub open spec fn item_removed(d: ControllerData, id: Seq<char>) -> (ControllerData, Seq<ViewRequest>) {
    let (d1, o1) = refreshed(with_items(d, |items: Seq<ItemData>| without_id(items, id)), false);
    (d1, o1.push(ViewRequest::RemoveItem(id)))
}

/// The ids of `items`, in order.
pub open spec fn ids_of(items: Seq<ItemData>) -> Seq<Seq<char>> {
    items.map_values(|it: ItemData| it.id)
}

/// The plain values of a sequence of strings.
pub open spec fn string_views(v: Seq<String>) -> Seq<Seq<char>> {
    v.map_values(|s: String| s@)
}

/// The ids of the items whose completed state is not `completed`.
pub open spec fn ids_to_toggle(d: ControllerData, completed: bool) -> Seq<Seq<char>> {
    match d.items {
        Some(items) => ids_of(selected(items, ItemQuery::Completed { completed: !completed })),
        None => Seq::empty(),
    }
}

/// What handling `msg` makes of `d`, and what it asks of the view in order; an
/// added item gets the decimal notation of `now` as its id.
pub open spec fn step(d: ControllerData, msg: ControllerMessage, now: u64) -> (
    ControllerData,
    Seq<ViewRequest>,
) {
    match msg {
        ControllerMessage::AddItem(title) => {
            let item = ItemData { id: decimal(now as nat), title: title@, completed: false };
            let (d1, o1) = refreshed(
                with_items(d, |items: Seq<ItemData>| items.push(item)),
                true,
            );
            (d1, seq![ViewRequest::ClearNewTodo] + o1)
        },
        ControllerMessage::SetPage(raw) => {
            let route = route_of_hash(raw@);
            let (d1, o1) = refreshed(ControllerData { active_route: route, ..d }, false);
            (d1, o1.push(ViewRequest::UpdateFilterButtons(route)))
        },
        ControllerMessage::EditItemSave(id, title) => {
            let id = decimal(id as nat);
            if title@.len() != 0 {
                (
                    with_items(d, |items: Seq<ItemData>| with_title(items, id, title@)),
                    seq![ViewRequest::EditItemDone(id, title@)],
                )
            } else {
                item_removed(d, id)
            }
        },
        ControllerMessage::EditItemCancel(id) => {
            let id = decimal(id as nat);
            let out = match d.items {
                Some(items) => if having_id(items, id).len() > 0 {
                    seq![ViewRequest::EditItemDone(id, having_id(items, id)[0].title)]
                } else {
                    Seq::empty()
                },
                None => Seq::empty(),
            };
            (d, out)
        },
        ControllerMessage::RemoveCompleted() => refreshed(
            with_items(
                d,
                |items: Seq<ItemData>| unselected(items, ItemQuery::Completed { completed: true }),
            ),
            false,
        ),
        ControllerMessage::RemoveItem(id) => item_removed(d, decimal(id as nat)),
        ControllerMessage::ToggleAll(completed) => {
            let (d1, o1) = all_completed_set(d, ids_to_toggle(d, completed), completed);
            let (d2, o2) = refreshed(d1, false);
            (d2, o1 + o2)
        },
        ControllerMessage::ToggleItem(id, completed) => {
            let (d1, o1) = completed_set(d, decimal(id as nat), completed);
            let (d2, o2) = refreshed(d1, completed);
            (d2, o1 + o2)
        },
    }
}

/// Whether handling `msg` changes the store's list when the list is `d.items`.
pub open spec fn writes(d: ControllerData, msg: ControllerMessage) -> bool {
    &&& d.items is Some
    &&& match msg {
        ControllerMessage::SetPage(_) => false,
        ControllerMessage::EditItemCancel(_) => false,
        ControllerMessage::ToggleAll(completed) => ids_to_toggle(d, completed).len() > 0,
        _ => true,
    }
}

pub struct Controller {
    store: Store,
    active_route: String,
    last_active_route: String,
}

impl View for Controller {
    type V = ControllerData;

    closed spec fn view(&self) -> ControllerData {
        ControllerData {
            items: self.store@,
            active_route: self.active_route@,
            last_active_route: self.last_active_route@,
        }
    }
}

/// The current time in milliseconds since the Unix epoch, read from
/// `js_sys::Date::now` and truncated to a whole number that fits in 64 bits.  It rests on the clock,
/// so nothing is stated of it; it only runs inside a JavaScript engine.
#[verifier::external_body]
fn date_now() -> u64 {
    js_sys::Date::now() as u64
}

/// The query that selects the items shown on `route`.
fn query_for_route(route: &String) -> (res: ItemQuery)
    ensures
        res == route_query(route@),
{
    let completed: String = String::from_str("completed");
    let active: String = String::from_str("active");
    if *route == completed {
        ItemQuery::Completed { completed: true }
    } else if *route == active {
        ItemQuery::Completed { completed: false }
    } else {
        ItemQuery::EmptyItemQuery
    }
}

proof fn lemma_id_query(items: Seq<ItemData>, q: ItemQuery, id: Seq<char>)
    requires
        q matches ItemQuery::Id { id: qid } && qid@ == id,
    ensures
        selected(items, q) == having_id(items, id),
        unselected(items, q) == without_id(items, id),
{
    assert(crate::store::selected_by(q) =~= (|it: ItemData| it.id == id));
    assert(crate::store::not_selected_by(q) =~= (|it: ItemData| it.id != id));
}

impl Controller {
    /// Whether the store's list changed since it was last handed out to be written.
    pub closed spec fn unsaved(&self) -> bool {
        self.store.has_unsaved()
    }

    /// The name of the local storage value that holds the store's list.
    pub closed spec fn storage_name(&self) -> Seq<char> {
        self.store.storage_name()
    }

    pub fn new(store: Store) -> (res: Controller)
        ensures
            res@ == (ControllerData {
                items: store@,
                active_route: Seq::empty(),
                last_active_route: Seq::empty(),
            }),
            res.unsaved() == store.has_unsaved(),
            res.storage_name() == store.storage_name(),
    {
        Controller { store, active_route: String::new(), last_active_route: String::new() }
    }

    fn add_message(out: &mut Vec<ViewMessage>, view_message: ViewMessage)
        ensures
            requests(final(out)@) == requests(old(out)@).push(view_message@),
    {
        let ghost before = out@;
        out.push(view_message);
        assert(requests(out@) =~= requests(before).push(view_message@));
    }

    /// Refresh the list based on the current route.
    fn _filter(&mut self, force: bool, out: &mut Vec<ViewMessage>)
        ensures
            final(self)@ == refreshed(old(self)@, force).0,
            requests(final(out)@) == requests(old(out)@) + refreshed(old(self)@, force).1,
            final(self).unsaved() == old(self).unsaved(),
            final(self).storage_name() == old(self).storage_name(),
    {
        let ghost d = self@;
        let ghost out0 = requests(out@);
        let show: bool = force || !self.last_active_route.as_str().is_empty() || !(
        self.last_active_route == self.active_route);
        assert(show == shows_list(d, force));
        if show {
            let query = query_for_route(&self.active_route);
            if let Some(res) = self.store.find(query) {
                let list = res.into();
                Self::add_message(out, ViewMessage::ShowItems(list));
            }
        }
        let ghost out1 = requests(out@);
        if let Some((total, active, completed)) = self.store.count() {
            Self::add_message(out, ViewMessage::SetItemsLeft(active));
            Self::add_message(out, ViewMessage::SetClearCompletedButtonVisibility(completed > 0));
            Self::add_message(out, ViewMessage::SetCompleteAllCheckbox(completed == total));
            Self::add_message(out, ViewMessage::SetMainVisibility(total > 0));
            assert(requests(out@) =~= out1 + count_requests(d.items->0));
        } else {
            assert(requests(out@) =~= out1 + Seq::<ViewRequest>::empty());
        }
        self.last_active_route = self.active_route.clone();
        assert(requests(out@) =~= out0 + refreshed(d, force).1);
    }

    /// Add an Item to the Store, with the decimal notation of `now` as its id,
    /// and display it in the list.
    fn add_item_at(&mut self, now: u64, title: String, out: &mut Vec<ViewMessage>)
        ensures
            final(self)@ == step(old(self)@, ControllerMessage::AddItem(title), now).0,
            requests(final(out)@) == requests(old(out)@) + step(
                old(self)@,
                ControllerMessage::AddItem(title),
                now,
            ).1,
            final(self).unsaved() == (old(self).unsaved() || old(self)@.items is Some),
            final(self).storage_name() == old(self).storage_name(),
    {
        let ghost d = self@;
        let ghost item = ItemData { id: decimal(now as nat), title: title@, completed: false };
        let id: String = decimal_string(now);
        self.store.insert(Item { id, title, completed: false });
        assert(self@ == with_items(d, |items: Seq<ItemData>| items.push(item)));
        let ghost out0 = requests(out@);
        Self::add_message(out, ViewMessage::ClearNewTodo());
        self._filter(true, out);
        assert(requests(out@) =~= out0 + step(d, ControllerMessage::AddItem(title), now).1);
    }

    /// Set the current route from the location hash `raw` and show its items.
    pub fn set_page(&mut self, raw: String, out: &mut Vec<ViewMessage>)
        ensures
            final(self)@ == step(old(self)@, ControllerMessage::SetPage(raw), 0).0,
            requests(final(out)@) == requests(old(out)@) + step(
                old(self)@,
                ControllerMessage::SetPage(raw),
                0,
            ).1,
            final(self).unsaved() == old(self).unsaved(),
            final(self).storage_name() == old(self).storage_name(),
    {
        let route: String = route_from_hash(raw.as_str());
        self.active_route = route.clone();
        self._filter(false, out);
        Self::add_message(out, ViewMessage::UpdateFilterButtons(route));
    }

    /// Remove the data and elements related to an Item.
    fn remove_item(&mut self, id: String, out: &mut Vec<ViewMessage>)
        ensures
            final(self)@ == item_removed(old(self)@, id@).0,
            requests(final(out)@) == requests(old(out)@) + item_removed(old(self)@, id@).1,
            final(self).unsaved() == (old(self).unsaved() || old(self)@.items is Some),
            final(self).storage_name() == old(self).storage_name(),
    {
        let ghost d = self@;
        let q = ItemQuery::Id { id: id.clone() };
        proof {
            match d.items {
                Some(items) => lemma_id_query(items, q, id@),
                None => {},
            }
        }
        self.store.remove(q);
        assert(self@ == with_items(d, |items: Seq<ItemData>| without_id(items, id@)));
        self._filter(false, out);
        Self::add_message(out, ViewMessage::RemoveItem(id));
    }

    /// Save an Item in edit.
    fn edit_item_save(&mut self, id: u64, title: String, out: &mut Vec<ViewMessage>)
        ensures
            final(self)@ == step(old(self)@, ControllerMessage::EditItemSave(id, title), 0).0,
            requests(final(out)@) == requests(old(out)@) + step(
                old(self)@,
                ControllerMessage::EditItemSave(id, title),
                0,
            ).1,
            final(self).unsaved() == (old(self).unsaved() || old(self)@.items is Some),
            final(self).storage_name() == old(self).storage_name(),
    {
        let ghost d = self@;
        let id: String = decimal_string(id);
        if !title.as_str().is_empty() {
            self.store.update(ItemUpdate::Title { id: id.clone(), title: title.clone() });
            assert(self@ == with_items(d, |items: Seq<ItemData>| with_title(items, id@, title@)));
            Self::add_message(out, ViewMessage::EditItemDone(id, title));
        } else {
            self.remove_item(id, out);
        }
    }

    /// Cancel the item editing mode.
    fn edit_item_cancel(&mut self, id: u64, out: &mut Vec<ViewMessage>)
        ensures
            final(self)@ == step(old(self)@, ControllerMessage::EditItemCancel(id), 0).0,
            requests(final(out)@) == requests(old(out)@) + step(
                old(self)@,
                ControllerMessage::EditItemCancel(id),
                0,
            ).1,
            final(self).unsaved() == old(self).unsaved(),
            final(self).storage_name() == old(self).storage_name(),
    {
        let ghost d = self@;
        let ghost out0 = requests(out@);
        let id: String = decimal_string(id);
        let q = ItemQuery::Id { id: id.clone() };
        proof {
            match d.items {
                Some(items) => lemma_id_query(items, q, id@),
                None => {},
            }
        }
        if let Some(data) = self.store.find(q) {
            assert(data@.len() == data.elements().len());
            if let Some(todo) = data.get(0) {
                assert(todo@ == data@[0]);
                let title: String = todo.title.clone();
                Self::add_message(out, ViewMessage::EditItemDone(id, title));
            }
        }
    }

    /// Remove all completed items.
    fn remove_completed_items(&mut self, out: &mut Vec<ViewMessage>)
        ensures
            final(self)@ == step(old(self)@, ControllerMessage::RemoveCompleted(), 0).0,
            requests(final(out)@) == requests(old(out)@) + step(
                old(self)@,
                ControllerMessage::RemoveCompleted(),
                0,
            ).1,
            final(self).unsaved() == (old(self).unsaved() || old(self)@.items is Some),
            final(self).storage_name() == old(self).storage_name(),
    {
        let ghost d = self@;
        self.store.remove(ItemQuery::Completed { completed: true });
        assert(self@ == with_items(
            d,
            |items: Seq<ItemData>| unselected(items, ItemQuery::Completed { completed: true }),
        ));
        self._filter(false, out);
    }

    /// Update an Item in storage based on the state of completed.
    fn toggle_completed(&mut self, id: String, completed: bool, out: &mut Vec<ViewMessage>)
        ensures
            final(self)@ == completed_set(old(self)@, id@, completed).0,
            requests(final(out)@) == requests(old(out)@) + completed_set(
                old(self)@,
                id@,
                completed,
            ).1,
            final(self).unsaved() == (old(self).unsaved() || old(self)@.items is Some),
            final(self).storage_name() == old(self).storage_name(),
    {
        let ghost d = self@;
        self.store.update(ItemUpdate::Completed { id: id.clone(), completed });
        assert(self@ == with_items(
            d,
            |items: Seq<ItemData>| with_completed(items, id@, completed),
        ));
        Self::add_message(out, ViewMessage::SetItemComplete(id, completed));
    }

    /// Set all items to complete or active.
    fn toggle_all(&mut self, completed: bool, out: &mut Vec<ViewMessage>)
        ensures
            final(self)@ == step(old(self)@, ControllerMessage::ToggleAll(completed), 0).0,
            requests(final(out)@) == requests(old(out)@) + step(
                old(self)@,
                ControllerMessage::ToggleAll(completed),
                0,
            ).1,
            final(self).unsaved() == (old(self).unsaved() || writes(
                old(self)@,
                ControllerMessage::ToggleAll(completed),
            )),
            final(self).storage_name() == old(self).storage_name(),
    {
        let ghost d = self@;
        let ghost ids = ids_to_toggle(d, completed);
        let ghost out0 = requests(out@);
        let mut vals: Vec<String> = Vec::new();
        if let Some(data) = self.store.find(ItemQuery::Completed { completed: !completed }) {
            let n: usize = data.length();
            let mut k: usize = 0;
            while k < n
                invariant
                    n == data.elements().len(),
                    data@ == data.elements().map_values(|i: &Item| i@),
                    k <= n,
                    vals@.len() == k,
                    string_views(vals@) == ids_of(data@.take(k as int)),
                decreases n - k,
            {
                let item = data.get(k).unwrap();
                assert(data@[k as int] == data.elements()[k as int]@);
                assert(item.id@ == data@[k as int].id);
                let ghost before = vals@;
                vals.push(item.id.clone());
                assert(data@.take(k + 1) =~= data@.take(k as int).push(data@[k as int]));
                assert(vals@ =~= before.push(vals@[k as int]));
                assert(vals@[k as int]@ == data@[k as int].id);
                assert forall|j: int| 0 <= j < k + 1 implies #[trigger] string_views(vals@)[j]
                    == ids_of(data@.take(k + 1))[j] by {
                    if j < k {
                        assert(string_views(before)[j] == ids_of(data@.take(k as int))[j]);
                    }
                }
                assert(string_views(vals@) =~= ids_of(data@.take(k + 1)));
                k = k + 1;
            }
            assert(data@.take(n as int) =~= data@);
        }
        assert(string_views(vals@) =~= ids);
        let m: usize = vals.len();
        let mut k: usize = 0;
        assert(ids.take(0) =~= Seq::<Seq<char>>::empty());
        while k < m
            invariant
                m == vals@.len(),
                string_views(vals@) == ids,
                k <= m,
                self@ == all_completed_set(d, ids.take(k as int), completed).0,
                requests(out@) == out0 + all_completed_set(d, ids.take(k as int), completed).1,
                self.unsaved() == (old(self).unsaved() || (k > 0 && d.items is Some)),
                self.storage_name() == old(self).storage_name(),
                self@.items is Some == d.items is Some,
            decreases m - k,
        {
            let id: String = vals[k].clone();
            assert(ids.take(k + 1).drop_last() =~= ids.take(k as int));
            assert(ids.take(k + 1).last() == id@);
            self.toggle_completed(id, completed, out);
            assert(requests(out@) =~= out0 + all_completed_set(d, ids.take(k + 1), completed).1);
            k = k + 1;
        }
        assert(ids.take(m as int) =~= ids);
        self._filter(false, out);
        assert(requests(out@) =~= out0 + step(d, ControllerMessage::ToggleAll(completed), 0).1);
    }

    fn toggle_item(&mut self, id: u64, completed: bool, out: &mut Vec<ViewMessage>)
        ensures
            final(self)@ == step(old(self)@, ControllerMessage::ToggleItem(id, completed), 0).0,
            requests(final(out)@) == requests(old(out)@) + step(
                old(self)@,
                ControllerMessage::ToggleItem(id, completed),
                0,
            ).1,
            final(self).unsaved() == (old(self).unsaved() || old(self)@.items is Some),
            final(self).storage_name() == old(self).storage_name(),
    {
        let ghost d = self@;
        let ghost out0 = requests(out@);
        self.toggle_completed(decimal_string(id), completed, out);
        self._filter(completed, out);
        assert(requests(out@) =~= out0 + step(d, ControllerMessage::ToggleItem(id, completed), 0).1);
    }

    /// Handles `method_name`, an added item getting the decimal notation of
    /// `now` as its id, and returns what it asks of the view, in order.
    pub fn call_at(&mut self, method_name: ControllerMessage, now: u64) -> (res: Vec<ViewMessage>)
        ensures
            final(self)@ == step(old(self)@, method_name, now).0,
            requests(res@) == step(old(self)@, method_name, now).1,
            final(self).unsaved() == (old(self).unsaved() || writes(old(self)@, method_name)),
            final(self).storage_name() == old(self).storage_name(),
    {
        let mut out: Vec<ViewMessage> = Vec::new();
        assert(requests(out@) =~= Seq::<ViewRequest>::empty());
        let ghost d = self@;
        let ghost out0 = requests(out@);
        match method_name {
            ControllerMessage::AddItem(title) => self.add_item_at(now, title, &mut out),
            ControllerMessage::SetPage(hash) => self.set_page(hash, &mut out),
            ControllerMessage::EditItemSave(id, value) => self.edit_item_save(id, value, &mut out),
            ControllerMessage::EditItemCancel(id) => self.edit_item_cancel(id, &mut out),
            ControllerMessage::RemoveCompleted() => self.remove_completed_items(&mut out),
            ControllerMessage::RemoveItem(id) => self.remove_item(decimal_string(id), &mut out),
            ControllerMessage::ToggleAll(completed) => self.toggle_all(completed, &mut out),
            ControllerMessage::ToggleItem(id, completed) => self.toggle_item(id, completed, &mut out),
        }
        assert(requests(out@) =~= out0 + step(d, method_name, now).1);
        out
    }

    /// Handles `method_name` and returns what it asks of the view, in order.
    /// An added item gets the current time in milliseconds as its id.
    pub fn call(&mut self, method_name: ControllerMessage) -> (res: Vec<ViewMessage>)
        ensures
            exists|now: u64|
                {
                    &&& final(self)@ == #[trigger] step(old(self)@, method_name, now).0
                    &&& requests(res@) == step(old(self)@, method_name, now).1
                },
            final(self).unsaved() == (old(self).unsaved() || writes(old(self)@, method_name)),
            final(self).storage_name() == old(self).storage_name(),
    {
        let now: u64 = match &method_name {
            ControllerMessage::AddItem(_) => date_now(),
            _ => 0,
        };
        self.call_at(method_name, now)
    }

    pub fn store_name(&self) -> (res: &str)
        ensures
            res@ == self.storage_name(),
    {
        self.store.name()
    }

    pub fn is_loaded(&self) -> (res: bool)
        ensures
            res == self@.items is Some,
    {
        self.store.is_loaded()
    }

    /// The entries to write to local storage, once after each change of the list.
    pub fn take_unsaved(&mut self) -> (res: Option<Vec<StoredEntry>>)
        ensures
            res is Some <==> (old(self).unsaved() && old(self)@.items is Some),
            res matches Some(es) ==> es@.len() == old(self)@.items->0.len() && forall|k: int|
                0 <= k < es@.len() ==> is_entry_of(#[trigger] es@[k], old(self)@.items->0[k]),
            final(self)@ == old(self)@,
            final(self).storage_name() == old(self).storage_name(),
            !final(self).unsaved(),
    {
        self.store.take_unsaved()
    }

    /// The text to write to local storage after a change of the store's list,
    /// once after each change: loading it gives the list back.
    pub fn save_text(&mut self) -> (res: Option<String>)
        ensures
            res is Some <==> (old(self).unsaved() && old(self)@.items is Some),
            res matches Some(t) ==> text_items(t@) == old(self)@.items->0,
            final(self)@ == old(self)@,
            final(self).storage_name() == old(self).storage_name(),
            !final(self).unsaved(),
    {
        self.store.save_text()
    }

}

/// Marking the items of each id of `ids` keeps the list's length, ids and
/// titles, and makes each item with one of the ids `completed`.
proof fn lemma_all_completed_set(d: ControllerData, ids: Seq<Seq<char>>, completed: bool)
    requires
        d.items is Some,
    ensures
        ({
            let r = all_completed_set(d, ids, completed).0;
            let before = d.items->0;
            &&& r.active_route == d.active_route
            &&& r.last_active_route == d.last_active_route
            &&& r.items is Some
            &&& r.items->0.len() == before.len()
            &&& forall|i: int|
                0 <= i < before.len() ==> {
                    &&& (#[trigger] r.items->0[i]).id == before[i].id
                    &&& r.items->0[i].title == before[i].title
                    &&& r.items->0[i].completed == if ids.contains(before[i].id) {
                        completed
                    } else {
                        before[i].completed
                    }
                }
        }),
    decreases ids.len(),
{
    if ids.len() > 0 {
        lemma_all_completed_set(d, ids.drop_last(), completed);
        let d1 = all_completed_set(d, ids.drop_last(), completed).0;
        let before = d.items->0;
        let r = all_completed_set(d, ids, completed).0;
        assert forall|i: int| 0 <= i < before.len() implies {
            &&& (#[trigger] r.items->0[i]).id == before[i].id
            &&& r.items->0[i].title == before[i].title
            &&& r.items->0[i].completed == if ids.contains(before[i].id) {
                completed
            } else {
                before[i].completed
            }
        } by {
            assert(d1.items->0[i].id == before[i].id);
            assert(ids.contains(before[i].id) == (ids.drop_last().contains(before[i].id) || ids.last()
                == before[i].id)) by {
                if ids.contains(before[i].id) {
                    let j = choose|j: int| 0 <= j < ids.len() && ids[j] == before[i].id;
                    if j < ids.len() - 1 {
                        assert(ids.drop_last()[j] == before[i].id);
                    }
                }
                if ids.drop_last().contains(before[i].id) {
                    let j = choose|j: int|
                        0 <= j < ids.drop_last().len() && ids.drop_last()[j] == before[i].id;
                    assert(ids[j] == before[i].id);
                }
                if ids.last() == before[i].id {
                    assert(ids[ids.len() - 1] == before[i].id);
                }
            }
        }
    }
}

/// "Toggle all" marks every item as the checkbox says, and keeps the items,
/// their ids and their titles.
pub proof fn lemma_toggle_all(d: ControllerData, completed: bool, now: u64)
    requires
        d.items is Some,
    ensures
        ({
            let after = step(d, ControllerMessage::ToggleAll(completed), now).0.items;
            let before = d.items->0;
            &&& after is Some
            &&& after->0.len() == before.len()
            &&& forall|i: int|
                0 <= i < before.len() ==> {
                    &&& (#[trigger] after->0[i]).completed == completed
                    &&& after->0[i].id == before[i].id
                    &&& after->0[i].title == before[i].title
                }
        }),
{
    let before = d.items->0;
    let ids = ids_to_toggle(d, completed);
    lemma_all_completed_set(d, ids, completed);
    let q = ItemQuery::Completed { completed: !completed };
    assert forall|i: int| 0 <= i < before.len() && before[i].completed != completed implies ids.contains(
        before[i].id,
    ) by {
        before.lemma_filter_contains(crate::store::selected_by(q), i);
        let f = selected(before, q);
        let j = choose|j: int| 0 <= j < f.len() && f[j] == before[i];
        assert(ids[j] == before[i].id);
    }
}

/// "Clear completed" leaves exactly the active items, in order: none of them
/// is completed.
pub proof fn lemma_remove_completed(d: ControllerData, now: u64)
    requires
        d.items is Some,
    ensures
        ({
            let after = step(d, ControllerMessage::RemoveCompleted(), now).0.items;
            &&& after == Some(unselected(d.items->0, ItemQuery::Completed { completed: true }))
            &&& forall|i: int| 0 <= i < after->0.len() ==> !(#[trigger] after->0[i]).completed
            &&& forall|x: ItemData|
                #[trigger] after->0.contains(x) <==> (d.items->0.contains(x) && !x.completed)
        }),
{
    let q = ItemQuery::Completed { completed: true };
    let p = crate::store::not_selected_by(q);
    let before = d.items->0;
    assert forall|x: ItemData| #[trigger] unselected(before, q).contains(x) <==> (before.contains(x)
        && !x.completed) by {
        let f = unselected(before, q);
        assert(p(x) == !x.completed);
        if f.contains(x) {
            before.lemma_filter_contains_rev(p, x);
            let j = choose|j: int| 0 <= j < f.len() && f[j] == x;
            before.lemma_filter_pred(p, j);
        }
        if before.contains(x) && !x.completed {
            let i = choose|i: int| 0 <= i < before.len() && before[i] == x;
            before.lemma_filter_contains(p, i);
        }
    }
    let after = unselected(d.items->0, q);
    assert forall|i: int| 0 <= i < after.len() implies !(#[trigger] after[i]).completed by {
        d.items->0.lemma_filter_pred(crate::store::not_selected_by(q), i);
    }
}

/// Removing an item leaves no item with its id, and keeps every other item.
pub proof fn lemma_remove_item(d: ControllerData, id: u64, now: u64)
    requires
        d.items is Some,
    ensures
        ({
            let after = step(d, ControllerMessage::RemoveItem(id), now).0.items;
            &&& after == Some(without_id(d.items->0, decimal(id as nat)))
            &&& forall|i: int|
                0 <= i < after->0.len() ==> (#[trigger] after->0[i]).id != decimal(id as nat)
            &&& forall|x: ItemData|
                #[trigger] after->0.contains(x) <==> (d.items->0.contains(x) && x.id != decimal(
                    id as nat,
                ))
        }),
{
    let p = |it: ItemData| it.id != decimal(id as nat);
    let before = d.items->0;
    assert forall|x: ItemData| #[trigger] without_id(before, decimal(id as nat)).contains(x) <==> (
    before.contains(x) && x.id != decimal(id as nat)) by {
        let f = without_id(before, decimal(id as nat));
        if f.contains(x) {
            before.lemma_filter_contains_rev(p, x);
            let j = choose|j: int| 0 <= j < f.len() && f[j] == x;
            before.lemma_filter_pred(p, j);
        }
        if before.contains(x) && x.id != decimal(id as nat) {
            let i = choose|i: int| 0 <= i < before.len() && before[i] == x;
            before.lemma_filter_contains(p, i);
        }
    }
    let after = without_id(d.items->0, decimal(id as nat));
    assert forall|i: int| 0 <= i < after.len() implies (#[trigger] after[i]).id != decimal(
        id as nat,
    ) by {
        d.items->0.lemma_filter_pred(|it: ItemData| it.id != decimal(id as nat), i);
    }
}

/// Adding an item appends it, active and with the given title, to the list,
/// and the new-todo field is cleared before anything else is shown.
pub proof fn lemma_add_item(d: ControllerData, title: String, now: u64)
    requires
        d.items is Some,
    ensures
        ({
            let (after, out) = step(d, ControllerMessage::AddItem(title), now);
            &&& after.items == Some(
                d.items->0.push(ItemData { id: decimal(now as nat), title: title@, completed: false }),
            )
            &&& out[0] == ViewRequest::ClearNewTodo
        }),
{
}

/// Each refresh reports the counts of the list as `count` gives them: the
/// number of active items, whether any is completed, whether all are, and
/// whether there is any item at all.
pub proof fn lemma_refresh_counts(d: ControllerData, force: bool)
    requires
        d.items is Some,
    ensures
        ({
            let out = refreshed(d, force).1;
            let items = d.items->0;
            &&& out.len() >= 4
            &&& out[out.len() - 4] == ViewRequest::SetItemsLeft(
                selected(items, ItemQuery::Completed { completed: false }).len(),
            )
            &&& out[out.len() - 3] == ViewRequest::SetClearCompletedButtonVisibility(
                selected(items, ItemQuery::Completed { completed: true }).len() > 0,
            )
            &&& out[out.len() - 2] == ViewRequest::SetCompleteAllCheckbox(
                selected(items, ItemQuery::Completed { completed: true }).len() == items.len(),
            )
            &&& out[out.len() - 1] == ViewRequest::SetMainVisibility(items.len() > 0)
        }),
{
    let items = d.items->0;
    crate::store::lemma_count_matches_find(items);
    items.lemma_filter_len(crate::store::is_completed());
}

/// Setting the page from the location hash `#/` + `route` makes `route` the
/// current route: the list shown is the one its query selects, and the filter
/// buttons are updated for it.
pub proof fn lemma_set_page_route(d: ControllerData, raw: String, route: Seq<char>, now: u64)
    requires
        raw@ == seq!['#', '/'] + route,
    ensures
        ({
            let (after, out) = step(d, ControllerMessage::SetPage(raw), now);
            &&& after.active_route == route
            &&& after.last_active_route == route
            &&& out.last() == ViewRequest::UpdateFilterButtons(route)
            &&& (d.items is Some && (d.last_active_route.len() != 0 || d.last_active_route != route)
                ==> out[0] == ViewRequest::ShowItems(selected(d.items->0, route_query(route))))
            &&& forall|k: int|
                0 <= k < out.len() && (#[trigger] out[k]) is ShowItems ==> d.items is Some && (
                d.last_active_route.len() != 0 || d.last_active_route != route)
        }),
{
    assert(raw@.skip(2) =~= route);
    let (after, out) = step(d, ControllerMessage::SetPage(raw), now);
    let d0 = ControllerData { active_route: route, ..d };
    let o = refreshed(d0, false).1;
    assert(out == o.push(ViewRequest::UpdateFilterButtons(route)));
    assert forall|k: int| 0 <= k < out.len() && (#[trigger] out[k]) is ShowItems implies d.items is Some
        && (d.last_active_route.len() != 0 || d.last_active_route != route) by {
        if k < o.len() {
            assert(out[k] == o[k]);
            if d.items is Some {
                let counts = count_requests(d.items->0);
                if !shows_list(d0, false) {
                    assert(o[k] == counts[k]);
                }
            }
        }
    }
}


/// Every list that `out` asks the view to show is the list of `d` as its
/// route filters it, and every count of items left is that of the list of `d`.
spec fn reports_list(out: Seq<ViewRequest>, d: ControllerData) -> bool {
    &&& forall|k: int|
        0 <= k < out.len() && (#[trigger] out[k]) is ShowItems ==> {
            &&& d.items is Some
            &&& out[k]->ShowItems_0 == selected(d.items->0, route_query(d.active_route))
        }
    &&& forall|k: int|
        0 <= k < out.len() && (#[trigger] out[k]) is SetItemsLeft ==> {
            &&& d.items is Some
            &&& out[k]->SetItemsLeft_0 == d.items->0.len() - completed_count(d.items->0)
        }
}

proof fn lemma_reports_list_add(a: Seq<ViewRequest>, b: Seq<ViewRequest>, d: ControllerData)
    requires
        reports_list(a, d),
        reports_list(b, d),
    ensures
        reports_list(a + b, d),
{
    assert forall|k: int| 0 <= k < (a + b).len() implies #[trigger] (a + b)[k] == if k < a.len() {
        a[k]
    } else {
        b[k - a.len()]
    } by {}
}

/// A refresh keeps the list and the route, and shows no list but the one the
/// route filters.
proof fn lemma_refreshed_shows(d: ControllerData, force: bool)
    ensures
        refreshed(d, force).0.items == d.items,
        refreshed(d, force).0.active_route == d.active_route,
        reports_list(refreshed(d, force).1, d),
{
    let o = refreshed(d, force).1;
    assert forall|k: int| 0 <= k < o.len() implies {
        &&& (#[trigger] o[k]) is ShowItems ==> {
            &&& d.items is Some
            &&& o[k]->ShowItems_0 == selected(d.items->0, route_query(d.active_route))
        }
        &&& o[k] is SetItemsLeft ==> {
            &&& d.items is Some
            &&& o[k]->SetItemsLeft_0 == d.items->0.len() - completed_count(d.items->0)
        }
    } by {
        if d.items is Some {
            let counts = count_requests(d.items->0);
            if shows_list(d, force) {
                if k > 0 {
                    assert(o[k] == counts[k - 1]);
                }
            } else {
                assert(o[k] == counts[k]);
            }
        }
    }
}

/// Marking items asks only for items to be marked, and keeps the route.
proof fn lemma_all_completed_set_requests(d: ControllerData, ids: Seq<Seq<char>>, completed: bool)
    ensures
        forall|k: int|
            0 <= k < all_completed_set(d, ids, completed).1.len() ==> (#[trigger] all_completed_set(
                d,
                ids,
                completed,
            ).1[k]) is SetItemComplete,
        all_completed_set(d, ids, completed).0.active_route == d.active_route,
    decreases ids.len(),
{
    if ids.len() > 0 {
        lemma_all_completed_set_requests(d, ids.drop_last(), completed);
        let o1 = all_completed_set(d, ids.drop_last(), completed).1;
        let o = all_completed_set(d, ids, completed).1;
        assert forall|k: int| 0 <= k < o.len() implies (#[trigger] o[k]) is SetItemComplete by {
            if k < o1.len() {
                assert(o[k] == o1[k]);
            }
        }
    }
}

/// The items that the query of `route` selects are the items of the list that
/// the route lets through: the active ones on "active", the completed ones on
/// "completed", and every item on any other route.
pub proof fn lemma_route_selection(items: Seq<ItemData>, route: Seq<char>)
    ensures
        forall|x: ItemData|
            #[trigger] selected(items, route_query(route)).contains(x) <==> {
                &&& items.contains(x)
                &&& route == "active"@ ==> !x.completed
                &&& route == "completed"@ ==> x.completed
            },
        route != "active"@ && route != "completed"@ ==> selected(items, route_query(route))
            == items,
{
    reveal_strlit("active");
    reveal_strlit("completed");
    let q = route_query(route);
    let f = selected(items, q);
    assert forall|x: ItemData| #[trigger] f.contains(x) <==> {
        &&& items.contains(x)
        &&& route == "active"@ ==> !x.completed
        &&& route == "completed"@ ==> x.completed
    } by {
        assert("active"@.len() != "completed"@.len());
        assert(crate::store::selected_by(q)(x) == q.selects(x));
        assert(q.selects(x) <==> ((route == "active"@ ==> !x.completed) && (route == "completed"@
            ==> x.completed)));
        if f.contains(x) {
            items.lemma_filter_contains_rev(crate::store::selected_by(q), x);
            let j = choose|j: int| 0 <= j < f.len() && f[j] == x;
            items.lemma_filter_pred(crate::store::selected_by(q), j);
        }
        if items.contains(x) && (route == "active"@ ==> !x.completed) && (route == "completed"@
            ==> x.completed) {
            let i = choose|i: int| 0 <= i < items.len() && items[i] == x;
            items.lemma_filter_contains(crate::store::selected_by(q), i);
        }
    }
    if route != "active"@ && route != "completed"@ {
        crate::store::lemma_select_all(items);
    }
}

/// Whatever the message, each list that the view is asked to show is the
/// store's list after the message as the current route filters it, in the
/// store's order: on "active" exactly the active items, on "completed"
/// exactly the completed ones, on any other route every item.  Adding or
/// toggling an item shows the list in the same way as any other change.
/// Each count of items left that the view is given is the number of active
/// items of the store's list after the message.
pub proof fn lemma_shown_list(d: ControllerData, msg: ControllerMessage, now: u64)
    ensures
        ({
            let (after, out) = step(d, msg, now);
            &&& forall|k: int|
                0 <= k < out.len() && (#[trigger] out[k]) is ShowItems ==> {
                    let shown = out[k]->ShowItems_0;
                    &&& after.items is Some
                    &&& shown == selected(after.items->0, route_query(after.active_route))
                    &&& forall|x: ItemData|
                        #[trigger] shown.contains(x) <==> {
                            &&& after.items->0.contains(x)
                            &&& after.active_route == "active"@ ==> !x.completed
                            &&& after.active_route == "completed"@ ==> x.completed
                        }
                }
            &&& forall|k: int|
                0 <= k < out.len() && (#[trigger] out[k]) is SetItemsLeft ==> {
                    &&& after.items is Some
                    &&& out[k]->SetItemsLeft_0 == after.items->0.filter(
                        |it: ItemData| !it.completed,
                    ).len()
                }
        }),
{
    let (after, out) = step(d, msg, now);
    match msg {
        ControllerMessage::AddItem(title) => {
            let item = ItemData { id: decimal(now as nat), title: title@, completed: false };
            let d0 = with_items(d, |items: Seq<ItemData>| items.push(item));
            lemma_refreshed_shows(d0, true);
            let pre = seq![ViewRequest::ClearNewTodo];
            assert(reports_list(pre, after));
            lemma_reports_list_add(pre, refreshed(d0, true).1, after);
        },
        ControllerMessage::SetPage(raw) => {
            let d0 = ControllerData { active_route: route_of_hash(raw@), ..d };
            lemma_refreshed_shows(d0, false);
            let post = seq![ViewRequest::UpdateFilterButtons(route_of_hash(raw@))];
            assert(reports_list(post, after));
            lemma_reports_list_add(refreshed(d0, false).1, post, after);
            assert(out == refreshed(d0, false).1 + post);
        },
        ControllerMessage::EditItemSave(id, title) => {
            if title@.len() != 0 {
                assert(reports_list(out, after));
            } else {
                let key = decimal(id as nat);
                let d0 = with_items(d, |items: Seq<ItemData>| without_id(items, key));
                lemma_refreshed_shows(d0, false);
                let post = seq![ViewRequest::RemoveItem(key)];
                assert(reports_list(post, after));
                lemma_reports_list_add(refreshed(d0, false).1, post, after);
                assert(out == refreshed(d0, false).1 + post);
            }
        },
        ControllerMessage::EditItemCancel(id) => {
            assert(reports_list(out, after));
        },
        ControllerMessage::RemoveCompleted() => {
            let d0 = with_items(
                d,
                |items: Seq<ItemData>| unselected(items, ItemQuery::Completed { completed: true }),
            );
            lemma_refreshed_shows(d0, false);
        },
        ControllerMessage::RemoveItem(id) => {
            let key = decimal(id as nat);
            let d0 = with_items(d, |items: Seq<ItemData>| without_id(items, key));
            lemma_refreshed_shows(d0, false);
            let post = seq![ViewRequest::RemoveItem(key)];
            assert(reports_list(post, after));
            lemma_reports_list_add(refreshed(d0, false).1, post, after);
            assert(out == refreshed(d0, false).1 + post);
        },
        ControllerMessage::ToggleAll(completed) => {
            let ids = ids_to_toggle(d, completed);
            let (d1, o1) = all_completed_set(d, ids, completed);
            lemma_all_completed_set_requests(d, ids, completed);
            lemma_refreshed_shows(d1, false);
            assert(reports_list(o1, after));
            lemma_reports_list_add(o1, refreshed(d1, false).1, after);
        },
        ControllerMessage::ToggleItem(id, completed) => {
            let (d1, o1) = completed_set(d, decimal(id as nat), completed);
            lemma_refreshed_shows(d1, completed);
            assert(reports_list(o1, after));
            lemma_reports_list_add(o1, refreshed(d1, completed).1, after);
        },
    }
    assert(reports_list(out, after));
    assert forall|k: int| 0 <= k < out.len() && (#[trigger] out[k]) is ShowItems implies {
        let shown = out[k]->ShowItems_0;
        &&& after.items is Some
        &&& shown == selected(after.items->0, route_query(after.active_route))
        &&& forall|x: ItemData|
            #[trigger] shown.contains(x) <==> {
                &&& after.items->0.contains(x)
                &&& after.active_route == "active"@ ==> !x.completed
                &&& after.active_route == "completed"@ ==> x.completed
            }
    } by {
        lemma_route_selection(after.items->0, after.active_route);
    }
    if after.items is Some {
        let items = after.items->0;
        let active = ItemQuery::Completed { completed: false };
        crate::store::lemma_count_matches_find(items);
        assert(crate::store::selected_by(active) =~= (|it: ItemData| !it.completed));
        items.lemma_filter_len(crate::store::is_completed());
    }
}

/// Adding an item shows the list again at once, right after the new-todo
/// field is cleared: on any route but "completed" the new item is in it, and
/// on "active" no item in it is completed.
pub proof fn lemma_add_item_shown(d: ControllerData, title: String, now: u64)
    requires
        d.items is Some,
    ensures
        ({
            let (after, out) = step(d, ControllerMessage::AddItem(title), now);
            let item = ItemData { id: decimal(now as nat), title: title@, completed: false };
            &&& out.len() > 1
            &&& out[1] is ShowItems
            &&& d.active_route != "completed"@ ==> out[1]->ShowItems_0.contains(item)
            &&& d.active_route == "active"@ ==> forall|i: int|
                0 <= i < out[1]->ShowItems_0.len() ==> !(#[trigger] out[1]->ShowItems_0[i]).completed
        }),
{
    let msg = ControllerMessage::AddItem(title);
    let (after, out) = step(d, msg, now);
    let item = ItemData { id: decimal(now as nat), title: title@, completed: false };
    lemma_shown_list(d, msg, now);
    assert(out[1] is ShowItems);
    let shown = out[1]->ShowItems_0;
    let items = after.items->0;
    assert(items == d.items->0.push(item));
    assert(items[items.len() - 1] == item);
    assert(items.contains(item));
    if d.active_route == "active"@ {
        assert forall|i: int| 0 <= i < shown.len() implies !(#[trigger] shown[i]).completed by {
            assert(shown.contains(shown[i]));
        }
    }
}

/// Toggling an item sets the completed state of the items with its id to the
/// state asked for and keeps everything else of the list, and the view is
/// first asked to mark it so.
pub proof fn lemma_toggle_item(d: ControllerData, id: u64, completed: bool, now: u64)
    requires
        d.items is Some,
    ensures
        ({
            let (after, out) = step(d, ControllerMessage::ToggleItem(id, completed), now);
            let before = d.items->0;
            &&& after.items is Some
            &&& after.items->0.len() == before.len()
            &&& forall|i: int|
                0 <= i < before.len() ==> {
                    &&& (#[trigger] after.items->0[i]).id == before[i].id
                    &&& after.items->0[i].title == before[i].title
                    &&& after.items->0[i].completed == if before[i].id == decimal(id as nat) {
                        completed
                    } else {
                        before[i].completed
                    }
                }
            &&& out[0] == ViewRequest::SetItemComplete(decimal(id as nat), completed)
        }),
{
    let (d1, o1) = completed_set(d, decimal(id as nat), completed);
    lemma_refreshed_shows(d1, completed);
}

/// Saving an edit with a title sets the title of the items with the id and
/// keeps everything else of the list, their completed state included, and
/// asks the view to show the title; saving an empty title removes the item.
pub proof fn lemma_edit_item_save(d: ControllerData, id: u64, title: String, now: u64)
    requires
        d.items is Some,
    ensures
        ({
            let (after, out) = step(d, ControllerMessage::EditItemSave(id, title), now);
            let before = d.items->0;
            title@.len() != 0 ==> {
                &&& after.items is Some
                &&& after.items->0.len() == before.len()
                &&& forall|i: int|
                    0 <= i < before.len() ==> {
                        &&& (#[trigger] after.items->0[i]).id == before[i].id
                        &&& after.items->0[i].completed == before[i].completed
                        &&& after.items->0[i].title == if before[i].id == decimal(id as nat) {
                            title@
                        } else {
                            before[i].title
                        }
                    }
                &&& after.active_route == d.active_route
                &&& after.last_active_route == d.last_active_route
                &&& out == seq![ViewRequest::EditItemDone(decimal(id as nat), title@)]
            }
        }),
        title@.len() == 0 ==> step(d, ControllerMessage::EditItemSave(id, title), now) == step(
            d,
            ControllerMessage::RemoveItem(id),
            now,
        ),
{
}

/// The first item of `s` that `p` holds of is the first item of `s.filter(p)`.
proof fn lemma_filter_first<A>(s: Seq<A>, p: spec_fn(A) -> bool)
    requires
        s.filter(p).len() > 0,
    ensures
        exists|k: int|
            0 <= k < s.len() && s[k] == s.filter(p)[0] && p(s[k]) && forall|j: int|
                0 <= j < k ==> !p(#[trigger] s[j]),
    decreases s.len(),
{
    reveal(Seq::filter);
    let rest = s.drop_last();
    let sub = rest.filter(p);
    if sub.len() > 0 {
        lemma_filter_first(rest, p);
        let k = choose|k: int|
            0 <= k < rest.len() && rest[k] == sub[0] && p(rest[k]) && forall|j: int|
                0 <= j < k ==> !p(#[trigger] rest[j]);
        assert(s.filter(p)[0] == sub[0]);
        assert(s[k] == rest[k]);
        assert forall|j: int| 0 <= j < k implies !p(#[trigger] s[j]) by {
            assert(s[j] == rest[j]);
        }
    } else {
        let k = s.len() - 1;
        assert(s.filter(p) == sub.push(s.last()));
        assert forall|j: int| 0 <= j < k implies !p(#[trigger] s[j]) by {
            if p(s[j]) {
                assert(s[j] == rest[j]);
                rest.lemma_filter_contains(p, j);
            }
        }
    }
}

/// Cancelling an edit changes nothing; when an item has the id, the view is
/// asked to show again the title of the first item with that id, and else
/// nothing is asked.
pub proof fn lemma_edit_item_cancel(d: ControllerData, id: u64, now: u64)
    ensures
        ({
            let (after, out) = step(d, ControllerMessage::EditItemCancel(id), now);
            let key = decimal(id as nat);
            let items = d.items->0;
            let found = d.items is Some && exists|k: int| 0 <= k < items.len() && #[trigger] items[k].id == key;
            &&& after == d
            &&& found ==> exists|k: int|
                0 <= k < items.len() && #[trigger] items[k].id == key && out == seq![
                    ViewRequest::EditItemDone(key, items[k].title),
                ] && forall|j: int| 0 <= j < k ==> (#[trigger] items[j]).id != key
            &&& !found ==> out.len() == 0
        }),
{
    let key = decimal(id as nat);
    if d.items is Some {
        let items = d.items->0;
        let p = |it: ItemData| it.id == key;
        let f = having_id(items, key);
        if exists|k: int| 0 <= k < items.len() && #[trigger] items[k].id == key {
            let k = choose|k: int| 0 <= k < items.len() && #[trigger] items[k].id == key;
            items.lemma_filter_contains(p, k);
            assert(f.len() > 0);
            lemma_filter_first(items, p);
        } else if f.len() > 0 {
            items.lemma_filter_pred(p, 0);
            assert(f.contains(f[0]));
            items.lemma_filter_contains_rev(p, f[0]);
            let i = choose|i: int| 0 <= i < items.len() && items[i] == f[0];
            assert(items[i].id == key);
        }
    }
}

} // verus!
