//! The todo store: items, lists of items, queries and updates, and the store
//! that keeps the list loaded from the browser's local storage.
//!
//! The store is handed the entries read from local storage and hands back the
//! entries to write; `json.rs` turns them into the stored text and back.

use vstd::prelude::*;

verus! {

/// What a todo item holds, as plain values.
pub struct ItemData {
    pub id: Seq<char>,
    pub title: Seq<char>,
    pub completed: bool,
}

/// Represents a todo item
pub struct Item {
    pub id: String,
    pub title: String,
    pub completed: bool,
}

impl View for Item {
    type V = ItemData;

    open spec fn view(&self) -> ItemData {
        ItemData { id: self.id@, title: self.title@, completed: self.completed }
    }
}

impl Item {
    /// A fresh item with the same id, title and state.
    pub fn copy(&self) -> (res: Item)
        ensures
            res@ == self@,
    {
        Item { id: self.id.clone(), title: self.title.clone(), completed: self.completed }
    }

    /// Applies `update` to this item: its title or its completed state changes.
    pub fn update(&mut self, update: &ItemUpdate)
        ensures
            final(self)@ == update.applied_to(old(self)@),
    {
        match update {
            ItemUpdate::Title { title, .. } => {
                self.title = title.clone();
            },
            ItemUpdate::Completed { completed, .. } => {
                self.completed = *completed;
            },
        }
    }
}

/// The plain values of a sequence of items.
pub open spec fn views_of(items: Seq<Item>) -> Seq<ItemData> {
    items.map_values(|i: Item| i@)
}

/// The operations common to the owned and the borrowed lists of items.
pub trait ItemListTrait<T>: Sized {
    /// The elements of the list, in order.
    spec fn elements(&self) -> Seq<T>;

    fn new() -> (res: Self)
        ensures
            res.elements() == Seq::<T>::empty(),
    ;

    fn get(&self, i: usize) -> (res: Option<&T>)
        ensures
            res is Some <==> i < self.elements().len(),
            res matches Some(x) ==> *x == self.elements()[i as int],
    ;

    fn length(&self) -> (res: usize)
        ensures
            res == self.elements().len(),
    ;

    fn push(&mut self, item: T)
        ensures
            final(self).elements() == old(self).elements().push(item),
    ;

    fn iter(&self) -> (res: std::slice::Iter<'_, T>)
        ensures
            vstd::std_specs::iter::IteratorSpec::remaining(&res) == self.elements().as_ref(),
            vstd::std_specs::iter::IteratorSpec::decrease(&res) is Some,
            vstd::std_specs::iter::IteratorSpec::initial_value_relation(&res, &res),
    ;
}

/// A list of todo items
pub struct ItemList {
    list: Vec<Item>,
}

impl View for ItemList {
    type V = Seq<ItemData>;

    open spec fn view(&self) -> Seq<ItemData> {
        views_of(self.elements())
    }
}

impl ItemListTrait<Item> for ItemList {
    closed spec fn elements(&self) -> Seq<Item> {
        self.list@
    }

    fn new() -> (res: ItemList) {
        ItemList { list: Vec::new() }
    }

    fn get(&self, i: usize) -> (res: Option<&Item>) {
        if i < self.list.len() {
            Some(&self.list[i])
        } else {
            None
        }
    }

    fn length(&self) -> (res: usize) {
        self.list.len()
    }

    fn push(&mut self, item: Item) {
        self.list.push(item)
    }

    fn iter(&self) -> (res: std::slice::Iter<'_, Item>) {
        self.list.iter()
    }
}


impl ItemList {
    /// The items of the list, one by one, in order.
    pub fn into_iter(self) -> (res: std::vec::IntoIter<Item>)
        ensures
            vstd::std_specs::iter::IteratorSpec::remaining(&res) == self.elements(),
            vstd::std_specs::iter::IteratorSpec::decrease(&res) is Some,
            vstd::std_specs::iter::IteratorSpec::initial_value_relation(&res, &res),
    {
        self.list.into_iter()
    }

    /// The list of the given items, in the given order.
    pub fn from_iter(items: Vec<Item>) -> (res: ItemList)
        ensures
            res.elements() == items@,
    {
        ItemList { list: items }
    }
}

/// A borrowed set of Items filtered from the store
pub struct ItemListSlice<'a> {
    list: Vec<&'a Item>,
}

impl<'a> View for ItemListSlice<'a> {
    type V = Seq<ItemData>;

    open spec fn view(&self) -> Seq<ItemData> {
        self.elements().map_values(|i: &'a Item| i@)
    }
}

impl<'a> ItemListTrait<&'a Item> for ItemListSlice<'a> {
    closed spec fn elements(&self) -> Seq<&'a Item> {
        self.list@
    }

    fn new() -> (res: ItemListSlice<'a>) {
        ItemListSlice { list: Vec::new() }
    }

    fn get(&self, i: usize) -> (res: Option<&&'a Item>) {
        if i < self.list.len() {
            Some(&self.list[i])
        } else {
            None
        }
    }

    fn length(&self) -> (res: usize) {
        self.list.len()
    }

    fn push(&mut self, item: &'a Item) {
        self.list.push(item)
    }

    fn iter(&self) -> (res: std::slice::Iter<'_, &'a Item>) {
        self.list.iter()
    }
}

impl<'a> ItemListSlice<'a> {
    /// The list of the given borrowed items, in the given order.
    pub fn from_iter(items: Vec<&'a Item>) -> (res: ItemListSlice<'a>)
        ensures
            res.elements() == items@,
    {
        ItemListSlice { list: items }
    }

    /// An owned list with a copy of each borrowed item, in order.
    pub fn into(self) -> (res: ItemList)
        ensures
            res@ == self@,
    {
        let mut i = ItemList::new();
        let n: usize = self.list.len();
        let mut k: usize = 0;
        while k < n
            invariant
                n == self.list@.len(),
                k <= n,
                i@ == self@.take(k as int),
            decreases n - k,
        {
            let j: &Item = self.list[k];
            let item = Item { id: j.id.clone(), completed: j.completed, title: j.title.clone() };
            assert(item@ == self@[k as int]);
            let ghost before = i.elements();
            i.push(item);
            assert(views_of(before.push(item)) =~= views_of(before).push(item@));
            assert(i@ =~= self@.take(k + 1));
            k = k + 1;
        }
        assert(self@.take(n as int) =~= self@);
        i
    }
}

/// One todo as read back from local storage: each field is present only where
/// the stored value had the right type.
pub struct StoredEntry {
    pub title: Option<String>,
    pub completed: Option<bool>,
    pub id: Option<String>,
}

impl StoredEntry {
    /// A fresh entry with the same fields.
    pub fn copy(&self) -> (res: StoredEntry)
        ensures
            res@ == self@,
    {
        StoredEntry {
            title: match &self.title {
                Some(t) => Some(t.clone()),
                None => None,
            },
            completed: self.completed,
            id: match &self.id {
                Some(i) => Some(i.clone()),
                None => None,
            },
        }
    }
}

/// A stored entry, as plain values.
pub struct StoredRow {
    pub title: Option<Seq<char>>,
    pub completed: Option<bool>,
    pub id: Option<Seq<char>>,
}

impl View for StoredEntry {
    type V = StoredRow;

    open spec fn view(&self) -> StoredRow {
        StoredRow {
            title: match self.title {
                Some(t) => Some(t@),
                None => None,
            },
            completed: self.completed,
            id: match self.id {
                Some(i) => Some(i@),
                None => None,
            },
        }
    }
}

/// The plain values of a sequence of stored entries.
pub open spec fn rows_of(entries: Seq<StoredEntry>) -> Seq<StoredRow> {
    entries.map_values(|e: StoredEntry| e@)
}

/// The item that a stored row stands for, when all of its fields are present.
pub open spec fn row_item(r: StoredRow) -> Option<ItemData> {
    match (r.title, r.completed, r.id) {
        (Some(title), Some(completed), Some(id)) => Some(ItemData { id, title, completed }),
        _ => None,
    }
}

/// The items that stored rows stand for, in order; incomplete rows are skipped.
pub open spec fn rows_items(rows: Seq<StoredRow>) -> Seq<ItemData> {
    rows.filter_map(|r: StoredRow| row_item(r))
}

/// The item that a stored entry stands for, when all of its fields are present.
pub open spec fn entry_item(e: StoredEntry) -> Option<ItemData> {
    match (e.title, e.completed, e.id) {
        (Some(title), Some(completed), Some(id)) => Some(
            ItemData { id: id@, title: title@, completed },
        ),
        _ => None,
    }
}

/// The items that stored entries stand for, in order; incomplete entries are skipped.
pub open spec fn decoded(entries: Seq<StoredEntry>) -> Seq<ItemData> {
    entries.filter_map(|e: StoredEntry| entry_item(e))
}

impl ItemList {
    /// The list of the items that the stored entries stand for, in order.
    pub fn from_entries(entries: &Vec<StoredEntry>) -> (res: ItemList)
        ensures
            res@ == decoded(entries@),
    {
        let mut item_list = ItemList::new();
        let n: usize = entries.len();
        let mut k: usize = 0;
        while k < n
            invariant
                n == entries@.len(),
                k <= n,
                item_list@ == decoded(entries@.take(k as int)),
            decreases n - k,
        {
            let e: &StoredEntry = &entries[k];
            assert(entries@.take(k + 1).drop_last() =~= entries@.take(k as int));
            match (&e.title, &e.completed, &e.id) {
                (Some(title), Some(completed), Some(id)) => {
                    let temp_item = Item { title: title.clone(), completed: *completed, id: id.clone() };
                    item_list.push(temp_item);
                    assert(item_list@ =~= decoded(entries@.take(k as int)).push(temp_item@));
                },
                _ => {},
            }
            k = k + 1;
        }
        assert(entries@.take(n as int) =~= entries@);
        item_list
    }
}

/// Whether `e` is the complete stored entry of `item`.
pub open spec fn is_entry_of(e: StoredEntry, item: ItemData) -> bool {
    &&& e.title matches Some(t) && t@ == item.title
    &&& e.completed == Some(item.completed)
    &&& e.id matches Some(i) && i@ == item.id
}

impl ItemList {
    /// The entries to store for the items of the list, one per item, in order.
    pub fn to_entries(&self) -> (res: Vec<StoredEntry>)
        ensures
            res@.len() == self@.len(),
            forall|k: int| 0 <= k < res@.len() ==> is_entry_of(#[trigger] res@[k], self@[k]),
    {
        let mut res: Vec<StoredEntry> = Vec::new();
        let n: usize = self.list.len();
        let mut k: usize = 0;
        while k < n
            invariant
                n == self.list@.len(),
                k <= n,
                res@.len() == k,
                forall|j: int| 0 <= j < k ==> is_entry_of(#[trigger] res@[j], self@[j]),
            decreases n - k,
        {
            let item: &Item = &self.list[k];
            res.push(
                StoredEntry {
                    title: Some(item.title.clone()),
                    completed: Some(item.completed),
                    id: Some(item.id.clone()),
                },
            );
            k = k + 1;
        }
        res
    }
}

/// Represents a search into the store
pub enum ItemQuery {
    Id { id: String },
    Completed { completed: bool },
    EmptyItemQuery,
}

impl ItemQuery {
    /// Whether `item` is one that this query selects.
    pub open spec fn selects(&self, item: ItemData) -> bool {
        match self {
            ItemQuery::EmptyItemQuery => true,
            ItemQuery::Id { id } => item.id == id@,
            ItemQuery::Completed { completed } => item.completed == *completed,
        }
    }

    pub fn matches(&self, item: &Item) -> (res: bool)
        ensures
            res == self.selects(item@),
    {
        match self {
            ItemQuery::EmptyItemQuery => true,
            ItemQuery::Id { id } => item.id == *id,
            ItemQuery::Completed { completed } => item.completed == *completed,
        }
    }
}

/// A change to one property of the item with a given id.
pub enum ItemUpdate {
    Title { id: String, title: String },
    Completed { id: String, completed: bool },
}

impl ItemUpdate {
    /// The id of the item that this update is for.
    pub open spec fn target(&self) -> Seq<char> {
        match self {
            ItemUpdate::Title { id, .. } => id@,
            ItemUpdate::Completed { id, .. } => id@,
        }
    }

    /// What an item becomes under this update.
    pub open spec fn applied_to(&self, item: ItemData) -> ItemData {
        match self {
            ItemUpdate::Title { title, .. } => ItemData { title: title@, ..item },
            ItemUpdate::Completed { completed, .. } => ItemData { completed: *completed, ..item },
        }
    }

    pub fn id(&self) -> (res: String)
        ensures
            res@ == self.target(),
    {
        match self {
            ItemUpdate::Title { id, .. } => id.clone(),
            ItemUpdate::Completed { id, .. } => id.clone(),
        }
    }
}


/// The predicate of the items that `q` selects.
pub open spec fn selected_by(q: ItemQuery) -> spec_fn(ItemData) -> bool {
    |it: ItemData| q.selects(it)
}

/// The predicate of the items that `q` does not select.
pub open spec fn not_selected_by(q: ItemQuery) -> spec_fn(ItemData) -> bool {
    |it: ItemData| !q.selects(it)
}

/// The predicate of the completed items.
pub open spec fn is_completed() -> spec_fn(ItemData) -> bool {
    |it: ItemData| it.completed
}

/// The items of `items` that `q` selects, in order.
pub open spec fn selected(items: Seq<ItemData>, q: ItemQuery) -> Seq<ItemData> {
    items.filter(selected_by(q))
}

/// The items of `items` that `q` does not select, in order.
pub open spec fn unselected(items: Seq<ItemData>, q: ItemQuery) -> Seq<ItemData> {
    items.filter(not_selected_by(q))
}

/// The number of completed items in `items`.
pub open spec fn completed_count(items: Seq<ItemData>) -> nat {
    items.filter(is_completed()).len()
}

/// `items` with the title of each item with id `id` set to `title`.
pub open spec fn with_title(items: Seq<ItemData>, id: Seq<char>, title: Seq<char>) -> Seq<ItemData> {
    items.map_values(|it: ItemData| if it.id == id { ItemData { title, ..it } } else { it })
}

/// `items` with the completed state of each item with id `id` set to `completed`.
pub open spec fn with_completed(items: Seq<ItemData>, id: Seq<char>, completed: bool) -> Seq<
    ItemData,
> {
    items.map_values(|it: ItemData| if it.id == id { ItemData { completed, ..it } } else { it })
}

/// `items` with `u` applied to each item whose id is the update's target.
pub open spec fn updated(items: Seq<ItemData>, u: ItemUpdate) -> Seq<ItemData> {
    match u {
        ItemUpdate::Title { id, title } => with_title(items, id@, title@),
        ItemUpdate::Completed { id, completed } => with_completed(items, id@, completed),
    }
}

/// Stores items into localstorage
///
/// The store holds the list once it has been loaded; until then it holds
/// none, and each operation does nothing but report that.
pub struct Store {
    data: Option<ItemList>,
    name: String,
    unsaved: bool,
}

impl View for Store {
    type V = Option<Seq<ItemData>>;

    closed spec fn view(&self) -> Option<Seq<ItemData>> {
        match self.data {
            Some(list) => Some(list@),
            None => None,
        }
    }
}

impl Store {
    /// The name of the local storage value that holds the list.
    pub closed spec fn storage_name(&self) -> Seq<char> {
        self.name@
    }

    /// Whether the list changed since it was last handed out to be written.
    pub closed spec fn has_unsaved(&self) -> bool {
        self.unsaved
    }

    /// Creates a new store with `name` as the localstorage value name
    pub fn new(name: &str) -> (res: Store)
        ensures
            res@ is None,
            res.storage_name() == name@,
            !res.has_unsaved(),
    {
        Store { data: None, name: String::from_str(name), unsaved: false }
    }

    pub fn name(&self) -> (res: &str)
        ensures
            res@ == self.storage_name(),
    {
        self.name.as_str()
    }

    pub fn is_loaded(&self) -> (res: bool)
        ensures
            res == self@ is Some,
    {
        self.data.is_some()
    }

    /// Takes the entries read from local storage as the list, unless a list is
    /// already held, which stays.
    pub fn load_entries(&mut self, entries: &Vec<StoredEntry>)
        ensures
            final(self)@ == (match old(self)@ {
                Some(items) => Some(items),
                None => Some(decoded(entries@)),
            }),
            final(self).storage_name() == old(self).storage_name(),
            final(self).has_unsaved() == old(self).has_unsaved(),
    {
        if self.data.is_none() {
            self.data = Some(ItemList::from_entries(entries));
        }
    }

    /// Hands out the entries to write to local storage, once after each change.
    pub fn take_unsaved(&mut self) -> (res: Option<Vec<StoredEntry>>)
        ensures
            res is Some <==> (old(self).has_unsaved() && old(self)@ is Some),
            res matches Some(es) ==> es@.len() == old(self)@->0.len() && forall|k: int|
                0 <= k < es@.len() ==> is_entry_of(#[trigger] es@[k], old(self)@->0[k]),
            final(self)@ == old(self)@,
            final(self).storage_name() == old(self).storage_name(),
            !final(self).has_unsaved(),
    {
        let res = if self.unsaved {
            match &self.data {
                Some(todos) => Some(todos.to_entries()),
                None => None,
            }
        } else {
            None
        };
        self.unsaved = false;
        res
    }

    /// Find items with properties matching those on query.
    ///
    /// ```
    ///  let data = db.find(ItemQuery::Completed {completed: true});
    ///	 // data will contain items whose completed properties are true
    /// ```
    pub fn find(&self, query: ItemQuery) -> (res: Option<ItemListSlice<'_>>)
        ensures
            res is Some <==> self@ is Some,
            res matches Some(r) ==> r@ == selected(self@->0, query),
    {
        match &self.data {
            Some(todos) => {
                let ghost all = todos@;
                let mut found: Vec<&Item> = Vec::new();
                let n: usize = todos.list.len();
                let mut k: usize = 0;
                while k < n
                    invariant
                        n == todos.list@.len(),
                        all == todos@,
                        k <= n,
                        found@.map_values(|i: &Item| i@) == selected(all.take(k as int), query),
                    decreases n - k,
                {
                    let todo: &Item = &todos.list[k];
                    proof {
                        assert(all.take(k + 1) =~= all.take(k as int).push(todo@));
                        all.take(k as int).lemma_filter_push(todo@, selected_by(query));
                    }
                    if query.matches(todo) {
                        let ghost before = found@;
                        found.push(todo);
                        assert(found@.map_values(|i: &Item| i@) =~= before.map_values(
                            |i: &Item| i@,
                        ).push(todo@));
                    }
                    k = k + 1;
                }
                assert(all.take(n as int) =~= all);
                let res = ItemListSlice::from_iter(found);
                Some(res)
            },
            None => None,
        }
    }

    /// Update an item in the Store.
    ///
    /// `ItemUpdate` update Record with an id and a property to update
    pub fn update(&mut self, update: ItemUpdate)
        ensures
            final(self)@ == (match old(self)@ {
                Some(items) => Some(updated(items, update)),
                None => None,
            }),
            final(self).storage_name() == old(self).storage_name(),
            final(self).has_unsaved() == (old(self).has_unsaved() || old(self)@ is Some),
    {
        let id: String = update.id();
        if let Some(mut todos) = self.data.take() {
            let ghost all = todos@;
            let n: usize = todos.list.len();
            let mut k: usize = 0;
            while k < n
                invariant
                    n == todos.list@.len(),
                    all.len() == n,
                    k <= n,
                    id@ == update.target(),
                    todos@ == updated(all.take(k as int), update) + all.skip(k as int),
                decreases n - k,
            {
                let ghost cur = todos@;
                assert(cur[k as int] == all[k as int]);
                if todos.list[k].id == id {
                    let mut todo: Item = todos.list[k].copy();
                    todo.update(&update);
                    let ghost before = todos.list@;
                    let ghost new_view = todo@;
                    todos.list.set(k, todo);
                    assert(views_of(before.update(k as int, todos.list@[k as int])) =~= views_of(
                        before,
                    ).update(k as int, new_view));
                    assert(todos@ =~= cur.update(k as int, new_view));
                }
                assert(updated(all.take(k + 1), update) =~= updated(all.take(k as int), update).push(
                    if all[k as int].id == update.target() {
                        update.applied_to(all[k as int])
                    } else {
                        all[k as int]
                    },
                ));
                assert(todos@ =~= updated(all.take(k + 1), update) + all.skip(k + 1));
                k = k + 1;
            }
            assert(all.take(n as int) =~= all);
            assert(todos@ =~= updated(all, update));
            self.data = Some(todos);
            self.unsaved = true;
        }
    }

    /// Insert an item into the Store.
    ///
    /// `Item` item Item to insert
    pub fn insert(&mut self, item: Item)
        ensures
            final(self)@ == (match old(self)@ {
                Some(items) => Some(items.push(item@)),
                None => None,
            }),
            final(self).storage_name() == old(self).storage_name(),
            final(self).has_unsaved() == (old(self).has_unsaved() || old(self)@ is Some),
    {
        if let Some(mut todos) = self.data.take() {
            let ghost before = todos.list@;
            let ghost it = item@;
            todos.push(item);
            assert(views_of(before.push(item)) =~= views_of(before).push(it));
            self.data = Some(todos);
            self.unsaved = true;
        }
    }

    /// Remove items from the Store based on a query.
    /// query is an `ItemQuery` query Query matching the items to remove
    pub fn remove(&mut self, query: ItemQuery)
        ensures
            final(self)@ == (match old(self)@ {
                Some(items) => Some(unselected(items, query)),
                None => None,
            }),
            final(self).storage_name() == old(self).storage_name(),
            final(self).has_unsaved() == (old(self).has_unsaved() || old(self)@ is Some),
    {
        if let Some(todos) = self.data.take() {
            let ghost all = todos@;
            let mut kept: Vec<Item> = Vec::new();
            let n: usize = todos.list.len();
            let mut k: usize = 0;
            while k < n
                invariant
                    n == todos.list@.len(),
                    all == todos@,
                    k <= n,
                    views_of(kept@) == unselected(all.take(k as int), query),
                decreases n - k,
            {
                let todo: &Item = &todos.list[k];
                proof {
                    assert(all.take(k + 1) =~= all.take(k as int).push(todo@));
                    all.take(k as int).lemma_filter_push(todo@, not_selected_by(query));
                }
                if !query.matches(todo) {
                    let ghost before = kept@;
                    let c: Item = todo.copy();
                    kept.push(c);
                    assert(views_of(kept@) =~= views_of(before).push(todo@));
                }
                k = k + 1;
            }
            assert(all.take(n as int) =~= all);
            self.data = Some(ItemList::from_iter(kept));
            self.unsaved = true;
        }
    }

    /// Count total, active, and completed todos.
    pub fn count(&self) -> (res: Option<(usize, usize, usize)>)
        ensures
            res is Some <==> self@ is Some,
            res matches Some((total, active, completed)) ==> {
                &&& total == self@->0.len()
                &&& completed == completed_count(self@->0)
                &&& active == total - completed
            },
    {
        match self.find(ItemQuery::EmptyItemQuery) {
            Some(data) => {
                proof {
                    lemma_select_all(self@->0);
                }
                let total: usize = data.length();
                let mut completed: usize = 0;
                let mut k: usize = 0;
                while k < total
                    invariant
                        total == data@.len(),
                        k <= total,
                        completed == data@.take(k as int).filter(is_completed()).len(),
                    decreases total - k,
                {
                    let item: &&Item = data.get(k).unwrap();
                    proof {
                        assert(data@.take(k + 1) =~= data@.take(k as int).push(data@[k as int]));
                        data@.take(k as int).lemma_filter_push(data@[k as int], is_completed());
                        data@.take(k as int).lemma_filter_len(is_completed());
                    }
                    if item.completed {
                        completed = completed + 1;
                    }
                    k = k + 1;
                }
                proof {
                    assert(data@.take(total as int) =~= data@);
                    data@.lemma_filter_len(is_completed());
                }
                Some((total, total - completed, completed))
            },
            None => None,
        }
    }
}

/// `find` with the empty query gives every item of the list, in order.
pub proof fn lemma_select_all(items: Seq<ItemData>)
    ensures
        selected(items, ItemQuery::EmptyItemQuery) == items,
    decreases items.len(),
{
    reveal(Seq::filter);
    if items.len() > 0 {
        lemma_select_all(items.drop_last());
        assert(items.drop_last().push(items.last()) =~= items);
    }
}

/// After `remove` with a query, `find` with the same query finds nothing.
pub proof fn lemma_remove_then_find(items: Seq<ItemData>, query: ItemQuery)
    ensures
        selected(unselected(items, query), query) == Seq::<ItemData>::empty(),
    decreases items.len(),
{
    reveal(Seq::filter);
    if items.len() > 0 {
        lemma_remove_then_find(items.drop_last(), query);
        let rest = items.drop_last().filter(not_selected_by(query));
        if !query.selects(items.last()) {
            rest.lemma_filter_push(items.last(), selected_by(query));
        }
    }
}

/// `remove` keeps each item that the query does not select, in order, and
/// `find` with the query gives the others: together they are all the items.
pub proof fn lemma_remove_keeps_rest(items: Seq<ItemData>, query: ItemQuery)
    ensures
        unselected(items, query).len() + selected(items, query).len() == items.len(),
        forall|it: ItemData|
            items.contains(it) && !query.selects(it) ==> #[trigger] unselected(items, query).contains(
                it,
            ),
        forall|it: ItemData| #[trigger]
            unselected(items, query).contains(it) ==> items.contains(it) && !query.selects(it),
    decreases items.len(),
{
    broadcast use Seq::lemma_filter_contains_rev;
    reveal(Seq::filter);
    if items.len() > 0 {
        lemma_remove_keeps_rest(items.drop_last(), query);
        assert forall|it: ItemData| items.contains(it) && !query.selects(it) implies #[trigger] unselected(
            items,
            query,
        ).contains(it) by {
            let i = choose|i: int| 0 <= i < items.len() && items[i] == it;
            items.lemma_filter_contains(not_selected_by(query), i);
        }
    }
}

/// `count` reports as active exactly the items that `find` with the query for
/// active items gives, and as completed those that the query for completed items gives.
pub proof fn lemma_count_matches_find(items: Seq<ItemData>)
    ensures
        selected(items, ItemQuery::Completed { completed: true }).len() == completed_count(items),
        selected(items, ItemQuery::Completed { completed: false }).len() == items.len()
            - completed_count(items),
    decreases items.len(),
{
    reveal(Seq::filter);
    let done = ItemQuery::Completed { completed: true };
    let active = ItemQuery::Completed { completed: false };
    assert(selected_by(done) =~= is_completed());
    if items.len() > 0 {
        lemma_count_matches_find(items.drop_last());
    }
}

/// After `insert`, `find` by the new item's id gives what it gave before, then the new item.
pub proof fn lemma_insert_then_find(items: Seq<ItemData>, item: ItemData, query: ItemQuery)
    ensures
        query.selects(item) ==> selected(items.push(item), query) == selected(items, query).push(item),
        !query.selects(item) ==> selected(items.push(item), query) == selected(items, query),
{
    items.lemma_filter_push(item, selected_by(query));
}

/// `update` keeps the number of items and their ids and order; it changes
/// exactly the items with the update's id, as the update says: a title update
/// sets their title and keeps their completed state, a completed update sets
/// their completed state and keeps their title.
pub proof fn lemma_update_shape(items: Seq<ItemData>, update: ItemUpdate)
    ensures
        updated(items, update).len() == items.len(),
        forall|i: int|
            0 <= i < items.len() ==> (#[trigger] updated(items, update)[i]).id == items[i].id,
        forall|i: int|
            0 <= i < items.len() ==> #[trigger] updated(items, update)[i] == if items[i].id
                == update.target() {
                update.applied_to(items[i])
            } else {
                items[i]
            },
        update matches ItemUpdate::Title { id, title } ==> forall|i: int|
            0 <= i < items.len() ==> {
                &&& (#[trigger] updated(items, update)[i]).completed == items[i].completed
                &&& updated(items, update)[i].title == if items[i].id == id@ {
                    title@
                } else {
                    items[i].title
                }
            },
        update matches ItemUpdate::Completed { id, completed } ==> forall|i: int|
            0 <= i < items.len() ==> {
                &&& (#[trigger] updated(items, update)[i]).title == items[i].title
                &&& updated(items, update)[i].completed == if items[i].id == id@ {
                    completed
                } else {
                    items[i].completed
                }
            },
{
}

/// What `to_entries` hands out to be written reads back, through
/// `from_entries`, as the same list: entries that are the complete entries of
/// `items`, one per item, decode to `items`.
pub proof fn lemma_entries_round_trip(entries: Seq<StoredEntry>, items: Seq<ItemData>)
    requires
        entries.len() == items.len(),
        forall|k: int| 0 <= k < entries.len() ==> is_entry_of(#[trigger] entries[k], items[k]),
    ensures
        decoded(entries) == items,
    decreases entries.len(),
{
    if entries.len() > 0 {
        lemma_entries_round_trip(entries.drop_last(), items.drop_last());
        let e = entries.last();
        assert(is_entry_of(entries[entries.len() - 1], items[items.len() - 1]));
        assert(entry_item(e) == Some(items.last()));
        assert(items.drop_last().push(items.last()) =~= items);
    } else {
        assert(items =~= Seq::<ItemData>::empty());
    }
}

/// Decoding entries depends only on their plain values.
pub proof fn lemma_decoded_rows(entries: Seq<StoredEntry>)
    ensures
        decoded(entries) == rows_items(rows_of(entries)),
    decreases entries.len(),
{
    if entries.len() > 0 {
        lemma_decoded_rows(entries.drop_last());
        assert(rows_of(entries).drop_last() =~= rows_of(entries.drop_last()));
        assert(rows_of(entries).last() == entries.last()@);
        assert(entry_item(entries.last()) == row_item(entries.last()@));
    } else {
        assert(rows_of(entries) =~= Seq::<StoredRow>::empty());
    }
}

} // verus!
