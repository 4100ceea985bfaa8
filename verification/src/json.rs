//! The text that the todo list is kept as in local storage: a JSON array
//! with one `[title, completed, id]` array per item.  Turning text into JSON
//! values and back is done by the JavaScript engine, through `js_sys::JSON`.

use vstd::prelude::*;

use crate::store::{
    decoded, is_entry_of, lemma_decoded_rows, lemma_entries_round_trip, rows_items, rows_of, ItemData,
    Store, StoredEntry, StoredRow,
};

verus! {

/// What `JSON.parse` makes of `text`, read as stored rows: `None` when the
/// text is not JSON or its value cannot be iterated; otherwise one row per
/// element of the value, holding the first three elements of that element
/// when it is an array (title read as a string, completed as a boolean, id as
/// a string or, when it is a number, as the text that Rust's `{}` formatting
/// gives for that number), and `None` for an element that is not an array.
pub uninterp spec fn stored_rows(text: Seq<char>) -> Option<Seq<Option<StoredRow>>>;

/// The plain values of what `parse_rows` returns.
pub open spec fn parsed_view(res: Option<Vec<Option<StoredEntry>>>) -> Option<Seq<Option<StoredRow>>> {
    match res {
        Some(rows) => Some(
            rows@.map_values(
                |o: Option<StoredEntry>|
                    match o {
                        Some(e) => Some(e@),
                        None => None,
                    },
            ),
        ),
        None => None,
    }
}

/// Parses `text` with `js_sys::JSON::parse`, iterates the value with
/// `js_sys::try_iter`, and reads each element that is a `js_sys::Array` at
/// indices 0, 1 and 2 with `as_string`, `as_bool`, and `as_string` or else
/// `as_f64` formatted in decimal.  The
/// result is named `stored_rows(text)`; nothing more is stated of it.  It only
/// runs inside a JavaScript engine.
#[verifier::external_body]
fn parse_rows(text: &str) -> (res: Option<Vec<Option<StoredEntry>>>)
    ensures
        parsed_view(res) == stored_rows(text@),
{
    let data = js_sys::JSON::parse(text).ok()?;
    let iter = js_sys::try_iter(&data).ok()??;
    let mut rows = Vec::new();
    for item in iter {
        let array = item.ok().and_then(|v| wasm_bindgen::JsCast::dyn_into::<js_sys::Array>(v).ok());
        rows.push(array.map(|a| StoredEntry {
            title: a.get(0).as_string(),
            completed: a.get(1).as_bool(),
            id: a.get(2).as_string().or_else(|| a.get(2).as_f64().map(|n| format!("{}", n))),
        }));
    }
    Some(rows)
}

/// Turns the entries into a `js_sys::Array` of `[title, completed, id]`
/// arrays (an absent field becomes `undefined`) and writes it with
/// `js_sys::JSON::stringify`.  What is claimed: when it gives a text, parsing
/// that text reads back one row per entry, equal to the entry; this holds
/// because `JSON.stringify` writes strings and booleans so that `JSON.parse`
/// gives them back, and `undefined` in an array as `null`, which reads back
/// as absent.  It always gives a text: `JSON.stringify` fails only on a
/// BigInt, a cycle, or a `toJSON` or replacer that throws, and an array of
/// arrays of strings, booleans and `undefined` holds none of these.  It only
/// runs inside a JavaScript engine.
#[verifier::external_body]
fn stringify_rows(entries: &Vec<StoredEntry>) -> (res: Option<String>)
    ensures
        res is Some,
        res matches Some(t) ==> stored_rows(t@) == Some(
            rows_of(entries@).map_values(|r: StoredRow| Some(r)),
        ),
{
    let array = js_sys::Array::new();
    for entry in entries.iter() {
        let child = js_sys::Array::new();
        child.push(&wasm_bindgen::JsValue::from(entry.title.clone()));
        child.push(&wasm_bindgen::JsValue::from(entry.completed));
        child.push(&wasm_bindgen::JsValue::from(entry.id.clone()));
        array.push(&wasm_bindgen::JsValue::from(child));
    }
    js_sys::JSON::stringify(&array).ok().map(String::from)
}

/// The rows that loading `text` reads: those of the elements that are arrays,
/// in order; none when the text does not parse to an iterable value.
pub open spec fn listed_rows(text: Seq<char>) -> Seq<StoredRow> {
    match stored_rows(text) {
        Some(rows) => rows.filter_map(|o: Option<StoredRow>| o),
        None => Seq::empty(),
    }
}

/// The stored entries that `text` holds.
pub fn entries_from_text(text: &str) -> (res: Vec<StoredEntry>)
    ensures
        rows_of(res@) == listed_rows(text@),
{
    let mut res: Vec<StoredEntry> = Vec::new();
    let parsed = parse_rows(text);
    if let Some(rows) = parsed {
        let ghost all = parsed_view(Some(rows))->0;
        let n: usize = rows.len();
        let mut k: usize = 0;
        while k < n
            invariant
                n == rows@.len(),
                all == parsed_view(Some(rows))->0,
                k <= n,
                rows_of(res@) == all.take(k as int).filter_map(|o: Option<StoredRow>| o),
            decreases n - k,
        {
            assert(all.take(k + 1).drop_last() =~= all.take(k as int));
            assert(all.take(k + 1).last() == all[k as int]);
            let ghost before = res@;
            match &rows[k] {
                Some(e) => {
                    res.push(e.copy());
                    assert(rows_of(res@) =~= rows_of(before).push(e@));
                },
                None => {},
            }
            k = k + 1;
        }
        assert(all.take(n as int) =~= all);
    } else {
        assert(rows_of(res@) =~= Seq::<StoredRow>::empty());
    }
    res
}

/// The text that holds the stored entries.
pub fn text_from_entries(entries: &Vec<StoredEntry>) -> (res: String)
    ensures
        listed_rows(res@) == rows_of(entries@),
{
    let res = stringify_rows(entries);
    proof {
        lemma_filter_map_some(rows_of(entries@));
    }
    res.unwrap()
}

proof fn lemma_filter_map_some(rows: Seq<StoredRow>)
    ensures
        rows.map_values(|r: StoredRow| Some(r)).filter_map(|o: Option<StoredRow>| o) == rows,
    decreases rows.len(),
{
    if rows.len() > 0 {
        lemma_filter_map_some(rows.drop_last());
        assert(rows.map_values(|r: StoredRow| Some(r)).drop_last() =~= rows.drop_last().map_values(
            |r: StoredRow| Some(r),
        ));
        assert(rows.drop_last().push(rows.last()) =~= rows);
    } else {
        assert(rows.map_values(|r: StoredRow| Some(r)) =~= Seq::<Option<StoredRow>>::empty());
    }
}

/// A read gives back what a write wrote: the entries of a list, written with
/// `text_from_entries` into a text, read back from that text with
/// `entries_from_text`, decode to the same list.
pub proof fn lemma_read_after_write(
    items: Seq<ItemData>,
    written: Seq<StoredEntry>,
    text: Seq<char>,
    read: Seq<StoredEntry>,
)
    requires
        written.len() == items.len(),
        forall|k: int| 0 <= k < written.len() ==> is_entry_of(#[trigger] written[k], items[k]),
        listed_rows(text) == rows_of(written),
        rows_of(read) == listed_rows(text),
    ensures
        decoded(read) == items,
{
    assert(read.len() == rows_of(read).len());
    assert(written.len() == rows_of(written).len());
    assert forall|k: int| 0 <= k < read.len() implies is_entry_of(#[trigger] read[k], items[k]) by {
        assert(rows_of(read)[k] == rows_of(written)[k]);
        assert(rows_of(read)[k] == read[k]@);
        assert(rows_of(written)[k] == written[k]@);
        assert(is_entry_of(written[k], items[k]));
    }
    crate::store::lemma_entries_round_trip(read, items);
}

/// The list that loading `text` gives.
pub open spec fn text_items(text: Seq<char>) -> Seq<ItemData> {
    rows_items(listed_rows(text))
}

impl Store {
    /// Takes the list held in local storage as `stored` (absent when nothing
    /// is stored), unless a list is already held, which stays.
    pub fn load_text(&mut self, stored: Option<&str>)
        ensures
            final(self)@ == (match old(self)@ {
                Some(items) => Some(items),
                None => Some(
                    match stored {
                        Some(t) => text_items(t@),
                        None => Seq::empty(),
                    },
                ),
            }),
            final(self).storage_name() == old(self).storage_name(),
            final(self).has_unsaved() == old(self).has_unsaved(),
    {
        if !self.is_loaded() {
            let entries: Vec<StoredEntry> = match stored {
                Some(t) => entries_from_text(t),
                None => Vec::new(),
            };
            proof {
                lemma_decoded_rows(entries@);
                if stored is None {
                    assert(rows_of(entries@) =~= Seq::<StoredRow>::empty());
                    assert(rows_items(Seq::<StoredRow>::empty()) =~= Seq::<ItemData>::empty());
                }
            }
            self.load_entries(&entries);
        }
    }

    /// The text to write to local storage after a change of the list, once
    /// after each change: loading it gives the list back.
    pub fn save_text(&mut self) -> (res: Option<String>)
        ensures
            res is Some <==> (old(self).has_unsaved() && old(self)@ is Some),
            res matches Some(t) ==> text_items(t@) == old(self)@->0,
            final(self)@ == old(self)@,
            final(self).storage_name() == old(self).storage_name(),
            !final(self).has_unsaved(),
    {
        let ghost list = self@;
        match self.take_unsaved() {
            Some(entries) => {
                let t = text_from_entries(&entries);
                proof {
                    lemma_decoded_rows(entries@);
                    lemma_entries_round_trip(entries@, list->0);
                }
                Some(t)
            },
            None => None,
        }
    }
}

} // verus!
