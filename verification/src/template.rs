//! HTML fragments for the todo list and the "items left" counter.

use vstd::prelude::*;
use vstd::string::*;

use crate::store::{ItemData, ItemList, ItemListTrait};
use crate::text::{decimal, decimal_string};

verus! {

/// The text that one character of a title becomes in the rendered HTML.
pub open spec fn escape_char(c: char) -> Seq<char> {
    if c == '&' {
        "&amp;"@
    } else if c == '<' {
        "&lt;"@
    } else if c == '>' {
        "&gt;"@
    } else if c == '"' {
        "&quot"@
    } else if c == '\'' {
        "&#39;"@
    } else {
        seq![c]
    }
}

/// A text with every character replaced by its escape.
pub open spec fn escaped(s: Seq<char>) -> Seq<char>
    decreases s.len(),
{
    if s.len() == 0 {
        Seq::empty()
    } else {
        escaped(s.drop_last()) + escape_char(s.last())
    }
}

/// Replaces the characters `&`, `<`, `>`, `"` and `'` of `val` by HTML entities.
pub fn escape_html(val: String) -> (res: String)
    ensures
        res@ == escaped(val@),
{
    let s: &str = val.as_str();
    let n: usize = s.unicode_len();
    let mut out: String = String::new();
    let mut i: usize = 0;
    while i < n
        invariant
            n == s@.len(),
            s@ == val@,
            i <= n,
            out@ == escaped(s@.take(i as int)),
        decreases n - i,
    {
        let c: char = s.get_char(i);
        assert(s@.take(i + 1).drop_last() =~= s@.take(i as int));
        if c == '&' {
            out.append("&amp;");
        } else if c == '<' {
            out.append("&lt;");
        } else if c == '>' {
            out.append("&gt;");
        } else if c == '"' {
            out.append("&quot");
        } else if c == '\'' {
            out.append("&#39;");
        } else {
            let one: &str = s.substring_char(i, i + 1);
            assert(one@ =~= seq![c]);
            out.append(one);
        }
        i = i + 1;
    }
    assert(s@.take(n as int) =~= s@);
    out
}

/// The text of the "items left" indicator for `n` active todos.
pub open spec fn item_counter_text(n: nat) -> Seq<char> {
    decimal(n) + " item"@ + (if n > 1 { "s"@ } else { Seq::empty() }) + " left"@
}

/// The HTML of one todo item in the list.
pub open spec fn item_html(item: ItemData) -> Seq<char> {
    "\n  <li data-id=\""@ + item.id + "\""@ + (if item.completed {
        "class=\"completed\""@
    } else {
        Seq::empty()
    }) + ">\n  \t<div class=\"view\">\n  \t\t<input class=\"toggle\" type=\"checkbox\" "@ + (
    if item.completed {
        "checked"@
    } else {
        Seq::empty()
    }) + ">\n  \t\t<label>"@ + escaped(item.title)
        + "</label>\n  \t\t<button class=\"destroy\"></button>\n  \t</div>\n  </li>"@
}

/// The HTML of a todo list: the HTML of its items, one after the other.
pub open spec fn list_html(items: Seq<ItemData>) -> Seq<char>
    decreases items.len(),
{
    if items.len() == 0 {
        Seq::empty()
    } else {
        list_html(items.drop_last()) + item_html(items.last())
    }
}

pub struct Template {}

impl Template {
    /// Format the contents of a todo list.
    ///
    /// items `ItemList` contains keys you want to find in the template to replace.
    /// Returns the contents for a todo list
    pub fn item_list(items: &ItemList) -> (res: String)
        ensures
            res@ == list_html(items@),
    {
        let mut output: String = String::new();
        let n: usize = items.length();
        let mut k: usize = 0;
        while k < n
            invariant
                n == items.elements().len(),
                items@ == items.elements().map_values(|i: crate::store::Item| i@),
                k <= n,
                output@ == list_html(items@.take(k as int)),
            decreases n - k,
        {
            let item = items.get(k).unwrap();
            let ghost before = output@;
            output.append("\n  <li data-id=\"");
            output.append(item.id.as_str());
            output.append("\"");
            if item.completed {
                output.append("class=\"completed\"");
            }
            output.append(">\n  \t<div class=\"view\">\n  \t\t<input class=\"toggle\" type=\"checkbox\" ");
            if item.completed {
                output.append("checked");
            }
            output.append(">\n  \t\t<label>");
            let title: String = escape_html(item.title.clone());
            output.append(title.as_str());
            output.append("</label>\n  \t\t<button class=\"destroy\"></button>\n  \t</div>\n  </li>");
            assert(items@.take(k + 1).drop_last() =~= items@.take(k as int));
            assert(output@ =~= before + item_html(items@[k as int]));
            k = k + 1;
        }
        assert(items@.take(n as int) =~= items@);
        output
    }

    /// Formats the contents of an "items left" indicator for `active_todos` active todos.
    pub fn item_counter(active_todos: usize) -> (res: String)
        ensures
            res@ == item_counter_text(active_todos as nat),
    {
        let mut template: String = decimal_string(active_todos as u64);
        template.append(" item");
        if active_todos > 1 {
            template.append("s");
        }
        template.append(" left");
        assert(template@ =~= item_counter_text(active_todos as nat));
        template
    }
}

/// The counter reads "N items left" for more than one active todo, and
/// "N item left" for one or none, N being the number in decimal.
pub proof fn lemma_item_counter_plural(n: nat)
    ensures
        n > 1 ==> item_counter_text(n) == decimal(n) + " items left"@,
        n <= 1 ==> item_counter_text(n) == decimal(n) + " item left"@,
{
    reveal_strlit(" item");
    reveal_strlit("s");
    reveal_strlit(" left");
    reveal_strlit(" items left");
    reveal_strlit(" item left");
    if n > 1 {
        assert(decimal(n) + " item"@ + "s"@ + " left"@ =~= decimal(n) + " items left"@);
    } else {
        assert(decimal(n) + " item"@ + Seq::<char>::empty() + " left"@ =~= decimal(n) + " item left"@);
    }
}

/// Whether `c` is one of the characters that `escape_html` replaces.
pub open spec fn is_markup(c: char) -> bool {
    c == '&' || c == '<' || c == '>' || c == '"' || c == '\''
}

/// The escaped text holds no `<`, `>`, `"` or `'`: a title cannot open or
/// close a tag or an attribute of the HTML it is put in.
pub proof fn lemma_escaped_has_no_markup(s: Seq<char>)
    ensures
        forall|i: int|
            0 <= i < escaped(s).len() ==> {
                let c = #[trigger] escaped(s)[i];
                c != '<' && c != '>' && c != '"' && c != '\''
            },
    decreases s.len(),
{
    reveal_strlit("&amp;");
    reveal_strlit("&lt;");
    reveal_strlit("&gt;");
    reveal_strlit("&quot");
    reveal_strlit("&#39;");
    if s.len() > 0 {
        lemma_escaped_has_no_markup(s.drop_last());
        let head = escaped(s.drop_last());
        let tail = escape_char(s.last());
        assert forall|i: int| 0 <= i < escaped(s).len() implies {
            let c = #[trigger] escaped(s)[i];
            c != '<' && c != '>' && c != '"' && c != '\''
        } by {
            if i < head.len() {
                assert(escaped(s)[i] == head[i]);
            } else {
                assert(escaped(s)[i] == tail[i - head.len()]);
            }
        }
    }
}

/// A text without any of the replaced characters is left as it is.
pub proof fn lemma_escaped_plain(s: Seq<char>)
    requires
        forall|i: int| 0 <= i < s.len() ==> !is_markup(#[trigger] s[i]),
    ensures
        escaped(s) == s,
    decreases s.len(),
{
    if s.len() > 0 {
        lemma_escaped_plain(s.drop_last());
        assert(!is_markup(s[s.len() - 1]));
        assert(s.drop_last().push(s.last()) =~= s);
    }
}

/// The HTML of a list is the HTML of its parts, one after the other: adding
/// items to a list adds their HTML after the HTML of the items before.
pub proof fn lemma_list_html_concat(a: Seq<ItemData>, b: Seq<ItemData>)
    ensures
        list_html(a + b) == list_html(a) + list_html(b),
    decreases b.len(),
{
    if b.len() == 0 {
        assert(a + b =~= a);
        assert(list_html(a) + Seq::<char>::empty() =~= list_html(a));
    } else {
        lemma_list_html_concat(a, b.drop_last());
        assert((a + b).drop_last() =~= a + b.drop_last());
        assert((a + b).last() == b.last());
        assert(list_html(a + b) =~= list_html(a) + list_html(b));
    }
}

} // verus!
