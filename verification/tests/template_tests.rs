use todomvc::store::{Item, ItemList};
use todomvc::template::{escape_html, Template};

#[test]
fn escape_replaces_markup_characters() {
    let out = escape_html("<a href='x'>&\"".to_string());
    assert_eq!(out, "&lt;a href=&#39;x&#39;&gt;&amp;&quot");
}

#[test]
fn escape_keeps_plain_text() {
    assert_eq!(escape_html("buy milk, 2 l".to_string()), "buy milk, 2 l");
    assert_eq!(escape_html(String::new()), "");
    assert_eq!(escape_html("héllo wörld ✓".to_string()), "héllo wörld ✓");
}

#[test]
fn escaped_text_has_no_tags() {
    let out = escape_html("<script>alert('x')</script>".to_string());
    assert!(!out.contains('<') && !out.contains('>') && !out.contains('\'') && !out.contains('"'));
}

#[test]
fn item_counter_singular_and_plural() {
    assert_eq!(Template::item_counter(0), "0 item left");
    assert_eq!(Template::item_counter(1), "1 item left");
    assert_eq!(Template::item_counter(2), "2 items left");
    assert_eq!(Template::item_counter(12345), "12345 items left");
}

#[test]
fn item_list_renders_each_item() {
    let list = ItemList::from_iter(vec![
        Item { id: "1".to_string(), title: "a & b".to_string(), completed: true },
        Item { id: "2".to_string(), title: "c".to_string(), completed: false },
    ]);
    let html = Template::item_list(&list);
    let expected = String::new() + "\n  <li data-id=\"1\"class=\"completed\">\n  \t<div class=\"view\">\n  \t\t<input class=\"toggle\" type=\"checkbox\" checked>\n  \t\t<label>a &amp; b</label>\n  \t\t<button class=\"destroy\"></button>\n  \t</div>\n  </li>"
        + "\n  <li data-id=\"2\">\n  \t<div class=\"view\">\n  \t\t<input class=\"toggle\" type=\"checkbox\" >\n  \t\t<label>c</label>\n  \t\t<button class=\"destroy\"></button>\n  \t</div>\n  </li>";
    assert_eq!(html, expected);
}

#[test]
fn item_list_of_empty_list_is_empty() {
    assert_eq!(Template::item_list(&ItemList::from_iter(Vec::new())), "");
}

#[test]
fn list_html_is_the_html_of_its_items_in_order() {
    let a = || Item { id: "1".to_string(), title: "<x>".to_string(), completed: false };
    let b = || Item { id: "2".to_string(), title: "y".to_string(), completed: true };
    let both = Template::item_list(&ItemList::from_iter(vec![a(), b()]));
    let first = Template::item_list(&ItemList::from_iter(vec![a()]));
    let second = Template::item_list(&ItemList::from_iter(vec![b()]));
    assert_eq!(both, first + &second);
}
