use confget::format::{output_dotenv, output_json, render};

fn pairs(items: &[(&str, &str)]) -> Vec<(String, String)> {
    items.iter().map(|(k, v)| (String::from(*k), String::from(*v))).collect()
}

#[test]
fn dotenv_emits_one_line_per_entry() {
    let entries = pairs(&[("a", "1"), ("b", "two words"), ("c", "")]);
    let out = output_dotenv(&entries);
    assert_eq!(out, "a=1\nb=two words\nc=\n");
    let lines: Vec<&str> = out.split('\n').collect();
    assert_eq!(lines, vec!["a=1", "b=two words", "c=", ""]);
}

#[test]
fn dotenv_does_not_quote_or_escape() {
    let entries = pairs(&[("key", "a \"quoted\" value with = sign")]);
    assert_eq!(output_dotenv(&entries), "key=a \"quoted\" value with = sign\n");
}

#[test]
fn dotenv_of_nothing_is_empty() {
    let entries = pairs(&[]);
    assert_eq!(output_dotenv(&entries), "");
}

#[test]
fn json_of_nothing_is_the_empty_object() {
    let entries = pairs(&[]);
    assert_eq!(output_json(&entries), "{}");
}

#[test]
fn json_renders_members_in_order() {
    let entries = pairs(&[("b", "2"), ("a", "1")]);
    assert_eq!(output_json(&entries), "{\"b\":\"2\",\"a\":\"1\"}");
}

#[test]
fn json_escapes_quotes_backslashes_and_controls() {
    let entries = pairs(&[("k", "a\"b\\c\nd\te\rf\u{8}g\u{c}h\u{1f}i")]);
    assert_eq!(
        output_json(&entries),
        "{\"k\":\"a\\\"b\\\\c\\nd\\te\\rf\\bg\\fh\\u001fi\"}"
    );
}

#[test]
fn json_escapes_keys_too() {
    let entries = pairs(&[("odd\"key", "v")]);
    assert_eq!(output_json(&entries), "{\"odd\\\"key\":\"v\"}");
}

#[test]
fn json_keeps_non_ascii_unescaped() {
    let entries = pairs(&[("k", "héllo ☃")]);
    assert_eq!(output_json(&entries), "{\"k\":\"héllo ☃\"}");
}

#[test]
fn unknown_format_falls_back_to_dotenv() {
    let entries = pairs(&[("a", "1"), ("b", "2")]);
    let dotenv = render(&entries, &String::from("dotenv"));
    let xml = render(&entries, &String::from("xml"));
    let empty = render(&entries, &String::from(""));
    assert_eq!(dotenv, output_dotenv(&entries));
    assert_eq!(xml, dotenv);
    assert_eq!(empty, dotenv);
}

#[test]
fn json_format_selects_the_json_object() {
    let entries = pairs(&[("a", "1")]);
    assert_eq!(render(&entries, &String::from("json")), "{\"a\":\"1\"}");
}
