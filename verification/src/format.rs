//! Rendering the resolved value set: `key=value` lines, or a JSON object.

use vstd::prelude::*;
use vstd::string::{StrSliceExecFns, StringExecFns};
use crate::kv::kv_model;
use crate::text::{lemma_split_at_sep, split_on};

verus! {

/// One rendered `key=value` line, newline included.
pub open spec fn dotenv_line(entry: (Seq<char>, Seq<char>)) -> Seq<char> {
    entry.0 + "="@ + entry.1 + "\n"@
}

/// The line-based rendering: one `key=value` line per entry, in order, with
/// no quoting or escaping of either key or value.
pub open spec fn dotenv_model(entries: Seq<(Seq<char>, Seq<char>)>) -> Seq<char>
    decreases entries.len(),
{
    if entries.len() == 0 {
        Seq::empty()
    } else {
        dotenv_line(entries[0]) + dotenv_model(entries.drop_first())
    }
}

proof fn lemma_dotenv_snoc(entries: Seq<(Seq<char>, Seq<char>)>, entry: (Seq<char>, Seq<char>))
    ensures
        dotenv_model(entries.push(entry)) == dotenv_model(entries) + dotenv_line(entry),
    decreases entries.len(),
{
    if entries.len() == 0 {
        assert(entries.push(entry)[0] == entry);
        assert(entries.push(entry).drop_first() =~= entries);
        assert(dotenv_model(entries.push(entry)) =~= dotenv_model(entries) + dotenv_line(entry));
    } else {
        assert(entries.push(entry).drop_first() =~= entries.drop_first().push(entry));
        lemma_dotenv_snoc(entries.drop_first(), entry);
        assert(dotenv_model(entries.push(entry)) =~= dotenv_model(entries) + dotenv_line(entry));
    }
}

/// Renders the resolved set as `key=value` lines, one per entry, in order.
pub fn output_dotenv(entries: &Vec<(String, String)>) -> (r: String)
    ensures
        r@ == dotenv_model(kv_model(entries@)),
{
    let ghost m = kv_model(entries@);
    let mut out = String::new();
    let mut i: usize = 0;
    proof {
        assert(m.take(0) =~= Seq::<(Seq<char>, Seq<char>)>::empty());
    }
    while i < entries.len()
        invariant
            0 <= i <= entries@.len(),
            m == kv_model(entries@),
            out@ == dotenv_model(m.take(i as int)),
        decreases entries@.len() - i,
    {
        out.append(entries[i].0.as_str());
        out.append("=");
        out.append(entries[i].1.as_str());
        out.append("\n");
        proof {
            lemma_dotenv_snoc(m.take(i as int), m[i as int]);
            assert(m.take(i as int).push(m[i as int]) =~= m.take(i as int + 1));
            assert(out@ =~= dotenv_model(m.take(i as int)) + dotenv_line(m[i as int]));
        }
        i += 1;
    }
    proof {
        assert(m.take(i as int) =~= m);
    }
    out
}

/// The replacement for a control character inside a JSON string: the named
/// short escapes where JSON has them, and a `\u00..` escape otherwise.
pub open spec fn control_escape(code: u32) -> Seq<char>
    recommends
        code < 32,
{
    if code == 0 {
        "\\u0000"@
    } else if code == 1 {
        "\\u0001"@
    } else if code == 2 {
        "\\u0002"@
    } else if code == 3 {
        "\\u0003"@
    } else if code == 4 {
        "\\u0004"@
    } else if code == 5 {
        "\\u0005"@
    } else if code == 6 {
        "\\u0006"@
    } else if code == 7 {
        "\\u0007"@
    } else if code == 8 {
        "\\b"@
    } else if code == 9 {
        "\\t"@
    } else if code == 10 {
        "\\n"@
    } else if code == 11 {
        "\\u000b"@
    } else if code == 12 {
        "\\f"@
    } else if code == 13 {
        "\\r"@
    } else if code == 14 {
        "\\u000e"@
    } else if code == 15 {
        "\\u000f"@
    } else if code == 16 {
        "\\u0010"@
    } else if code == 17 {
        "\\u0011"@
    } else if code == 18 {
        "\\u0012"@
    } else if code == 19 {
        "\\u0013"@
    } else if code == 20 {
        "\\u0014"@
    } else if code == 21 {
        "\\u0015"@
    } else if code == 22 {
        "\\u0016"@
    } else if code == 23 {
        "\\u0017"@
    } else if code == 24 {
        "\\u0018"@
    } else if code == 25 {
        "\\u0019"@
    } else if code == 26 {
        "\\u001a"@
    } else if code == 27 {
        "\\u001b"@
    } else if code == 28 {
        "\\u001c"@
    } else if code == 29 {
        "\\u001d"@
    } else if code == 30 {
        "\\u001e"@
    } else {
        "\\u001f"@
    }
}

/// Whether a character cannot stand bare inside a JSON string.
pub open spec fn json_needs_escape(c: char) -> bool {
    c == '"' || c == '\\' || (c as u32) < 32
}

/// What a character becomes inside a JSON string: quotes and backslashes are
/// escaped, control characters get their JSON escape, and every other
/// character stands as itself.
pub open spec fn json_escape_char(c: char) -> Seq<char> {
    if c == '"' {
        "\\\""@
    } else if c == '\\' {
        "\\\\"@
    } else if (c as u32) < 32 {
        control_escape(c as u32)
    } else {
        seq![c]
    }
}

/// A string's characters, each escaped for a JSON string.
pub open spec fn json_escape(s: Seq<char>) -> Seq<char>
    decreases s.len(),
{
    if s.len() == 0 {
        Seq::empty()
    } else {
        json_escape_char(s[0]) + json_escape(s.drop_first())
    }
}

proof fn lemma_json_escape_concat(a: Seq<char>, b: Seq<char>)
    ensures
        json_escape(a + b) == json_escape(a) + json_escape(b),
    decreases a.len(),
{
    if a.len() == 0 {
        assert(a + b =~= b);
        assert(json_escape(a) + json_escape(b) =~= json_escape(b));
    } else {
        assert((a + b).len() > 0);
        assert((a + b)[0] == a[0]);
        assert((a + b).drop_first() =~= a.drop_first() + b);
        lemma_json_escape_concat(a.drop_first(), b);
        assert(json_escape(a + b) =~= json_escape(a) + json_escape(b));
    }
}

proof fn lemma_json_escape_safe(a: Seq<char>)
    requires
        forall|j: int| 0 <= j < a.len() ==> !json_needs_escape(a[j]),
    ensures
        json_escape(a) == a,
    decreases a.len(),
{
    if a.len() > 0 {
        assert forall|j: int| 0 <= j < a.drop_first().len() implies !json_needs_escape(
            a.drop_first()[j],
        ) by {
            assert(a.drop_first()[j] == a[j + 1]);
        }
        lemma_json_escape_safe(a.drop_first());
        assert(json_escape_char(a[0]) == seq![a[0]]);
        assert(json_escape(a) =~= a);
    }
}

proof fn lemma_json_escape_snoc(a: Seq<char>, c: char)
    ensures
        json_escape(a.push(c)) == json_escape(a) + json_escape_char(c),
{
    assert(a.push(c) =~= a + seq![c]);
    lemma_json_escape_concat(a, seq![c]);
    assert(seq![c].drop_first() =~= Seq::<char>::empty());
    assert(json_escape(seq![c]) == json_escape_char(c) + json_escape(Seq::<char>::empty()));
    assert(json_escape_char(c) + Seq::<char>::empty() =~= json_escape_char(c));
}

/// The escape for one character that cannot stand bare.
fn escape_fragment(c: char) -> (r: &'static str)
    requires
        json_needs_escape(c),
    ensures
        r@ == json_escape_char(c),
{
    if c == '"' {
        "\\\""
    } else if c == '\\' {
        "\\\\"
    } else {
        let code = c as u32;
        match code {
            0 => "\\u0000",
            1 => "\\u0001",
            2 => "\\u0002",
            3 => "\\u0003",
            4 => "\\u0004",
            5 => "\\u0005",
            6 => "\\u0006",
            7 => "\\u0007",
            8 => "\\b",
            9 => "\\t",
            10 => "\\n",
            11 => "\\u000b",
            12 => "\\f",
            13 => "\\r",
            14 => "\\u000e",
            15 => "\\u000f",
            16 => "\\u0010",
            17 => "\\u0011",
            18 => "\\u0012",
            19 => "\\u0013",
            20 => "\\u0014",
            21 => "\\u0015",
            22 => "\\u0016",
            23 => "\\u0017",
            24 => "\\u0018",
            25 => "\\u0019",
            26 => "\\u001a",
            27 => "\\u001b",
            28 => "\\u001c",
            29 => "\\u001d",
            30 => "\\u001e",
            31 => "\\u001f",
            _ => "",
        }
    }
}

/// Escapes a string's characters for the inside of a JSON string.
pub fn json_escape_string(s: &str) -> (r: String)
    ensures
        r@ == json_escape(s@),
{
    let n = s.unicode_len();
    let mut out = String::new();
    let mut start: usize = 0;
    let mut i: usize = 0;
    proof {
        assert(s@.take(0) =~= Seq::<char>::empty());
    }
    while i < n
        invariant
            n == s@.len(),
            0 <= start <= i <= n,
            out@ == json_escape(s@.take(start as int)),
            forall|j: int| start <= j < i ==> !json_needs_escape(s@[j]),
        decreases n - i,
    {
        let c = s.get_char(i);
        if c == '"' || c == '\\' || (c as u32) < 32 {
            let run = s.substring_char(start, i);
            out.append(run);
            proof {
                let a = s@.subrange(start as int, i as int);
                lemma_json_escape_safe(a);
                lemma_json_escape_concat(s@.take(start as int), a);
                assert(s@.take(start as int) + a =~= s@.take(i as int));
            }
            out.append(escape_fragment(c));
            proof {
                lemma_json_escape_snoc(s@.take(i as int), s@[i as int]);
                assert(s@.take(i as int).push(s@[i as int]) =~= s@.take(i as int + 1));
            }
            start = i + 1;
        }
        i += 1;
    }
    let run = s.substring_char(start, n);
    out.append(run);
    proof {
        let a = s@.subrange(start as int, n as int);
        lemma_json_escape_safe(a);
        lemma_json_escape_concat(s@.take(start as int), a);
        assert(s@.take(start as int) + a =~= s@);
    }
    out
}

/// One rendered JSON object member: the key and value as JSON strings.
pub open spec fn json_entry(entry: (Seq<char>, Seq<char>)) -> Seq<char> {
    "\""@ + json_escape(entry.0) + "\":\""@ + json_escape(entry.1) + "\""@
}

/// The members after the first, each preceded by a comma.
pub open spec fn json_tail(entries: Seq<(Seq<char>, Seq<char>)>) -> Seq<char>
    decreases entries.len(),
{
    if entries.len() == 0 {
        Seq::empty()
    } else {
        ","@ + json_entry(entries[0]) + json_tail(entries.drop_first())
    }
}

/// The JSON rendering: a single object whose members are the entries, in
/// order, keys and values as JSON strings.
pub open spec fn json_model(entries: Seq<(Seq<char>, Seq<char>)>) -> Seq<char> {
    if entries.len() == 0 {
        "{}"@
    } else {
        "{"@ + json_entry(entries[0]) + json_tail(entries.drop_first()) + "}"@
    }
}

proof fn lemma_json_tail_snoc(entries: Seq<(Seq<char>, Seq<char>)>, entry: (Seq<char>, Seq<char>))
    ensures
        json_tail(entries.push(entry)) == json_tail(entries) + (","@ + json_entry(entry)),
    decreases entries.len(),
{
    if entries.len() == 0 {
        assert(entries.push(entry)[0] == entry);
        assert(entries.push(entry).drop_first() =~= entries);
        assert(json_tail(entries.push(entry)) =~= json_tail(entries) + (","@ + json_entry(entry)));
    } else {
        assert(entries.push(entry).drop_first() =~= entries.drop_first().push(entry));
        lemma_json_tail_snoc(entries.drop_first(), entry);
        assert(json_tail(entries.push(entry)) =~= json_tail(entries) + (","@ + json_entry(entry)));
    }
}

/// Appends one rendered member to the output.
fn append_json_entry(out: &mut String, entry: &(String, String))
    ensures
        final(out)@ == old(out)@ + json_entry((entry.0@, entry.1@)),
{
    out.append("\"");
    let k = json_escape_string(entry.0.as_str());
    out.append(k.as_str());
    out.append("\":\"");
    let v = json_escape_string(entry.1.as_str());
    out.append(v.as_str());
    out.append("\"");
    proof {
        assert(out@ =~= old(out)@ + json_entry((entry.0@, entry.1@)));
    }
}

/// Renders the resolved set as a single JSON object, members in order.
pub fn output_json(entries: &Vec<(String, String)>) -> (r: String)
    ensures
        r@ == json_model(kv_model(entries@)),
{
    let ghost m = kv_model(entries@);
    if entries.is_empty() {
        return String::from_str("{}");
    }
    let mut out = String::from_str("{");
    append_json_entry(&mut out, &entries[0]);
    let mut i: usize = 1;
    proof {
        assert(m.subrange(1, 1) =~= Seq::<(Seq<char>, Seq<char>)>::empty());
        assert(out@ =~= "{"@ + json_entry(m[0]) + json_tail(m.subrange(1, 1)));
    }
    while i < entries.len()
        invariant
            1 <= i <= entries@.len(),
            m == kv_model(entries@),
            m.len() == entries@.len(),
            out@ == "{"@ + json_entry(m[0]) + json_tail(m.subrange(1, i as int)),
        decreases entries@.len() - i,
    {
        out.append(",");
        append_json_entry(&mut out, &entries[i]);
        proof {
            lemma_json_tail_snoc(m.subrange(1, i as int), m[i as int]);
            assert(m.subrange(1, i as int).push(m[i as int]) =~= m.subrange(1, i as int + 1));
            assert(out@ =~= "{"@ + json_entry(m[0]) + json_tail(m.subrange(1, i as int + 1)));
        }
        i += 1;
    }
    out.append("}");
    proof {
        assert(m.subrange(1, m.len() as int) =~= m.drop_first());
        assert(out@ =~= json_model(m));
    }
    out
}

/// Renders the resolved set in the chosen format: `json` gives the JSON
/// object, and any other format selector — `dotenv` or an unrecognized name
/// alike — gives the `key=value` lines.
pub fn render(entries: &Vec<(String, String)>, format: &String) -> (r: String)
    ensures
        format@ == "json"@ ==> r@ == json_model(kv_model(entries@)),
        format@ != "json"@ ==> r@ == dotenv_model(kv_model(entries@)),
{
    if format.eq(&String::from_str("json")) {
        output_json(entries)
    } else {
        output_dotenv(entries)
    }
}

/// The value of a lowercase hexadecimal digit.
pub open spec fn hex_val(c: char) -> Option<u32> {
    if c == '0' {
        Some(0)
    } else if c == '1' {
        Some(1)
    } else if c == '2' {
        Some(2)
    } else if c == '3' {
        Some(3)
    } else if c == '4' {
        Some(4)
    } else if c == '5' {
        Some(5)
    } else if c == '6' {
        Some(6)
    } else if c == '7' {
        Some(7)
    } else if c == '8' {
        Some(8)
    } else if c == '9' {
        Some(9)
    } else if c == 'a' {
        Some(10)
    } else if c == 'b' {
        Some(11)
    } else if c == 'c' {
        Some(12)
    } else if c == 'd' {
        Some(13)
    } else if c == 'e' {
        Some(14)
    } else if c == 'f' {
        Some(15)
    } else {
        None
    }
}

/// Reads one JSON string body back, up to its closing quote: the decoded
/// characters and the text after the quote. This reads exactly the strings
/// this library renders; it is not a general JSON parser.
pub open spec fn json_read_string(t: Seq<char>) -> Option<(Seq<char>, Seq<char>)>
    decreases t.len(),
{
    if t.len() == 0 {
        None
    } else if t[0] == '"' {
        Some((Seq::empty(), t.skip(1)))
    } else if t[0] == '\\' {
        if t.len() < 2 {
            None
        } else if t[1] == '"' || t[1] == '\\' {
            match json_read_string(t.skip(2)) {
                Some(p) => Some((seq![t[1]] + p.0, p.1)),
                None => None,
            }
        } else if t[1] == 'b' {
            match json_read_string(t.skip(2)) {
                Some(p) => Some((seq![8u32 as char] + p.0, p.1)),
                None => None,
            }
        } else if t[1] == 't' {
            match json_read_string(t.skip(2)) {
                Some(p) => Some((seq![9u32 as char] + p.0, p.1)),
                None => None,
            }
        } else if t[1] == 'n' {
            match json_read_string(t.skip(2)) {
                Some(p) => Some((seq![10u32 as char] + p.0, p.1)),
                None => None,
            }
        } else if t[1] == 'f' {
            match json_read_string(t.skip(2)) {
                Some(p) => Some((seq![12u32 as char] + p.0, p.1)),
                None => None,
            }
        } else if t[1] == 'r' {
            match json_read_string(t.skip(2)) {
                Some(p) => Some((seq![13u32 as char] + p.0, p.1)),
                None => None,
            }
        } else if t[1] == 'u' {
            if t.len() < 6 {
                None
            } else {
                match (hex_val(t[2]), hex_val(t[3]), hex_val(t[4]), hex_val(t[5])) {
                    (Some(h0), Some(h1), Some(h2), Some(h3)) => {
                        match json_read_string(t.skip(6)) {
                            Some(p) => Some(
                                (seq![(h0 * 4096 + h1 * 256 + h2 * 16 + h3) as char] + p.0, p.1),
                            ),
                            None => None,
                        }
                    },
                    _ => None,
                }
            }
        } else {
            None
        }
    } else {
        match json_read_string(t.skip(1)) {
            Some(p) => Some((seq![t[0]] + p.0, p.1)),
            None => None,
        }
    }
}

proof fn lemma_read_string_shrinks(t: Seq<char>)
    ensures
        json_read_string(t) matches Some(p) ==> p.1.len() < t.len(),
    decreases t.len(),
{
    if t.len() == 0 {
    } else if t[0] == '"' {
    } else if t[0] == '\\' {
        if t.len() >= 2 {
            lemma_read_string_shrinks(t.skip(2));
            if t.len() >= 6 {
                lemma_read_string_shrinks(t.skip(6));
            }
        }
    } else {
        lemma_read_string_shrinks(t.skip(1));
    }
}

proof fn lemma_read_u_escape(e: Seq<char>, c: char, tail: Seq<char>, u: Seq<char>, rest: Seq<char>)
    requires
        e.len() == 6,
        e[0] == '\\',
        e[1] == 'u',
        hex_val(e[2]) is Some,
        hex_val(e[3]) is Some,
        hex_val(e[4]) is Some,
        hex_val(e[5]) is Some,
        hex_val(e[2])->0 * 4096 + hex_val(e[3])->0 * 256 + hex_val(e[4])->0 * 16 + hex_val(e[5])->0
            == c as u32,
        json_read_string(tail) == Some((u, rest)),
    ensures
        json_read_string(e + tail) == Some((seq![c] + u, rest)),
{
    broadcast use vstd::utf8::char_u32_cast;

    let t = e + tail;
    assert(t.len() >= 6);
    assert(t[0] == '\\' && t[1] == 'u');
    assert(t[2] == e[2] && t[3] == e[3] && t[4] == e[4] && t[5] == e[5]);
    assert(t.skip(6) =~= tail);
    let code = hex_val(t[2])->0 * 4096 + hex_val(t[3])->0 * 256 + hex_val(t[4])->0 * 16 + hex_val(
        t[5],
    )->0;
    assert(code == c as u32);
    assert((code as char) == c);
}

proof fn lemma_read_short_escape(
    e: Seq<char>,
    c: char,
    tail: Seq<char>,
    u: Seq<char>,
    rest: Seq<char>,
)
    requires
        e.len() == 2,
        e[0] == '\\',
        (e[1] == '"' && c == '"') || (e[1] == '\\' && c == '\\') || (e[1] == 'b' && c as u32
            == 8) || (e[1] == 't' && c as u32 == 9) || (e[1] == 'n' && c as u32 == 10) || (e[1]
            == 'f' && c as u32 == 12) || (e[1] == 'r' && c as u32 == 13),
        json_read_string(tail) == Some((u, rest)),
    ensures
        json_read_string(e + tail) == Some((seq![c] + u, rest)),
{
    broadcast use vstd::utf8::char_u32_cast;

    let t = e + tail;
    assert(t.len() >= 2);
    assert(t[0] == '\\' && t[1] == e[1]);
    assert(t.skip(2) =~= tail);
    if e[1] == 'b' || e[1] == 't' || e[1] == 'n' || e[1] == 'f' || e[1] == 'r' {
        assert(((c as u32) as char) == c);
    }
}

proof fn lemma_control_read(c: char, tail: Seq<char>, u: Seq<char>, rest: Seq<char>)
    requires
        (c as u32) < 32,
        c as u32 != 8 && c as u32 != 9 && c as u32 != 10 && c as u32 != 12 && c as u32 != 13,
        json_read_string(tail) == Some((u, rest)),
    ensures
        json_read_string(control_escape(c as u32) + tail) == Some((seq![c] + u, rest)),
{
    let code = c as u32;
    if code == 0 {
        reveal_strlit("\\u0000");
        let e = "\\u0000"@;
        assert(e.len() == 6 && e[0] == '\\' && e[1] == 'u' && e[2] == '0' && e[3] == '0' && e[4]
            == '0' && e[5] == '0');
        lemma_read_u_escape(e, c, tail, u, rest);
    } else if code == 1 {
        reveal_strlit("\\u0001");
        let e = "\\u0001"@;
        assert(e.len() == 6 && e[0] == '\\' && e[1] == 'u' && e[2] == '0' && e[3] == '0' && e[4]
            == '0' && e[5] == '1');
        lemma_read_u_escape(e, c, tail, u, rest);
    } else if code == 2 {
        reveal_strlit("\\u0002");
        let e = "\\u0002"@;
        assert(e.len() == 6 && e[0] == '\\' && e[1] == 'u' && e[2] == '0' && e[3] == '0' && e[4]
            == '0' && e[5] == '2');
        lemma_read_u_escape(e, c, tail, u, rest);
    } else if code == 3 {
        reveal_strlit("\\u0003");
        let e = "\\u0003"@;
        assert(e.len() == 6 && e[0] == '\\' && e[1] == 'u' && e[2] == '0' && e[3] == '0' && e[4]
            == '0' && e[5] == '3');
        lemma_read_u_escape(e, c, tail, u, rest);
    } else if code == 4 {
        reveal_strlit("\\u0004");
        let e = "\\u0004"@;
        assert(e.len() == 6 && e[0] == '\\' && e[1] == 'u' && e[2] == '0' && e[3] == '0' && e[4]
            == '0' && e[5] == '4');
        lemma_read_u_escape(e, c, tail, u, rest);
    } else if code == 5 {
        reveal_strlit("\\u0005");
        let e = "\\u0005"@;
        assert(e.len() == 6 && e[0] == '\\' && e[1] == 'u' && e[2] == '0' && e[3] == '0' && e[4]
            == '0' && e[5] == '5');
        lemma_read_u_escape(e, c, tail, u, rest);
    } else if code == 6 {
        reveal_strlit("\\u0006");
        let e = "\\u0006"@;
        assert(e.len() == 6 && e[0] == '\\' && e[1] == 'u' && e[2] == '0' && e[3] == '0' && e[4]
            == '0' && e[5] == '6');
        lemma_read_u_escape(e, c, tail, u, rest);
    } else if code == 7 {
        reveal_strlit("\\u0007");
        let e = "\\u0007"@;
        assert(e.len() == 6 && e[0] == '\\' && e[1] == 'u' && e[2] == '0' && e[3] == '0' && e[4]
            == '0' && e[5] == '7');
        lemma_read_u_escape(e, c, tail, u, rest);
    } else if code == 11 {
        reveal_strlit("\\u000b");
        let e = "\\u000b"@;
        assert(e.len() == 6 && e[0] == '\\' && e[1] == 'u' && e[2] == '0' && e[3] == '0' && e[4]
            == '0' && e[5] == 'b');
        lemma_read_u_escape(e, c, tail, u, rest);
    } else if code == 14 {
        reveal_strlit("\\u000e");
        let e = "\\u000e"@;
        assert(e.len() == 6 && e[0] == '\\' && e[1] == 'u' && e[2] == '0' && e[3] == '0' && e[4]
            == '0' && e[5] == 'e');
        lemma_read_u_escape(e, c, tail, u, rest);
    } else if code == 15 {
        reveal_strlit("\\u000f");
        let e = "\\u000f"@;
        assert(e.len() == 6 && e[0] == '\\' && e[1] == 'u' && e[2] == '0' && e[3] == '0' && e[4]
            == '0' && e[5] == 'f');
        lemma_read_u_escape(e, c, tail, u, rest);
    } else if code == 16 {
        reveal_strlit("\\u0010");
        let e = "\\u0010"@;
        assert(e.len() == 6 && e[0] == '\\' && e[1] == 'u' && e[2] == '0' && e[3] == '0' && e[4]
            == '1' && e[5] == '0');
        lemma_read_u_escape(e, c, tail, u, rest);
    } else if code == 17 {
        reveal_strlit("\\u0011");
        let e = "\\u0011"@;
        assert(e.len() == 6 && e[0] == '\\' && e[1] == 'u' && e[2] == '0' && e[3] == '0' && e[4]
            == '1' && e[5] == '1');
        lemma_read_u_escape(e, c, tail, u, rest);
    } else if code == 18 {
        reveal_strlit("\\u0012");
        let e = "\\u0012"@;
        assert(e.len() == 6 && e[0] == '\\' && e[1] == 'u' && e[2] == '0' && e[3] == '0' && e[4]
            == '1' && e[5] == '2');
        lemma_read_u_escape(e, c, tail, u, rest);
    } else if code == 19 {
        reveal_strlit("\\u0013");
        let e = "\\u0013"@;
        assert(e.len() == 6 && e[0] == '\\' && e[1] == 'u' && e[2] == '0' && e[3] == '0' && e[4]
            == '1' && e[5] == '3');
        lemma_read_u_escape(e, c, tail, u, rest);
    } else if code == 20 {
        reveal_strlit("\\u0014");
        let e = "\\u0014"@;
        assert(e.len() == 6 && e[0] == '\\' && e[1] == 'u' && e[2] == '0' && e[3] == '0' && e[4]
            == '1' && e[5] == '4');
        lemma_read_u_escape(e, c, tail, u, rest);
    } else if code == 21 {
        reveal_strlit("\\u0015");
        let e = "\\u0015"@;
        assert(e.len() == 6 && e[0] == '\\' && e[1] == 'u' && e[2] == '0' && e[3] == '0' && e[4]
            == '1' && e[5] == '5');
        lemma_read_u_escape(e, c, tail, u, rest);
    } else if code == 22 {
        reveal_strlit("\\u0016");
        let e = "\\u0016"@;
        assert(e.len() == 6 && e[0] == '\\' && e[1] == 'u' && e[2] == '0' && e[3] == '0' && e[4]
            == '1' && e[5] == '6');
        lemma_read_u_escape(e, c, tail, u, rest);
    } else if code == 23 {
        reveal_strlit("\\u0017");
        let e = "\\u0017"@;
        assert(e.len() == 6 && e[0] == '\\' && e[1] == 'u' && e[2] == '0' && e[3] == '0' && e[4]
            == '1' && e[5] == '7');
        lemma_read_u_escape(e, c, tail, u, rest);
    } else if code == 24 {
        reveal_strlit("\\u0018");
        let e = "\\u0018"@;
        assert(e.len() == 6 && e[0] == '\\' && e[1] == 'u' && e[2] == '0' && e[3] == '0' && e[4]
            == '1' && e[5] == '8');
        lemma_read_u_escape(e, c, tail, u, rest);
    } else if code == 25 {
        reveal_strlit("\\u0019");
        let e = "\\u0019"@;
        assert(e.len() == 6 && e[0] == '\\' && e[1] == 'u' && e[2] == '0' && e[3] == '0' && e[4]
            == '1' && e[5] == '9');
        lemma_read_u_escape(e, c, tail, u, rest);
    } else if code == 26 {
        reveal_strlit("\\u001a");
        let e = "\\u001a"@;
        assert(e.len() == 6 && e[0] == '\\' && e[1] == 'u' && e[2] == '0' && e[3] == '0' && e[4]
            == '1' && e[5] == 'a');
        lemma_read_u_escape(e, c, tail, u, rest);
    } else if code == 27 {
        reveal_strlit("\\u001b");
        let e = "\\u001b"@;
        assert(e.len() == 6 && e[0] == '\\' && e[1] == 'u' && e[2] == '0' && e[3] == '0' && e[4]
            == '1' && e[5] == 'b');
        lemma_read_u_escape(e, c, tail, u, rest);
    } else if code == 28 {
        reveal_strlit("\\u001c");
        let e = "\\u001c"@;
        assert(e.len() == 6 && e[0] == '\\' && e[1] == 'u' && e[2] == '0' && e[3] == '0' && e[4]
            == '1' && e[5] == 'c');
        lemma_read_u_escape(e, c, tail, u, rest);
    } else if code == 29 {
        reveal_strlit("\\u001d");
        let e = "\\u001d"@;
        assert(e.len() == 6 && e[0] == '\\' && e[1] == 'u' && e[2] == '0' && e[3] == '0' && e[4]
            == '1' && e[5] == 'd');
        lemma_read_u_escape(e, c, tail, u, rest);
    } else if code == 30 {
        reveal_strlit("\\u001e");
        let e = "\\u001e"@;
        assert(e.len() == 6 && e[0] == '\\' && e[1] == 'u' && e[2] == '0' && e[3] == '0' && e[4]
            == '1' && e[5] == 'e');
        lemma_read_u_escape(e, c, tail, u, rest);
    } else {
        reveal_strlit("\\u001f");
        let e = "\\u001f"@;
        assert(e.len() == 6 && e[0] == '\\' && e[1] == 'u' && e[2] == '0' && e[3] == '0' && e[4]
            == '1' && e[5] == 'f');
        lemma_read_u_escape(e, c, tail, u, rest);
    }
}

/// Reading the escaped text back, up to a closing quote, yields exactly the
/// original characters and whatever follows the quote: escaping loses
/// nothing.
proof fn lemma_read_escaped(s: Seq<char>, rest: Seq<char>)
    ensures
        json_read_string(json_escape(s) + seq!['"'] + rest) == Some((s, rest)),
    decreases s.len(),
{
    if s.len() == 0 {
        let t = json_escape(s) + seq!['"'] + rest;
        assert(t =~= seq!['"'] + rest);
        assert(t[0] == '"');
        assert(t.skip(1) =~= rest);
    } else {
        let c = s[0];
        lemma_read_escaped(s.drop_first(), rest);
        let tail = json_escape(s.drop_first()) + seq!['"'] + rest;
        assert(json_escape(s) + seq!['"'] + rest =~= json_escape_char(c) + tail);
        assert(seq![c] + s.drop_first() =~= s);
        if c == '"' {
            reveal_strlit("\\\"");
            assert("\\\""@.len() == 2 && "\\\""@[0] == '\\' && "\\\""@[1] == '"');
            lemma_read_short_escape("\\\""@, c, tail, s.drop_first(), rest);
        } else if c == '\\' {
            reveal_strlit("\\\\");
            assert("\\\\"@.len() == 2 && "\\\\"@[0] == '\\' && "\\\\"@[1] == '\\');
            lemma_read_short_escape("\\\\"@, c, tail, s.drop_first(), rest);
        } else if (c as u32) < 32 {
            let code = c as u32;
            if code == 8 {
                reveal_strlit("\\b");
                assert("\\b"@.len() == 2 && "\\b"@[0] == '\\' && "\\b"@[1] == 'b');
                lemma_read_short_escape("\\b"@, c, tail, s.drop_first(), rest);
            } else if code == 9 {
                reveal_strlit("\\t");
                assert("\\t"@.len() == 2 && "\\t"@[0] == '\\' && "\\t"@[1] == 't');
                lemma_read_short_escape("\\t"@, c, tail, s.drop_first(), rest);
            } else if code == 10 {
                reveal_strlit("\\n");
                assert("\\n"@.len() == 2 && "\\n"@[0] == '\\' && "\\n"@[1] == 'n');
                lemma_read_short_escape("\\n"@, c, tail, s.drop_first(), rest);
            } else if code == 12 {
                reveal_strlit("\\f");
                assert("\\f"@.len() == 2 && "\\f"@[0] == '\\' && "\\f"@[1] == 'f');
                lemma_read_short_escape("\\f"@, c, tail, s.drop_first(), rest);
            } else if code == 13 {
                reveal_strlit("\\r");
                assert("\\r"@.len() == 2 && "\\r"@[0] == '\\' && "\\r"@[1] == 'r');
                lemma_read_short_escape("\\r"@, c, tail, s.drop_first(), rest);
            } else {
                lemma_control_read(c, tail, s.drop_first(), rest);
            }
        } else {
            let t = seq![c] + tail;
            assert(t[0] == c);
            assert(t[0] != '"' && t[0] != '\\');
            assert(t.skip(1) =~= tail);
        }
    }
}

/// Reads the members of a rendered object back: one `"key":"value"` pair,
/// then either the closing brace or a comma and the members after it.
pub open spec fn json_read_members(t: Seq<char>) -> Option<Seq<(Seq<char>, Seq<char>)>>
    decreases t.len(),
    via json_read_members_dec
{
    if t.len() == 0 || t[0] != '"' {
        None
    } else {
        match json_read_string(t.skip(1)) {
            Some((key, r1)) => {
                if r1.len() >= 2 && r1[0] == ':' && r1[1] == '"' {
                    match json_read_string(r1.skip(2)) {
                        Some((value, r2)) => {
                            if r2.len() == 1 && r2[0] == '}' {
                                Some(seq![(key, value)])
                            } else if r2.len() >= 1 && r2[0] == ',' {
                                match json_read_members(r2.skip(1)) {
                                    Some(rest) => Some(seq![(key, value)] + rest),
                                    None => None,
                                }
                            } else {
                                None
                            }
                        },
                        None => None,
                    }
                } else {
                    None
                }
            },
            None => None,
        }
    }
}

#[via_fn]
proof fn json_read_members_dec(t: Seq<char>) {
    if t.len() != 0 && t[0] == '"' {
        lemma_read_string_shrinks(t.skip(1));
        match json_read_string(t.skip(1)) {
            Some((key, r1)) => {
                if r1.len() >= 2 && r1[0] == ':' && r1[1] == '"' {
                    lemma_read_string_shrinks(r1.skip(2));
                }
            },
            None => {},
        }
    }
}

/// Reads a rendered object back: the empty object, or an opening brace
/// followed by its members.
pub open spec fn json_read_object(t: Seq<char>) -> Option<Seq<(Seq<char>, Seq<char>)>> {
    if t.len() >= 2 && t[0] == '{' {
        if t.len() == 2 && t[1] == '}' {
            Some(Seq::empty())
        } else {
            json_read_members(t.skip(1))
        }
    } else {
        None
    }
}

proof fn lemma_read_members_of_rendering(entries: Seq<(Seq<char>, Seq<char>)>)
    requires
        entries.len() > 0,
    ensures
        json_read_members(json_entry(entries[0]) + json_tail(entries.drop_first()) + "}"@)
            == Some(entries),
    decreases entries.len(),
{
    reveal_strlit("\"");
    reveal_strlit("\":\"");
    reveal_strlit(",");
    reveal_strlit("}");
    assert("\""@.len() == 1 && "\""@[0] == '"');
    assert("\":\""@.len() == 3 && "\":\""@[0] == '"' && "\":\""@[1] == ':' && "\":\""@[2]
        == '"');
    assert("}"@.len() == 1 && "}"@[0] == '}');
    assert(","@.len() == 1 && ","@[0] == ',');
    let e0 = entries[0];
    let jt = json_tail(entries.drop_first());
    let t = json_entry(e0) + jt + "}"@;
    assert(t[0] == '"');
    let tail2 = jt + "}"@;
    let after_key = seq![':', '"'] + (json_escape(e0.1) + seq!['"'] + tail2);
    assert(t.skip(1) =~= json_escape(e0.0) + seq!['"'] + after_key);
    lemma_read_escaped(e0.0, after_key);
    assert(json_read_string(t.skip(1)) == Some((e0.0, after_key)));
    assert(after_key.len() >= 2 && after_key[0] == ':' && after_key[1] == '"');
    assert(after_key.skip(2) =~= json_escape(e0.1) + seq!['"'] + tail2);
    lemma_read_escaped(e0.1, tail2);
    assert(json_read_string(after_key.skip(2)) == Some((e0.1, tail2)));
    if entries.len() == 1 {
        assert(jt =~= Seq::<char>::empty());
        assert(tail2 =~= "}"@);
        assert(tail2.len() == 1 && tail2[0] == '}');
        assert((e0.0, e0.1) == e0);
        assert(seq![(e0.0, e0.1)] =~= entries);
    } else {
        let d = entries.drop_first();
        assert(jt == ","@ + json_entry(d[0]) + json_tail(d.drop_first()));
        assert(tail2.len() >= 2);
        assert(tail2[0] == ',');
        assert(tail2.skip(1) =~= json_entry(d[0]) + json_tail(d.drop_first()) + "}"@);
        lemma_read_members_of_rendering(d);
        assert((e0.0, e0.1) == e0);
        assert(seq![(e0.0, e0.1)] + d =~= entries);
    }
}

/// The rendered JSON object reads back to exactly the entries it was
/// rendered from: no member is added, dropped, or renamed, and every key and
/// value comes back character for character.
pub proof fn lemma_json_round_trip(entries: Seq<(Seq<char>, Seq<char>)>)
    ensures
        json_read_object(json_model(entries)) == Some(entries),
{
    reveal_strlit("{}");
    reveal_strlit("{");
    reveal_strlit("}");
    reveal_strlit("\"");
    if entries.len() == 0 {
        let t = json_model(entries);
        assert(t.len() == 2 && t[0] == '{' && t[1] == '}');
        assert(Seq::<(Seq<char>, Seq<char>)>::empty() =~= entries);
    } else {
        let t = json_model(entries);
        let body = json_entry(entries[0]) + json_tail(entries.drop_first()) + "}"@;
        assert(t =~= "{"@ + body);
        assert("{"@.len() == 1 && "{"@[0] == '{');
        assert("\""@.len() == 1 && "\""@[0] == '"');
        assert(body[0] == '"');
        assert(body.len() >= 2);
        assert(t.len() > 2);
        assert(t[0] == '{');
        assert(t.skip(1) =~= body);
        lemma_read_members_of_rendering(entries);
    }
}

/// Whether a text holds no newline.
pub open spec fn newline_free(s: Seq<char>) -> bool {
    forall|j: int| 0 <= j < s.len() ==> s[j] != '\n'
}

/// Each resolved entry yields exactly one line: splitting the line-based
/// rendering on newlines gives the entries' `key=value` texts in order —
/// unquoted and unescaped — followed by the empty segment after the final
/// newline. This holds whenever no key or value itself contains a newline.
pub proof fn lemma_dotenv_lines(entries: Seq<(Seq<char>, Seq<char>)>)
    requires
        forall|i: int|
            0 <= i < entries.len() ==> newline_free((#[trigger] entries[i]).0) && newline_free(
                entries[i].1,
            ),
    ensures
        split_on(dotenv_model(entries), '\n') == entries.map(
            |i: int, entry: (Seq<char>, Seq<char>)| entry.0 + "="@ + entry.1,
        ).push(Seq::<char>::empty()),
    decreases entries.len(),
{
    reveal_strlit("=");
    reveal_strlit("\n");
    let lines = entries.map(|i: int, entry: (Seq<char>, Seq<char>)| entry.0 + "="@ + entry.1);
    if entries.len() == 0 {
        assert(dotenv_model(entries) =~= Seq::<char>::empty());
        assert(split_on(dotenv_model(entries), '\n') =~~= lines.push(Seq::<char>::empty()));
    } else {
        let head = entries[0];
        let a = head.0 + "="@ + head.1;
        let rest = dotenv_model(entries.drop_first());
        assert("\n"@ =~= seq!['\n']);
        assert(dotenv_model(entries) =~= a + seq!['\n'] + rest);
        assert forall|j: int| 0 <= j < a.len() implies a[j] != '\n' by {
            if j < head.0.len() {
                assert(a[j] == head.0[j]);
            } else if j == head.0.len() {
                assert(a[j] == '=');
            } else {
                assert(a[j] == head.1[j - head.0.len() - 1]);
            }
        }
        lemma_split_at_sep(a, rest, '\n');
        assert forall|i: int|
            0 <= i < entries.drop_first().len() implies newline_free(
            (#[trigger] entries.drop_first()[i]).0,
        ) && newline_free(entries.drop_first()[i].1) by {
            assert(entries.drop_first()[i] == entries[i + 1]);
        }
        lemma_dotenv_lines(entries.drop_first());
        let dlines = entries.drop_first().map(
            |i: int, entry: (Seq<char>, Seq<char>)| entry.0 + "="@ + entry.1,
        );
        assert forall|i: int| 0 <= i < dlines.len() implies #[trigger] dlines[i] == lines[i
            + 1] by {
            assert(entries.drop_first()[i] == entries[i + 1]);
        }
        assert(seq![a] + dlines.push(Seq::<char>::empty()) =~~= lines.push(Seq::<char>::empty()));
    }
}

} // verus!
