//! The JSON text codec: a serializer and a parser for [`JsonValue`],
//! each verified against a specification over character sequences.
//!
//! The serializer emits compact JSON (no inter-token whitespace), escaping
//! `"`, `\` and control characters.  The parser accepts whitespace between
//! tokens, the standard escapes, and keeps number lexemes verbatim.

use vstd::prelude::*;
use crate::json::{
    JsonValue, SpecJson, chars_to_string, is_digit, is_number_char, json_wf, lemma_view_json_entries,
    lemma_view_json_entries_cons, lemma_view_json_seq, lemma_view_json_seq_cons, str_to_chars,
    view_json, view_json_entries, view_json_seq,
};

verus! {

/// Whitespace the parser skips between tokens.
pub open spec fn is_ws(c: char) -> bool {
    c == ' ' || c == '\t' || c == '\n' || c == '\r'
}

/// Control characters must be escaped in string literals.
pub open spec fn is_control(c: char) -> bool {
    (c as u32) < 32
}

/// The lower-case hex digit for a value below 16.
pub open spec fn hex_char(d: int) -> char {
    if d < 10 {
        (48 + d) as char
    } else {
        (87 + d) as char
    }
}

/// How one character appears inside a serialized string literal.
pub open spec fn esc_char(c: char) -> Seq<char> {
    if c == '"' {
        seq!['\\', '"']
    } else if c == '\\' {
        seq!['\\', '\\']
    } else if is_control(c) {
        seq!['\\', 'u', '0', '0', hex_char((c as u32 / 16) as int), hex_char((c as u32 % 16) as int)]
    } else {
        seq![c]
    }
}

/// How a whole string body appears inside a serialized string literal.
pub open spec fn esc_str(s: Seq<char>) -> Seq<char>
    decreases s.len(),
{
    if s.len() == 0 {
        Seq::empty()
    } else {
        esc_char(s[0]) + esc_str(s.drop_first())
    }
}

/// A serialized string literal, quotes included.
pub open spec fn print_str(s: Seq<char>) -> Seq<char> {
    seq!['"'] + esc_str(s) + seq!['"']
}

/// The serialized text of a value.
pub open spec fn spec_print(v: SpecJson) -> Seq<char>
    decreases v, 1int,
{
    match v {
        SpecJson::Null => seq!['n', 'u', 'l', 'l'],
        SpecJson::Bool(b) => if b {
            seq!['t', 'r', 'u', 'e']
        } else {
            seq!['f', 'a', 'l', 's', 'e']
        },
        SpecJson::Num(s) => s,
        SpecJson::Str(s) => print_str(s),
        SpecJson::Arr(items) => seq!['['] + spec_print_items(items) + seq![']'],
        SpecJson::Obj(entries) => seq!['{'] + spec_print_entries(entries) + seq!['}'],
    }
}

/// The comma-separated serialization of array elements.
pub open spec fn spec_print_items(items: Seq<SpecJson>) -> Seq<char>
    decreases items, 2int,
{
    if items.len() == 0 {
        Seq::empty()
    } else if items.len() == 1 {
        spec_print(items[0])
    } else {
        spec_print(items[0]) + seq![','] + spec_print_items(items.drop_first())
    }
}

/// The comma-separated serialization of object entries.
pub open spec fn spec_print_entries(entries: Seq<(Seq<char>, SpecJson)>) -> Seq<char>
    decreases entries, 2int,
{
    if entries.len() == 0 {
        Seq::empty()
    } else if entries.len() == 1 {
        print_str(entries[0].0) + seq![':'] + spec_print(entries[0].1)
    } else {
        print_str(entries[0].0) + seq![':'] + spec_print(entries[0].1) + seq![',']
            + spec_print_entries(entries.drop_first())
    }
}

/// Appending one character extends the escaped body by its escape.
pub proof fn lemma_esc_str_push(s: Seq<char>, c: char)
    ensures
        esc_str(s.push(c)) == esc_str(s) + esc_char(c),
    decreases s.len(),
{
    if s.len() == 0 {
        assert(s.push(c).drop_first() =~= Seq::<char>::empty());
        assert(s.push(c)[0] == c);
        assert(s =~= Seq::<char>::empty());
        assert(esc_str(s) == Seq::<char>::empty());
        assert(esc_str(s.push(c)) == esc_char(c) + esc_str(Seq::<char>::empty()));
        assert(esc_str(s.push(c)) =~= esc_str(s) + esc_char(c));
    } else {
        assert(s.push(c).drop_first() =~= s.drop_first().push(c));
        lemma_esc_str_push(s.drop_first(), c);
        assert(esc_str(s.push(c)) =~= esc_str(s) + esc_char(c));
    }
}

/// Appending one element extends the printed list by a comma and its text.
pub proof fn lemma_print_items_push(items: Seq<SpecJson>, x: SpecJson)
    ensures
        spec_print_items(items.push(x)) == if items.len() == 0 {
            spec_print(x)
        } else {
            spec_print_items(items) + seq![','] + spec_print(x)
        },
    decreases items.len(),
{
    if items.len() == 0 {
        assert(items.push(x)[0] == x);
        assert(spec_print_items(items.push(x)) == spec_print(x));
    } else {
        assert(items.push(x).drop_first() =~= items.drop_first().push(x));
        assert(items.push(x)[0] == items[0]);
        lemma_print_items_push(items.drop_first(), x);
        if items.len() == 1 {
            assert(spec_print_items(items.push(x)) =~= spec_print_items(items) + seq![',']
                + spec_print(x));
        } else {
            assert(spec_print_items(items.push(x)) =~= spec_print_items(items) + seq![',']
                + spec_print(x));
        }
    }
}

/// Appending one entry extends the printed object body likewise.
pub proof fn lemma_print_entries_push(entries: Seq<(Seq<char>, SpecJson)>, e: (Seq<char>, SpecJson))
    ensures
        spec_print_entries(entries.push(e)) == if entries.len() == 0 {
            print_str(e.0) + seq![':'] + spec_print(e.1)
        } else {
            spec_print_entries(entries) + seq![','] + print_str(e.0) + seq![':'] + spec_print(e.1)
        },
    decreases entries.len(),
{
    if entries.len() == 0 {
        assert(entries.push(e)[0] == e);
        assert(spec_print_entries(entries.push(e)) == print_str(e.0) + seq![':'] + spec_print(e.1));
    } else {
        assert(entries.push(e).drop_first() =~= entries.drop_first().push(e));
        assert(entries.push(e)[0] == entries[0]);
        lemma_print_entries_push(entries.drop_first(), e);
        assert(spec_print_entries(entries.push(e)) =~= spec_print_entries(entries) + seq![',']
            + print_str(e.0) + seq![':'] + spec_print(e.1));
    }
}

/// The lower-case hex digit for a value below 16.
fn hex_char_exec(d: u32) -> (c: char)
    requires
        d < 16,
    ensures
        c == hex_char(d as int),
{
    if d < 10 {
        (48 + d as u8) as char
    } else {
        (87 + d as u8) as char
    }
}

/// Append every character of `cs`.
fn push_all(out: &mut Vec<char>, cs: &Vec<char>)
    ensures
        final(out)@ == old(out)@ + cs@,
{
    let n = cs.len();
    let mut i: usize = 0;
    while i < n
        invariant
            n == cs@.len(),
            0 <= i <= n,
            out@ == old(out)@ + cs@.subrange(0, i as int),
        decreases n - i,
    {
        out.push(cs[i]);
        proof {
            assert(cs@.subrange(0, i + 1 as int) =~= cs@.subrange(0, i as int).push(cs@[i as int]));
            assert(out@ =~= old(out)@ + cs@.subrange(0, i + 1 as int));
        }
        i = i + 1;
    }
    proof {
        assert(cs@.subrange(0, n as int) =~= cs@);
    }
}

/// Append one character in its escaped form.
fn push_escaped_char(out: &mut Vec<char>, c: char)
    ensures
        final(out)@ == old(out)@ + esc_char(c),
{
    if c == '"' {
        out.push('\\');
        out.push('"');
        proof {
            assert(out@ =~= old(out)@ + esc_char(c));
        }
    } else if c == '\\' {
        out.push('\\');
        out.push('\\');
        proof {
            assert(out@ =~= old(out)@ + esc_char(c));
        }
    } else {
        let cu = c as u32;
        if cu < 32 {
            out.push('\\');
            out.push('u');
            out.push('0');
            out.push('0');
            out.push(hex_char_exec(cu / 16));
            out.push(hex_char_exec(cu % 16));
            proof {
                assert(out@ =~= old(out)@ + esc_char(c));
            }
        } else {
            out.push(c);
            proof {
                assert(out@ =~= old(out)@ + esc_char(c));
            }
        }
    }
}

/// Append a string literal, quotes and escapes included.
fn push_string_literal(out: &mut Vec<char>, s: &str)
    ensures
        final(out)@ == old(out)@ + print_str(s@),
{
    let cs = str_to_chars(s);
    out.push('"');
    let n = cs.len();
    let mut i: usize = 0;
    while i < n
        invariant
            n == cs@.len(),
            cs@ == s@,
            0 <= i <= n,
            out@ == old(out)@ + seq!['"'] + esc_str(cs@.subrange(0, i as int)),
        decreases n - i,
    {
        push_escaped_char(out, cs[i]);
        proof {
            assert(cs@.subrange(0, i + 1 as int) =~= cs@.subrange(0, i as int).push(cs@[i as int]));
            lemma_esc_str_push(cs@.subrange(0, i as int), cs@[i as int]);
            assert(out@ =~= old(out)@ + seq!['"'] + esc_str(cs@.subrange(0, i + 1 as int)));
        }
        i = i + 1;
    }
    out.push('"');
    proof {
        assert(cs@.subrange(0, n as int) =~= cs@);
        assert(out@ =~= old(out)@ + print_str(s@));
    }
}

/// Append the serialized text of `v`.
#[verifier::loop_isolation(false)]
#[verifier::rlimit(60)]
pub fn write_json(v: &JsonValue, out: &mut Vec<char>)
    ensures
        final(out)@ == old(out)@ + spec_print(v@),
    decreases v,
{
    match v {
        JsonValue::Null => {
            out.push('n');
            out.push('u');
            out.push('l');
            out.push('l');
            proof {
                assert(out@ =~= old(out)@ + spec_print(v@));
            }
        },
        JsonValue::Bool(b) => {
            if *b {
                out.push('t');
                out.push('r');
                out.push('u');
                out.push('e');
            } else {
                out.push('f');
                out.push('a');
                out.push('l');
                out.push('s');
                out.push('e');
            }
            proof {
                assert(out@ =~= old(out)@ + spec_print(v@));
            }
        },
        JsonValue::Num(s) => {
            let cs = str_to_chars(s.as_str());
            push_all(out, &cs);
        },
        JsonValue::Str(s) => {
            push_string_literal(out, s.as_str());
        },
        JsonValue::Arr(items) => {
            proof {
                lemma_view_json_seq(items@);
            }
            out.push('[');
            let n = items.len();
            let mut i: usize = 0;
            while i < n
                invariant
                    n == items@.len(),
                    0 <= i <= n,
                    view_json_seq(items@).len() == n,
                    forall|j: int| 0 <= j < n ==> view_json_seq(items@)[j] == view_json(
                        #[trigger] items@[j],
                    ),
                    out@ == old(out)@ + seq!['['] + spec_print_items(
                        view_json_seq(items@).subrange(0, i as int),
                    ),
                decreases n - i,
            {
                if i > 0 {
                    out.push(',');
                }
                proof {
                    assert(decreases_to!(*v => (*v)->Arr_0));
                    assert(decreases_to!((*v)->Arr_0 => (*v)->Arr_0@));
                    vstd::seq::axiom_seq_index_decreases((*v)->Arr_0@, i as int);
                    assert(decreases_to!(*v => items@[i as int]));
                }
                write_json(&items[i], out);
                proof {
                    let pre = view_json_seq(items@).subrange(0, i as int);
                    assert(view_json_seq(items@).subrange(0, i + 1 as int) =~= pre.push(
                        view_json_seq(items@)[i as int],
                    ));
                    lemma_print_items_push(pre, view_json_seq(items@)[i as int]);
                    assert(out@ =~= old(out)@ + seq!['['] + spec_print_items(
                        view_json_seq(items@).subrange(0, i + 1 as int),
                    ));
                }
                i = i + 1;
            }
            out.push(']');
            proof {
                assert(view_json_seq(items@).subrange(0, n as int) =~= view_json_seq(items@));
                assert(out@ =~= old(out)@ + spec_print(v@));
            }
        },
        JsonValue::Obj(entries) => {
            proof {
                lemma_view_json_entries(entries@);
            }
            out.push('{');
            let n = entries.len();
            let mut i: usize = 0;
            while i < n
                invariant
                    n == entries@.len(),
                    0 <= i <= n,
                    view_json_entries(entries@).len() == n,
                    forall|j: int| 0 <= j < n ==> view_json_entries(entries@)[j] == (
                        (#[trigger] entries@[j]).0@,
                        view_json(entries@[j].1),
                    ),
                    out@ == old(out)@ + seq!['{'] + spec_print_entries(
                        view_json_entries(entries@).subrange(0, i as int),
                    ),
                decreases n - i,
            {
                if i > 0 {
                    out.push(',');
                }
                push_string_literal(out, entries[i].0.as_str());
                out.push(':');
                proof {
                    assert(decreases_to!(*v => (*v)->Obj_0));
                    assert(decreases_to!((*v)->Obj_0 => (*v)->Obj_0@));
                    vstd::seq::axiom_seq_index_decreases((*v)->Obj_0@, i as int);
                    assert(decreases_to!((*v)->Obj_0@[i as int] => (*v)->Obj_0@[i as int].1));
                    assert(decreases_to!(*v => entries@[i as int].1));
                }
                write_json(&entries[i].1, out);
                proof {
                    let pre = view_json_entries(entries@).subrange(0, i as int);
                    let e = view_json_entries(entries@)[i as int];
                    assert(view_json_entries(entries@).subrange(0, i + 1 as int) =~= pre.push(e));
                    lemma_print_entries_push(pre, e);
                    assert(out@ =~= old(out)@ + seq!['{'] + spec_print_entries(
                        view_json_entries(entries@).subrange(0, i + 1 as int),
                    ));
                }
                i = i + 1;
            }
            out.push('}');
            proof {
                assert(view_json_entries(entries@).subrange(0, n as int) =~= view_json_entries(
                    entries@,
                ));
                assert(out@ =~= old(out)@ + spec_print(v@));
            }
        },
    }
}

/// The serialized text of `v` as a string.
pub fn json_to_string(v: &JsonValue) -> (r: String)
    ensures
        r@ == spec_print(v@),
{
    let mut out: Vec<char> = Vec::new();
    write_json(v, &mut out);
    chars_to_string(&out)
}

/// Index of the first non-whitespace character at or after `i`.
pub open spec fn skip_ws(s: Seq<char>, i: int) -> int
    decreases s.len() - i,
{
    if 0 <= i < s.len() && is_ws(s[i]) {
        skip_ws(s, i + 1)
    } else {
        i
    }
}

/// Skipping whitespace never moves backwards, nor past the end.
pub proof fn lemma_skip_ws_range(s: Seq<char>, i: int)
    ensures
        i <= skip_ws(s, i),
        i <= s.len() ==> skip_ws(s, i) <= s.len(),
    decreases s.len() - i,
{
    if 0 <= i < s.len() && is_ws(s[i]) {
        lemma_skip_ws_range(s, i + 1)
    }
}

/// Index of the first non-number character at or after `i`.
pub open spec fn scan_num(s: Seq<char>, i: int) -> int
    decreases s.len() - i,
{
    if 0 <= i < s.len() && is_number_char(s[i]) {
        scan_num(s, i + 1)
    } else {
        i
    }
}

/// Scanning a number never moves backwards, nor past the end.
pub proof fn lemma_scan_num_range(s: Seq<char>, i: int)
    ensures
        i <= scan_num(s, i),
        i <= s.len() ==> scan_num(s, i) <= s.len(),
    decreases s.len() - i,
{
    if 0 <= i < s.len() && is_number_char(s[i]) {
        lemma_scan_num_range(s, i + 1)
    }
}

/// Value of a hex digit, or -1 for any other character.
pub open spec fn hex_val(c: char) -> int {
    if 48 <= c as u32 && c as u32 <= 57 {
        c as u32 - 48
    } else if 97 <= c as u32 && c as u32 <= 102 {
        c as u32 - 87
    } else if 65 <= c as u32 && c as u32 <= 70 {
        c as u32 - 55
    } else {
        -1
    }
}

/// Hex digit test.
pub open spec fn is_hex(c: char) -> bool {
    hex_val(c) >= 0
}

/// Whether a short escape letter is recognized, and the character it names.
pub open spec fn short_escape(e: char) -> Option<char> {
    if e == '"' {
        Some('"')
    } else if e == '\\' {
        Some('\\')
    } else if e == '/' {
        Some('/')
    } else if e == 'b' {
        Some(8 as char)
    } else if e == 'f' {
        Some(12 as char)
    } else if e == 'n' {
        Some('\n')
    } else if e == 'r' {
        Some('\r')
    } else if e == 't' {
        Some('\t')
    } else {
        None
    }
}

/// Parse the body of a string literal starting just after the opening
/// quote; yields the content and the index just past the closing quote.
pub open spec fn spec_parse_str_chars(s: Seq<char>, i: int) -> Option<(Seq<char>, int)>
    decreases s.len() - i, 0int,
{
    if i < 0 || i >= s.len() {
        None
    } else if s[i] == '"' {
        Some((Seq::empty(), i + 1))
    } else if s[i] == '\\' {
        if i + 1 >= s.len() {
            None
        } else if s[i + 1] == 'u' {
            if i + 6 <= s.len() && is_hex(s[i + 2]) && is_hex(s[i + 3]) && is_hex(s[i + 4])
                && is_hex(s[i + 5]) {
                let code = hex_val(s[i + 2]) * 4096 + hex_val(s[i + 3]) * 256 + hex_val(s[i + 4])
                    * 16 + hex_val(s[i + 5]);
                if 0xD800 <= code && code < 0xE000 {
                    None
                } else {
                    match spec_parse_str_chars(s, i + 6) {
                        Some((rest, j)) => Some((seq![code as char] + rest, j)),
                        None => None,
                    }
                }
            } else {
                None
            }
        } else {
            match short_escape(s[i + 1]) {
                Some(c) => match spec_parse_str_chars(s, i + 2) {
                    Some((rest, j)) => Some((seq![c] + rest, j)),
                    None => None,
                },
                None => None,
            }
        }
    } else {
        match spec_parse_str_chars(s, i + 1) {
            Some((rest, j)) => Some((seq![s[i]] + rest, j)),
            None => None,
        }
    }
}

/// Parse one value, skipping leading whitespace; yields the value and
/// the index just past it.
pub open spec fn spec_parse_value(s: Seq<char>, i: int) -> Option<(SpecJson, int)>
    decreases s.len() - i, 2int,
{
    proof {
        lemma_skip_ws_range(s, i);
    }
    let k = skip_ws(s, i);
    if k >= s.len() {
        None
    } else if s[k] == 'n' {
        if k + 4 <= s.len() && s[k + 1] == 'u' && s[k + 2] == 'l' && s[k + 3] == 'l' {
            Some((SpecJson::Null, k + 4))
        } else {
            None
        }
    } else if s[k] == 't' {
        if k + 4 <= s.len() && s[k + 1] == 'r' && s[k + 2] == 'u' && s[k + 3] == 'e' {
            Some((SpecJson::Bool(true), k + 4))
        } else {
            None
        }
    } else if s[k] == 'f' {
        if k + 5 <= s.len() && s[k + 1] == 'a' && s[k + 2] == 'l' && s[k + 3] == 's' && s[k + 4]
            == 'e' {
            Some((SpecJson::Bool(false), k + 5))
        } else {
            None
        }
    } else if s[k] == '"' {
        match spec_parse_str_chars(s, k + 1) {
            Some((cs, j)) => Some((SpecJson::Str(cs), j)),
            None => None,
        }
    } else if s[k] == '-' || is_digit(s[k]) {
        proof {
            lemma_scan_num_range(s, k + 1);
        }
        let e = scan_num(s, k + 1);
        Some((SpecJson::Num(s.subrange(k, e)), e))
    } else if s[k] == '[' {
        proof {
            lemma_skip_ws_range(s, k + 1);
        }
        let k2 = skip_ws(s, k + 1);
        if k2 < s.len() && s[k2] == ']' {
            Some((SpecJson::Arr(Seq::empty()), k2 + 1))
        } else {
            match spec_parse_items(s, k + 1) {
                Some((items, j)) => Some((SpecJson::Arr(items), j)),
                None => None,
            }
        }
    } else if s[k] == '{' {
        proof {
            lemma_skip_ws_range(s, k + 1);
        }
        let k2 = skip_ws(s, k + 1);
        if k2 < s.len() && s[k2] == '}' {
            Some((SpecJson::Obj(Seq::empty()), k2 + 1))
        } else {
            match spec_parse_members(s, k + 1) {
                Some((entries, j)) => Some((SpecJson::Obj(entries), j)),
                None => None,
            }
        }
    } else {
        None
    }
}

/// Parse one or more comma-separated array elements and the closing
/// bracket.  The position handed onward is pinned to move forward; a
/// successful element parse always does, so the pin never changes the
/// result.
pub open spec fn spec_parse_items(s: Seq<char>, i: int) -> Option<(Seq<SpecJson>, int)>
    decreases s.len() - i, 3int,
{
    match spec_parse_value(s, i) {
        None => None,
        Some((v, j0)) => {
            let j = if j0 > i {
                j0
            } else {
                i + 1
            };
            proof {
                lemma_skip_ws_range(s, j);
            }
            let k = skip_ws(s, j);
            if k < s.len() && s[k] == ',' {
                match spec_parse_items(s, k + 1) {
                    Some((rest, j2)) => Some((seq![v] + rest, j2)),
                    None => None,
                }
            } else if k < s.len() && s[k] == ']' {
                Some((seq![v], k + 1))
            } else {
                None
            }
        },
    }
}

/// Parse one or more comma-separated object members and the closing
/// brace.  Positions are pinned forward as in `spec_parse_items`.
pub open spec fn spec_parse_members(s: Seq<char>, i: int) -> Option<(Seq<(Seq<char>, SpecJson)>, int)>
    decreases s.len() - i, 3int,
{
    proof {
        lemma_skip_ws_range(s, i);
    }
    let k0 = skip_ws(s, i);
    if k0 < s.len() && s[k0] == '"' {
        match spec_parse_str_chars(s, k0 + 1) {
            None => None,
            Some((key, j0)) => {
                let j = if j0 > k0 + 1 {
                    j0
                } else {
                    k0 + 2
                };
                proof {
                    lemma_skip_ws_range(s, j);
                }
                let c1 = skip_ws(s, j);
                if c1 < s.len() && s[c1] == ':' {
                    match spec_parse_value(s, c1 + 1) {
                        None => None,
                        Some((v, j2)) => {
                            let j3 = if j2 > c1 + 1 {
                                j2
                            } else {
                                c1 + 2
                            };
                            proof {
                                lemma_skip_ws_range(s, j3);
                            }
                            let k2 = skip_ws(s, j3);
                            if k2 < s.len() && s[k2] == ',' {
                                match spec_parse_members(s, k2 + 1) {
                                    Some((rest, j4)) => Some((seq![(key, v)] + rest, j4)),
                                    None => None,
                                }
                            } else if k2 < s.len() && s[k2] == '}' {
                                Some((seq![(key, v)], k2 + 1))
                            } else {
                                None
                            }
                        },
                    }
                } else {
                    None
                }
            },
        }
    } else {
        None
    }
}

/// Parse a complete text: one value with only whitespace around it.
pub open spec fn spec_parse_json(s: Seq<char>) -> Option<SpecJson> {
    match spec_parse_value(s, 0) {
        Some((v, j)) => if skip_ws(s, j) == s.len() {
            Some(v)
        } else {
            None
        },
        None => None,
    }
}

/// Relies on `char::from_u32`: `Some` exactly for Unicode scalar values
/// (below the surrogate range, or between it and 0x10FFFF), returning
/// the character with that code point.
#[verifier::external_body]
fn char_from_code(code: u32) -> (r: Option<char>)
    ensures
        r == if code < 0xD800 || (0xE000 <= code && code <= 0x10FFFF) {
            Some(code as char)
        } else {
            None::<char>
        },
{
    char::from_u32(code)
}

/// Whitespace test on one character.
fn ws_at(s: &Vec<char>, k: usize) -> (b: bool)
    requires
        k < s@.len(),
    ensures
        b == is_ws(s@[k as int]),
{
    let c = s[k];
    c == ' ' || c == '\t' || c == '\n' || c == '\r'
}

/// Number-character test on one character.
fn num_char_at(s: &Vec<char>, k: usize) -> (b: bool)
    requires
        k < s@.len(),
    ensures
        b == is_number_char(s@[k as int]),
{
    let c = s[k];
    let cu = c as u32;
    (48 <= cu && cu <= 57) || c == '-' || c == '+' || c == '.' || c == 'e' || c == 'E'
}

/// Skip whitespace from `i`.
fn skip_ws_exec(s: &Vec<char>, i: usize) -> (r: usize)
    requires
        i <= s@.len(),
    ensures
        r as int == skip_ws(s@, i as int),
        i <= r <= s@.len(),
{
    let n = s.len();
    let mut k = i;
    while k < n && ws_at(s, k)
        invariant
            i <= k <= n,
            n == s@.len(),
            skip_ws(s@, i as int) == skip_ws(s@, k as int),
        decreases n - k,
    {
        k = k + 1;
    }
    k
}

/// Scan number characters from `i`.
fn scan_num_exec(s: &Vec<char>, i: usize) -> (r: usize)
    requires
        i <= s@.len(),
    ensures
        r as int == scan_num(s@, i as int),
        i <= r <= s@.len(),
{
    let n = s.len();
    let mut k = i;
    while k < n && num_char_at(s, k)
        invariant
            i <= k <= n,
            n == s@.len(),
            scan_num(s@, i as int) == scan_num(s@, k as int),
        decreases n - k,
    {
        k = k + 1;
    }
    k
}

/// Value of a hex digit character.
fn hex_val_exec(c: char) -> (r: Option<u32>)
    ensures
        match r {
            Some(x) => hex_val(c) == x as int && x < 16,
            None => hex_val(c) == -1,
        },
{
    let cu = c as u32;
    if 48 <= cu && cu <= 57 {
        Some(cu - 48)
    } else if 97 <= cu && cu <= 102 {
        Some(cu - 87)
    } else if 65 <= cu && cu <= 70 {
        Some(cu - 55)
    } else {
        None
    }
}


/// A parsed string body always ends past where it began, within bounds.
pub proof fn lemma_parse_str_chars_range(s: Seq<char>, i: int)
    ensures
        spec_parse_str_chars(s, i) matches Some(p) ==> i < p.1 <= s.len(),
    decreases s.len() - i, 0int,
{
    if i < 0 || i >= s.len() {
    } else if s[i] == '"' {
    } else if s[i] == '\\' {
        if i + 1 < s.len() {
            if s[i + 1] == 'u' {
                if i + 6 <= s.len() {
                    lemma_parse_str_chars_range(s, i + 6);
                }
            } else {
                lemma_parse_str_chars_range(s, i + 2);
            }
        }
    } else {
        lemma_parse_str_chars_range(s, i + 1);
    }
}

/// Parse a string literal body, from just after the opening quote.
#[verifier::loop_isolation(false)]
#[verifier::rlimit(60)]
fn parse_str_chars_exec(s: &Vec<char>, i: usize) -> (r: Option<(Vec<char>, usize)>)
    requires
        i <= s@.len(),
    ensures
        match r {
            Some(p) => spec_parse_str_chars(s@, i as int) == Some((p.0@, p.1 as int)) && i < p.1
                <= s@.len(),
            None => spec_parse_str_chars(s@, i as int) is None,
        },
{
    let n = s.len();
    let mut cur = i;
    let mut acc: Vec<char> = Vec::new();
    proof {
        lemma_parse_str_chars_range(s@, i as int);
        if spec_parse_str_chars(s@, i as int) is Some {
            let fp = spec_parse_str_chars(s@, i as int)->0;
            assert(Seq::<char>::empty() + fp.0 =~= fp.0);
        }
    }
    loop
        invariant
            i <= cur <= n,
            n == s@.len(),
            match spec_parse_str_chars(s@, i as int) {
                Some(full) => match spec_parse_str_chars(s@, cur as int) {
                    Some(part) => full.0 == acc@ + part.0 && full.1 == part.1 && cur < part.1
                        <= s@.len(),
                    None => false,
                },
                None => spec_parse_str_chars(s@, cur as int) is None,
            },
        decreases n - cur,
    {
        if cur >= n {
            return None;
        }
        let c = s[cur];
        if c == '"' {
            proof {
                assert(spec_parse_str_chars(s@, cur as int) == Some(
                    (Seq::<char>::empty(), cur + 1 as int),
                ));
                assert(acc@ + Seq::<char>::empty() =~= acc@);
            }
            return Some((acc, cur + 1));
        } else if c == '\\' {
            if n - cur < 2 {
                return None;
            }
            let e = s[cur + 1];
            if e == 'u' {
                if n - cur < 6 {
                    return None;
                }
                let h0 = hex_val_exec(s[cur + 2]);
                let h1 = hex_val_exec(s[cur + 3]);
                let h2 = hex_val_exec(s[cur + 4]);
                let h3 = hex_val_exec(s[cur + 5]);
                match (h0, h1, h2, h3) {
                    (Some(x0), Some(x1), Some(x2), Some(x3)) => {
                        let code = x0 * 4096 + x1 * 256 + x2 * 16 + x3;
                        if 0xD800 <= code && code < 0xE000 {
                            return None;
                        }
                        match char_from_code(code) {
                            Some(ch) => {
                                let ghost prev = acc@;
                                let ghost cur0 = cur as int;
                                acc.push(ch);
                                cur = cur + 6;
                                proof {
                                    assert(acc@ =~= prev + seq![ch]);
                                    lemma_parse_str_chars_range(s@, cur as int);
                                    if spec_parse_str_chars(s@, cur as int) is Some {
                                        let np = spec_parse_str_chars(s@, cur as int)->0;
                                        assert((prev + seq![ch]) + np.0 =~= prev + (seq![ch]
                                            + np.0));
                                    }
                                }
                            },
                            None => {
                                return None;
                            },
                        }
                    },
                    _ => {
                        return None;
                    },
                }
            } else {
                let sc: Option<char> = if e == '"' {
                    Some('"')
                } else if e == '\\' {
                    Some('\\')
                } else if e == '/' {
                    Some('/')
                } else if e == 'b' {
                    Some('\u{08}')
                } else if e == 'f' {
                    Some('\u{0c}')
                } else if e == 'n' {
                    Some('\n')
                } else if e == 'r' {
                    Some('\r')
                } else if e == 't' {
                    Some('\t')
                } else {
                    None
                };
                proof {
                    assert(sc == short_escape(s@[cur + 1 as int]));
                }
                match sc {
                    Some(ch) => {
                        let ghost prev = acc@;
                        acc.push(ch);
                        cur = cur + 2;
                        proof {
                            assert(acc@ =~= prev + seq![ch]);
                            lemma_parse_str_chars_range(s@, cur as int);
                            if spec_parse_str_chars(s@, cur as int) is Some {
                                let np = spec_parse_str_chars(s@, cur as int)->0;
                                assert((prev + seq![ch]) + np.0 =~= prev + (seq![ch] + np.0));
                            }
                        }
                    },
                    None => {
                        return None;
                    },
                }
            }
        } else {
            let ghost prev = acc@;
            acc.push(c);
            cur = cur + 1;
            proof {
                assert(acc@ =~= prev + seq![c]);
                lemma_parse_str_chars_range(s@, cur as int);
                if spec_parse_str_chars(s@, cur as int) is Some {
                    let np = spec_parse_str_chars(s@, cur as int)->0;
                    assert((prev + seq![c]) + np.0 =~= prev + (seq![c] + np.0));
                }
            }
        }
    }
}

/// Parse one value from `i`, skipping leading whitespace.
#[verifier::loop_isolation(false)]
#[verifier::rlimit(80)]
fn parse_value_exec(s: &Vec<char>, i: usize) -> (r: Option<(JsonValue, usize)>)
    requires
        i <= s@.len(),
    ensures
        match r {
            Some(p) => spec_parse_value(s@, i as int) == Some((p.0@, p.1 as int)) && i < p.1
                <= s@.len(),
            None => spec_parse_value(s@, i as int) is None,
        },
    decreases s@.len() - i, 2int,
{
    let n = s.len();
    let k = skip_ws_exec(s, i);
    if k >= n {
        return None;
    }
    let c = s[k];
    if c == 'n' {
        if n - k >= 4 && s[k + 1] == 'u' && s[k + 2] == 'l' && s[k + 3] == 'l' {
            Some((JsonValue::Null, k + 4))
        } else {
            None
        }
    } else if c == 't' {
        if n - k >= 4 && s[k + 1] == 'r' && s[k + 2] == 'u' && s[k + 3] == 'e' {
            Some((JsonValue::Bool(true), k + 4))
        } else {
            None
        }
    } else if c == 'f' {
        if n - k >= 5 && s[k + 1] == 'a' && s[k + 2] == 'l' && s[k + 3] == 's' && s[k + 4] == 'e' {
            Some((JsonValue::Bool(false), k + 5))
        } else {
            None
        }
    } else if c == '"' {
        match parse_str_chars_exec(s, k + 1) {
            Some((cs, j)) => {
                let st = chars_to_string(&cs);
                Some((JsonValue::Str(st), j))
            },
            None => None,
        }
    } else if c == '-' || (c as u32 >= 48 && c as u32 <= 57) {
        let e = scan_num_exec(s, k + 1);
        let mut lex: Vec<char> = Vec::new();
        let mut idx = k;
        while idx < e
            invariant
                k <= idx <= e,
                e <= n,
                n == s@.len(),
                lex@ == s@.subrange(k as int, idx as int),
            decreases e - idx,
        {
            lex.push(s[idx]);
            proof {
                assert(s@.subrange(k as int, idx + 1 as int) =~= s@.subrange(
                    k as int,
                    idx as int,
                ).push(s@[idx as int]));
            }
            idx = idx + 1;
        }
        let st = chars_to_string(&lex);
        Some((JsonValue::Num(st), e))
    } else if c == '[' {
        let k2 = skip_ws_exec(s, k + 1);
        if k2 < n && s[k2] == ']' {
            let items: Vec<JsonValue> = Vec::new();
            proof {
                assert(view_json_seq(items@) =~= Seq::<SpecJson>::empty());
            }
            Some((JsonValue::Arr(items), k2 + 1))
        } else {
            match parse_items_exec(s, k + 1) {
                Some((items, j)) => Some((JsonValue::Arr(items), j)),
                None => None,
            }
        }
    } else if c == '{' {
        let k2 = skip_ws_exec(s, k + 1);
        if k2 < n && s[k2] == '}' {
            let entries: Vec<(String, JsonValue)> = Vec::new();
            proof {
                assert(view_json_entries(entries@) =~= Seq::<(Seq<char>, SpecJson)>::empty());
            }
            Some((JsonValue::Obj(entries), k2 + 1))
        } else {
            match parse_members_exec(s, k + 1) {
                Some((entries, j)) => Some((JsonValue::Obj(entries), j)),
                None => None,
            }
        }
    } else {
        None
    }
}

/// Parse the elements of a non-empty array and its closing bracket.
#[verifier::loop_isolation(false)]
#[verifier::rlimit(60)]
fn parse_items_exec(s: &Vec<char>, i: usize) -> (r: Option<(Vec<JsonValue>, usize)>)
    requires
        i <= s@.len(),
    ensures
        match r {
            Some(p) => spec_parse_items(s@, i as int) == Some((view_json_seq(p.0@), p.1 as int))
                && i < p.1 <= s@.len(),
            None => spec_parse_items(s@, i as int) is None,
        },
    decreases s@.len() - i, 3int,
{
    match parse_value_exec(s, i) {
        None => None,
        Some((v, j)) => {
            let k = skip_ws_exec(s, j);
            let n = s.len();
            if k < n && s[k] == ',' {
                match parse_items_exec(s, k + 1) {
                    Some((mut rest, j2)) => {
                        let ghost tail = rest@;
                        rest.insert(0, v);
                        proof {
                            assert(rest@ =~= seq![v] + tail);
                            lemma_view_json_seq_cons(v, tail);
                        }
                        Some((rest, j2))
                    },
                    None => None,
                }
            } else if k < n && s[k] == ']' {
                let mut items: Vec<JsonValue> = Vec::new();
                items.push(v);
                proof {
                    assert(items@ =~= seq![v] + Seq::<JsonValue>::empty());
                    lemma_view_json_seq_cons(v, Seq::<JsonValue>::empty());
                    assert(view_json_seq(items@) =~= seq![view_json(v)]);
                }
                Some((items, k + 1))
            } else {
                None
            }
        },
    }
}

/// Parse the members of a non-empty object and its closing brace.
#[verifier::loop_isolation(false)]
#[verifier::rlimit(60)]
fn parse_members_exec(s: &Vec<char>, i: usize) -> (r: Option<(Vec<(String, JsonValue)>, usize)>)
    requires
        i <= s@.len(),
    ensures
        match r {
            Some(p) => spec_parse_members(s@, i as int) == Some(
                (view_json_entries(p.0@), p.1 as int),
            ) && i < p.1 <= s@.len(),
            None => spec_parse_members(s@, i as int) is None,
        },
    decreases s@.len() - i, 3int,
{
    let n = s.len();
    let k0 = skip_ws_exec(s, i);
    if k0 < n && s[k0] == '"' {
        match parse_str_chars_exec(s, k0 + 1) {
            None => None,
            Some((key_cs, j0)) => {
                let key = chars_to_string(&key_cs);
                let c1 = skip_ws_exec(s, j0);
                if c1 < n && s[c1] == ':' {
                    match parse_value_exec(s, c1 + 1) {
                        None => None,
                        Some((v, j2)) => {
                            let k2 = skip_ws_exec(s, j2);
                            if k2 < n && s[k2] == ',' {
                                match parse_members_exec(s, k2 + 1) {
                                    Some((mut rest, j4)) => {
                                        let ghost tail = rest@;
                                        rest.insert(0, (key, v));
                                        proof {
                                            assert(rest@ =~= seq![(key, v)] + tail);
                                            lemma_view_json_entries_cons(key, v, tail);
                                        }
                                        Some((rest, j4))
                                    },
                                    None => None,
                                }
                            } else if k2 < n && s[k2] == '}' {
                                let mut entries: Vec<(String, JsonValue)> = Vec::new();
                                entries.push((key, v));
                                proof {
                                    assert(entries@ =~= seq![(key, v)] + Seq::<
                                        (String, JsonValue),
                                    >::empty());
                                    lemma_view_json_entries_cons(
                                        key,
                                        v,
                                        Seq::<(String, JsonValue)>::empty(),
                                    );
                                    assert(view_json_entries(entries@) =~= seq![
                                        (key@, view_json(v)),
                                    ]);
                                }
                                Some((entries, k2 + 1))
                            } else {
                                None
                            }
                        },
                    }
                } else {
                    None
                }
            },
        }
    } else {
        None
    }
}

/// Parse a complete JSON text into a value.
pub fn parse_json(text: &str) -> (r: Option<JsonValue>)
    ensures
        match r {
            Some(v) => spec_parse_json(text@) == Some(v@),
            None => spec_parse_json(text@) is None,
        },
{
    let cs = str_to_chars(text);
    match parse_value_exec(&cs, 0) {
        Some((v, j)) => {
            let e = skip_ws_exec(&cs, j);
            if e == cs.len() {
                Some(v)
            } else {
                None
            }
        },
        None => None,
    }
}

/// Scanning stops exactly at the first non-number character.
pub proof fn lemma_scan_num_ends(s: Seq<char>, i: int, j: int)
    requires
        0 <= i <= j <= s.len(),
        forall|k: int| i <= k < j ==> is_number_char(#[trigger] s[k]),
        j == s.len() || !is_number_char(s[j]),
    ensures
        scan_num(s, i) == j,
    decreases j - i,
{
    if i < j {
        lemma_scan_num_ends(s, i + 1, j);
    }
}

/// A hex digit's character reads back as its value.
pub proof fn lemma_hex_char_val(d: int)
    requires
        0 <= d < 16,
    ensures
        hex_val(hex_char(d)) == d,
        is_hex(hex_char(d)),
{
}

/// The serialization of a well-formed value is never empty, and its
/// first character is no whitespace, delimiter, or separator.
pub proof fn lemma_print_head(v: SpecJson)
    requires
        json_wf(v),
    ensures
        spec_print(v).len() >= 1,
        !is_ws(spec_print(v)[0]),
        spec_print(v)[0] != ']',
        spec_print(v)[0] != '}',
        spec_print(v)[0] != ',',
        spec_print(v)[0] != ':',
{
    match v {
        SpecJson::Null => {},
        SpecJson::Bool(_) => {},
        SpecJson::Num(lex) => {
            assert(spec_print(v)[0] == lex[0]);
        },
        SpecJson::Str(_) => {},
        SpecJson::Arr(_) => {},
        SpecJson::Obj(_) => {},
    }
}

/// An escaped string body followed by a closing quote parses back to
/// the body, ending just past the quote.
pub proof fn lemma_parse_escaped(content: Seq<char>, s: Seq<char>, i: int)
    requires
        0 <= i,
        i + esc_str(content).len() < s.len(),
        s.subrange(i, i + esc_str(content).len()) == esc_str(content),
        s[i + esc_str(content).len()] == '"',
    ensures
        spec_parse_str_chars(s, i) == Some((content, i + esc_str(content).len() + 1)),
    decreases content.len(),
{
    let whole = esc_str(content);
    if content.len() == 0 {
        assert(whole.len() == 0);
        assert(s[i] == '"');
    } else {
        let c = content[0];
        let rest = content.drop_first();
        let ec = esc_char(c);
        assert(whole == ec + esc_str(rest));
        assert(forall|k: int| 0 <= k < whole.len() ==> #[trigger] s[i + k] == whole[k]) by {
            assert(forall|k: int| 0 <= k < whole.len() ==> s.subrange(
                i,
                i + esc_str(content).len(),
            )[k] == #[trigger] whole[k]);
        }
        let i2 = i + ec.len();
        assert(s[i + 0] == whole[0]);
        assert(s[i] == whole[0]);
        assert(s.subrange(i2, i2 + esc_str(rest).len()) =~= esc_str(rest)) by {
            assert forall|k: int| 0 <= k < esc_str(rest).len() implies #[trigger] s.subrange(
                i2,
                i2 + esc_str(rest).len(),
            )[k] == esc_str(rest)[k] by {
                assert(s[i + (ec.len() + k)] == whole[ec.len() + k]);
                assert(whole[ec.len() + k] == esc_str(rest)[k]);
                assert(i2 + k == i + (ec.len() + k));
                assert(s.subrange(i2, i2 + esc_str(rest).len())[k] == s[i2 + k]);
            }
        }
        lemma_parse_escaped(rest, s, i2);
        if c == '"' {
            assert(s[i] == '\\');
            assert(s[i + 1] == '"');
            assert(short_escape(s[i + 1]) == Some('"'));
            assert(seq![c] + rest =~= content);
        } else if c == '\\' {
            assert(s[i] == '\\');
            assert(s[i + 1] == '\\');
            assert(short_escape(s[i + 1]) == Some('\\'));
            assert(seq![c] + rest =~= content);
        } else if is_control(c) {
            let cu = c as u32;
            assert(s[i] == '\\');
            assert(s[i + 1] == 'u');
            assert(s[i + 2] == '0');
            assert(s[i + 3] == '0');
            assert(s[i + 4] == hex_char((cu / 16) as int));
            assert(s[i + 5] == hex_char((cu % 16) as int));
            lemma_hex_char_val((cu / 16) as int);
            lemma_hex_char_val((cu % 16) as int);
            assert(hex_val(s[i + 2]) == 0);
            assert(hex_val(s[i + 3]) == 0);
            let code = hex_val(s[i + 2]) * 4096 + hex_val(s[i + 3]) * 256 + hex_val(s[i + 4]) * 16
                + hex_val(s[i + 5]);
            vstd::arithmetic::div_mod::lemma_fundamental_div_mod(cu as int, 16);
            assert(code == cu);
            assert(code < 32);
            assert((code as char) == c) by {
                assert((cu as char) == c) by {
                    vstd::utf8::char_u32_cast(c, cu);
                }
            }
            assert(seq![c] + rest =~= content);
        } else {
            assert(ec == seq![c]);
            assert(whole[0] == c);
            assert(s[i] == c);
            assert(s[i] != '"' && s[i] != '\\');
            assert(seq![c] + rest =~= content);
        }
    }
}

/// A serialized value parses back to itself, ending exactly where its
/// text ends.  When the value is a number, the character after its text
/// (if any) must not look like part of a number.
#[verifier::rlimit(100)]
#[verifier::spinoff_prover]
pub proof fn lemma_print_parse_value(v: SpecJson, s: Seq<char>, i: int)
    requires
        json_wf(v),
        0 <= i,
        i + spec_print(v).len() <= s.len(),
        s.subrange(i, i + spec_print(v).len()) == spec_print(v),
        v is Num ==> (i + spec_print(v).len() == s.len() || !is_number_char(
            s[i + spec_print(v).len()],
        )),
    ensures
        spec_parse_value(s, i) == Some((v, i + spec_print(v).len())),
    decreases v, 0int,
{
    let p = spec_print(v);
    let l = p.len();
    lemma_print_head(v);
    assert(forall|k: int| 0 <= k < l ==> #[trigger] s[i + k] == p[k]) by {
        assert(forall|k: int| 0 <= k < l ==> #[trigger] s.subrange(i, i + l)[k] == p[k]);
        assert(forall|k: int| 0 <= k < l ==> #[trigger] s.subrange(i, i + l)[k] == s[i + k]);
    }
    assert(s[i + 0] == p[0]);
    assert(s[i] == p[0]);
    assert(skip_ws(s, i) == i);
    match v {
        SpecJson::Null => {
            assert(s[i] == 'n' && s[i + 1] == 'u' && s[i + 2] == 'l' && s[i + 3] == 'l');
        },
        SpecJson::Bool(b) => {
            if b {
                assert(s[i] == 't' && s[i + 1] == 'r' && s[i + 2] == 'u' && s[i + 3] == 'e');
            } else {
                assert(s[i] == 'f' && s[i + 1] == 'a' && s[i + 2] == 'l' && s[i + 3] == 's' && s[i
                    + 4] == 'e');
            }
        },
        SpecJson::Str(content) => {
            assert(s[i] == '"');
            let esc = esc_str(content);
            assert(p == seq!['"'] + esc + seq!['"']);
            assert(s.subrange(i + 1, i + 1 + esc.len()) =~= esc) by {
                assert forall|k: int| 0 <= k < esc.len() implies #[trigger] s.subrange(
                    i + 1,
                    i + 1 + esc.len(),
                )[k] == esc[k] by {
                    assert(s.subrange(i + 1, i + 1 + esc.len())[k] == s[i + 1 + k]);
                    assert(i + 1 + k == i + (1 + k));
                    assert(s[i + (1 + k)] == p[1 + k]);
                    assert(p[1 + k] == esc[k]);
                }
            }
            assert(s[i + (l - 1)] == p[l - 1]);
            assert(p[l - 1] == '"');
            lemma_parse_escaped(content, s, i + 1);
            assert(spec_parse_str_chars(s, i + 1) == Some((content, i + l)));
        },
        SpecJson::Num(lex) => {
            assert(p == lex);
            assert(s[i] == lex[0]);
            assert(lex[0] == '-' || is_digit(lex[0]));
            assert(s[i] != 'n' && s[i] != 't' && s[i] != 'f' && s[i] != '"');
            assert forall|k: int| i + 1 <= k < i + l implies is_number_char(s[k]) by {
                assert(s[i + (k - i)] == p[k - i]);
                assert(is_number_char(lex[k - i]));
            }
            lemma_scan_num_ends(s, i + 1, i + l);
            assert(s.subrange(i, i + l) == lex);
        },
        SpecJson::Arr(items) => {
            assert(s[i] == '[');
            let pi = spec_print_items(items);
            assert(p == seq!['['] + pi + seq![']']);
            assert(s[i + (l - 1)] == p[l - 1]);
            assert(p[l - 1] == ']');
            if items.len() == 0 {
                assert(pi.len() == 0);
                assert(s[i + 1] == ']');
                assert(skip_ws(s, i + 1) == i + 1);
                assert(spec_parse_value(s, i) == Some((SpecJson::Arr(Seq::empty()), i + 2)));
                assert(items =~= Seq::<SpecJson>::empty());
                assert(v == SpecJson::Arr(Seq::<SpecJson>::empty()));
            } else {
                assert(json_wf(items[0]));
                lemma_print_head(items[0]);
                assert(pi[0] == spec_print(items[0])[0]) by {
                    if items.len() == 1 {
                    } else {
                        assert(pi == spec_print(items[0]) + seq![','] + spec_print_items(
                            items.drop_first(),
                        ));
                    }
                }
                assert(s[i + 1] == p[1]);
                assert(p[1] == pi[0]);
                assert(!is_ws(s[i + 1]));
                assert(skip_ws(s, i + 1) == i + 1);
                assert(s[i + 1] != ']');
                assert(s.subrange(i + 1, i + 1 + pi.len()) =~= pi) by {
                    assert forall|k: int| 0 <= k < pi.len() implies #[trigger] s.subrange(
                        i + 1,
                        i + 1 + pi.len(),
                    )[k] == pi[k] by {
                        assert(s.subrange(i + 1, i + 1 + pi.len())[k] == s[i + 1 + k]);
                        assert(i + 1 + k == i + (1 + k));
                        assert(s[i + (1 + k)] == p[1 + k]);
                        assert(p[1 + k] == pi[k]);
                    }
                }
                lemma_print_parse_items(items, s, i + 1);
            }
        },
        SpecJson::Obj(entries) => {
            assert(s[i] == '{');
            let pe = spec_print_entries(entries);
            assert(p == seq!['{'] + pe + seq!['}']);
            assert(s[i + (l - 1)] == p[l - 1]);
            assert(p[l - 1] == '}');
            if entries.len() == 0 {
                assert(pe.len() == 0);
                assert(s[i + 1] == '}');
                assert(skip_ws(s, i + 1) == i + 1);
                assert(spec_parse_value(s, i) == Some(
                    (SpecJson::Obj(Seq::empty()), i + 2),
                ));
                assert(entries =~= Seq::<(Seq<char>, SpecJson)>::empty());
                assert(v == SpecJson::Obj(Seq::<(Seq<char>, SpecJson)>::empty()));
            } else {
                assert(pe[0] == '"') by {
                    let head = print_str(entries[0].0) + seq![':'] + spec_print(entries[0].1);
                    if entries.len() == 1 {
                        assert(pe == head);
                    } else {
                        assert(pe == head + seq![','] + spec_print_entries(entries.drop_first()));
                    }
                    assert(head[0] == print_str(entries[0].0)[0]);
                }
                assert(s[i + 1] == p[1]);
                assert(p[1] == pe[0]);
                assert(!is_ws(s[i + 1]));
                assert(skip_ws(s, i + 1) == i + 1);
                assert(s[i + 1] != '}');
                assert(s.subrange(i + 1, i + 1 + pe.len()) =~= pe) by {
                    assert forall|k: int| 0 <= k < pe.len() implies #[trigger] s.subrange(
                        i + 1,
                        i + 1 + pe.len(),
                    )[k] == pe[k] by {
                        assert(s.subrange(i + 1, i + 1 + pe.len())[k] == s[i + 1 + k]);
                        assert(i + 1 + k == i + (1 + k));
                        assert(s[i + (1 + k)] == p[1 + k]);
                        assert(p[1 + k] == pe[k]);
                    }
                }
                lemma_print_parse_members(entries, s, i + 1);
            }
        },
    }
}

/// Serialized array elements followed by `]` parse back to the
/// elements, ending just past the bracket.
pub proof fn lemma_print_parse_items(items: Seq<SpecJson>, s: Seq<char>, i: int)
    requires
        items.len() >= 1,
        forall|k: int| 0 <= k < items.len() ==> json_wf(#[trigger] items[k]),
        0 <= i,
        i + spec_print_items(items).len() + 1 <= s.len(),
        s.subrange(i, i + spec_print_items(items).len()) == spec_print_items(items),
        s[i + spec_print_items(items).len()] == ']',
    ensures
        spec_parse_items(s, i) == Some((items, i + spec_print_items(items).len() + 1)),
    decreases items, 1int,
{
    let pi = spec_print_items(items);
    let pl = pi.len();
    assert(forall|k: int| 0 <= k < pl ==> #[trigger] s[i + k] == pi[k]) by {
        assert(forall|k: int| 0 <= k < pl ==> #[trigger] s.subrange(i, i + pl)[k] == pi[k]);
        assert(forall|k: int| 0 <= k < pl ==> #[trigger] s.subrange(i, i + pl)[k] == s[i + k]);
    }
    let v0 = items[0];
    assert(json_wf(v0));
    lemma_print_head(v0);
    let p0 = spec_print(v0);
    let l0 = p0.len();
    if items.len() == 1 {
        assert(pi == p0);
        assert(s.subrange(i, i + l0) == p0);
        assert(s[i + l0] == ']');
        assert(!is_number_char(']'));
        lemma_print_parse_value(v0, s, i);
        assert(skip_ws(s, i + l0) == i + l0);
        assert(seq![v0] =~= items);
    } else {
        let rest = items.drop_first();
        assert(forall|k: int| 0 <= k < rest.len() ==> #[trigger] rest[k] == items[k + 1]);
        let pr = spec_print_items(rest);
        assert(pi == p0 + seq![','] + pr);
        assert(pl == l0 + 1 + pr.len());
        assert(s.subrange(i, i + l0) =~= p0) by {
            assert(forall|k: int| 0 <= k < l0 ==> #[trigger] s.subrange(i, i + l0)[k] == s[i + k]);
            assert(forall|k: int| 0 <= k < l0 ==> #[trigger] pi[k] == p0[k]);
        }
        assert(s[i + l0] == pi[l0 as int]);
        assert(pi[l0 as int] == ',');
        assert(!is_number_char(','));
        lemma_print_parse_value(v0, s, i);
        assert(skip_ws(s, i + l0) == i + l0);
        let i2 = i + l0 + 1;
        assert(s.subrange(i2, i2 + pr.len()) =~= pr) by {
            assert forall|k: int| 0 <= k < pr.len() implies #[trigger] s.subrange(
                i2,
                i2 + pr.len(),
            )[k] == pr[k] by {
                assert(s.subrange(i2, i2 + pr.len())[k] == s[i2 + k]);
                assert(i2 + k == i + (l0 + 1 + k));
                assert(s[i + (l0 + 1 + k)] == pi[l0 + 1 + k]);
                assert(pi[l0 + 1 + k] == pr[k]);
            }
        }
        assert(s[i2 + pr.len()] == ']');
        lemma_print_parse_items(rest, s, i2);
        assert(seq![v0] + rest =~= items);
    }
}

/// Serialized object members followed by `}` parse back to the
/// members, ending just past the brace.
pub proof fn lemma_print_parse_members(entries: Seq<(Seq<char>, SpecJson)>, s: Seq<char>, i: int)
    requires
        entries.len() >= 1,
        forall|k: int| 0 <= k < entries.len() ==> json_wf((#[trigger] entries[k]).1),
        0 <= i,
        i + spec_print_entries(entries).len() + 1 <= s.len(),
        s.subrange(i, i + spec_print_entries(entries).len()) == spec_print_entries(entries),
        s[i + spec_print_entries(entries).len()] == '}',
    ensures
        spec_parse_members(s, i) == Some((entries, i + spec_print_entries(entries).len() + 1)),
    decreases entries, 1int,
{
    let pe = spec_print_entries(entries);
    let pl = pe.len();
    assert(forall|k: int| 0 <= k < pl ==> #[trigger] s[i + k] == pe[k]) by {
        assert(forall|k: int| 0 <= k < pl ==> #[trigger] s.subrange(i, i + pl)[k] == pe[k]);
        assert(forall|k: int| 0 <= k < pl ==> #[trigger] s.subrange(i, i + pl)[k] == s[i + k]);
    }
    let key0 = entries[0].0;
    let v0 = entries[0].1;
    assert(json_wf(v0));
    lemma_print_head(v0);
    let head = print_str(key0) + seq![':'] + spec_print(v0);
    let ks = print_str(key0).len();
    let l0 = spec_print(v0).len();
    let hl = head.len();
    assert(hl == ks + 1 + l0);
    let ghost tail_sep: Seq<char> = if entries.len() == 1 {
        Seq::empty()
    } else {
        seq![','] + spec_print_entries(entries.drop_first())
    };
    assert(pe == head + tail_sep) by {
        if entries.len() == 1 {
            assert(pe == head);
            assert(head + tail_sep =~= head);
        } else {
            assert(pe =~= head + tail_sep);
        }
    }
    assert(forall|k: int| 0 <= k < hl ==> #[trigger] pe[k] == head[k]);
    assert(s[i + 0] == pe[0]);
    assert(pe[0] == '"');
    assert(s[i] == '"');
    assert(skip_ws(s, i) == i);
    let esc = esc_str(key0);
    assert(print_str(key0) == seq!['"'] + esc + seq!['"']);
    assert(s.subrange(i + 1, i + 1 + esc.len()) =~= esc) by {
        assert forall|k: int| 0 <= k < esc.len() implies #[trigger] s.subrange(
            i + 1,
            i + 1 + esc.len(),
        )[k] == esc[k] by {
            assert(s.subrange(i + 1, i + 1 + esc.len())[k] == s[i + 1 + k]);
            assert(i + 1 + k == i + (1 + k));
            assert(s[i + (1 + k)] == pe[1 + k]);
            assert(pe[1 + k] == head[1 + k]);
            assert(head[1 + k] == print_str(key0)[1 + k]);
            assert(print_str(key0)[1 + k] == esc[k]);
        }
    }
    assert(s[i + (ks - 1)] == pe[ks - 1]);
    assert(pe[ks - 1] == print_str(key0)[ks - 1]);
    assert(print_str(key0)[ks - 1] == '"');
    lemma_parse_escaped(key0, s, i + 1);
    assert(spec_parse_str_chars(s, i + 1) == Some((key0, i + ks)));
    assert(s[i + ks] == pe[ks as int]);
    assert(pe[ks as int] == head[ks as int]);
    assert(head[ks as int] == ':');
    assert(skip_ws(s, i + ks) == i + ks);
    let iv = i + ks + 1;
    assert(s.subrange(iv, iv + l0) =~= spec_print(v0)) by {
        assert forall|k: int| 0 <= k < l0 implies #[trigger] s.subrange(iv, iv + l0)[k]
            == spec_print(v0)[k] by {
            assert(s.subrange(iv, iv + l0)[k] == s[iv + k]);
            assert(iv + k == i + (ks + 1 + k));
            assert(s[i + (ks + 1 + k)] == pe[ks + 1 + k]);
            assert(pe[ks + 1 + k] == head[ks + 1 + k]);
            assert(head[ks + 1 + k] == spec_print(v0)[k]);
        }
    }
    if entries.len() == 1 {
        assert(s[iv + l0] == '}');
        assert(!is_number_char('}'));
        lemma_print_parse_value(v0, s, iv);
        assert(skip_ws(s, iv + l0) == iv + l0);
        assert(seq![(key0, v0)] =~= entries);
        assert((key0, v0) == entries[0]);
    } else {
        let rest = entries.drop_first();
        assert(forall|k: int| 0 <= k < rest.len() ==> #[trigger] rest[k] == entries[k + 1]);
        let pr = spec_print_entries(rest);
        assert(s[iv + l0] == pe[hl as int]);
        assert(pe[hl as int] == ',');
        assert(!is_number_char(','));
        lemma_print_parse_value(v0, s, iv);
        assert(skip_ws(s, iv + l0) == iv + l0);
        let i2 = iv + l0 + 1;
        assert(s.subrange(i2, i2 + pr.len()) =~= pr) by {
            assert forall|k: int| 0 <= k < pr.len() implies #[trigger] s.subrange(
                i2,
                i2 + pr.len(),
            )[k] == pr[k] by {
                assert(s.subrange(i2, i2 + pr.len())[k] == s[i2 + k]);
                assert(i2 + k == i + (hl + 1 + k));
                assert(s[i + (hl + 1 + k)] == pe[hl + 1 + k]);
                assert(pe[hl + 1 + k] == tail_sep[1 + k]);
                assert(tail_sep[1 + k] == pr[k]);
            }
        }
        assert(s[i2 + pr.len()] == '}');
        lemma_print_parse_members(rest, s, i2);
        assert(seq![(key0, v0)] + rest =~= entries);
        assert((key0, v0) == entries[0]);
    }
}

/// Round trip: the serialized text of a well-formed value parses back
/// to exactly that value.
pub proof fn lemma_json_round_trip(v: SpecJson)
    requires
        json_wf(v),
    ensures
        spec_parse_json(spec_print(v)) == Some(v),
{
    let s = spec_print(v);
    assert(s.subrange(0, s.len() as int) =~= s);
    lemma_print_parse_value(v, s, 0);
    assert(skip_ws(s, s.len() as int) == s.len());
}

} // verus!
