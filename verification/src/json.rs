//! JSON values as plain data.
//!
//! The engine works on its own JSON representation rather than an outside
//! one: objects are ordered key/value vectors (preserving wire order and
//! duplicates, which keeps serialization an exact inverse of parsing) and
//! numbers keep their wire lexeme verbatim, so that values the engine does
//! not interpret survive a round trip unchanged.  The mathematical model
//! of a value is [`SpecJson`], reached through the view operator.

use vstd::prelude::*;

verus! {

/// Mathematical model of a JSON value.
#[verifier::ext_equal]
pub ghost enum SpecJson {
    Null,
    Bool(bool),
    /// A number, as its unparsed wire lexeme.
    Num(Seq<char>),
    Str(Seq<char>),
    Arr(Seq<SpecJson>),
    Obj(Seq<(Seq<char>, SpecJson)>),
}

/// A JSON value.  Numbers hold their decimal lexeme verbatim; objects are
/// ordered key/value sequences.
#[derive(Debug, PartialEq)]
pub enum JsonValue {
    Null,
    Bool(bool),
    /// A number, as its unparsed wire lexeme.
    Num(String),
    Str(String),
    Arr(Vec<JsonValue>),
    Obj(Vec<(String, JsonValue)>),
}

/// Model of a sequence of values, element by element.
pub open spec fn view_json_seq(items: Seq<JsonValue>) -> Seq<SpecJson>
    decreases items,
{
    if items.len() == 0 {
        Seq::empty()
    } else {
        seq![view_json(items[0])] + view_json_seq(items.drop_first())
    }
}

/// Model of a sequence of object entries, element by element.
pub open spec fn view_json_entries(entries: Seq<(String, JsonValue)>) -> Seq<(Seq<char>, SpecJson)>
    decreases entries,
{
    if entries.len() == 0 {
        Seq::empty()
    } else {
        seq![(entries[0].0@, view_json(entries[0].1))] + view_json_entries(entries.drop_first())
    }
}

/// Model of a value.
pub open spec fn view_json(v: JsonValue) -> SpecJson
    decreases v,
{
    match v {
        JsonValue::Null => SpecJson::Null,
        JsonValue::Bool(b) => SpecJson::Bool(b),
        JsonValue::Num(s) => SpecJson::Num(s@),
        JsonValue::Str(s) => SpecJson::Str(s@),
        JsonValue::Arr(items) => SpecJson::Arr(view_json_seq(items@)),
        JsonValue::Obj(entries) => SpecJson::Obj(view_json_entries(entries@)),
    }
}

impl View for JsonValue {
    type V = SpecJson;

    open spec fn view(&self) -> SpecJson {
        view_json(*self)
    }
}

/// The element view commutes with indexing.
pub proof fn lemma_view_json_seq(items: Seq<JsonValue>)
    ensures
        view_json_seq(items).len() == items.len(),
        forall|i: int| 0 <= i < items.len() ==> view_json_seq(items)[i] == view_json(#[trigger] items[i]),
    decreases items,
{
    if items.len() > 0 {
        lemma_view_json_seq(items.drop_first());
        assert forall|i: int| 0 <= i < items.len() implies view_json_seq(items)[i] == view_json(
            #[trigger] items[i],
        ) by {
            if i > 0 {
                assert(items.drop_first()[i - 1] == items[i]);
                assert(view_json_seq(items)[i] == view_json_seq(items.drop_first())[i - 1]);
            }
        }
    }
}

/// The entry view commutes with indexing.
pub proof fn lemma_view_json_entries(entries: Seq<(String, JsonValue)>)
    ensures
        view_json_entries(entries).len() == entries.len(),
        forall|i: int| 0 <= i < entries.len() ==> view_json_entries(entries)[i] == (
            (#[trigger] entries[i]).0@,
            view_json(entries[i].1),
        ),
    decreases entries,
{
    if entries.len() > 0 {
        lemma_view_json_entries(entries.drop_first());
        assert forall|i: int| 0 <= i < entries.len() implies view_json_entries(entries)[i] == (
            (#[trigger] entries[i]).0@,
            view_json(entries[i].1),
        ) by {
            if i > 0 {
                assert(entries.drop_first()[i - 1] == entries[i]);
                assert(view_json_entries(entries)[i] == view_json_entries(entries.drop_first())[i
                    - 1]);
            }
        }
    }
}

/// Appending one element extends the element view by its model.
pub proof fn lemma_view_json_seq_push(items: Seq<JsonValue>, x: JsonValue)
    ensures
        view_json_seq(items.push(x)) == view_json_seq(items).push(view_json(x)),
{
    lemma_view_json_seq(items.push(x));
    lemma_view_json_seq(items);
    assert forall|i: int| 0 <= i < items.push(x).len() implies view_json_seq(items.push(x))[i]
        == view_json_seq(items).push(view_json(x))[i] by {
        if i < items.len() {
            assert(items.push(x)[i] == items[i]);
        } else {
            assert(items.push(x)[i] == x);
        }
    }
    assert(view_json_seq(items.push(x)) =~= view_json_seq(items).push(view_json(x)));
}

/// Appending one entry extends the entry view by its model.
pub proof fn lemma_view_json_entries_push(entries: Seq<(String, JsonValue)>, k: String, v: JsonValue)
    ensures
        view_json_entries(entries.push((k, v))) == view_json_entries(entries).push((k@, view_json(v))),
{
    lemma_view_json_entries(entries.push((k, v)));
    lemma_view_json_entries(entries);
    assert forall|i: int| 0 <= i < entries.push((k, v)).len() implies view_json_entries(
        entries.push((k, v)),
    )[i] == view_json_entries(entries).push((k@, view_json(v)))[i] by {
        if i < entries.len() {
            assert(entries.push((k, v))[i] == entries[i]);
        } else {
            assert(entries.push((k, v))[i] == (k, v));
        }
    }
    assert(view_json_entries(entries.push((k, v))) =~= view_json_entries(entries).push(
        (k@, view_json(v)),
    ));
}


/// Prepending one element extends the element view at the front.
pub proof fn lemma_view_json_seq_cons(x: JsonValue, items: Seq<JsonValue>)
    ensures
        view_json_seq(seq![x] + items) == seq![view_json(x)] + view_json_seq(items),
{
    let whole = seq![x] + items;
    assert(whole.len() > 0);
    assert(whole[0] == x);
    assert(whole.drop_first() =~= items);
}

/// Prepending one entry extends the entry view at the front.
pub proof fn lemma_view_json_entries_cons(k: String, v: JsonValue, entries: Seq<(String, JsonValue)>)
    ensures
        view_json_entries(seq![(k, v)] + entries) == seq![(k@, view_json(v))] + view_json_entries(
            entries,
        ),
{
    let whole = seq![(k, v)] + entries;
    assert(whole.len() > 0);
    assert(whole[0] == (k, v));
    assert(whole.drop_first() =~= entries);
}

/// Decimal digit test.
pub open spec fn is_digit(c: char) -> bool {
    48 <= c as u32 && c as u32 <= 57
}

/// Characters that may occur anywhere in a number lexeme.
pub open spec fn is_number_char(c: char) -> bool {
    is_digit(c) || c == '-' || c == '+' || c == '.' || c == 'e' || c == 'E'
}

/// A number lexeme the serializer may emit verbatim: non-empty, starts
/// like a JSON number, and contains only number characters.
pub open spec fn num_lexeme_wf(s: Seq<char>) -> bool {
    &&& s.len() > 0
    &&& (s[0] == '-' || is_digit(s[0]))
    &&& forall|i: int| 0 <= i < s.len() ==> is_number_char(#[trigger] s[i])
}

/// Values whose serialization is well-formed JSON text: every number
/// lexeme in them is well formed.
pub open spec fn json_wf(v: SpecJson) -> bool
    decreases v,
{
    match v {
        SpecJson::Null => true,
        SpecJson::Bool(_) => true,
        SpecJson::Num(s) => num_lexeme_wf(s),
        SpecJson::Str(_) => true,
        SpecJson::Arr(items) => forall|i: int| 0 <= i < items.len() ==> json_wf(#[trigger] items[i]),
        SpecJson::Obj(entries) => forall|i: int|
            0 <= i < entries.len() ==> json_wf(#[trigger] entries[i].1),
    }
}

/// First value bound to `key` in an object entry list, if any.
pub open spec fn spec_obj_get(entries: Seq<(Seq<char>, SpecJson)>, key: Seq<char>) -> Option<SpecJson>
    decreases entries,
{
    if entries.len() == 0 {
        None
    } else if entries[0].0 == key {
        Some(entries[0].1)
    } else {
        spec_obj_get(entries.drop_first(), key)
    }
}

/// Whether `key` is bound in an object entry list.
pub open spec fn spec_obj_has(entries: Seq<(Seq<char>, SpecJson)>, key: Seq<char>) -> bool {
    spec_obj_get(entries, key) is Some
}

/// Look up the first value bound to `key`.
pub fn obj_get<'a>(entries: &'a Vec<(String, JsonValue)>, key: &str) -> (r: Option<&'a JsonValue>)
    ensures
        match r {
            Some(v) => spec_obj_get(view_json_entries(entries@), key@) == Some(v@),
            None => spec_obj_get(view_json_entries(entries@), key@) is None,
        },
{
    proof {
        lemma_view_json_entries(entries@);
        assert(view_json_entries(entries@).subrange(0, entries@.len() as int) =~= view_json_entries(
            entries@,
        ));
    }
    let key_owned = String::from_str(key);
    let n = entries.len();
    let mut i: usize = 0;
    while i < n
        invariant
            n == entries.len(),
            0 <= i <= n,
            key_owned@ == key@,
            spec_obj_get(view_json_entries(entries@), key@) == spec_obj_get(
                view_json_entries(entries@).subrange(i as int, n as int),
                key@,
            ),
            view_json_entries(entries@).len() == n,
            forall|j: int| 0 <= j < n ==> view_json_entries(entries@)[j]
                == (#[trigger] entries@[j].0@, view_json(entries@[j].1)),
        decreases n - i,
    {
        let ghost tail = view_json_entries(entries@).subrange(i as int, n as int);
        if entries[i].0 == key_owned {
            proof {
                assert(tail[0] == (entries@[i as int].0@, view_json(entries@[i as int].1)));
            }
            return Some(&entries[i].1);
        }
        proof {
            assert(tail[0] == (entries@[i as int].0@, view_json(entries@[i as int].1)));
            assert(tail.drop_first() =~= view_json_entries(entries@).subrange(
                i + 1 as int,
                n as int,
            ));
        }
        i = i + 1;
    }
    None
}

/// A spec digit as its character.
pub open spec fn digit_char(d: int) -> char {
    (48 + d) as char
}

/// Decimal spelling of a natural number.
pub open spec fn spec_nat_chars(n: nat) -> Seq<char>
    decreases n,
{
    if n < 10 {
        seq![digit_char(n as int)]
    } else {
        spec_nat_chars(n / 10) + seq![digit_char((n % 10) as int)]
    }
}

/// Decimal spelling of an integer.
pub open spec fn spec_int_chars(v: int) -> Seq<char> {
    if v < 0 {
        seq!['-'] + spec_nat_chars((-v) as nat)
    } else {
        spec_nat_chars(v as nat)
    }
}

/// Append the decimal spelling of `n`.
fn push_nat_chars(n: u64, out: &mut Vec<char>)
    ensures
        final(out)@ == old(out)@ + spec_nat_chars(n as nat),
    decreases n,
{
    if n < 10 {
        let c = (48 + n as u8) as char;
        out.push(c);
    } else {
        let q = n / 10;
        let r = n % 10;
        push_nat_chars(q, out);
        let c = (48 + r as u8) as char;
        out.push(c);
        proof {
            assert(out@ =~= old(out)@ + spec_nat_chars(n as nat));
        }
    }
}

/// Append the decimal spelling of `v`.
pub fn push_i64_chars(v: i64, out: &mut Vec<char>)
    ensures
        final(out)@ == old(out)@ + spec_int_chars(v as int),
{
    if v < 0 {
        out.push('-');
        let n: u64 = (-(v as i128)) as u64;
        push_nat_chars(n, out);
        proof {
            assert(out@ =~= old(out)@ + spec_int_chars(v as int));
        }
    } else {
        let n: u64 = v as u64;
        push_nat_chars(n, out);
    }
}

/// The decimal spelling of an integer, as a number lexeme.
pub fn i64_string(v: i64) -> (r: String)
    ensures
        r@ == spec_int_chars(v as int),
{
    let mut out: Vec<char> = Vec::new();
    push_i64_chars(v, &mut out);
    chars_to_string(&out)
}


impl JsonValue {
    /// A deep copy with the same model.
    #[verifier::loop_isolation(false)]
    #[verifier::rlimit(60)]
    pub fn duplicate(&self) -> (r: JsonValue)
        ensures
            r@ == self@,
        decreases self,
    {
        match self {
            JsonValue::Null => JsonValue::Null,
            JsonValue::Bool(b) => JsonValue::Bool(*b),
            JsonValue::Num(s) => JsonValue::Num(s.clone()),
            JsonValue::Str(s) => JsonValue::Str(s.clone()),
            JsonValue::Arr(items) => {
                proof {
                    lemma_view_json_seq(items@);
                }
                let n = items.len();
                let mut out: Vec<JsonValue> = Vec::new();
                let mut i: usize = 0;
                while i < n
                    invariant
                        0 <= i <= n,
                        view_json_seq(out@) == view_json_seq(items@).subrange(0, i as int),
                        out@.len() == i,
                    decreases n - i,
                {
                    proof {
                        assert(decreases_to!(*self => (*self)->Arr_0));
                        assert(decreases_to!((*self)->Arr_0 => (*self)->Arr_0@));
                        vstd::seq::axiom_seq_index_decreases((*self)->Arr_0@, i as int);
                    }
                    let d = items[i].duplicate();
                    proof {
                        lemma_view_json_seq_push(out@, d);
                        assert(view_json_seq(items@).subrange(0, i + 1 as int) =~= view_json_seq(
                            items@,
                        ).subrange(0, i as int).push(view_json(items@[i as int])));
                    }
                    out.push(d);
                    i = i + 1;
                }
                proof {
                    assert(view_json_seq(items@).subrange(0, n as int) =~= view_json_seq(items@));
                }
                JsonValue::Arr(out)
            },
            JsonValue::Obj(entries) => {
                proof {
                    lemma_view_json_entries(entries@);
                }
                let n = entries.len();
                let mut out: Vec<(String, JsonValue)> = Vec::new();
                let mut i: usize = 0;
                while i < n
                    invariant
                        0 <= i <= n,
                        view_json_entries(out@) == view_json_entries(entries@).subrange(
                            0,
                            i as int,
                        ),
                        out@.len() == i,
                    decreases n - i,
                {
                    proof {
                        assert(decreases_to!(*self => (*self)->Obj_0));
                        assert(decreases_to!((*self)->Obj_0 => (*self)->Obj_0@));
                        vstd::seq::axiom_seq_index_decreases((*self)->Obj_0@, i as int);
                        assert(decreases_to!((*self)->Obj_0@[i as int] => (*self)->Obj_0@[i
                            as int].1));
                    }
                    let k = entries[i].0.clone();
                    let d = entries[i].1.duplicate();
                    proof {
                        lemma_view_json_entries_push(out@, k, d);
                        assert(view_json_entries(entries@).subrange(0, i + 1 as int)
                            =~= view_json_entries(entries@).subrange(0, i as int).push(
                            (entries@[i as int].0@, view_json(entries@[i as int].1)),
                        ));
                    }
                    out.push((k, d));
                    i = i + 1;
                }
                proof {
                    assert(view_json_entries(entries@).subrange(0, n as int) =~= view_json_entries(
                        entries@,
                    ));
                }
                JsonValue::Obj(out)
            },
        }
    }
}

/// A deep copy of an entry list, with the same model.
pub fn duplicate_entries(entries: &Vec<(String, JsonValue)>) -> (r: Vec<(String, JsonValue)>)
    ensures
        view_json_entries(r@) == view_json_entries(entries@),
{
    proof {
        lemma_view_json_entries(entries@);
    }
    let n = entries.len();
    let mut out: Vec<(String, JsonValue)> = Vec::new();
    let mut i: usize = 0;
    while i < n
        invariant
            0 <= i <= n,
            n == entries@.len(),
            view_json_entries(entries@).len() == n,
            forall|j: int| 0 <= j < n ==> view_json_entries(entries@)[j] == (
                (#[trigger] entries@[j]).0@,
                view_json(entries@[j].1),
            ),
            view_json_entries(out@) == view_json_entries(entries@).subrange(0, i as int),
            out@.len() == i,
        decreases n - i,
    {
        let k = entries[i].0.clone();
        let d = entries[i].1.duplicate();
        proof {
            lemma_view_json_entries_push(out@, k, d);
            assert(view_json_entries(entries@).subrange(0, i + 1 as int) =~= view_json_entries(
                entries@,
            ).subrange(0, i as int).push((entries@[i as int].0@, view_json(entries@[i as int].1))));
        }
        out.push((k, d));
        i = i + 1;
    }
    proof {
        assert(view_json_entries(entries@).subrange(0, n as int) =~= view_json_entries(entries@));
    }
    out
}

/// Relies on `core::str::Chars` (via `Iterator::collect`): iterating a
/// string's characters in order and collecting them yields exactly the
/// string's character sequence.
#[verifier::external_body]
pub fn str_to_chars(s: &str) -> (r: Vec<char>)
    ensures
        r@ == s@,
{
    s.chars().collect()
}

/// Relies on `FromIterator for String`: collecting characters in order
/// builds the string with exactly that character sequence.
#[verifier::external_body]
pub fn chars_to_string(v: &Vec<char>) -> (r: String)
    ensures
        r@ == v@,
{
    v.iter().collect()
}

/// Fold decimal digits left to right onto `acc`, failing on a non-digit
/// or when the value would pass `limit`.
pub open spec fn fold_digits(s: Seq<char>, acc: int, limit: int) -> Option<int>
    decreases s.len(),
{
    if s.len() == 0 {
        Some(acc)
    } else if !is_digit(s[0]) {
        None
    } else {
        let a2 = acc * 10 + (s[0] as u32 - 48);
        if a2 > limit {
            None
        } else {
            fold_digits(s.drop_first(), a2, limit)
        }
    }
}

/// The value of a decimal integer lexeme, if it is one and fits in `i64`.
pub open spec fn spec_parse_i64(s: Seq<char>) -> Option<int> {
    if s.len() >= 2 && s[0] == '-' {
        match fold_digits(s.drop_first(), 0, 0x8000000000000000) {
            Some(v) => Some(-v),
            None => None,
        }
    } else if s.len() >= 1 && s[0] != '-' {
        fold_digits(s, 0, 0x7fffffffffffffff)
    } else {
        None
    }
}

/// Parse a decimal integer lexeme into an `i64`.
#[verifier::loop_isolation(false)]
pub fn i64_from_str(s: &str) -> (r: Option<i64>)
    ensures
        match r {
            Some(v) => spec_parse_i64(s@) == Some(v as int),
            None => spec_parse_i64(s@) is None,
        },
{
    let cs = str_to_chars(s);
    let n = cs.len();
    if n == 0 {
        return None;
    }
    let neg = cs[0] == '-';
    if neg && n < 2 {
        return None;
    }
    let start: usize = if neg {
        1
    } else {
        0
    };
    let limit: u64 = if neg {
        0x8000000000000000
    } else {
        0x7fffffffffffffff
    };
    let ghost whole = if neg {
        cs@.drop_first()
    } else {
        cs@
    };
    proof {
        assert(whole =~= cs@.subrange(start as int, n as int));
    }
    let mut acc: u64 = 0;
    let mut idx = start;
    while idx < n
        invariant
            start <= idx <= n,
            n == cs@.len(),
            acc <= limit,
            whole == cs@.subrange(start as int, n as int),
            fold_digits(whole, 0, limit as int) == fold_digits(
                cs@.subrange(idx as int, n as int),
                acc as int,
                limit as int,
            ),
        decreases n - idx,
    {
        let c = cs[idx];
        let cu = c as u32;
        if !(48 <= cu && cu <= 57) {
            proof {
                assert(cs@.subrange(idx as int, n as int)[0] == cs@[idx as int]);
            }
            return None;
        }
        let d = (cu - 48) as u64;
        if acc > (limit - d) / 10 {
            proof {
                assert(cs@.subrange(idx as int, n as int)[0] == cs@[idx as int]);
                assert(acc * 10 + d > limit) by (nonlinear_arith)
                    requires
                        acc > (limit - d) / 10,
                        d <= 9,
                        limit >= d,
                        acc >= 0,
                {
                }
            }
            return None;
        }
        proof {
            assert(acc * 10 + d <= limit) by (nonlinear_arith)
                requires
                    acc <= (limit - d) / 10,
                    d <= 9,
                    limit >= d,
                    acc >= 0,
            {
            }
            assert(cs@.subrange(idx as int, n as int)[0] == cs@[idx as int]);
            assert(cs@.subrange(idx as int, n as int).drop_first() =~= cs@.subrange(
                idx + 1 as int,
                n as int,
            ));
        }
        acc = acc * 10 + d;
        idx = idx + 1;
    }
    proof {
        assert(cs@.subrange(n as int, n as int) =~= Seq::<char>::empty());
    }
    if neg {
        if acc == 0x8000000000000000 {
            Some(i64::MIN)
        } else {
            Some(-(acc as i64))
        }
    } else {
        Some(acc as i64)
    }
}

/// Folding digits after a prefix continues from the prefix's value.
pub proof fn lemma_fold_digits_concat(a: Seq<char>, b: Seq<char>, acc: int, limit: int)
    ensures
        fold_digits(a + b, acc, limit) == match fold_digits(a, acc, limit) {
            Some(m) => fold_digits(b, m, limit),
            None => None,
        },
    decreases a.len(),
{
    if a.len() == 0 {
        assert(a + b =~= b);
    } else {
        assert((a + b)[0] == a[0]);
        if is_digit(a[0]) {
            let a2 = acc * 10 + (a[0] as u32 - 48);
            if a2 <= limit {
                assert((a + b).drop_first() =~= a.drop_first() + b);
                lemma_fold_digits_concat(a.drop_first(), b, a2, limit);
            }
        }
    }
}

/// The decimal spelling of a natural number folds back to it.
pub proof fn lemma_fold_nat_chars(n: nat, limit: int)
    requires
        n <= limit,
    ensures
        fold_digits(spec_nat_chars(n), 0, limit) == Some(n as int),
    decreases n,
{
    if n < 10 {
        let s = spec_nat_chars(n);
        assert(s == seq![digit_char(n as int)]);
        assert(s[0] == digit_char(n as int));
        assert(is_digit(s[0]));
        assert((s[0] as u32 - 48) as int == n as int);
        assert(s.drop_first() =~= Seq::<char>::empty());
        assert(fold_digits(Seq::<char>::empty(), n as int, limit) == Some(n as int));
    } else {
        lemma_fold_nat_chars(n / 10, limit);
        let a = spec_nat_chars(n / 10);
        let b = seq![digit_char((n % 10) as int)];
        lemma_fold_digits_concat(a, b, 0, limit);
        assert(fold_digits(b, (n / 10) as int, limit) == Some(n as int)) by {
            assert(b[0] == digit_char((n % 10) as int));
            assert(is_digit(b[0]));
            assert(b.drop_first() =~= Seq::<char>::empty());
            vstd::arithmetic::div_mod::lemma_fundamental_div_mod(n as int, 10);
            assert((n / 10) * 10 + (n % 10) == n);
            assert((b[0] as u32 - 48) as int == (n % 10) as int);
            assert(fold_digits(Seq::<char>::empty(), n as int, limit) == Some(n as int));
        }
    }
}

/// The decimal spelling of an `i64` parses back to it.
pub proof fn lemma_parse_int_chars(v: int)
    requires
        -0x8000000000000000 <= v <= 0x7fffffffffffffff,
    ensures
        spec_parse_i64(spec_int_chars(v)) == Some(v),
{
    if v < 0 {
        let s = spec_int_chars(v);
        assert(s == seq!['-'] + spec_nat_chars((-v) as nat));
        lemma_nat_chars_len((-v) as nat);
        assert(s[0] == '-');
        assert(s.drop_first() =~= spec_nat_chars((-v) as nat));
        lemma_fold_nat_chars((-v) as nat, 0x8000000000000000);
    } else {
        let s = spec_int_chars(v);
        lemma_nat_chars_len(v as nat);
        assert(s[0] != '-') by {
            lemma_nat_chars_first_digit(v as nat);
        }
        lemma_fold_nat_chars(v as nat, 0x7fffffffffffffff);
    }
}


/// Every character of a decimal spelling is a digit.
pub proof fn lemma_nat_chars_digits(n: nat)
    ensures
        forall|i: int| 0 <= i < spec_nat_chars(n).len() ==> is_digit(#[trigger] spec_nat_chars(n)[i]),
    decreases n,
{
    if n < 10 {
    } else {
        lemma_nat_chars_digits(n / 10);
        assert forall|i: int| 0 <= i < spec_nat_chars(n).len() implies is_digit(
            #[trigger] spec_nat_chars(n)[i],
        ) by {
            if i < spec_nat_chars(n / 10).len() {
                assert(spec_nat_chars(n)[i] == spec_nat_chars(n / 10)[i]);
            } else {
                assert(spec_nat_chars(n)[i] == digit_char((n % 10) as int));
            }
        }
    }
}

/// The decimal spelling of an integer is a well-formed number lexeme.
pub proof fn lemma_int_chars_wf(v: int)
    ensures
        num_lexeme_wf(spec_int_chars(v)),
{
    let s = spec_int_chars(v);
    if v < 0 {
        lemma_nat_chars_len((-v) as nat);
        lemma_nat_chars_digits((-v) as nat);
        assert(s[0] == '-');
        assert forall|i: int| 0 <= i < s.len() implies is_number_char(#[trigger] s[i]) by {
            if i > 0 {
                assert(s[i] == spec_nat_chars((-v) as nat)[i - 1]);
            }
        }
    } else {
        lemma_nat_chars_len(v as nat);
        lemma_nat_chars_first_digit(v as nat);
        lemma_nat_chars_digits(v as nat);
    }
}

/// A decimal spelling is never empty.
pub proof fn lemma_nat_chars_len(n: nat)
    ensures
        spec_nat_chars(n).len() >= 1,
    decreases n,
{
    if n >= 10 {
        lemma_nat_chars_len(n / 10);
    }
}

/// A decimal spelling starts with a digit.
pub proof fn lemma_nat_chars_first_digit(n: nat)
    ensures
        spec_nat_chars(n).len() >= 1 && is_digit(spec_nat_chars(n)[0]),
    decreases n,
{
    if n >= 10 {
        lemma_nat_chars_first_digit(n / 10);
        assert(spec_nat_chars(n)[0] == spec_nat_chars(n / 10)[0]);
    }
}
} // verus!
