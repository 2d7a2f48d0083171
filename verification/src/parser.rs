//! The executable recursive-descent parser, proved against the grammar.
//!
//! All grammar rules share one cursor: an offset into the input text that
//! only ever advances.  A rule that fails leaves the cursor where it began;
//! the failure it reports carries the deepest position reached, so ordered
//! alternation keeps the most specific finding while it backtracks.

use vstd::prelude::*;

use vstd::string::StrSliceExecFns;

use crate::error::deeper_error;
use crate::error::ErrorKind;
use crate::error::GrammarRule;
use crate::error::ParseError;
use crate::json::elems_model;
use crate::json::lemma_elems_model_push;
use crate::json::first_key_index;
use crate::json::lemma_first_key_index;
use crate::json::lemma_pairs_model;
use crate::json::lemma_pairs_model_push;
use crate::json::pairs_model;
use crate::json::spec_upsert;
use crate::json::JsonValue;
use crate::grammar::digits_len;
use crate::grammar::frac_len;
use crate::grammar::exp_len;
use crate::grammar::is_hex_char;
use crate::grammar::lemma_str_body_len;
use crate::grammar::lemma_string_len_bounds;
use crate::grammar::lemma_value_bounds;
use crate::grammar::lemma_object_item_bounds;
use crate::grammar::matches_lit;
use crate::grammar::spec_array;
use crate::grammar::spec_array_items;
use crate::grammar::spec_bare_value;
use crate::grammar::spec_number_len;
use crate::grammar::spec_object;
use crate::grammar::spec_object_item;
use crate::grammar::spec_object_items;
use crate::grammar::spec_string_len;
use crate::grammar::spec_value;
use crate::grammar::str_body_len;
use crate::grammar::str_char_len;
use crate::grammar::ws_len;

verus! {

/// Consumes the run of whitespace at the cursor; never fails.
pub fn trim_whitespace(input: &str, pos: &mut usize)
    requires
        *old(pos) <= input@.len(),
    ensures
        *final(pos) == *old(pos) + ws_len(input@, *old(pos) as int),
        *final(pos) <= input@.len(),
{
    let ghost s = input@;
    let ghost i0 = *old(pos) as int;
    let len = input.unicode_len();
    loop
        invariant
            i0 <= *pos as int <= s.len(),
            len == s.len(),
            s == input@,
            ws_len(s, i0) == *pos - i0 + ws_len(s, *pos as int),
        ensures
            i0 <= *pos as int <= s.len(),
            ws_len(s, i0) == *pos - i0,
        decreases s.len() - *pos,
    {
        if *pos >= len {
            break ;
        }
        let c = input.get_char(*pos);
        if !(c == ' ' || c == '\n' || c == '\r' || c == '\t') {
            break ;
        }
        *pos += 1;
    }
}

/// Consumes the run of ASCII digits at the cursor; never fails.
fn skip_digits(input: &str, pos: &mut usize)
    requires
        *old(pos) <= input@.len(),
    ensures
        *final(pos) == *old(pos) + digits_len(input@, *old(pos) as int),
        *final(pos) <= input@.len(),
{
    let ghost s = input@;
    let ghost i0 = *old(pos) as int;
    let len = input.unicode_len();
    loop
        invariant
            i0 <= *pos as int <= s.len(),
            len == s.len(),
            s == input@,
            digits_len(s, i0) == *pos - i0 + digits_len(s, *pos as int),
        ensures
            i0 <= *pos as int <= s.len(),
            digits_len(s, i0) == *pos - i0,
        decreases s.len() - *pos,
    {
        if *pos >= len {
            break ;
        }
        let c = input.get_char(*pos);
        if !(c >= '0' && c <= '9') {
            break ;
        }
        *pos += 1;
    }
}

/// The literal `lit` occurs at the cursor.
fn match_lit(input: &str, pos: usize, lit: &str) -> (b: bool)
    requires
        pos <= input@.len(),
    ensures
        b == matches_lit(input@, pos as int, lit@),
{
    let ghost s = input@;
    let len = input.unicode_len();
    let n = lit.unicode_len();
    if len - pos < n {
        proof {
            assert(!matches_lit(s, pos as int, lit@));
        }
        return false;
    }
    let mut k: usize = 0;
    while k < n
        invariant
            0 <= k <= n,
            pos + n <= s.len(),
            len == s.len(),
            n == lit@.len(),
            s == input@,
            forall|m: int| 0 <= m < k ==> s[pos + m] == lit@[m],
        decreases n - k,
    {
        if input.get_char(pos + k) != lit.get_char(k) {
            proof {
                assert(s.subrange(pos as int, pos + n) != lit@) by {
                    if s.subrange(pos as int, pos + n) == lit@ {
                        assert(s.subrange(pos as int, pos + n)[k as int] == s[pos + k]);
                    }
                }
            }
            return false;
        }
        k += 1;
    }
    proof {
        assert(s.subrange(pos as int, pos + n) =~= lit@);
    }
    true
}

/// Reads the number production at the cursor and hands back the exact
/// literal text it consumed; on a mismatch the cursor is left where it
/// began.
pub fn parse_number(input: &str, pos: &mut usize) -> (r: Result<String, ParseError>)
    requires
        *old(pos) <= input@.len(),
    ensures
        match spec_number_len(input@, *old(pos) as int) {
            Some(n) => {
                &&& r is Ok
                &&& r->Ok_0@ == input@.subrange(*old(pos) as int, *old(pos) + n)
                &&& *final(pos) == *old(pos) + n
                &&& *final(pos) <= input@.len()
            },
            None => {
                &&& r is Err
                &&& *final(pos) == *old(pos)
                &&& r->Err_0.kind == ErrorKind::Mismatch
                &&& r->Err_0.rules@ == seq![GrammarRule::Number]
                &&& *old(pos) <= r->Err_0.pos <= input@.len()
            },
        },
{
    let ghost s = input@;
    let ghost i = *old(pos) as int;
    let len = input.unicode_len();
    let start = *pos;
    if *pos < len && input.get_char(*pos) == '-' {
        *pos += 1;
    }
    let ghost sign = *pos - i;
    let dstart = *pos;
    skip_digits(input, pos);
    if *pos == dstart {
        let e = ParseError::at(dstart, ErrorKind::Mismatch, GrammarRule::Number);
        *pos = start;
        return Err(e);
    }
    let ghost d = digits_len(s, i + sign);
    if *pos < len && input.get_char(*pos) == '.' {
        let save = *pos;
        *pos += 1;
        let fstart = *pos;
        skip_digits(input, pos);
        if *pos == fstart {
            *pos = save;
        }
    }
    let ghost f = frac_len(s, i + sign + d);
    proof {
        assert(*pos == i + sign + d + f);
    }
    if *pos < len && {
        let c = input.get_char(*pos);
        c == 'E' || c == 'e'
    } {
        if *pos + 1 < len && {
            let c2 = input.get_char(*pos + 1);
            c2 == '+' || c2 == '-'
        } {
            let save = *pos;
            *pos += 2;
            let estart = *pos;
            skip_digits(input, pos);
            if *pos == estart {
                *pos = save;
            }
        }
    }
    let ghost e = exp_len(s, i + sign + d + f);
    proof {
        assert(*pos == i + sign + d + f + e);
    }
    let lit = input.substring_char(start, *pos).to_owned();
    Ok(lit)
}

/// Reads one valid string character at the cursor: a plain character, a
/// two-character escape, or `\u` with four hexadecimal digits.
pub fn parse_json_char(input: &str, pos: &mut usize) -> (r: Result<(), ParseError>)
    requires
        *old(pos) <= input@.len(),
    ensures
        match str_char_len(input@, *old(pos) as int) {
            Some(n) => r is Ok && *final(pos) == *old(pos) + n,
            None => {
                &&& r is Err
                &&& *final(pos) == *old(pos)
                &&& r->Err_0.kind == ErrorKind::Mismatch
                &&& r->Err_0.rules@ == seq![GrammarRule::Text]
                &&& r->Err_0.pos == *old(pos)
            },
        },
{
    let len = input.unicode_len();
    if *pos >= len {
        return Err(ParseError::at(*pos, ErrorKind::Mismatch, GrammarRule::Text));
    }
    let c = input.get_char(*pos);
    let u = c as u32;
    let control = u < 0x20 || (0x7f <= u && u <= 0x9f);
    if !control && c != '"' && c != '\\' {
        *pos += 1;
        return Ok(());
    }
    if c == '\\' && *pos + 1 < len {
        let d = input.get_char(*pos + 1);
        if d == '"' || d == '\\' || d == '/' || d == 'b' || d == 'f' || d == 'n' || d == 'r'
            || d == 't' {
            *pos += 2;
            return Ok(());
        }
        if d == 'u' && len - *pos >= 6 {
            let h2 = input.get_char(*pos + 2);
            let h3 = input.get_char(*pos + 3);
            let h4 = input.get_char(*pos + 4);
            let h5 = input.get_char(*pos + 5);
            if hex_digit(h2) && hex_digit(h3) && hex_digit(h4) && hex_digit(h5) {
                *pos += 6;
                return Ok(());
            }
        }
    }
    Err(ParseError::at(*pos, ErrorKind::Mismatch, GrammarRule::Text))
}

/// The character is a hexadecimal digit of either case.
fn hex_digit(c: char) -> (b: bool)
    ensures
        b == is_hex_char(c),
{
    (c >= '0' && c <= '9') || (c >= 'a' && c <= 'f') || (c >= 'A' && c <= 'F')
}

/// Reads the string production at the cursor and hands back the raw span
/// between the quotes, escapes kept verbatim; on a mismatch the cursor is
/// left where it began.
pub fn parse_string(input: &str, pos: &mut usize) -> (r: Result<String, ParseError>)
    requires
        *old(pos) <= input@.len(),
    ensures
        match spec_string_len(input@, *old(pos) as int) {
            Some(n) => {
                &&& r is Ok
                &&& r->Ok_0@ == input@.subrange(*old(pos) + 1, *old(pos) + n - 1)
                &&& *final(pos) == *old(pos) + n
                &&& *final(pos) <= input@.len()
            },
            None => {
                &&& r is Err
                &&& *final(pos) == *old(pos)
                &&& r->Err_0.kind == ErrorKind::Mismatch
                &&& r->Err_0.rules@ == seq![GrammarRule::Text]
                &&& *old(pos) <= r->Err_0.pos <= input@.len()
            },
        },
{
    let ghost s = input@;
    let ghost i = *old(pos) as int;
    let len = input.unicode_len();
    let start = *pos;
    if !(*pos < len && input.get_char(*pos) == '"') {
        return Err(ParseError::at(*pos, ErrorKind::Mismatch, GrammarRule::Text));
    }
    *pos += 1;
    let ghost bstart = *pos as int;
    loop
        invariant
            i + 1 <= *pos as int <= s.len(),
            bstart == i + 1,
            len == s.len(),
            s == input@,
            str_body_len(s, bstart) == *pos - bstart + str_body_len(s, *pos as int),
        ensures
            i + 1 <= *pos as int <= s.len(),
            str_body_len(s, bstart) == *pos - bstart,
            str_char_len(s, *pos as int) is None,
        decreases s.len() - *pos,
    {
        let ghost before = *pos as int;
        let step = parse_json_char(input, pos);
        if step.is_err() {
            break ;
        }
        proof {
            lemma_str_body_len(s, *pos as int);
        }
    }
    proof {
        assert(*pos == bstart + str_body_len(s, bstart));
    }
    if *pos < len && input.get_char(*pos) == '"' {
        let content = input.substring_char(start + 1, *pos).to_owned();
        *pos += 1;
        proof {
            let n = spec_string_len(s, i)->Some_0;
            assert(content@ == s.subrange(i + 1, i + n - 1));
        }
        Ok(content)
    } else {
        let e = ParseError::at(*pos, ErrorKind::Mismatch, GrammarRule::Text);
        *pos = start;
        Err(e)
    }
}

/// The delimited-list accumulator for arrays: the elements accepted so far,
/// and whether the last accepted element was followed by a separator comma
/// (true initially, so the first element is accepted).
pub struct Delimited<T> {
    pub values: Vec<T>,
    pub comma: bool,
}

/// Folds one parsed element and its optional trailing comma into the
/// accumulator.  The element is accepted only while the comma flag is true;
/// refusing it ends the repetition without consuming the element.
pub fn parse_array_inner_reducer(
    acc: &mut Delimited<JsonValue>,
    val: (JsonValue, Option<char>),
) -> (r: bool)
    ensures
        !old(acc).comma ==> !r && *final(acc) == *old(acc),
        old(acc).comma ==> r && final(acc).values@ == old(acc).values@.push(val.0)
            && final(acc).comma == (val.1 is Some),
{
    if !acc.comma {
        return false;
    }
    acc.values.push(val.0);
    acc.comma = val.1.is_some();
    true
}

/// The delimited-list accumulator for objects: the members accepted so far
/// in insertion order with unique keys, and the separator comma flag.
pub struct DelimitedMap {
    pub values: Vec<(String, JsonValue)>,
    pub comma: bool,
}

/// Folds one parsed member into the accumulator.  A member is accepted only
/// while the comma flag is true; a duplicate key overwrites its value in
/// place (last write wins).
pub fn parse_object_inner_reducer(
    acc: &mut DelimitedMap,
    val: (String, JsonValue, Option<char>),
) -> (r: bool)
    ensures
        !old(acc).comma ==> !r && *final(acc) == *old(acc),
        old(acc).comma ==> r && pairs_model(final(acc).values@) == spec_upsert(
            pairs_model(old(acc).values@),
            val.0@,
            val.1.model(),
        ) && final(acc).comma == (val.2 is Some),
{
    if !acc.comma {
        return false;
    }
    let ghost oldps = pairs_model(acc.values@);
    let ghost key = val.0@;
    let n = acc.values.len();
    proof {
        lemma_pairs_model(acc.values@);
        lemma_first_key_index(oldps, key);
    }
    let mut k: usize = 0;
    while k < n
        invariant
            0 <= k <= n,
            acc.values@ == old(acc).values@,
            acc.comma == old(acc).comma,
            old(acc).comma,
            n == acc.values@.len(),
            oldps == pairs_model(acc.values@),
            oldps.len() == n,
            key == val.0@,
            forall|m: int| 0 <= m < k ==> oldps[m].0 != key,
        decreases n - k,
    {
        proof {
            lemma_pairs_model(acc.values@);
        }
        if acc.values[k].0 == val.0 {
            let ghost oldv = acc.values@;
            acc.values.remove(k);
            acc.values.insert(k, (val.0, val.1));
            acc.comma = val.2.is_some();
            proof {
                assert(oldps[k as int].0 == key);
                lemma_first_key_index(oldps, key);
                let fki = first_key_index(oldps, key);
                if fki < k as int {
                    assert(oldps[fki].0 != key);
                }
                assert(fki == k as int);
                assert(acc.values@ =~= oldv.update(k as int, (val.0, val.1)));
                lemma_pairs_model(oldv.update(k as int, (val.0, val.1)));
                assert(pairs_model(acc.values@) =~= oldps.update(k as int, (key, val.1.model())));
            }
            return true;
        }
        k += 1;
    }
    let ghost oldv = acc.values@;
    acc.values.push((val.0, val.1));
    acc.comma = val.2.is_some();
    proof {
        lemma_first_key_index(oldps, key);
        let fki = first_key_index(oldps, key);
        if fki < oldps.len() as int {
            assert(oldps[fki].0 == key);
        }
        assert(fki == oldps.len() as int);
        lemma_pairs_model_push(oldv, (val.0, val.1));
    }
    true
}

/// Reads a complete value at the cursor: leading whitespace, then the first
/// of `true`, `false`, `null`, string, number, array, object whose opening
/// matches, then trailing whitespace.  Returns the value and the cursor
/// position after it; on failure, the deepest positioned error.
pub fn parse_value(input: &str, pos: usize) -> (r: Result<(JsonValue, usize), ParseError>)
    requires
        pos <= input@.len(),
    ensures
        match spec_value(input@, pos as int) {
            Some((m, n)) => {
                &&& r is Ok
                &&& r->Ok_0.0.model() == m
                &&& r->Ok_0.1 == pos + n
                &&& r->Ok_0.1 <= input@.len()
            },
            None => {
                &&& r is Err
                &&& r->Err_0.wf(input@)
                &&& pos <= r->Err_0.pos <= input@.len()
            },
        },
    decreases input@.len() - pos, 3int,
{
    let ghost s = input@;
    let len = input.unicode_len();
    let mut p = pos;
    trim_whitespace(input, &mut p);
    let ghost i0 = p as int;
    if match_lit(input, p, "true") {
        let mut q = p + "true".unicode_len();
        trim_whitespace(input, &mut q);
        return Ok((JsonValue::Boolean(true), q));
    }
    if match_lit(input, p, "false") {
        let mut q = p + "false".unicode_len();
        trim_whitespace(input, &mut q);
        return Ok((JsonValue::Boolean(false), q));
    }
    if match_lit(input, p, "null") {
        let mut q = p + "null".unicode_len();
        trim_whitespace(input, &mut q);
        return Ok((JsonValue::Null, q));
    }
    if p >= len {
        proof {
            assert(spec_bare_value(s, i0) is None);
        }
        return Err(ParseError::at(p, ErrorKind::Mismatch, GrammarRule::Value));
    }
    let c = input.get_char(p);
    if c == '"' {
        let mut q = p;
        match parse_string(input, &mut q) {
            Ok(content) => {
                trim_whitespace(input, &mut q);
                Ok((JsonValue::Str(content), q))
            },
            Err(e) => Err(e.within(GrammarRule::Value)),
        }
    } else if c == '-' || (c >= '0' && c <= '9') {
        let mut q = p;
        match parse_number(input, &mut q) {
            Ok(lit) => {
                trim_whitespace(input, &mut q);
                Ok((JsonValue::Num(lit), q))
            },
            Err(e) => Err(e.within(GrammarRule::Value)),
        }
    } else if c == '[' {
        match parse_array(input, p) {
            Ok((vals, q2)) => {
                let mut q = q2;
                trim_whitespace(input, &mut q);
                Ok((JsonValue::Array(vals), q))
            },
            Err(e) => Err(e.within(GrammarRule::Value)),
        }
    } else if c == '{' {
        match parse_object(input, p) {
            Ok((members, q2)) => {
                let mut q = q2;
                trim_whitespace(input, &mut q);
                Ok((JsonValue::Object(members), q))
            },
            Err(e) => Err(e.within(GrammarRule::Value)),
        }
    } else {
        proof {
            assert(spec_bare_value(s, i0) is None);
        }
        Err(ParseError::at(p, ErrorKind::Mismatch, GrammarRule::Value))
    }
}

/// Reads the array production at the cursor: `[`, either a delimited list
/// of elements or only whitespace, `]`.
fn parse_array(input: &str, pos: usize) -> (r: Result<(Vec<JsonValue>, usize), ParseError>)
    requires
        pos <= input@.len(),
    ensures
        match spec_array(input@, pos as int) {
            Some((ms, n)) => {
                &&& r is Ok
                &&& elems_model(r->Ok_0.0@) == ms
                &&& r->Ok_0.1 == pos + n
                &&& r->Ok_0.1 <= input@.len()
            },
            None => {
                &&& r is Err
                &&& r->Err_0.wf(input@)
                &&& pos <= r->Err_0.pos <= input@.len()
            },
        },
    decreases input@.len() - pos, 1int,
{
    let ghost s = input@;
    let len = input.unicode_len();
    if !(pos < len && input.get_char(pos) == '[') {
        return Err(ParseError::at(pos, ErrorKind::Mismatch, GrammarRule::Array));
    }
    match parse_array_inner(input, pos + 1) {
        Ok((vals, p2)) => {
            if p2 < len && input.get_char(p2) == ']' {
                Ok((vals, p2 + 1))
            } else {
                Err(ParseError::at(p2, ErrorKind::Mismatch, GrammarRule::Array))
            }
        },
        Err(e) => {
            let mut q = pos + 1;
            trim_whitespace(input, &mut q);
            if q < len && input.get_char(q) == ']' {
                let empty: Vec<JsonValue> = Vec::new();
                proof {
                    assert(elems_model(empty@) =~= Seq::<crate::json::JsonModel>::empty());
                }
                Ok((empty, q + 1))
            } else {
                Err(deeper_error(e, ParseError::at(q, ErrorKind::Mismatch, GrammarRule::Array)))
            }
        },
    }
}

/// Reads the delimited list of array elements, folding each element through
/// the accumulator's comma flag; a dangling separator at the end of the
/// repetition is rejected.
fn parse_array_inner(input: &str, pos: usize) -> (r: Result<(Vec<JsonValue>, usize), ParseError>)
    requires
        pos <= input@.len(),
    ensures
        match spec_array_items(input@, pos as int, Seq::empty(), true) {
            Some((ms, n)) => {
                &&& r is Ok
                &&& elems_model(r->Ok_0.0@) == ms
                &&& r->Ok_0.1 == pos + n
                &&& r->Ok_0.1 <= input@.len()
            },
            None => {
                &&& r is Err
                &&& r->Err_0.wf(input@)
                &&& pos <= r->Err_0.pos <= input@.len()
            },
        },
    decreases input@.len() - pos, 4int,
{
    let ghost s = input@;
    let len = input.unicode_len();
    let mut acc = Delimited::<JsonValue> { values: Vec::new(), comma: true };
    let mut cur = pos;
    proof {
        assert(elems_model(acc.values@) =~= Seq::<crate::json::JsonModel>::empty());
    }
    loop
        invariant
            pos <= cur <= len,
            len == s.len(),
            s == input@,
            pos <= input@.len(),
            (match spec_array_items(s, cur as int, elems_model(acc.values@), acc.comma) {
                Some((ms, rest)) => spec_array_items(s, pos as int, Seq::empty(), true)
                    == Some((ms, (cur - pos + rest) as nat)),
                None => spec_array_items(s, pos as int, Seq::empty(), true) is None,
            }),
        decreases s.len() - cur,
    {
        let ghost before = cur as int;
        match parse_value(input, cur) {
            Err(e) => {
                if acc.comma {
                    let sep = ParseError::at(
                        cur,
                        ErrorKind::SeparatorViolation,
                        GrammarRule::Array,
                    );
                    return Err(deeper_error(e.within(GrammarRule::Array), sep));
                } else {
                    return Ok((acc.values, cur));
                }
            },
            Ok((v, p2)) => {
                proof {
                    lemma_value_bounds(s, before);
                }
                let has_comma = p2 < len && input.get_char(p2) == ',';
                let item = (v, if has_comma {
                    Some(',')
                } else {
                    None
                });
                let ghost oldvals = acc.values@;
                let ghost oldcomma = acc.comma;
                let cont = parse_array_inner_reducer(&mut acc, item);
                if !cont {
                    return Ok((acc.values, cur));
                }
                proof {
                    lemma_elems_model_push(oldvals, item.0);
                }
                cur = if has_comma {
                    p2 + 1
                } else {
                    p2
                };
            },
        }
    }
}

/// Reads the object production at the cursor: `{`, either a delimited list
/// of members or only whitespace, `}`.
fn parse_object(input: &str, pos: usize) -> (r: Result<(Vec<(String, JsonValue)>, usize), ParseError>)
    requires
        pos <= input@.len(),
    ensures
        match spec_object(input@, pos as int) {
            Some((ms, n)) => {
                &&& r is Ok
                &&& pairs_model(r->Ok_0.0@) == ms
                &&& r->Ok_0.1 == pos + n
                &&& r->Ok_0.1 <= input@.len()
            },
            None => {
                &&& r is Err
                &&& r->Err_0.wf(input@)
                &&& pos <= r->Err_0.pos <= input@.len()
            },
        },
    decreases input@.len() - pos, 1int,
{
    let ghost s = input@;
    let len = input.unicode_len();
    if !(pos < len && input.get_char(pos) == '{') {
        return Err(ParseError::at(pos, ErrorKind::Mismatch, GrammarRule::Object));
    }
    match parse_object_inner(input, pos + 1) {
        Ok((members, p2)) => {
            if p2 < len && input.get_char(p2) == '}' {
                Ok((members, p2 + 1))
            } else {
                Err(ParseError::at(p2, ErrorKind::Mismatch, GrammarRule::Object))
            }
        },
        Err(e) => {
            let mut q = pos + 1;
            trim_whitespace(input, &mut q);
            if q < len && input.get_char(q) == '}' {
                let empty: Vec<(String, JsonValue)> = Vec::new();
                proof {
                    assert(pairs_model(empty@) =~= Seq::<(Seq<char>, crate::json::JsonModel)>::empty());
                }
                Ok((empty, q + 1))
            } else {
                Err(deeper_error(e, ParseError::at(q, ErrorKind::Mismatch, GrammarRule::Object)))
            }
        },
    }
}

/// Reads one object member at the cursor: whitespace, a key, whitespace,
/// `:`, a value, and an optional trailing comma.  Returns the member, the
/// comma if present, and the cursor position after it.
pub fn parse_object_item(input: &str, pos: usize) -> (r: Result<
    ((String, JsonValue, Option<char>), usize),
    ParseError,
>)
    requires
        pos <= input@.len(),
    ensures
        match spec_object_item(input@, pos as int) {
            Some(((key, m), has_comma, step)) => {
                &&& r is Ok
                &&& r->Ok_0.0.0@ == key
                &&& r->Ok_0.0.1.model() == m
                &&& (r->Ok_0.0.2 is Some) == has_comma
                &&& r->Ok_0.1 == pos + step
                &&& r->Ok_0.1 <= input@.len()
            },
            None => {
                &&& r is Err
                &&& r->Err_0.wf(input@)
                &&& pos <= r->Err_0.pos <= input@.len()
            },
        },
    decreases input@.len() - pos, 2int,
{
    let ghost s = input@;
    let len = input.unicode_len();
    let mut p = pos;
    trim_whitespace(input, &mut p);
    let key = match parse_string(input, &mut p) {
        Ok(k) => k,
        Err(e) => {
            return Err(e.within(GrammarRule::Member));
        },
    };
    proof {
        lemma_string_len_bounds(s, pos + ws_len(s, pos as int));
    }
    trim_whitespace(input, &mut p);
    if !(p < len && input.get_char(p) == ':') {
        return Err(ParseError::at(p, ErrorKind::Mismatch, GrammarRule::Member));
    }
    let colon = p;
    match parse_value(input, p + 1) {
        Err(e) => Err(e.within(GrammarRule::Member)),
        Ok((v, p2)) => {
            proof {
                lemma_value_bounds(s, colon + 1);
            }
            let has_comma = p2 < len && input.get_char(p2) == ',';
            let np = if has_comma {
                p2 + 1
            } else {
                p2
            };
            Ok(((key, v, if has_comma {
                Some(',')
            } else {
                None
            }), np))
        },
    }
}

/// Reads the delimited list of object members, folding each member through
/// the accumulator's comma flag; a dangling separator at the end of the
/// repetition is rejected.
fn parse_object_inner(input: &str, pos: usize) -> (r: Result<
    (Vec<(String, JsonValue)>, usize),
    ParseError,
>)
    requires
        pos <= input@.len(),
    ensures
        match spec_object_items(input@, pos as int, Seq::empty(), true) {
            Some((ms, n)) => {
                &&& r is Ok
                &&& pairs_model(r->Ok_0.0@) == ms
                &&& r->Ok_0.1 == pos + n
                &&& r->Ok_0.1 <= input@.len()
            },
            None => {
                &&& r is Err
                &&& r->Err_0.wf(input@)
                &&& pos <= r->Err_0.pos <= input@.len()
            },
        },
    decreases input@.len() - pos, 4int,
{
    let ghost s = input@;
    let len = input.unicode_len();
    let mut acc = DelimitedMap { values: Vec::new(), comma: true };
    let mut cur = pos;
    proof {
        assert(pairs_model(acc.values@) =~= Seq::<(Seq<char>, crate::json::JsonModel)>::empty());
    }
    loop
        invariant
            pos <= cur <= len,
            len == s.len(),
            s == input@,
            pos <= input@.len(),
            (match spec_object_items(s, cur as int, pairs_model(acc.values@), acc.comma) {
                Some((ms, rest)) => spec_object_items(s, pos as int, Seq::empty(), true)
                    == Some((ms, (cur - pos + rest) as nat)),
                None => spec_object_items(s, pos as int, Seq::empty(), true) is None,
            }),
        decreases s.len() - cur,
    {
        let ghost before = cur as int;
        match parse_object_item(input, cur) {
            Err(e) => {
                if acc.comma {
                    let sep = ParseError::at(
                        cur,
                        ErrorKind::SeparatorViolation,
                        GrammarRule::Object,
                    );
                    return Err(deeper_error(e.within(GrammarRule::Object), sep));
                } else {
                    return Ok((acc.values, cur));
                }
            },
            Ok((item, p2)) => {
                proof {
                    lemma_object_item_bounds(s, before);
                }
                let ghost oldvals = acc.values@;
                let ghost oldcomma = acc.comma;
                let cont = parse_object_inner_reducer(&mut acc, item);
                if !cont {
                    return Ok((acc.values, cur));
                }
                cur = p2;
            },
        }
    }
}

} // verus!
