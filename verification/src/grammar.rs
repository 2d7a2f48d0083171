//! The JSON grammar, stated once as spec functions over `Seq<char>`.
//!
//! Each recogniser either returns the number of characters the production
//! consumes from position `i`, or `None` where the production does not match.
//! `spec_value` is the reference the executable parser is proved against:
//! it trims whitespace, tries the alternatives in the fixed order
//! `true`, `false`, `null`, string, number, array, object, and commits to
//! the first whose opening matches, exactly as the executable code does.

use vstd::prelude::*;

use crate::json::JsonModel;
use crate::json::spec_upsert;

verus! {

/// Characters the whitespace skipper consumes.
pub open spec fn is_ws_char(c: char) -> bool {
    c == ' ' || c == '\n' || c == '\r' || c == '\t'
}

pub open spec fn is_digit_char(c: char) -> bool {
    '0' <= c && c <= '9'
}

pub open spec fn is_hex_char(c: char) -> bool {
    is_digit_char(c) || ('a' <= c && c <= 'f') || ('A' <= c && c <= 'F')
}

/// Control characters: U+0000..=U+001F and U+007F..=U+009F.
pub open spec fn is_control_char(c: char) -> bool {
    (c as u32) < 0x20 || (0x7f <= (c as u32) && (c as u32) <= 0x9f)
}

/// A character that may stand unescaped inside a string literal.
pub open spec fn is_plain_string_char(c: char) -> bool {
    !is_control_char(c) && c != '"' && c != '\\'
}

/// The second character of a fixed two-character escape.
pub open spec fn is_simple_escape_char(c: char) -> bool {
    c == '"' || c == '\\' || c == '/' || c == 'b' || c == 'f' || c == 'n' || c == 'r'
        || c == 't'
}

/// Length of the whitespace run starting at `i`.
pub open spec fn ws_len(s: Seq<char>, i: int) -> nat
    decreases s.len() - i,
{
    if 0 <= i < s.len() && is_ws_char(s[i]) {
        1 + ws_len(s, i + 1)
    } else {
        0
    }
}

/// Length of the digit run starting at `i`.
pub open spec fn digits_len(s: Seq<char>, i: int) -> nat
    decreases s.len() - i,
{
    if 0 <= i < s.len() && is_digit_char(s[i]) {
        1 + digits_len(s, i + 1)
    } else {
        0
    }
}

/// The literal `lit` occurs at position `i`.
pub open spec fn matches_lit(s: Seq<char>, i: int, lit: Seq<char>) -> bool {
    0 <= i && i + lit.len() <= s.len() && s.subrange(i, i + lit.len() as int) == lit
}

/// Length of the fraction part at `i`: a `.` followed by one or more digits,
/// or nothing (a lone `.` is left unconsumed, as backtracking leaves it).
pub open spec fn frac_len(s: Seq<char>, i: int) -> nat {
    if 0 <= i < s.len() && s[i] == '.' && digits_len(s, i + 1) > 0 {
        1 + digits_len(s, i + 1)
    } else {
        0
    }
}

/// Length of the exponent part at `i`: a marker, a mandatory sign and one or
/// more digits, or nothing.
pub open spec fn exp_len(s: Seq<char>, i: int) -> nat {
    if 0 <= i && i + 1 < s.len() && (s[i] == 'E' || s[i] == 'e')
        && (s[i + 1] == '+' || s[i + 1] == '-') && digits_len(s, i + 2) > 0 {
        2 + digits_len(s, i + 2)
    } else {
        0
    }
}

/// The number production at `i`: optional `-`, one or more digits, optional
/// fraction, optional exponent.
pub open spec fn spec_number_len(s: Seq<char>, i: int) -> Option<nat> {
    let sign: nat = if 0 <= i < s.len() && s[i] == '-' {
        1
    } else {
        0
    };
    let d = digits_len(s, i + sign);
    if d == 0 {
        None
    } else {
        let f = frac_len(s, i + sign + d);
        let e = exp_len(s, i + sign + d + f);
        Some((sign + d + f + e) as nat)
    }
}

/// One valid string character at `i`: an unescaped plain character, a
/// two-character escape, or `\u` with exactly four hexadecimal digits.
pub open spec fn str_char_len(s: Seq<char>, i: int) -> Option<nat> {
    if 0 <= i < s.len() {
        if is_plain_string_char(s[i]) {
            Some(1nat)
        } else if s[i] == '\\' && i + 1 < s.len() {
            if is_simple_escape_char(s[i + 1]) {
                Some(2nat)
            } else if s[i + 1] == 'u' && i + 6 <= s.len() && is_hex_char(s[i + 2])
                && is_hex_char(s[i + 3]) && is_hex_char(s[i + 4]) && is_hex_char(s[i + 5]) {
                Some(6nat)
            } else {
                None
            }
        } else {
            None
        }
    } else {
        None
    }
}

/// Length of the longest run of valid string characters starting at `i`.
pub open spec fn str_body_len(s: Seq<char>, i: int) -> nat
    decreases s.len() - i,
{
    match str_char_len(s, i) {
        Some(n) => if 1 <= n && i + n <= s.len() {
            (n + str_body_len(s, i + n)) as nat
        } else {
            0
        },
        None => 0,
    }
}

/// The string production at `i`: a quote, the character run, a quote.
pub open spec fn spec_string_len(s: Seq<char>, i: int) -> Option<nat> {
    if 0 <= i < s.len() && s[i] == '"' {
        let b = str_body_len(s, i + 1);
        if i + 1 + b < s.len() && s[i + 1 + b] == '"' {
            Some((b + 2) as nat)
        } else {
            None
        }
    } else {
        None
    }
}

/// The value production: leading whitespace, one alternative, trailing
/// whitespace.  Returns the model and the total number of characters
/// consumed from `i`.
pub open spec fn spec_value(s: Seq<char>, i: int) -> Option<(JsonModel, nat)>
    decreases s.len() - i, 3int,
{
    let w = ws_len(s, i);
    if i + w <= s.len() {
        match spec_bare_value(s, i + w) {
            Some((m, n)) => {
                let w2 = ws_len(s, i + w + n);
                Some((m, (w + n + w2) as nat))
            },
            None => None,
        }
    } else {
        None
    }
}

/// The ordered alternation at `i`, with no surrounding whitespace.
pub open spec fn spec_bare_value(s: Seq<char>, i: int) -> Option<(JsonModel, nat)>
    decreases s.len() - i, 2int,
{
    if matches_lit(s, i, "true"@) {
        Some((JsonModel::Boolean(true), "true"@.len() as nat))
    } else if matches_lit(s, i, "false"@) {
        Some((JsonModel::Boolean(false), "false"@.len() as nat))
    } else if matches_lit(s, i, "null"@) {
        Some((JsonModel::Null, "null"@.len() as nat))
    } else if spec_string_len(s, i) is Some {
        let n = spec_string_len(s, i)->Some_0;
        Some((JsonModel::Str(s.subrange(i + 1, i + n - 1)), n))
    } else if spec_number_len(s, i) is Some {
        let n = spec_number_len(s, i)->Some_0;
        Some((JsonModel::Num(s.subrange(i, i + n)), n))
    } else if spec_array(s, i) is Some {
        let (vs, n) = spec_array(s, i)->Some_0;
        Some((JsonModel::Array(vs), n))
    } else if spec_object(s, i) is Some {
        let (ps, n) = spec_object(s, i)->Some_0;
        Some((JsonModel::Object(ps), n))
    } else {
        None
    }
}

/// The array production at `i`: `[`, either a delimited list or only
/// whitespace, `]`.
pub open spec fn spec_array(s: Seq<char>, i: int) -> Option<(Seq<JsonModel>, nat)>
    decreases s.len() - i, 1int,
{
    if 0 <= i < s.len() && s[i] == '[' {
        match spec_array_items(s, i + 1, Seq::empty(), true) {
            Some((vs, n)) => {
                if i + 1 + n < s.len() && s[i + 1 + n] == ']' {
                    Some((vs, (n + 2) as nat))
                } else {
                    None
                }
            },
            None => {
                let w = ws_len(s, i + 1);
                if i + 1 + w < s.len() && s[i + 1 + w] == ']' {
                    Some((Seq::empty(), (w + 2) as nat))
                } else {
                    None
                }
            },
        }
    } else {
        None
    }
}

/// The delimited list of array elements: repeatedly an element and an
/// optional comma, folded through the comma flag.  `None` stands for the
/// rejection of a dangling separator: the repetition ended while the flag
/// still promised another element.
pub open spec fn spec_array_items(
    s: Seq<char>,
    i: int,
    acc: Seq<JsonModel>,
    comma: bool,
) -> Option<(Seq<JsonModel>, nat)>
    decreases s.len() - i, 4int,
{
    match spec_value(s, i) {
        None => if comma {
            None
        } else {
            Some((acc, 0))
        },
        Some((m, n)) => {
            if !comma {
                Some((acc, 0))
            } else {
                let has_comma = i + n < s.len() && s[i + n] == ',';
                let step: nat = if has_comma {
                    (n + 1) as nat
                } else {
                    n
                };
                if 1 <= step && i + step <= s.len() {
                    match spec_array_items(s, i + step, acc.push(m), has_comma) {
                        Some((vs, rest)) => Some((vs, (step + rest) as nat)),
                        None => None,
                    }
                } else {
                    // never reached: a value consumes at least one character
                    // and ends inside the text
                    None
                }
            }
        },
    }
}

/// The object production at `i`: `{`, either a delimited list of members or
/// only whitespace, `}`.
pub open spec fn spec_object(s: Seq<char>, i: int) -> Option<(Seq<(Seq<char>, JsonModel)>, nat)>
    decreases s.len() - i, 1int,
{
    if 0 <= i < s.len() && s[i] == '{' {
        match spec_object_items(s, i + 1, Seq::empty(), true) {
            Some((ps, n)) => {
                if i + 1 + n < s.len() && s[i + 1 + n] == '}' {
                    Some((ps, (n + 2) as nat))
                } else {
                    None
                }
            },
            None => {
                let w = ws_len(s, i + 1);
                if i + 1 + w < s.len() && s[i + 1 + w] == '}' {
                    Some((Seq::empty(), (w + 2) as nat))
                } else {
                    None
                }
            },
        }
    } else {
        None
    }
}

/// One object member at `i`: whitespace, a key, whitespace, `:`, a value,
/// an optional comma.  Returns the pair, whether the comma was present, and
/// the length consumed.
pub open spec fn spec_object_item(s: Seq<char>, i: int) -> Option<((Seq<char>, JsonModel), bool, nat)>
    decreases s.len() - i, 2int,
{
    let w = ws_len(s, i);
    match spec_string_len(s, i + w) {
        None => None,
        Some(k) => {
            let key = s.subrange(i + w + 1, i + w + k - 1);
            let w2 = ws_len(s, i + w + k);
            let j = i + w + k + w2;
            if j < s.len() && s[j] == ':' {
                match spec_value(s, j + 1) {
                    None => None,
                    Some((m, n)) => {
                        let has_comma = j + 1 + n < s.len() && s[j + 1 + n] == ',';
                        let step: nat = if has_comma {
                            (w + k + w2 + 1 + n + 1) as nat
                        } else {
                            (w + k + w2 + 1 + n) as nat
                        };
                        Some(((key, m), has_comma, step))
                    },
                }
            } else {
                None
            }
        },
    }
}

/// The delimited list of object members, folded through the comma flag, with
/// a duplicate key overwriting in place.
pub open spec fn spec_object_items(
    s: Seq<char>,
    i: int,
    acc: Seq<(Seq<char>, JsonModel)>,
    comma: bool,
) -> Option<(Seq<(Seq<char>, JsonModel)>, nat)>
    decreases s.len() - i, 4int,
{
    match spec_object_item(s, i) {
        None => if comma {
            None
        } else {
            Some((acc, 0))
        },
        Some(((key, m), has_comma, step)) => {
            if !comma {
                Some((acc, 0))
            } else {
                if 1 <= step && i + step <= s.len() {
                    match spec_object_items(s, i + step, spec_upsert(acc, key, m), has_comma) {
                        Some((ps, rest)) => Some((ps, (step + rest) as nat)),
                        None => None,
                    }
                } else {
                    // never reached: a member consumes at least one character
                    // and ends inside the text
                    None
                }
            }
        },
    }
}

/// The whitespace run ends inside the text.
pub proof fn lemma_ws_len(s: Seq<char>, i: int)
    requires
        0 <= i <= s.len(),
    ensures
        i + ws_len(s, i) <= s.len(),
    decreases s.len() - i,
{
    if i < s.len() && is_ws_char(s[i]) {
        lemma_ws_len(s, i + 1);
    }
}

/// The digit run ends inside the text.
pub proof fn lemma_digits_len(s: Seq<char>, i: int)
    requires
        0 <= i <= s.len(),
    ensures
        i + digits_len(s, i) <= s.len(),
    decreases s.len() - i,
{
    if i < s.len() && is_digit_char(s[i]) {
        lemma_digits_len(s, i + 1);
    }
}

/// The run of string characters ends inside the text.
pub proof fn lemma_str_body_len(s: Seq<char>, i: int)
    requires
        0 <= i <= s.len(),
    ensures
        i + str_body_len(s, i) <= s.len(),
    decreases s.len() - i,
{
    match str_char_len(s, i) {
        Some(n) => {
            lemma_str_body_len(s, i + n);
        },
        None => {},
    }
}

/// A matched number consumes at least one character and ends inside the text.
pub proof fn lemma_number_len_bounds(s: Seq<char>, i: int)
    requires
        0 <= i <= s.len(),
        spec_number_len(s, i) is Some,
    ensures
        1 <= spec_number_len(s, i)->Some_0,
        i + spec_number_len(s, i)->Some_0 <= s.len(),
{
    let sign: nat = if 0 <= i < s.len() && s[i] == '-' {
        1
    } else {
        0
    };
    lemma_digits_len(s, i + sign);
    let d = digits_len(s, i + sign);
    let f = frac_len(s, i + sign + d);
    if f > 0 {
        lemma_digits_len(s, i + sign + d + 1);
    }
    let e = exp_len(s, i + sign + d + f);
    if e > 0 {
        lemma_digits_len(s, i + sign + d + f + 2);
    }
}

/// A matched string consumes at least two characters and ends inside the text.
pub proof fn lemma_string_len_bounds(s: Seq<char>, i: int)
    requires
        0 <= i <= s.len(),
        spec_string_len(s, i) is Some,
    ensures
        2 <= spec_string_len(s, i)->Some_0,
        i + spec_string_len(s, i)->Some_0 <= s.len(),
{
    lemma_str_body_len(s, i + 1);
}

/// A matched value consumes at least one character and ends inside the text.
pub proof fn lemma_value_bounds(s: Seq<char>, i: int)
    requires
        0 <= i <= s.len(),
        spec_value(s, i) is Some,
    ensures
        1 <= spec_value(s, i)->Some_0.1,
        i + spec_value(s, i)->Some_0.1 <= s.len(),
    decreases s.len() - i, 3int,
{
    let w = ws_len(s, i);
    lemma_ws_len(s, i);
    lemma_bare_value_bounds(s, i + w);
    let n = spec_bare_value(s, i + w)->Some_0.1;
    lemma_ws_len(s, i + w + n);
}

/// A matched bare value consumes at least one character and ends inside the
/// text.
pub proof fn lemma_bare_value_bounds(s: Seq<char>, i: int)
    requires
        0 <= i <= s.len(),
        spec_bare_value(s, i) is Some,
    ensures
        1 <= spec_bare_value(s, i)->Some_0.1,
        i + spec_bare_value(s, i)->Some_0.1 <= s.len(),
    decreases s.len() - i, 2int,
{
    if matches_lit(s, i, "true"@) || matches_lit(s, i, "false"@) || matches_lit(s, i, "null"@) {
        reveal_strlit("true");
        reveal_strlit("false");
        reveal_strlit("null");
    } else if spec_string_len(s, i) is Some {
        lemma_string_len_bounds(s, i);
    } else if spec_number_len(s, i) is Some {
        lemma_number_len_bounds(s, i);
    } else if spec_array(s, i) is Some {
        lemma_array_bounds(s, i);
    } else if spec_object(s, i) is Some {
        lemma_object_bounds(s, i);
    }
}

/// A matched array consumes at least two characters and ends inside the text.
pub proof fn lemma_array_bounds(s: Seq<char>, i: int)
    requires
        0 <= i <= s.len(),
        spec_array(s, i) is Some,
    ensures
        2 <= spec_array(s, i)->Some_0.1,
        i + spec_array(s, i)->Some_0.1 <= s.len(),
    decreases s.len() - i, 1int,
{
    match spec_array_items(s, i + 1, Seq::empty(), true) {
        Some((vs, n)) => {
            lemma_array_items_bounds(s, i + 1, Seq::empty(), true);
        },
        None => {
            lemma_ws_len(s, i + 1);
        },
    }
}

/// A matched list of array elements ends inside the text.
pub proof fn lemma_array_items_bounds(s: Seq<char>, i: int, acc: Seq<JsonModel>, comma: bool)
    requires
        0 <= i <= s.len(),
        spec_array_items(s, i, acc, comma) is Some,
    ensures
        i + spec_array_items(s, i, acc, comma)->Some_0.1 <= s.len(),
    decreases s.len() - i, 4int,
{
    match spec_value(s, i) {
        None => {},
        Some((m, n)) => {
            if comma {
                lemma_value_bounds(s, i);
                let has_comma = i + n < s.len() && s[i + n] == ',';
                let step: nat = if has_comma {
                    (n + 1) as nat
                } else {
                    n
                };
                lemma_array_items_bounds(s, i + step, acc.push(m), has_comma);
            }
        },
    }
}

/// A matched object consumes at least two characters and ends inside the
/// text.
pub proof fn lemma_object_bounds(s: Seq<char>, i: int)
    requires
        0 <= i <= s.len(),
        spec_object(s, i) is Some,
    ensures
        2 <= spec_object(s, i)->Some_0.1,
        i + spec_object(s, i)->Some_0.1 <= s.len(),
    decreases s.len() - i, 1int,
{
    match spec_object_items(s, i + 1, Seq::empty(), true) {
        Some((ps, n)) => {
            lemma_object_items_bounds(s, i + 1, Seq::empty(), true);
        },
        None => {
            lemma_ws_len(s, i + 1);
        },
    }
}

/// A matched object member consumes at least one character and ends inside
/// the text.
pub proof fn lemma_object_item_bounds(s: Seq<char>, i: int)
    requires
        0 <= i <= s.len(),
        spec_object_item(s, i) is Some,
    ensures
        1 <= spec_object_item(s, i)->Some_0.2,
        i + spec_object_item(s, i)->Some_0.2 <= s.len(),
    decreases s.len() - i, 2int,
{
    let w = ws_len(s, i);
    lemma_ws_len(s, i);
    lemma_string_len_bounds(s, i + w);
    let k = spec_string_len(s, i + w)->Some_0;
    lemma_ws_len(s, i + w + k);
    let w2 = ws_len(s, i + w + k);
    let j = i + w + k + w2;
    lemma_value_bounds(s, j + 1);
}

/// A matched list of object members ends inside the text.
pub proof fn lemma_object_items_bounds(
    s: Seq<char>,
    i: int,
    acc: Seq<(Seq<char>, JsonModel)>,
    comma: bool,
)
    requires
        0 <= i <= s.len(),
        spec_object_items(s, i, acc, comma) is Some,
    ensures
        i + spec_object_items(s, i, acc, comma)->Some_0.1 <= s.len(),
    decreases s.len() - i, 4int,
{
    match spec_object_item(s, i) {
        None => {},
        Some(((key, m), has_comma, step)) => {
            if comma {
                lemma_object_item_bounds(s, i);
                lemma_object_items_bounds(s, i + step, spec_upsert(acc, key, m), has_comma);
            }
        },
    }
}

} // verus!
