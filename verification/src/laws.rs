//! General properties of the grammar, stated and proved once.
//!
//! Each law is phrased over `spec_value`, the reference the executable
//! parser is proved against, so it carries over to `parse_value` through
//! that function's contract.

use vstd::prelude::*;

use crate::grammar::digits_len;
use crate::grammar::is_digit_char;
use crate::grammar::is_plain_string_char;
use crate::grammar::is_ws_char;
use crate::grammar::matches_lit;
use crate::grammar::spec_array;
use crate::grammar::spec_array_items;
use crate::grammar::spec_bare_value;
use crate::grammar::spec_number_len;
use crate::grammar::spec_object_item;
use crate::grammar::spec_object;
use crate::grammar::spec_object_items;
use crate::grammar::spec_string_len;
use crate::grammar::spec_value;
use crate::grammar::str_body_len;
use crate::grammar::str_char_len;
use crate::grammar::ws_len;
use crate::json::keys_unique;
use crate::json::lemma_upsert_keys_unique;
use crate::json::spec_upsert;
use crate::json::JsonModel;

verus! {

/// The characters that can open some value production.
pub open spec fn is_value_start_char(c: char) -> bool {
    c == 't' || c == 'f' || c == 'n' || c == '"' || c == '-' || is_digit_char(c) || c == '['
        || c == '{'
}

/// No value production matches at a character that opens none of them.
pub proof fn lemma_bare_value_none(s: Seq<char>, i: int)
    requires
        0 <= i <= s.len(),
        i < s.len() ==> !is_value_start_char(s[i]),
    ensures
        spec_bare_value(s, i) is None,
{
    reveal_strlit("true");
    reveal_strlit("false");
    reveal_strlit("null");
    assert(!matches_lit(s, i, "true"@)) by {
        if matches_lit(s, i, "true"@) {
            assert(s.subrange(i, i + 4)[0] == s[i]);
        }
    }
    assert(!matches_lit(s, i, "false"@)) by {
        if matches_lit(s, i, "false"@) {
            assert(s.subrange(i, i + 5)[0] == s[i]);
        }
    }
    assert(!matches_lit(s, i, "null"@)) by {
        if matches_lit(s, i, "null"@) {
            assert(s.subrange(i, i + 4)[0] == s[i]);
        }
    }
}

/// The whitespace run at `i` is exactly `j - i` characters when everything
/// before `j` is whitespace and `j` sits at the end or at a non-whitespace
/// character.
pub proof fn lemma_ws_run(s: Seq<char>, i: int, j: int)
    requires
        0 <= i <= j <= s.len(),
        forall|k: int| i <= k < j ==> is_ws_char(s[k]),
        j < s.len() ==> !is_ws_char(s[j]),
    ensures
        ws_len(s, i) == j - i,
    decreases j - i,
{
    if i < j {
        lemma_ws_run(s, i + 1, j);
    }
}

/// A number literal is parsed as a value to exactly its own text.
///
/// For every string that the number grammar accepts in full, parsing it as
/// a value consumes it all and yields the number whose literal text is the
/// string itself, so any conversion applied afterwards acts on the very
/// characters that were given.
pub proof fn lemma_number_literal_parse(s: Seq<char>)
    requires
        spec_number_len(s, 0) == Some(s.len() as nat),
        s.len() > 0,
    ensures
        spec_value(s, 0) == Some((JsonModel::Num(s), s.len() as nat)),
{
    let sign: nat = if 0 <= 0 < s.len() && s[0] == '-' {
        1
    } else {
        0
    };
    assert(digits_len(s, sign as int) > 0);
    if sign == 0 {
        assert(is_digit_char(s[0]));
    }
    assert(!is_ws_char(s[0]));
    assert(ws_len(s, 0) == 0);
    lemma_bare_not_literal(s, 0);
    assert(spec_string_len(s, 0) is None);
    assert(spec_value(s, 0) == Some((JsonModel::Num(s.subrange(0, s.len() as int)), s.len() as nat)));
    assert(s.subrange(0, s.len() as int) =~= s);
}

/// None of the keyword literals occurs at a position holding `-`, a digit,
/// a quote, a bracket or a brace.
proof fn lemma_bare_not_literal(s: Seq<char>, i: int)
    requires
        0 <= i < s.len(),
        s[i] == '-' || is_digit_char(s[i]) || s[i] == '"' || s[i] == '[' || s[i] == '{',
    ensures
        !matches_lit(s, i, "true"@),
        !matches_lit(s, i, "false"@),
        !matches_lit(s, i, "null"@),
{
    reveal_strlit("true");
    reveal_strlit("false");
    reveal_strlit("null");
    assert(!matches_lit(s, i, "true"@)) by {
        if matches_lit(s, i, "true"@) {
            assert(s.subrange(i, i + 4)[0] == s[i]);
        }
    }
    assert(!matches_lit(s, i, "false"@)) by {
        if matches_lit(s, i, "false"@) {
            assert(s.subrange(i, i + 5)[0] == s[i]);
        }
    }
    assert(!matches_lit(s, i, "null"@)) by {
        if matches_lit(s, i, "null"@) {
            assert(s.subrange(i, i + 4)[0] == s[i]);
        }
    }
}

/// A run of plain characters closed by a quote is consumed exactly.
proof fn lemma_plain_body(s: Seq<char>, b: int, e: int)
    requires
        0 <= b <= e < s.len(),
        forall|k: int| b <= k < e ==> is_plain_string_char(s[k]),
        s[e] == '"',
    ensures
        str_body_len(s, b) == e - b,
    decreases e - b,
{
    if b < e {
        assert(str_char_len(s, b) == Some(1nat));
        lemma_plain_body(s, b + 1, e);
    } else {
        assert(str_char_len(s, b) is None);
    }
}

/// Quoting leaves plain text unchanged.
///
/// For every string without control characters, quotes or backslashes,
/// parsing its quoted form as a value consumes it all and yields exactly
/// the original contents: no decoding touches a text that holds no escape.
pub proof fn lemma_plain_string_parse(content: Seq<char>)
    requires
        forall|k: int| 0 <= k < content.len() ==> is_plain_string_char(content[k]),
    ensures
        spec_value(seq!['"'] + content + seq!['"'], 0) == Some(
            (JsonModel::Str(content), (content.len() + 2) as nat),
        ),
{
    let s = seq!['"'] + content + seq!['"'];
    assert(s.len() == content.len() + 2);
    assert(s[0] == '"');
    assert(s[s.len() - 1] == '"');
    assert forall|k: int| 0 <= k < content.len() implies s[1 + k] == content[k] by {}
    assert(!is_ws_char(s[0]));
    assert(ws_len(s, 0) == 0);
    lemma_bare_not_literal(s, 0);
    assert forall|k: int| 1 <= k < s.len() - 1 implies is_plain_string_char(s[k]) by {
        assert(s[k] == content[k - 1]);
    }
    lemma_plain_body(s, 1, s.len() - 1);
    assert(spec_string_len(s, 0) == Some(s.len() as nat));
    let n = s.len() as nat;
    assert(s.subrange(1, s.len() - 1) =~= content);
    assert(spec_bare_value(s, 0) == Some((JsonModel::Str(content), n)));
    assert(ws_len(s, s.len() as int) == 0);
}

/// A bracket pair around whitespace is an empty sequence.
///
/// Parsing `[`, any run of whitespace, `]` as a value consumes it all and
/// yields the array with no elements.
pub proof fn lemma_empty_array_parse(ws: Seq<char>)
    requires
        forall|k: int| 0 <= k < ws.len() ==> is_ws_char(ws[k]),
    ensures
        spec_value(seq!['['] + ws + seq![']'], 0) == Some(
            (JsonModel::Array(Seq::empty()), (ws.len() + 2) as nat),
        ),
{
    let s = seq!['['] + ws + seq![']'];
    assert(s.len() == ws.len() + 2);
    assert(s[0] == '[');
    assert(s[s.len() - 1] == ']');
    assert forall|k: int| 1 <= k < s.len() - 1 implies is_ws_char(s[k]) by {
        assert(s[k] == ws[k - 1]);
    }
    assert(!is_ws_char(s[0]));
    assert(ws_len(s, 0) == 0);
    lemma_bare_not_literal(s, 0);
    assert(spec_string_len(s, 0) is None);
    assert(digits_len(s, 0) == 0);
    assert(spec_number_len(s, 0) is None);
    // the element repetition finds no value after the whitespace
    lemma_ws_run(s, 1, s.len() - 1);
    assert(ws_len(s, 1) == s.len() - 2);
    lemma_bare_value_none(s, s.len() - 1);
    assert(spec_value(s, 1) is None) by {
        assert(ws_len(s, 1) == s.len() - 2);
        assert(spec_bare_value(s, s.len() - 1) is None);
    }
    assert(spec_array_items(s, 1, Seq::empty(), true) is None);
    assert(spec_array(s, 0) == Some((Seq::<JsonModel>::empty(), (ws.len() + 2) as nat)));
    assert(ws_len(s, s.len() as int) == 0);
}

/// A brace pair around whitespace is an empty mapping.
///
/// Parsing `{`, any run of whitespace, `}` as a value consumes it all and
/// yields the object with no members.
pub proof fn lemma_empty_object_parse(ws: Seq<char>)
    requires
        forall|k: int| 0 <= k < ws.len() ==> is_ws_char(ws[k]),
    ensures
        spec_value(seq!['{'] + ws + seq!['}'], 0) == Some(
            (JsonModel::Object(Seq::empty()), (ws.len() + 2) as nat),
        ),
{
    let s = seq!['{'] + ws + seq!['}'];
    assert(s.len() == ws.len() + 2);
    assert(s[0] == '{');
    assert(s[s.len() - 1] == '}');
    assert forall|k: int| 1 <= k < s.len() - 1 implies is_ws_char(s[k]) by {
        assert(s[k] == ws[k - 1]);
    }
    assert(!is_ws_char(s[0]));
    assert(ws_len(s, 0) == 0);
    lemma_bare_not_literal(s, 0);
    assert(spec_string_len(s, 0) is None);
    assert(digits_len(s, 0) == 0);
    assert(spec_number_len(s, 0) is None);
    assert(spec_array(s, 0) is None);
    // the member repetition finds no key after the whitespace
    lemma_ws_run(s, 1, s.len() - 1);
    assert(ws_len(s, 1) == s.len() - 2);
    assert(spec_string_len(s, s.len() - 1) is None);
    assert(spec_object_items(s, 1, Seq::empty(), true) is None);
    assert(spec_object(s, 0) == Some(
        (Seq::<(Seq<char>, JsonModel)>::empty(), (ws.len() + 2) as nat),
    ));
    assert(ws_len(s, s.len() as int) == 0);
}

/// The member repetition keeps keys unique while it folds.
proof fn lemma_object_items_keys_unique(
    s: Seq<char>,
    i: int,
    acc: Seq<(Seq<char>, JsonModel)>,
    comma: bool,
)
    requires
        0 <= i <= s.len(),
        keys_unique(acc),
        spec_object_items(s, i, acc, comma) is Some,
    ensures
        keys_unique(spec_object_items(s, i, acc, comma)->Some_0.0),
    decreases s.len() - i, 4int,
{
    match spec_object_item(s, i) {
        None => {},
        Some(((key, m), has_comma, step)) => {
            if comma {
                lemma_upsert_keys_unique(acc, key, m);
                lemma_object_items_keys_unique(
                    s,
                    i + step,
                    spec_upsert(acc, key, m),
                    has_comma,
                );
            }
        },
    }
}

/// A mapping never holds a key twice.
///
/// Every object the grammar accepts has pairwise distinct member keys: a
/// duplicate in the text only overwrites the value stored under the key.
pub proof fn lemma_object_keys_unique(s: Seq<char>, i: int)
    requires
        0 <= i <= s.len(),
        spec_object(s, i) is Some,
    ensures
        keys_unique(spec_object(s, i)->Some_0.0),
{
    match spec_object_items(s, i + 1, Seq::empty(), true) {
        Some((ps, n)) => {
            lemma_object_items_keys_unique(s, i + 1, Seq::empty(), true);
        },
        None => {},
    }
}

} // verus!
