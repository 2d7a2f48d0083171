//! Positioned parse errors and their rendering.
//!
//! An error carries the offset at which the failure was detected, a kind
//! from the error taxonomy, and the chain of grammar productions that were
//! being attempted, innermost first.  When several alternatives fail, the
//! failure that reached deepest into the input is kept; on equal depth the
//! later finding wins, so a dangling separator is reported as such rather
//! than as the element mismatch that revealed it.

use vstd::prelude::*;

use vstd::string::StrSliceExecFns;
use vstd::string::StringExecFns;

verus! {

/// How a parse failed.
#[derive(Debug, Clone, Copy, PartialEq, Eq)]
pub enum ErrorKind {
    /// The input at the position matches no attempted production.
    Mismatch,
    /// A separator comma was dangling: the delimited list ended while the
    /// comma flag still promised another element.
    SeparatorViolation,
}

/// A grammar production, named for the derivation trace.
#[derive(Debug, Clone, Copy, PartialEq, Eq)]
pub enum GrammarRule {
    Value,
    Number,
    Text,
    Array,
    Object,
    Member,
}

/// A positioned parse failure with its derivation trace.
#[derive(Debug, Clone, PartialEq, Eq)]
pub struct ParseError {
    /// Offset into the input at which the failure was detected.
    pub pos: usize,
    pub kind: ErrorKind,
    /// The productions being attempted, innermost first.
    pub rules: Vec<GrammarRule>,
}

impl ParseError {
    /// The position lies inside the input and at least one production is
    /// named.
    pub open spec fn wf(self, s: Seq<char>) -> bool {
        self.pos <= s.len() && self.rules@.len() >= 1
    }

    /// A fresh error at `pos` inside the production `rule`.
    pub fn at(pos: usize, kind: ErrorKind, rule: GrammarRule) -> (r: ParseError)
        ensures
            r.pos == pos,
            r.kind == kind,
            r.rules@ == seq![rule],
    {
        let mut rules: Vec<GrammarRule> = Vec::new();
        rules.push(rule);
        proof {
            assert(rules@ =~= seq![rule]);
        }
        ParseError { pos, kind, rules }
    }

    /// Extends the derivation trace with the enclosing production.
    pub fn within(self, rule: GrammarRule) -> (r: ParseError)
        ensures
            r.pos == self.pos,
            r.kind == self.kind,
            r.rules@ == self.rules@.push(rule),
    {
        let ParseError { pos, kind, mut rules } = self;
        rules.push(rule);
        ParseError { pos, kind, rules }
    }
}

/// Of two failures, keeps the one that reached deeper into the input; the
/// newer finding wins a tie.
pub fn deeper_error(best: ParseError, new: ParseError) -> (r: ParseError)
    ensures
        r == if new.pos >= best.pos {
            new
        } else {
            best
        },
{
    if new.pos >= best.pos {
        new
    } else {
        best
    }
}

/// The decimal digits of `n`, most significant first.
pub open spec fn dec_seq(n: nat) -> Seq<char>
    decreases n,
{
    if n < 10 {
        seq![digit_char(n)]
    } else {
        dec_seq(n / 10).push(digit_char(n % 10))
    }
}

/// The character for a single decimal digit.
pub open spec fn digit_char(d: nat) -> char {
    if d == 0 {
        '0'
    } else if d == 1 {
        '1'
    } else if d == 2 {
        '2'
    } else if d == 3 {
        '3'
    } else if d == 4 {
        '4'
    } else if d == 5 {
        '5'
    } else if d == 6 {
        '6'
    } else if d == 7 {
        '7'
    } else if d == 8 {
        '8'
    } else {
        '9'
    }
}

/// The text of a single decimal digit.
fn digit_str(d: usize) -> (r: &'static str)
    requires
        d < 10,
    ensures
        r@ == seq![digit_char(d as nat)],
{
    proof {
        reveal_strlit("0");
        reveal_strlit("1");
        reveal_strlit("2");
        reveal_strlit("3");
        reveal_strlit("4");
        reveal_strlit("5");
        reveal_strlit("6");
        reveal_strlit("7");
        reveal_strlit("8");
        reveal_strlit("9");
    }
    let r = if d == 0 {
        "0"
    } else if d == 1 {
        "1"
    } else if d == 2 {
        "2"
    } else if d == 3 {
        "3"
    } else if d == 4 {
        "4"
    } else if d == 5 {
        "5"
    } else if d == 6 {
        "6"
    } else if d == 7 {
        "7"
    } else if d == 8 {
        "8"
    } else {
        "9"
    };
    proof {
        assert(r@ =~= seq![digit_char(d as nat)]);
    }
    r
}

/// Renders `n` in decimal.
pub fn decimal_string(n: usize) -> (r: String)
    ensures
        r@ == dec_seq(n as nat),
    decreases n,
{
    if n < 10 {
        let mut out = String::new();
        out.append(digit_str(n));
        proof {
            assert(out@ =~= dec_seq(n as nat));
        }
        out
    } else {
        let mut out = decimal_string(n / 10);
        out.append(digit_str(n % 10));
        proof {
            assert(out@ =~= dec_seq(n as nat));
        }
        out
    }
}

/// The name of a production.
pub open spec fn spec_rule_name(r: GrammarRule) -> Seq<char> {
    match r {
        GrammarRule::Value => "value"@,
        GrammarRule::Number => "number"@,
        GrammarRule::Text => "string"@,
        GrammarRule::Array => "array"@,
        GrammarRule::Object => "object"@,
        GrammarRule::Member => "member"@,
    }
}

fn rule_name(r: GrammarRule) -> (s: &'static str)
    ensures
        s@ == spec_rule_name(r),
{
    match r {
        GrammarRule::Value => "value",
        GrammarRule::Number => "number",
        GrammarRule::Text => "string",
        GrammarRule::Array => "array",
        GrammarRule::Object => "object",
        GrammarRule::Member => "member",
    }
}

/// The description of a kind.
pub open spec fn spec_kind_text(k: ErrorKind) -> Seq<char> {
    match k {
        ErrorKind::Mismatch => "no grammar alternative matched"@,
        ErrorKind::SeparatorViolation => "separator comma misplaced"@,
    }
}

fn kind_text(k: ErrorKind) -> (s: &'static str)
    ensures
        s@ == spec_kind_text(k),
{
    match k {
        ErrorKind::Mismatch => "no grammar alternative matched",
        ErrorKind::SeparatorViolation => "separator comma misplaced",
    }
}

/// The join of the first `k` rule names, innermost first, with ` < `.
pub open spec fn spec_trace_prefix(rules: Seq<GrammarRule>, k: int) -> Seq<char>
    decreases k,
{
    if k <= 0 {
        Seq::empty()
    } else if k == 1 {
        spec_rule_name(rules[0])
    } else {
        spec_trace_prefix(rules, k - 1) + " < "@ + spec_rule_name(rules[k - 1])
    }
}

/// The derivation trace, innermost first, joined with ` < `.
pub open spec fn spec_trace(rules: Seq<GrammarRule>) -> Seq<char> {
    spec_trace_prefix(rules, rules.len() as int)
}

/// The rendered diagnostic: the position, the kind, the input context
/// around the failure, and the derivation trace.
pub open spec fn spec_render(e: ParseError, s: Seq<char>) -> Seq<char> {
    let lo = if e.pos >= 10 {
        e.pos - 10
    } else {
        0
    };
    let hi = if s.len() - e.pos < 10 {
        s.len() as int
    } else {
        e.pos + 10
    };
    "parse error at position "@ + dec_seq(e.pos as nat) + ": "@ + spec_kind_text(e.kind)
        + "\nnear: "@ + s.subrange(lo as int, hi) + "\nrules: "@ + spec_trace(e.rules@)
}

impl ParseError {
    /// Renders the diagnostic against the original input.
    pub fn render(&self, input: &str) -> (r: String)
        requires
            self.pos <= input@.len(),
        ensures
            r@ == spec_render(*self, input@),
    {
        let len = input.unicode_len();
        let lo = if self.pos >= 10 {
            self.pos - 10
        } else {
            0
        };
        let hi = if len - self.pos < 10 {
            len
        } else {
            self.pos + 10
        };
        let mut out = String::new();
        out.append("parse error at position ");
        let num = decimal_string(self.pos);
        out.append(num.as_str());
        out.append(": ");
        out.append(kind_text(self.kind));
        out.append("\nnear: ");
        out.append(input.substring_char(lo, hi));
        out.append("\nrules: ");
        let mut k: usize = 0;
        let n = self.rules.len();
        while k < n
            invariant
                n == self.rules@.len(),
                k <= n,
                out@ == spec_render_prefix(*self, input@, k as int),
            decreases n - k,
        {
            if k > 0 {
                out.append(" < ");
            }
            out.append(rule_name(self.rules[k]));
            k = k + 1;
            proof {
                assert(out@ =~= spec_render_prefix(*self, input@, k as int));
            }
        }
        out
    }
}

/// The rendering after the first `k` rules have been appended.
pub open spec fn spec_render_prefix(e: ParseError, s: Seq<char>, k: int) -> Seq<char> {
    let lo = if e.pos >= 10 {
        e.pos - 10
    } else {
        0
    };
    let hi = if s.len() - e.pos < 10 {
        s.len() as int
    } else {
        e.pos + 10
    };
    "parse error at position "@ + dec_seq(e.pos as nat) + ": "@ + spec_kind_text(e.kind)
        + "\nnear: "@ + s.subrange(lo as int, hi) + "\nrules: "@
        + spec_trace_prefix(e.rules@, k)
}

} // verus!
