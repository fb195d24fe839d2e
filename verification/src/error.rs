//! What a parse can fail with.

use vstd::prelude::*;
use crate::span::{Rule, rule_name};

verus! {

/// The ways in which parsing fails, and the failure of the caller's own
/// reading of the input, so that one type can carry both.
#[derive(Debug, PartialEq, Eq)]
pub enum ParseError {
    /// The input does not conform to the grammar: matching stopped at
    /// character `position`, where one of `expecting` had to begin.
    Syntax { position: usize, expecting: Vec<Rule> },
    /// No production has this name.
    UnknownRule { name: String },
    /// A closing tag that names another element than the one it closes.
    /// The parser does not compare the two names and never returns this.
    MismatchedTag { expected: String, found: String },
    /// The input could not be read; the parser itself reads nothing.
    IOError(String),
}

/// The character of a decimal digit.
pub open spec fn digit(d: nat) -> char {
    if d == 0 {
        '0'
    } else if d == 1 {
        '1'
    } else if d == 2 {
        '2'
    } else if d == 3 {
        '3'
    } else if d == 4 {
        '4'
    } else if d == 5 {
        '5'
    } else if d == 6 {
        '6'
    } else if d == 7 {
        '7'
    } else if d == 8 {
        '8'
    } else {
        '9'
    }
}

/// The decimal digits of `n`, without leading zeros.
pub open spec fn decimal(n: nat) -> Seq<char>
    decreases n,
{
    if n < 10 {
        seq![digit(n)]
    } else {
        decimal(n / 10).push(digit(n % 10))
    }
}

/// The names of the first `n` of `rules`, with ` or ` between them.
pub open spec fn names_of(rules: Seq<Rule>, n: nat) -> Seq<char>
    decreases n,
{
    if 0 < n <= rules.len() {
        let before = if n > 1 {
            names_of(rules, (n - 1) as nat) + " or "@
        } else {
            Seq::empty()
        };
        before + rule_name(rules[n - 1])
    } else {
        Seq::empty()
    }
}

fn digit_char(d: usize) -> (c: char)
    requires
        d < 10,
    ensures
        c == digit(d as nat),
{
    if d == 0 {
        '0'
    } else if d == 1 {
        '1'
    } else if d == 2 {
        '2'
    } else if d == 3 {
        '3'
    } else if d == 4 {
        '4'
    } else if d == 5 {
        '5'
    } else if d == 6 {
        '6'
    } else if d == 7 {
        '7'
    } else if d == 8 {
        '8'
    } else {
        '9'
    }
}

/// Appends the decimal digits of `n` to `out`.
pub fn push_decimal(n: usize, out: &mut String)
    ensures
        final(out)@ == old(out)@ + decimal(n as nat),
    decreases n,
{
    if n >= 10 {
        push_decimal(n / 10, out);
    }
    out.push(digit_char(n % 10));
    assert(final(out)@ =~= old(out)@ + decimal(n as nat));
}

impl ParseError {
    /// The message of the failure, for a reader.
    pub open spec fn message_text(self) -> Seq<char> {
        match self {
            ParseError::Syntax { position, expecting } => "Parsing error: at position "@ + decimal(
                position as nat,
            ) + ", expected "@ + names_of(expecting@, expecting@.len()),
            ParseError::UnknownRule { name } => "Unknown rule: "@ + name@,
            ParseError::MismatchedTag { expected, found } => "Mismatched tag: expected "@
                + expected@ + ", found "@ + found@,
            ParseError::IOError(text) => "IO error: "@ + text@,
        }
    }

    /// The message of the failure: for a syntax failure the position and
    /// what was expected there, for a mismatched tag the two names.
    pub fn message(&self) -> (out: String)
        ensures
            out@ == self.message_text(),
    {
        let mut out = String::new();
        match self {
            ParseError::Syntax { position, expecting } => {
                out.append("Parsing error: at position ");
                push_decimal(*position, &mut out);
                out.append(", expected ");
                let ghost head = out@;
                let mut k: usize = 0;
                while k < expecting.len()
                    invariant
                        k <= expecting@.len(),
                        out@ == head + names_of(expecting@, k as nat),
                    decreases expecting@.len() - k,
                {
                    if k > 0 {
                        out.append(" or ");
                    }
                    out.append(expecting[k].name());
                    k += 1;
                    assert(out@ =~= head + names_of(expecting@, k as nat));
                }
            },
            ParseError::UnknownRule { name } => {
                out.append("Unknown rule: ");
                out.append(name.as_str());
            },
            ParseError::MismatchedTag { expected, found } => {
                out.append("Mismatched tag: expected ");
                out.append(expected.as_str());
                out.append(", found ");
                out.append(found.as_str());
            },
            ParseError::IOError(text) => {
                out.append("IO error: ");
                out.append(text.as_str());
            },
        }
        assert(out@ =~= self.message_text());
        out
    }

    /// This is the syntax failure at `position` that expected `expected`.
    pub open spec fn is_syntax(self, position: int, expected: Seq<Rule>) -> bool {
        self matches ParseError::Syntax { position: p, expecting: e } && p == position && e@
            == expected
    }

    /// This is the failure to find a production named `name`.
    pub open spec fn is_unknown_rule(self, name: Seq<char>) -> bool {
        self matches ParseError::UnknownRule { name: n } && n@ == name
    }
}

} // verus!
