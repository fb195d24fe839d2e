//! Characters: the classes the grammar is written over, runs of one class,
//! and the conversions between strings and character vectors.

use vstd::prelude::*;

verus! {

/// The classes of characters that the grammar scans runs of.
#[derive(Clone, Copy, Debug, PartialEq, Eq, Structural)]
pub enum CharClass {
    /// Space, tab, carriage return, newline.
    Whitespace,
    /// ASCII letters and digits.
    Alnum,
    /// Anything but `<`.
    NotTagStart,
    /// Anything but `"`.
    NotQuote,
}

/// An ASCII letter.
pub open spec fn is_letter(c: char) -> bool {
    ('a' <= c && c <= 'z') || ('A' <= c && c <= 'Z')
}

/// An ASCII digit.
pub open spec fn is_digit(c: char) -> bool {
    '0' <= c && c <= '9'
}

/// Space, tab, carriage return or newline.
pub open spec fn is_whitespace(c: char) -> bool {
    c == ' ' || c == '\t' || c == '\r' || c == '\n'
}

/// Whether `c` is of class `k`.
pub open spec fn in_class(k: CharClass, c: char) -> bool {
    match k {
        CharClass::Whitespace => is_whitespace(c),
        CharClass::Alnum => is_letter(c) || is_digit(c),
        CharClass::NotTagStart => c != '<',
        CharClass::NotQuote => c != '"',
    }
}

/// The length of the longest run of characters of class `k` that starts at `i`.
pub open spec fn run_len(s: Seq<char>, i: int, k: CharClass) -> nat
    decreases s.len() - i,
{
    if 0 <= i < s.len() && in_class(k, s[i]) {
        1 + run_len(s, i + 1, k)
    } else {
        0
    }
}

/// Where the longest run of characters of class `k` that starts at `i` ends.
pub open spec fn run_end(s: Seq<char>, i: int, k: CharClass) -> int {
    i + run_len(s, i, k)
}

/// A run ends inside the input, on a character that is not of the class, and
/// holds characters of the class only.
pub proof fn lemma_run_end(s: Seq<char>, i: int, k: CharClass)
    requires
        0 <= i <= s.len(),
    ensures
        i <= run_end(s, i, k) <= s.len(),
        run_end(s, i, k) < s.len() ==> !in_class(k, s[run_end(s, i, k)]),
        forall|j: int| i <= j < run_end(s, i, k) ==> in_class(k, #[trigger] s[j]),
    decreases s.len() - i,
{
    if i < s.len() && in_class(k, s[i]) {
        lemma_run_end(s, i + 1, k);
    }
}

/// Whether `c` is an ASCII letter.
pub fn letter(c: char) -> (r: bool)
    ensures
        r == is_letter(c),
{
    ('a' <= c && c <= 'z') || ('A' <= c && c <= 'Z')
}

/// Whether `c` is of class `k`.
pub fn char_in_class(k: CharClass, c: char) -> (r: bool)
    ensures
        r == in_class(k, c),
{
    match k {
        CharClass::Whitespace => c == ' ' || c == '\t' || c == '\r' || c == '\n',
        CharClass::Alnum => letter(c) || ('0' <= c && c <= '9'),
        CharClass::NotTagStart => c != '<',
        CharClass::NotQuote => c != '"',
    }
}

/// Scans the longest run of class `k` from `i` and returns where it ends.
pub fn scan_run(chars: &Vec<char>, i: usize, k: CharClass) -> (end: usize)
    requires
        i <= chars@.len(),
    ensures
        end as int == run_end(chars@, i as int, k),
        i <= end <= chars@.len(),
{
    let mut pos: usize = i;
    while pos < chars.len() && char_in_class(k, chars[pos])
        invariant
            i <= pos <= chars@.len(),
            run_end(chars@, i as int, k) == run_end(chars@, pos as int, k),
        decreases chars@.len() - pos,
    {
        pos += 1;
    }
    proof {
        lemma_run_end(chars@, i as int, k);
    }
    pos
}

/// Whether the character at `i` exists and is `c`.
pub open spec fn has_char(s: Seq<char>, i: int, c: char) -> bool {
    0 <= i < s.len() && s[i] == c
}

/// Whether the character at `i` exists and is `c`.
pub fn char_at_is(chars: &Vec<char>, i: usize, c: char) -> (r: bool)
    ensures
        r == has_char(chars@, i as int, c),
        r ==> i < usize::MAX,
{
    i < chars.len() && chars[i] == c
}

/// The contract of `String::push` of the standard library, taken from its
/// documentation and not proved here: the call appends `c` to the end of the
/// string and changes nothing else of it.
pub assume_specification[ String::push ](s: &mut String, c: char)
    ensures
        final(s)@ == old(s)@.push(c),
;

/// The characters of `input`, in order.
pub fn to_chars(input: &str) -> (chars: Vec<char>)
    ensures
        chars@ == input@,
{
    let mut chars: Vec<char> = Vec::new();
    for c in it: input.chars()
        invariant
            chars@ == it.history(),
    {
        chars.push(c);
    }
    chars
}

/// The string made of the characters from `from` up to `to`.
pub fn string_of(chars: &Vec<char>, from: usize, to: usize) -> (out: String)
    requires
        from <= to <= chars@.len(),
    ensures
        out@ == chars@.subrange(from as int, to as int),
{
    let mut out = String::new();
    let mut pos: usize = from;
    while pos < to
        invariant
            from <= pos <= to <= chars@.len(),
            out@ == chars@.subrange(from as int, pos as int),
        decreases to - pos,
    {
        out.push(chars[pos]);
        pos += 1;
        assert(chars@.subrange(from as int, pos as int) == chars@.subrange(
            from as int,
            pos as int - 1,
        ).push(chars@[pos as int - 1]));
    }
    out
}

} // verus!
