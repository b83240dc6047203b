use vstd::prelude::*;

use crate::text::chars_of;

verus! {

/// The character classes of the line grammars. The grammars are ASCII by
/// design: the device log writes pids, uids and sizes in ASCII digits and
/// separates fields with ASCII blanks, so digits, blanks and word characters
/// here are the ASCII ones (other scripts' decimal digits are not pids).
#[derive(Clone, Copy, Debug, PartialEq, Eq, Structural)]
pub enum CharClass {
    /// `0-9`
    Digit,
    /// a space
    Space,
    /// ASCII whitespace
    Blank,
    /// letters, digits, `.`, `_` and `:`, as in a package or process name
    Package,
    /// `a-z` and `0-9`
    LowerDigit,
    /// `a-z`
    Lower,
    /// anything but `:`
    NotColon,
    /// ASCII letters, digits and `_`
    Word,
    /// anything but ASCII whitespace
    NotBlank,
    /// ASCII whitespace, newlines included
    Ws,
    /// ASCII letters and `.`
    AlphaDot,
}

/// Whether `c` is an ASCII digit.
pub open spec fn is_digit(c: char) -> bool {
    '0' <= c && c <= '9'
}

/// Whether `c` belongs to the class `k`.
pub open spec fn in_class(k: CharClass, c: char) -> bool {
    match k {
        CharClass::Digit => is_digit(c),
        CharClass::Space => c == ' ',
        CharClass::Blank => c == ' ' || c == '\t' || c == '\r' || c == '\x0b' || c == '\x0c',
        CharClass::Package => ('a' <= c && c <= 'z') || ('A' <= c && c <= 'Z') || is_digit(c) || c == '.'
            || c == '_' || c == ':',
        CharClass::LowerDigit => ('a' <= c && c <= 'z') || is_digit(c),
        CharClass::Lower => 'a' <= c && c <= 'z',
        CharClass::NotColon => c != ':',
        CharClass::Word => ('a' <= c && c <= 'z') || ('A' <= c && c <= 'Z') || is_digit(c) || c == '_',
        CharClass::NotBlank => !(c == ' ' || c == '\t' || c == '\r' || c == '\x0b' || c == '\x0c'),
        CharClass::Ws => c == ' ' || c == '\t' || c == '\r' || c == '\n' || c == '\x0b' || c == '\x0c',
        CharClass::AlphaDot => ('a' <= c && c <= 'z') || ('A' <= c && c <= 'Z') || c == '.',
    }
}

/// The end of the longest run of characters of class `k` that starts at `j`.
pub open spec fn span(s: Seq<char>, j: int, k: CharClass) -> int
    decreases s.len() - j,
{
    if 0 <= j < s.len() && in_class(k, s[j]) {
        span(s, j + 1, k)
    } else {
        j
    }
}

/// Whether `lit` stands in `s` at `i`.
pub open spec fn lit_at(s: Seq<char>, i: int, lit: Seq<char>) -> bool {
    0 <= i && i + lit.len() <= s.len() && s.subrange(i, i + lit.len()) == lit
}

/// A run ends between its start and the end of the text.
pub proof fn lemma_span_bounds(s: Seq<char>, j: int, k: CharClass)
    requires
        0 <= j <= s.len(),
    ensures
        j <= span(s, j, k) <= s.len(),
    decreases s.len() - j,
{
    if j < s.len() && in_class(k, s[j]) {
        lemma_span_bounds(s, j + 1, k);
    }
}

/// Whether `c` belongs to the class `k`.
pub fn class_has(k: CharClass, c: char) -> (b: bool)
    ensures
        b == in_class(k, c),
{
    match k {
        CharClass::Digit => '0' <= c && c <= '9',
        CharClass::Space => c == ' ',
        CharClass::Blank => c == ' ' || c == '\t' || c == '\r' || c == '\x0b' || c == '\x0c',
        CharClass::Package => ('a' <= c && c <= 'z') || ('A' <= c && c <= 'Z') || ('0' <= c && c <= '9')
            || c == '.' || c == '_' || c == ':',
        CharClass::LowerDigit => ('a' <= c && c <= 'z') || ('0' <= c && c <= '9'),
        CharClass::Lower => 'a' <= c && c <= 'z',
        CharClass::NotColon => c != ':',
        CharClass::Word => ('a' <= c && c <= 'z') || ('A' <= c && c <= 'Z') || ('0' <= c && c <= '9') || c
            == '_',
        CharClass::NotBlank => !(c == ' ' || c == '\t' || c == '\r' || c == '\x0b' || c == '\x0c'),
        CharClass::Ws => c == ' ' || c == '\t' || c == '\r' || c == '\n' || c == '\x0b' || c == '\x0c',
        CharClass::AlphaDot => ('a' <= c && c <= 'z') || ('A' <= c && c <= 'Z') || c == '.',
    }
}

/// The end of the run of class `k` that starts at `j`.
pub fn span_end(s: &Vec<char>, j: usize, k: CharClass) -> (e: usize)
    ensures
        e as int == span(s@, j as int, k),
        j <= s@.len() ==> j <= e <= s@.len(),
        j > s@.len() ==> e == j,
{
    let mut e: usize = j;
    while e < s.len() && class_has(k, s[e])
        invariant
            j <= e,
            j <= s@.len() ==> e <= s@.len(),
            j > s@.len() ==> e == j,
            span(s@, j as int, k) == span(s@, e as int, k),
        decreases s@.len() - e,
    {
        e += 1;
    }
    e
}

/// Whether `lit` stands in `s` at `i`.
pub fn has_lit_at(s: &Vec<char>, i: usize, lit: &str) -> (b: bool)
    ensures
        b == lit_at(s@, i as int, lit@),
{
    let l = chars_of(lit);
    if i > s.len() || l.len() > s.len() - i {
        return false;
    }
    let n = s.len();
    let mut k: usize = 0;
    while k < l.len()
        invariant
            n == s@.len(),
            i + l@.len() <= s@.len(),
            l@ == lit@,
            k <= l@.len(),
            forall|m: int| 0 <= m < k ==> s@[i + m] == l@[m],
        decreases l@.len() - k,
    {
        if s[i + k] != l[k] {
            proof {
                assert(s@.subrange(i as int, i + l@.len())[k as int] != l@[k as int]);
            }
            return false;
        }
        k += 1;
    }
    proof {
        assert(s@.subrange(i as int, i + l@.len()) =~= l@);
    }
    true
}

/// Whether `s` holds a newline.
pub fn has_newline(s: &Vec<char>) -> (b: bool)
    ensures
        b == s@.contains('\n'),
{
    let mut i: usize = 0;
    while i < s.len()
        invariant
            i <= s@.len(),
            forall|m: int| 0 <= m < i ==> s@[m] != '\n',
        decreases s@.len() - i,
    {
        if s[i] == '\n' {
            return true;
        }
        i += 1;
    }
    false
}

} // verus!
