//! Character-level primitives on `str` and `String` that the parsers build on.
//!
//! Positions and lengths in the specifications are counted in characters
//! (the view of a `str` is its sequence of `char`s).
use vstd::prelude::*;
use vstd::string::*;
use vstd::utf8::*;
use vstd::slice::*;

verus! {

broadcast use vstd::string::group_string_axioms;

/// `str::strip_prefix` with a string pattern: the rest of `s` after `prefix`,
/// if `s` starts with `prefix`.
#[verifier::external_body]
pub(crate) fn strip_str_prefix<'a>(s: &'a str, prefix: &str) -> (r: Option<&'a str>)
    ensures
        r is Some <==> prefix@.is_prefix_of(s@),
        r matches Some(rest) ==> rest@ == s@.skip(prefix@.len() as int),
{
    s.strip_prefix(prefix)
}

/// `str::strip_prefix` with a `char` pattern: the rest of `s` after its first
/// character, if that character is `c`.
#[verifier::external_body]
pub(crate) fn strip_char_prefix<'a>(s: &'a str, c: char) -> (r: Option<&'a str>)
    ensures
        r is Some <==> (s@.len() > 0 && s@[0] == c),
        r matches Some(rest) ==> rest@ == s@.drop_first(),
{
    s.strip_prefix(c)
}

/// Whether `c` has the Unicode `Alphabetic` property (`char::is_alphabetic`).
pub uninterp spec fn spec_is_alphabetic(c: char) -> bool;

/// Whether `c` has the Unicode `White_Space` property (`char::is_whitespace`):
/// the controls U+0009 to U+000D and U+0085, the space, the no-break spaces
/// U+00A0 and U+202F, U+1680, the spaces U+2000 to U+200A, the line and
/// paragraph separators U+2028 and U+2029, U+205F and U+3000.
pub open spec fn spec_is_whitespace(c: char) -> bool {
    let x = c as u32;
    ||| 0x9 <= x <= 0xd
    ||| x == 0x20
    ||| x == 0x85
    ||| x == 0xa0
    ||| x == 0x1680
    ||| 0x2000 <= x <= 0x200a
    ||| x == 0x2028
    ||| x == 0x2029
    ||| x == 0x202f
    ||| x == 0x205f
    ||| x == 0x3000
}

/// `char::is_alphabetic`; its result is named `spec_is_alphabetic`. Among
/// the ASCII characters, the ones with the `Alphabetic` property are the
/// letters `a` to `z` and `A` to `Z`; of the others, nothing is stated.
#[verifier::external_body]
pub(crate) fn char_is_alphabetic(c: char) -> (r: bool)
    ensures
        r == spec_is_alphabetic(c),
        (c as u32) < 128 ==> (r <==> (('a' <= c && c <= 'z') || ('A' <= c && c <= 'Z'))),
{
    c.is_alphabetic()
}

/// `char::is_whitespace`: whether `c` has the `White_Space` property.
#[verifier::external_body]
pub(crate) fn char_is_whitespace(c: char) -> (r: bool)
    ensures
        r == spec_is_whitespace(c),
{
    c.is_whitespace()
}

/// `str == str`: whether two strings hold the same characters.
#[verifier::external_body]
pub(crate) fn str_eq(a: &str, b: &str) -> (r: bool)
    ensures
        r == (a@ == b@),
{
    a == b
}

/// `String::push`: appends one character.
#[verifier::external_body]
pub(crate) fn push_char(s: &mut String, c: char)
    ensures
        final(s)@ == old(s)@.push(c),
{
    s.push(c)
}

/// `s` without its leading white space.
pub open spec fn trim_start_spec(s: Seq<char>) -> Seq<char>
    decreases s.len(),
{
    if s.len() > 0 && spec_is_whitespace(s[0]) {
        trim_start_spec(s.drop_first())
    } else {
        s
    }
}

/// `s` without its trailing white space.
pub open spec fn trim_end_spec(s: Seq<char>) -> Seq<char>
    decreases s.len(),
{
    if s.len() > 0 && spec_is_whitespace(s.last()) {
        trim_end_spec(s.drop_last())
    } else {
        s
    }
}

/// `str::trim`: `s` without leading and trailing white space.
#[verifier::external_body]
pub(crate) fn str_trim<'a>(s: &'a str) -> (r: &'a str)
    ensures
        r@ == trim_end_spec(trim_start_spec(s@)),
{
    s.trim()
}

/// An ASCII decimal digit (`char::is_digit(10)`).
pub open spec fn is_decimal_digit(c: char) -> bool {
    '0' <= c && c <= '9'
}

/// Characters allowed in identifiers: alphabetic characters, decimal digits and `_`.
pub open spec fn is_ident_char(c: char) -> bool {
    spec_is_alphabetic(c) || is_decimal_digit(c) || c == '_'
}

pub fn ident_char(c: char) -> (r: bool)
    ensures
        r == is_ident_char(c),
{
    char_is_alphabetic(c) || ('0' <= c && c <= '9') || c == '_'
}

proof fn lemma_encode_utf8_len(chars: Seq<char>)
    ensures
        encode_utf8(chars).len() >= chars.len(),
    decreases chars.len(),
{
    if chars.len() > 0 {
        lemma_encode_utf8_len(chars.drop_first());
    }
}

/// Establishes that the number of characters of `s` fits in a `usize`
/// (its UTF-8 encoding is an in-memory byte slice at least as long).
pub fn char_len_fits(s: &str)
    ensures
        s@.len() <= usize::MAX,
{
    let b = s.as_bytes();
    proof {
        lemma_encode_utf8_len(s@);
        assert(b@.len() <= usize::MAX) by {
            broadcast use vstd::slice::group_slice_axioms;
            assert(spec_slice_len(b) == b@.len());
        }
    }
}

/// The first character of `s`, if any.
pub fn first_char(s: &str) -> (r: Option<char>)
    ensures
        r == (if s@.len() > 0 { Some(s@[0]) } else { None::<char> }),
{
    let mut it = s.chars();
    it.next()
}

/// Splits off the first character of `s`.
pub fn split_first_char<'a>(s: &'a str) -> (r: Option<(char, &'a str)>)
    ensures
        match r {
            Some((c, rest)) => s@.len() > 0 && c == s@[0] && rest@ == s@.drop_first(),
            None => s@.len() == 0,
        },
{
    match first_char(s) {
        Some(c) => match strip_char_prefix(s, c) {
            Some(rest) => Some((c, rest)),
            None => None,
        },
        None => None,
    }
}

/// Whether `s` holds no character.
pub fn str_is_empty(s: &str) -> (r: bool)
    ensures
        r == (s@.len() == 0),
{
    first_char(s).is_none()
}

/// `s` without its first `n` characters.
pub fn skip_chars<'a>(s: &'a str, n: usize) -> (r: &'a str)
    requires
        n <= s@.len(),
    ensures
        r@ == s@.skip(n as int),
{
    let mut rest = s;
    let mut i: usize = 0;
    while i < n
        invariant
            i <= n,
            n <= s@.len(),
            rest@ == s@.skip(i as int),
        decreases n - i,
    {
        match split_first_char(rest) {
            Some((_, r)) => {
                rest = r;
            },
            None => {
                assert(false);
            },
        }
        i = i + 1;
    }
    rest
}

/// The first `n` characters of `s`.
pub fn take_chars<'a>(s: &'a str, n: usize) -> (r: &'a str)
    requires
        n <= s@.len(),
    ensures
        r@ == s@.take(n as int),
{
    s.substring_char(0, n)
}

/// The number of leading characters of `s` that satisfy `is_ident_char`.
pub open spec fn ident_len(s: Seq<char>) -> nat
    decreases s.len(),
{
    if s.len() > 0 && is_ident_char(s[0]) {
        1 + ident_len(s.drop_first())
    } else {
        0
    }
}

pub proof fn lemma_ident_len(s: Seq<char>)
    ensures
        ident_len(s) <= s.len(),
        forall|i: int| 0 <= i < ident_len(s) ==> is_ident_char(#[trigger] s[i]),
        ident_len(s) < s.len() ==> !is_ident_char(s[ident_len(s) as int]),
    decreases s.len(),
{
    if s.len() > 0 && is_ident_char(s[0]) {
        lemma_ident_len(s.drop_first());
        assert forall|i: int| 0 <= i < ident_len(s) implies is_ident_char(#[trigger] s[i]) by {
            if i > 0 {
                assert(s[i] == s.drop_first()[i - 1]);
            }
        }
    }
}

/// Counts the leading identifier characters of `s`.
pub fn count_ident_chars(s: &str) -> (n: usize)
    ensures
        n == ident_len(s@),
{
    char_len_fits(s);
    let mut rest = s;
    let mut n: usize = 0;
    loop
        invariant_except_break
            s@.len() <= usize::MAX,
            n + rest@.len() == s@.len(),
            ident_len(s@) == n + ident_len(rest@),
        ensures
            n == ident_len(s@),
        decreases rest@.len(),
    {
        match split_first_char(rest) {
            Some((c, r)) => {
                if !ident_char(c) {
                    break;
                }
                n = n + 1;
                rest = r;
            },
            None => {
                break;
            },
        }
    }
    n
}

/// The number of leading characters of `s` that are not white space.
pub open spec fn word_len(s: Seq<char>) -> nat
    decreases s.len(),
{
    if s.len() > 0 && !spec_is_whitespace(s[0]) {
        1 + word_len(s.drop_first())
    } else {
        0
    }
}

pub proof fn lemma_word_len(s: Seq<char>)
    ensures
        word_len(s) <= s.len(),
    decreases s.len(),
{
    if s.len() > 0 && !spec_is_whitespace(s[0]) {
        lemma_word_len(s.drop_first());
    }
}

/// Counts the leading characters of `s` that are not white space.
pub fn count_word_chars(s: &str) -> (n: usize)
    ensures
        n == word_len(s@),
{
    char_len_fits(s);
    let mut rest = s;
    let mut n: usize = 0;
    loop
        invariant_except_break
            s@.len() <= usize::MAX,
            n + rest@.len() == s@.len(),
            word_len(s@) == n + word_len(rest@),
        ensures
            n == word_len(s@),
        decreases rest@.len(),
    {
        match split_first_char(rest) {
            Some((c, r)) => {
                if char_is_whitespace(c) {
                    break;
                }
                n = n + 1;
                rest = r;
            },
            None => {
                break;
            },
        }
    }
    n
}

/// The number of leading characters of `s` that are white space.
pub open spec fn space_len(s: Seq<char>) -> nat
    decreases s.len(),
{
    if s.len() > 0 && spec_is_whitespace(s[0]) {
        1 + space_len(s.drop_first())
    } else {
        0
    }
}

pub proof fn lemma_space_len(s: Seq<char>)
    ensures
        space_len(s) <= s.len(),
        s.len() > 0 && spec_is_whitespace(s[0]) ==> space_len(s) >= 1,
    decreases s.len(),
{
    if s.len() > 0 && spec_is_whitespace(s[0]) {
        lemma_space_len(s.drop_first());
    }
}

/// Counts the leading white space characters of `s`.
pub fn count_space_chars(s: &str) -> (n: usize)
    ensures
        n == space_len(s@),
{
    char_len_fits(s);
    let mut rest = s;
    let mut n: usize = 0;
    loop
        invariant_except_break
            s@.len() <= usize::MAX,
            n + rest@.len() == s@.len(),
            space_len(s@) == n + space_len(rest@),
        ensures
            n == space_len(s@),
        decreases rest@.len(),
    {
        match split_first_char(rest) {
            Some((c, r)) => {
                if !char_is_whitespace(c) {
                    break;
                }
                n = n + 1;
                rest = r;
            },
            None => {
                break;
            },
        }
    }
    n
}

/// The position of the first `c` in `s`.
pub open spec fn find_char(s: Seq<char>, c: char) -> Option<nat>
    decreases s.len(),
{
    if s.len() == 0 {
        None
    } else if s[0] == c {
        Some(0)
    } else {
        match find_char(s.drop_first(), c) {
            Some(i) => Some(i + 1),
            None => None,
        }
    }
}

/// Finds the first `c` in `s`.
pub fn find_char_in(s: &str, c: char) -> (r: Option<usize>)
    ensures
        match (r, find_char(s@, c)) {
            (Some(i), Some(j)) => i == j,
            (None, None) => true,
            _ => false,
        },
{
    char_len_fits(s);
    let mut rest = s;
    let mut n: usize = 0;
    loop
        invariant
            s@.len() <= usize::MAX,
            n + rest@.len() == s@.len(),
            match find_char(rest@, c) {
                Some(j) => find_char(s@, c) == Some((n + j) as nat),
                None => find_char(s@, c) is None,
            },
        decreases rest@.len(),
    {
        match split_first_char(rest) {
            Some((d, r)) => {
                if d == c {
                    return Some(n);
                }
                n = n + 1;
                rest = r;
            },
            None => {
                return None;
            },
        }
    }
}

/// The characters of `s` before its first `'\n'` (all of `s` if there is none).
pub open spec fn before_newline(s: Seq<char>) -> Seq<char>
    decreases s.len(),
{
    if s.len() == 0 || s[0] == '\n' {
        Seq::empty()
    } else {
        seq![s[0]] + before_newline(s.drop_first())
    }
}

pub proof fn lemma_before_newline_len(s: Seq<char>)
    ensures
        before_newline(s).len() <= s.len(),
        before_newline(s) == s.take(before_newline(s).len() as int),
    decreases s.len(),
{
    if !(s.len() == 0 || s[0] == '\n') {
        lemma_before_newline_len(s.drop_first());
        assert(before_newline(s) =~= s.take(before_newline(s).len() as int));
    }
}

/// The number of characters of `s` before its first `'\n'`.
pub fn count_before_newline(s: &str) -> (n: usize)
    ensures
        n == before_newline(s@).len(),
{
    char_len_fits(s);
    let mut rest = s;
    let mut n: usize = 0;
    loop
        invariant_except_break
            s@.len() <= usize::MAX,
            n + rest@.len() == s@.len(),
            before_newline(s@).len() == n + before_newline(rest@).len(),
        ensures
            n == before_newline(s@).len(),
        decreases rest@.len(),
    {
        match split_first_char(rest) {
            Some((c, r)) => {
                if c == '\n' {
                    break;
                }
                n = n + 1;
                rest = r;
            },
            None => {
                break;
            },
        }
    }
    n
}

/// The decimal notation of `n`.
pub open spec fn decimal(n: nat) -> Seq<char>
    decreases n,
{
    if n < 10 {
        seq![digit_char(n)]
    } else {
        decimal(n / 10) + seq![digit_char(n % 10)]
    }
}

pub open spec fn digit_char(d: nat) -> char {
    if d == 0 { '0' }
    else if d == 1 { '1' }
    else if d == 2 { '2' }
    else if d == 3 { '3' }
    else if d == 4 { '4' }
    else if d == 5 { '5' }
    else if d == 6 { '6' }
    else if d == 7 { '7' }
    else if d == 8 { '8' }
    else { '9' }
}

fn exec_digit_char(d: usize) -> (c: char)
    requires
        d < 10,
    ensures
        c == digit_char(d as nat),
{
    if d == 0 { '0' }
    else if d == 1 { '1' }
    else if d == 2 { '2' }
    else if d == 3 { '3' }
    else if d == 4 { '4' }
    else if d == 5 { '5' }
    else if d == 6 { '6' }
    else if d == 7 { '7' }
    else if d == 8 { '8' }
    else { '9' }
}

/// Appends the decimal notation of `n` to `out`.
pub fn push_decimal(out: &mut String, n: usize)
    ensures
        final(out)@ == old(out)@ + decimal(n as nat),
    decreases n,
{
    if n < 10 {
        push_char(out, exec_digit_char(n));
        assert(decimal(n as nat) =~= seq![digit_char(n as nat)]);
    } else {
        push_decimal(out, n / 10);
        push_char(out, exec_digit_char(n % 10));
        assert(final(out)@ =~= old(out)@ + decimal(n as nat));
    }
}

} // verus!
