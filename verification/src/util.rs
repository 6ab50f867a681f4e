//! Small helpers on text, and numbers that may be infinite.
use vstd::prelude::*;
use vstd::string::*;
use vstd::utf8::encode_utf8;
pub use crate::maybe_inf::MaybeInf;
use crate::text::{
    before_newline, lemma_before_newline_len, count_before_newline, take_chars, skip_chars,
    str_trim, trim_end_spec, trim_start_spec, split_first_char,
};

verus! {

broadcast use vstd::string::group_string_axioms;

/// The characters before the first newline.
pub fn _firstline<'a>(string: &'a str) -> (r: &'a str)
    ensures
        r@ == before_newline(string@),
{
    let n = count_before_newline(string);
    proof {
        lemma_before_newline_len(string@);
    }
    take_chars(string, n)
}

/// The first line of `string` without leading and trailing white space.
pub fn firstline<'a>(string: &'a str) -> (r: &'a str)
    ensures
        r@ == before_newline(trim_end_spec(trim_start_spec(string@))),
{
    _firstline(str_trim(string))
}

/// `s` without its first `start` characters.
pub fn skip_str<'a>(s: &'a str, start: usize) -> (r: &'a str)
    requires
        start <= s@.len(),
    ensures
        r@ == s@.skip(start as int),
{
    skip_chars(s, start)
}

/// The characters of `s` from `start_char` to `end_char`, clamped to `s`;
/// empty where `end_char` is not after `start_char`.
pub open spec fn substr_spec(s: Seq<char>, start_char: nat, end_char: nat) -> Seq<char> {
    if end_char <= start_char || start_char >= s.len() {
        Seq::empty()
    } else if end_char >= s.len() {
        s.skip(start_char as int)
    } else {
        s.subrange(start_char as int, end_char as int)
    }
}

/// The characters of `s` from `start_char` to `end_char` (see `substr_spec`).
pub fn substr<'a>(s: &'a str, start_char: usize, end_char: usize) -> (r: &'a str)
    ensures
        r@ == substr_spec(s@, start_char as nat, end_char as nat),
{
    if end_char <= start_char {
        return take_chars(s, 0);
    }
    // walk to start_char, clamping at the end of s
    let mut rest = s;
    let mut i: usize = 0;
    while i < start_char
        invariant
            i <= start_char,
            i <= s@.len(),
            rest@ == s@.skip(i as int),
        decreases start_char - i,
    {
        match split_first_char(rest) {
            Some((_, r)) => {
                rest = r;
                i = i + 1;
                proof {
                    assert(rest@ =~= s@.skip(i as int));
                }
            },
            None => {
                proof {
                    assert(substr_spec(s@, start_char as nat, end_char as nat) =~= Seq::empty());
                }
                return take_chars(rest, 0);
            },
        }
    }
    // count up to end_char - start_char characters
    let want = end_char - start_char;
    let mut tail = rest;
    let mut k: usize = 0;
    while k < want && !crate::text::str_is_empty(tail)
        invariant
            k <= want,
            k <= rest@.len(),
            tail@ == rest@.skip(k as int),
        decreases want - k,
    {
        match split_first_char(tail) {
            Some((_, r)) => {
                tail = r;
                k = k + 1;
                proof {
                    assert(tail@ =~= rest@.skip(k as int));
                }
            },
            None => {},
        }
    }
    let r = take_chars(rest, k);
    proof {
        if start_char >= s@.len() {
            assert(rest@.len() == 0);
            assert(r@ =~= substr_spec(s@, start_char as nat, end_char as nat));
        } else if end_char >= s@.len() {
            assert(r@ =~= substr_spec(s@, start_char as nat, end_char as nat));
        } else {
            assert(r@ =~= substr_spec(s@, start_char as nat, end_char as nat));
        }
    }
    r
}

/// How a line of input is shown in backtraces: its first line, trimmed, and
/// cut to 20 characters where it is longer than 32 bytes.
pub open spec fn input_view_spec(input: Seq<char>) -> Seq<char> {
    let v = before_newline(trim_end_spec(trim_start_spec(input)));
    if encode_utf8(v).len() > 32 {
        substr_spec(v, 0, 20)
    } else {
        v
    }
}

/// A short view of the input for backtraces (see `input_view_spec`).
pub fn input_view(input: &str) -> (r: &str)
    ensures
        r@ == input_view_spec(input@),
{
    let v = firstline(input);
    let bytes = v.as_bytes();
    proof {
        broadcast use vstd::slice::group_slice_axioms;
    }
    if bytes.len() > 32 {
        substr(v, 0, 20)
    } else {
        v
    }
}

/// Passing a value on to a function, so that calls can be written in the
/// order in which they happen: `x.tap(f)` is `f(x)`.
pub trait TapOps: Sized {
    fn tap<R, F: FnOnce(Self) -> R>(self, f: F) -> (r: R)
        requires
            f.requires((self,)),
        ensures
            f.ensures((self,), r),
    ;
}

impl<T> TapOps for T {
    fn tap<R, F: FnOnce(Self) -> R>(self, f: F) -> (r: R) {
        f(self)
    }
}

} // verus!
