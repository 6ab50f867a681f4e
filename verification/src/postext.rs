//! Text that remembers where it stands in a larger text.
use vstd::prelude::*;
use vstd::string::*;
use vstd::utf8::{encode_utf8, is_char_boundary};

verus! {

broadcast use vstd::string::group_string_axioms;

/// The UTF-8 bytes of `t` from the byte `offset` on.
pub open spec fn bytes_from(t: Seq<char>, offset: int) -> Seq<u8> {
    encode_utf8(t).subrange(offset, encode_utf8(t).len() as int)
}

/// A text and the position of its first byte in the text it was cut from.
#[derive(Clone, Debug)]
pub struct PosText {
    pub text: String,
    pub pos: usize,
}

impl PosText {
    /// The text from `offset` bytes on, one position `offset` further.
    pub fn forward(&self, offset: usize) -> (r: PosText)
        requires
            is_char_boundary(encode_utf8(self.text@), offset as int),
            self.pos + offset <= usize::MAX,
        ensures
            encode_utf8(r.text@) == bytes_from(self.text@, offset as int),
            r.pos == self.pos + offset,
    {
        let (_, rest) = self.text.as_str().split_at(offset);
        PosText { text: rest.to_string(), pos: self.pos + offset }
    }
}

/// Moving forward by `a` and then by `b` is moving forward by `a + b`:
/// where `q` is `p` moved forward by `a`, `q` moved forward by `b` has the
/// bytes and the position of `p` moved forward by `a + b`. Moving forward by
/// nothing keeps the text.
pub proof fn law_forward_composes(p: PosText, a: usize, q: PosText, b: usize)
    requires
        a + b <= encode_utf8(p.text@).len(),
        p.pos + a + b <= usize::MAX,
        encode_utf8(q.text@) == bytes_from(p.text@, a as int),
        q.pos == p.pos + a,
    ensures
        bytes_from(q.text@, b as int) == bytes_from(p.text@, a + b),
        q.pos + b == p.pos + (a + b),
        bytes_from(p.text@, 0) == encode_utf8(p.text@),
{
    let bs = encode_utf8(p.text@);
    assert(bytes_from(q.text@, b as int) =~= bs.subrange(a + b, bs.len() as int));
    assert(bs.subrange(0, bs.len() as int) =~= bs);
}

} // verus!
