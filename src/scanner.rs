//! The longest-match scanner: walks a text and yields, for each step, the
//! byte span it consumed and either a MacRoman code or the scalar value that
//! has none.
use vstd::prelude::*;
use vstd::utf8::{
    char_is_scalar, encode_scalar, encode_utf8, encode_utf8_decode_utf8, encode_utf8_first_scalar,
    encode_utf8_valid_utf8, is_char_boundary, length_of_first_scalar, pop_first_scalar,
};
use crate::table::{code_for, head_of, longest_match, match_len};

verus! {

/// Number of bytes that `s` takes in UTF-8.
pub open spec fn utf8_len(s: Seq<char>) -> int {
    encode_utf8(s).len() as int
}

/// Number of scalar values that the step at the start of `t` consumes:
/// those of the longest matching entry, or one when no entry matches.
pub open spec fn step_len(t: Seq<char>) -> int {
    if match_len(t) == 0 {
        1
    } else {
        match_len(t)
    }
}

/// Outcome of the step at the start of the non-empty text `t`.
pub open spec fn step_outcome(t: Seq<char>) -> Result<u8, char> {
    if match_len(t) == 0 {
        Err(t[0])
    } else {
        Ok(code_for(t.take(match_len(t))))
    }
}

/// Number of bytes that the step at the start of `t` consumes.
pub open spec fn step_bytes(t: Seq<char>) -> int {
    utf8_len(t.take(step_len(t)))
}

/// The steps of a scan of `t` that starts at byte offset `pos`: each is the
/// offset where it starts, the number of bytes it consumes, and its outcome.
pub open spec fn scan(t: Seq<char>, pos: int) -> Seq<(int, int, Result<u8, char>)>
    decreases t.len(),
{
    if t.len() == 0 {
        Seq::empty()
    } else {
        let k = step_len(t);
        seq![(pos, step_bytes(t), step_outcome(t))] + scan(t.skip(k), pos + step_bytes(t))
    }
}

/// UTF-8 splits at every scalar boundary: the first `k` scalar values of `s`
/// encode to a prefix of its encoding, which ends on a character boundary.
pub proof fn lemma_encode_split(s: Seq<char>, k: int)
    requires
        0 <= k <= s.len(),
    ensures
        encode_utf8(s) == encode_utf8(s.take(k)) + encode_utf8(s.skip(k)),
        is_char_boundary(encode_utf8(s), utf8_len(s.take(k))),
    decreases k,
{
    encode_utf8_valid_utf8(s);
    if k == 0 {
        assert(s.take(0) =~= Seq::<char>::empty());
        assert(s.skip(0) =~= s);
        assert(encode_utf8(s.take(0)) =~= Seq::<u8>::empty());
        assert(encode_utf8(s) =~= encode_utf8(s.take(k)) + encode_utf8(s.skip(k)));
    } else {
        let r = s.drop_first();
        lemma_encode_split(r, k - 1);
        assert(s.take(k).drop_first() =~= r.take(k - 1));
        assert(s.skip(k) =~= r.skip(k - 1));
        let head = encode_scalar(s[0] as u32);
        assert(encode_utf8(s.take(k)) == head + encode_utf8(r.take(k - 1)));
        assert(encode_utf8(s) =~= encode_utf8(s.take(k)) + encode_utf8(s.skip(k)));
        let bytes = encode_utf8(s);
        encode_utf8_first_scalar(s);
        assert(length_of_first_scalar(bytes) == head.len());
        assert(pop_first_scalar(bytes) =~= encode_utf8(r));
    }
}

/// The UTF-8 encoding of one scalar value.
proof fn lemma_encode_one(c: char)
    ensures
        encode_utf8(seq![c]) == encode_scalar(c as u32),
{
    assert(seq![c].drop_first() =~= Seq::<char>::empty());
    assert(encode_utf8(seq![c]) =~= encode_scalar(c as u32) + encode_utf8(Seq::<char>::empty()));
}

/// Number of bytes that `c` takes in UTF-8.
fn utf8_width(c: char) -> (w: usize)
    ensures
        w as int == utf8_len(seq![c]),
        1 <= w <= 4,
{
    proof {
        lemma_encode_one(c);
        char_is_scalar(c);
    }
    let v = c as u32;
    if v < 0x80 {
        1
    } else if v < 0x800 {
        2
    } else if v < 0x10000 {
        3
    } else {
        4
    }
}

/// The rest of `s` after its first `n` scalar values, which take `bytes` bytes.
fn skip_scalars<'a>(s: &'a str, n: Ghost<int>, bytes: usize) -> (r: &'a str)
    requires
        0 <= n@ <= s@.len(),
        bytes as int == utf8_len(s@.take(n@)),
    ensures
        r@ == s@.skip(n@),
{
    proof {
        lemma_encode_split(s@, n@);
    }
    let (_, rest) = s.split_at(bytes);
    proof {
        assert(encode_utf8(rest@) =~= encode_utf8(s@.skip(n@)));
        encode_utf8_decode_utf8(rest@);
        encode_utf8_decode_utf8(s@.skip(n@));
    }
    rest
}

/// A scan of a text in progress: the byte offset reached so far and the
/// text that is left. Each call of `next` yields one step.
pub struct MacRomanEncoder<'a> {
    pos: usize,
    rem: &'a str,
}

impl<'a> MacRomanEncoder<'a> {
    /// Byte offset of the unconsumed text in the original input.
    pub closed spec fn position(&self) -> int {
        self.pos as int
    }

    /// The text not yet consumed.
    pub closed spec fn remaining(&self) -> Seq<char> {
        self.rem@
    }

    /// Offsets stay representable up to the end of the input.
    pub closed spec fn wf(&self) -> bool {
        self.pos + utf8_len(self.rem@) <= usize::MAX
    }

    /// The steps that this scan has yet to yield.
    pub open spec fn steps(&self) -> Seq<(int, int, Result<u8, char>)> {
        scan(self.remaining(), self.position())
    }

    /// Yields the next step: its start offset, the number of bytes it
    /// consumed, and `Ok` with the code of the longest table entry that is a
    /// prefix of the remaining text, or `Err` with the remaining text's first
    /// scalar value when no entry is. `None` once the text is consumed.
    pub fn next(&mut self) -> (r: Option<(usize, usize, Result<u8, char>)>)
        requires
            old(self).wf(),
        ensures
            final(self).wf(),
            old(self).remaining().len() == 0 ==> r is None && final(self).position()
                == old(self).position() && final(self).remaining() == old(self).remaining(),
            old(self).remaining().len() > 0 ==> {
                let t = old(self).remaining();
                &&& r == Some(
                    (
                        old(self).position() as usize,
                        step_bytes(t) as usize,
                        step_outcome(t),
                    ),
                )
                &&& final(self).remaining() == t.skip(step_len(t))
                &&& final(self).position() == old(self).position() + step_bytes(t)
            },
            old(self).steps().len() == 0 ==> r is None,
            old(self).steps().len() > 0 ==> {
                let s = old(self).steps()[0];
                &&& r == Some((s.0 as usize, s.1 as usize, s.2))
                &&& final(self).steps() == old(self).steps().drop_first()
            },
    {
        if self.rem.is_empty() {
            return None;
        }
        let ghost t = self.rem@;
        let first = self.rem.get_char(0);
        let w0 = utf8_width(first);
        proof {
            assert(t.take(1) =~= seq![first]);
        }
        let tail = skip_scalars(self.rem, Ghost(1), w0);
        let next = if tail.is_empty() {
            None
        } else {
            Some(tail.get_char(0))
        };
        let ghost h = head_of(first, next);
        proof {
            if t.len() >= 2 {
                assert(t.take(2) =~= h);
                assert(h.take(1) =~= t.take(1));
            } else {
                assert(t =~= h);
            }
            assert(h.take(2) =~= t.take(2) || t.len() < 2);
            assert(match_len(t) == match_len(h));
        }
        let (n, consumed, outcome) = match longest_match(first, next) {
            Some((n, code)) => {
                let consumed = if n == 1 {
                    w0
                } else {
                    let w1 = utf8_width(tail.get_char(0));
                    proof {
                        lemma_encode_split(t.take(2), 1);
                        assert(t.take(2).take(1) =~= seq![first]);
                        assert(t.take(2).skip(1) =~= seq![tail@[0]]);
                        lemma_encode_split(t, 2);
                    }
                    w0 + w1
                };
                proof {
                    assert(t.take(n as int) =~= h.take(n as int));
                }
                (n, consumed, Ok(code))
            },
            None => (1, w0, Err(first)),
        };
        proof {
            lemma_encode_split(t, n as int);
        }
        let pos = self.pos;
        self.rem = skip_scalars(self.rem, Ghost(n as int), consumed);
        self.pos = pos + consumed;
        Some((pos, consumed, outcome))
    }
}

/// Starts a scan of `input` at byte offset 0.
pub fn encode(input: &str) -> (r: MacRomanEncoder<'_>)
    ensures
        r.position() == 0,
        r.remaining() == input@,
        r.wf(),
        r.steps() == scan(input@, 0),
        input@.len() == 0 ==> r.steps().len() == 0,
{
    let bytes = input.as_bytes();
    let _n = bytes.len();
    MacRomanEncoder { pos: 0, rem: input }
}

} // verus!
