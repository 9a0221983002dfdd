//! Holding back a character split across reads: a UTF-8 sequence that the
//! remote output has only begun at the end of a read is withheld until the
//! rest of it arrives, so a local terminal never gets half a character.

use vstd::prelude::*;

verus! {

/// A UTF-8 continuation byte (`10xxxxxx`).
pub open spec fn is_continuation(b: u8) -> bool {
    0x80 <= b < 0xc0
}

/// The length of the sequence that the leading byte `b` begins, or 0 when
/// `b` does not begin a multi-byte sequence.
pub open spec fn lead_width(b: u8) -> nat {
    if 0xc0 <= b < 0xe0 {
        2
    } else if 0xe0 <= b < 0xf0 {
        3
    } else if 0xf0 <= b < 0xf8 {
        4
    } else {
        0
    }
}

/// How many bytes at the end of `s` begin a sequence that `s` does not
/// finish: looking back over at most three bytes, past continuation bytes,
/// to a leading byte whose sequence is longer than what follows it.
pub open spec fn unfinished_tail(s: Seq<u8>) -> nat {
    let n = s.len();
    if n >= 1 && lead_width(s[n - 1]) > 1 {
        1
    } else if n >= 2 && is_continuation(s[n - 1]) && lead_width(s[n - 2]) > 2 {
        2
    } else if n >= 3 && is_continuation(s[n - 1]) && is_continuation(s[n - 2]) && lead_width(
        s[n - 3],
    ) > 3 {
        3
    } else {
        0
    }
}

/// Withholds an incomplete trailing UTF-8 sequence between writes.
pub struct Utf8Carry {
    /// The bytes withheld from the previous write.
    pub held: Vec<u8>,
}

impl View for Utf8Carry {
    type V = Seq<u8>;

    open spec fn view(&self) -> Seq<u8> {
        self.held@
    }
}

impl Default for Utf8Carry {
    fn default() -> (c: Self)
        ensures
            c@ == Seq::<u8>::empty(),
    {
        Utf8Carry { held: Vec::new() }
    }
}

/// What one write gives from what was held and the new bytes: the output
/// and what is held next.
pub open spec fn carry_step(held: Seq<u8>, bytes: Seq<u8>) -> (Seq<u8>, Seq<u8>) {
    let data = held + bytes;
    let k = unfinished_tail(data);
    (data.take(data.len() - k), data.skip(data.len() - k))
}

/// The concatenated output of writing `chunks` in order, starting from
/// `held`, and what is held at the end.
pub open spec fn carry_run(held: Seq<u8>, chunks: Seq<Seq<u8>>) -> (Seq<u8>, Seq<u8>)
    decreases chunks.len(),
{
    if chunks.len() == 0 {
        (Seq::empty(), held)
    } else {
        let prev = carry_run(held, chunks.drop_last());
        let step = carry_step(prev.1, chunks.last());
        (prev.0 + step.0, step.1)
    }
}

/// All bytes of `chunks`, in order.
pub open spec fn concat(chunks: Seq<Seq<u8>>) -> Seq<u8>
    decreases chunks.len(),
{
    if chunks.len() == 0 {
        Seq::empty()
    } else {
        concat(chunks.drop_last()) + chunks.last()
    }
}

/// Nothing is lost, added or reordered: over any run of writes, what was
/// written followed by what is still held is what was held at the start
/// followed by every byte handed in; and at most three bytes are held.
pub proof fn lemma_carry_preserves_bytes(held: Seq<u8>, chunks: Seq<Seq<u8>>)
    requires
        held.len() <= 3,
    ensures
        carry_run(held, chunks).0 + carry_run(held, chunks).1 == held + concat(chunks),
        carry_run(held, chunks).1.len() <= 3,
    decreases chunks.len(),
{
    if chunks.len() > 0 {
        lemma_carry_preserves_bytes(held, chunks.drop_last());
        let prev = carry_run(held, chunks.drop_last());
        let data = prev.1 + chunks.last();
        let k = unfinished_tail(data);
        assert(data.take(data.len() - k) + data.skip(data.len() - k) =~= data);
        assert(prev.0 + data.take(data.len() - k) + data.skip(data.len() - k) =~= prev.0 + prev.1
            + chunks.last());
        assert(held + concat(chunks) =~= held + concat(chunks.drop_last()) + chunks.last());
    } else {
        assert(Seq::<u8>::empty() + held =~= held + concat(chunks));
    }
}

/// A write whose bytes end on a character boundary holds nothing back.
pub proof fn lemma_complete_tail_passes(held: Seq<u8>, bytes: Seq<u8>)
    requires
        unfinished_tail(held + bytes) == 0,
    ensures
        carry_step(held, bytes).0 == held + bytes,
        carry_step(held, bytes).1.len() == 0,
{
    let data = held + bytes;
    assert(data.take(data.len() as int) =~= data);
}

impl Utf8Carry {
    /// Append `bytes` to what was held and return everything up to an
    /// incomplete trailing sequence, which is held for the next call.
    pub fn complete(&mut self, bytes: &[u8]) -> (out: Vec<u8>)
        ensures
            (out@, final(self)@) == carry_step(old(self)@, bytes@),
            out@ + final(self)@ == old(self)@ + bytes@,
            final(self)@.len() <= 3,
    {
        let mut data: Vec<u8> = Vec::new();
        std::mem::swap(&mut data, &mut self.held);
        let ghost h = data@;
        let mut i: usize = 0;
        while i < bytes.len()
            invariant
                i <= bytes.len(),
                data@ == h + bytes@.take(i as int),
            decreases bytes.len() - i,
        {
            data.push(bytes[i]);
            i += 1;
            assert(data@ =~= h + bytes@.take(i as int));
        }
        assert(bytes@.take(bytes.len() as int) =~= bytes@);
        let n = data.len();
        let k: usize = if n >= 1 && lead(data[n - 1]) > 1 {
            1
        } else if n >= 2 && cont(data[n - 1]) && lead(data[n - 2]) > 2 {
            2
        } else if n >= 3 && cont(data[n - 1]) && cont(data[n - 2]) && lead(data[n - 3]) > 3 {
            3
        } else {
            0
        };
        assert(k == unfinished_tail(data@));
        let mut out: Vec<u8> = Vec::new();
        let mut j: usize = 0;
        while j < n - k
            invariant
                j <= n - k,
                k <= n == data.len(),
                out@ == data@.take(j as int),
            decreases n - k - j,
        {
            out.push(data[j]);
            j += 1;
            assert(out@ =~= data@.take(j as int));
        }
        let mut rest: Vec<u8> = Vec::new();
        while j < n
            invariant
                k <= n,
                n - k <= j <= n == data.len(),
                rest@ == data@.subrange(n - k, j as int),
            decreases n - j,
        {
            rest.push(data[j]);
            j += 1;
            assert(rest@ =~= data@.subrange(n - k, j as int));
        }
        assert(rest@ =~= data@.skip(n - k));
        assert(out@ + rest@ =~= data@);
        self.held = rest;
        out
    }
}

fn cont(b: u8) -> (r: bool)
    ensures
        r == is_continuation(b),
{
    0x80 <= b && b < 0xc0
}

fn lead(b: u8) -> (r: u8)
    ensures
        r as nat == lead_width(b),
{
    if 0xc0 <= b && b < 0xe0 {
        2
    } else if 0xe0 <= b && b < 0xf0 {
        3
    } else if 0xf0 <= b && b < 0xf8 {
        4
    } else {
        0
    }
}

} // verus!
