//! Reed-Solomon RS(255, 223) framing of a message: chunks of at most 223
//! bytes, each followed by its 32 parity bytes, in message order.

use vstd::prelude::*;

verus! {

/// Marker that may prefix a framed message.
pub const MAGIC_NUMBER: [u8; 8] = [0x0b, 0x2d, 0x0e, 0x64, 0x77, 0x74, 0x01, 0x09];

/// Length of `MAGIC_NUMBER`.
pub const MAGIC_NUMBER_LENGTH: usize = 8;

/// Parity bytes per codeword.
pub const ECC_LENGTH: usize = 32;

/// Data bytes per full codeword.
pub const CHUNK_SIZE: usize = 223;

/// Bytes per full codeword.
pub const BLOCK_SIZE: usize = 255;

/// The 32 parity bytes that the Reed-Solomon encoder computes for a chunk.
pub uninterp spec fn rs_parity_of(chunk: Seq<u8>) -> [u8; 32];

/// Codeword of one chunk: the chunk, then its parity.
pub open spec fn codeword(chunk: Seq<u8>) -> Seq<u8> {
    chunk + rs_parity_of(chunk)@
}

/// Length of the first chunk of a message of `n` bytes.
pub open spec fn first_chunk_len(n: int) -> int {
    if n < CHUNK_SIZE { n } else { CHUNK_SIZE as int }
}

/// The codewords of the message's chunks, concatenated in chunk order.
pub open spec fn framed(m: Seq<u8>) -> Seq<u8>
    decreases m.len(),
{
    if m.len() == 0 {
        Seq::empty()
    } else {
        let k = first_chunk_len(m.len() as int);
        codeword(m.subrange(0, k)) + framed(m.subrange(k, m.len() as int))
    }
}

/// The data bytes of a sequence of codewords, each of 255 bytes but the
/// last, which has more than 32; `None` when the last one is too short.
pub open spec fn unframed(c: Seq<u8>) -> Option<Seq<u8>>
    decreases c.len(),
{
    if c.len() == 0 {
        Some(Seq::empty())
    } else if c.len() <= ECC_LENGTH {
        None
    } else {
        let k = if c.len() < BLOCK_SIZE { c.len() as int } else { BLOCK_SIZE as int };
        match unframed(c.subrange(k, c.len() as int)) {
            Some(rest) => Some(c.subrange(0, k - ECC_LENGTH) + rest),
            None => None,
        }
    }
}

/// Relies on reed_solomon's `Encoder::new` and `Encoder::encode`: with 32
/// parity bytes the codeword of a chunk of at most 223 bytes is the chunk
/// followed by parity that depends on the chunk alone.
#[verifier::external_body]
fn rs_encode(chunk: &[u8]) -> (r: Vec<u8>)
    requires
        chunk@.len() <= CHUNK_SIZE,
    ensures
        r@ == chunk@ + rs_parity_of(chunk@)@,
{
    reed_solomon::Encoder::new(ECC_LENGTH).encode(chunk).to_vec()
}

/// A message to frame.
pub struct Watermark {
    pub message: Vec<u8>,
}

impl Watermark {
    pub fn new(message: &[u8]) -> (r: Watermark)
        ensures
            r.message@ == message@,
    {
        let mut v: Vec<u8> = Vec::new();
        let mut i: usize = 0;
        while i < message.len()
            invariant
                i <= message@.len(),
                v@ == message@.subrange(0, i as int),
            decreases message@.len() - i,
        {
            v.push(message[i]);
            i = i + 1;
            assert(v@ =~= message@.subrange(0, i as int));
        }
        assert(v@ =~= message@);
        Watermark { message: v }
    }

    /// The message split into chunks of at most 223 bytes, each encoded
    /// as an RS(255, 223) codeword, concatenated in chunk order.
    pub fn codewords(&self) -> (r: Vec<u8>)
        ensures
            r@ == framed(self.message@),
    {
        let m = &self.message;
        let n = m.len();
        let mut out: Vec<u8> = Vec::new();
        let mut i: usize = 0;
        assert(m@.subrange(0, n as int) =~= m@);
        while i < n
            invariant
                i <= n,
                n == m@.len(),
                out@ + framed(m@.subrange(i as int, n as int)) == framed(m@),
            decreases n - i,
        {
            let k: usize = if n - i < CHUNK_SIZE { n - i } else { CHUNK_SIZE };
            let mut chunk: Vec<u8> = Vec::new();
            let mut j: usize = 0;
            while j < k
                invariant
                    j <= k,
                    i + k <= n,
                    n == m@.len(),
                    chunk@ == m@.subrange(i as int, i + j),
                decreases k - j,
            {
                chunk.push(m[i + j]);
                j = j + 1;
                assert(chunk@ =~= m@.subrange(i as int, i + j));
            }
            let code = rs_encode(chunk.as_slice());
            let ghost old_out = out@;
            let mut t: usize = 0;
            while t < code.len()
                invariant
                    t <= code@.len(),
                    out@ == old_out + code@.subrange(0, t as int),
                decreases code@.len() - t,
            {
                out.push(code[t]);
                t = t + 1;
                assert(out@ =~= old_out + code@.subrange(0, t as int));
            }
            proof {
                let s = m@.subrange(i as int, n as int);
                assert(s.subrange(0, k as int) =~= chunk@);
                assert(s.subrange(k as int, s.len() as int) =~= m@.subrange(i + k, n as int));
                assert(code@.subrange(0, code@.len() as int) =~= code@);
                assert(framed(s) == codeword(chunk@) + framed(m@.subrange(i + k, n as int)));
                assert(old_out + framed(s) =~= out@ + framed(m@.subrange(i + k, n as int)));
            }
            i = i + k;
        }
        assert(framed(m@.subrange(n as int, n as int)) =~= Seq::<u8>::empty());
        assert(out@ + Seq::<u8>::empty() =~= out@);
        out
    }

    /// The data bytes of framed codewords, parity dropped, in codeword
    /// order; `None` when the last codeword has no more than 32 bytes.
    pub fn message_of_codewords(codewords: &[u8]) -> (r: Option<Vec<u8>>)
        ensures
            r is None <==> unframed(codewords@) is None,
            r matches Some(v) ==> unframed(codewords@) == Some(v@),
    {
        let n = codewords.len();
        let mut out: Vec<u8> = Vec::new();
        let mut i: usize = 0;
        assert(codewords@.subrange(0, n as int) =~= codewords@);
        while i < n
            invariant
                i <= n,
                n == codewords@.len(),
                unframed(codewords@) is None <==> unframed(codewords@.subrange(i as int, n as int)) is None,
                unframed(codewords@.subrange(i as int, n as int)) matches Some(rest) ==> unframed(codewords@) == Some(out@ + rest),
            decreases n - i,
        {
            let left = n - i;
            if left <= ECC_LENGTH {
                assert(codewords@.subrange(i as int, n as int).len() == left);
                assert(unframed(codewords@.subrange(i as int, n as int)) is None);
                return None;
            }
            let k: usize = if left < BLOCK_SIZE { left } else { BLOCK_SIZE };
            let ghost old_out = out@;
            let mut j: usize = 0;
            while j < k - ECC_LENGTH
                invariant
                    j <= k - ECC_LENGTH,
                    i + k <= n,
                    n == codewords@.len(),
                    k > ECC_LENGTH,
                    out@ == old_out + codewords@.subrange(i as int, i + j),
                decreases k - ECC_LENGTH - j,
            {
                out.push(codewords[i + j]);
                j = j + 1;
                assert(out@ =~= old_out + codewords@.subrange(i as int, i + j));
            }
            proof {
                let s = codewords@.subrange(i as int, n as int);
                assert(s.subrange(k as int, s.len() as int) =~= codewords@.subrange(i + k, n as int));
                assert(s.subrange(0, k - ECC_LENGTH) =~= codewords@.subrange(i as int, i + k - ECC_LENGTH));
                if let Some(rest) = unframed(codewords@.subrange(i + k, n as int)) {
                    assert(old_out + (codewords@.subrange(i as int, i + k - ECC_LENGTH) + rest) =~= out@ + rest);
                }
            }
            i = i + k;
        }
        assert(unframed(codewords@.subrange(n as int, n as int)) == Some(Seq::<u8>::empty()));
        assert(out@ + Seq::<u8>::empty() =~= out@);
        Some(out)
    }
}

/// Dropping the parity of a framed message gives the message back, bytes in
/// message order, for any number of chunks.
pub proof fn lemma_unframe_framed(m: Seq<u8>)
    ensures
        unframed(framed(m)) == Some(m),
    decreases m.len(),
{
    if m.len() > 0 {
        let k = first_chunk_len(m.len() as int);
        let chunk = m.subrange(0, k);
        let rest = m.subrange(k, m.len() as int);
        let c = framed(m);
        let cw = codeword(chunk);
        assert(rs_parity_of(chunk)@.len() == 32);
        lemma_unframe_framed(rest);
        lemma_framed_len(rest);
        assert(c == cw + framed(rest));
        let kk = if c.len() < BLOCK_SIZE { c.len() as int } else { BLOCK_SIZE as int };
        assert(kk == k + 32);
        assert(c.subrange(kk, c.len() as int) =~= framed(rest));
        assert(c.subrange(0, kk - 32) =~= chunk);
        assert(chunk + rest =~= m);
    } else {
        assert(framed(m) =~= Seq::<u8>::empty());
    }
}

proof fn lemma_framed_len(m: Seq<u8>)
    ensures
        m.len() == 0 <==> framed(m).len() == 0,
        m.len() < CHUNK_SIZE ==> framed(m).len() == m.len() + 32 || m.len() == 0,
    decreases m.len(),
{
    if m.len() > 0 {
        let k = first_chunk_len(m.len() as int);
        assert(rs_parity_of(m.subrange(0, k))@.len() == 32);
        lemma_framed_len(m.subrange(k, m.len() as int));
    }
}

} // verus!
