//! A cursor over the bytes of a chunk, with the primitive field decoders.
use vstd::prelude::*;

use crate::error::ChunkError;

verus! {

/// Little-endian value of the bytes `s[i]`, `s[i+1]`, ..., `s[i+n-1]`.
pub open spec fn le_value(s: Seq<u8>, i: int, n: nat) -> nat
    decreases n,
{
    if n == 0 {
        0
    } else {
        s[i] as nat + 256 * le_value(s, i + 1, (n - 1) as nat)
    }
}

/// Big-endian value of the four bytes at `i`.
pub open spec fn be_u32_at(s: Seq<u8>, i: int) -> nat {
    s[i] as nat * 16777216 + s[i + 1] as nat * 65536 + s[i + 2] as nat * 256 + s[i + 3] as nat
}

/// What a string field holds once decoded from its bytes.
pub uninterp spec fn utf8_lossy(b: Seq<u8>) -> Seq<char>;

/// Relies on `String::from_utf8_lossy`: its result depends on the bytes alone,
/// and no bytes give the empty string.
#[verifier::external_body]
fn decode_text(b: &[u8]) -> (r: String)
    ensures
        r@ == utf8_lossy(b@),
        b@.len() == 0 ==> r@.len() == 0,
{
    String::from_utf8_lossy(b).to_string()
}

/// The bytes of a chunk and the position of the next unread byte.
pub struct ChunkReader {
    bytes: Vec<u8>,
    pos: usize,
}

impl ChunkReader {
    /// All bytes of the stream.
    pub closed spec fn data(&self) -> Seq<u8> {
        self.bytes@
    }

    /// Index of the next unread byte.
    pub closed spec fn pos(&self) -> nat {
        self.pos as nat
    }

    /// The unread bytes.
    pub open spec fn rest(&self) -> Seq<u8> {
        self.data().subrange(self.pos() as int, self.data().len() as int)
    }

    /// The position never passes the end of the data.
    pub open spec fn wf(&self) -> bool {
        self.pos() <= self.data().len()
    }

    /// Whether `n` more bytes can be read.
    pub open spec fn has(&self, n: nat) -> bool {
        self.pos() + n <= self.data().len()
    }

    /// Little-endian value of the `n` bytes at offset `k` of the unread bytes.
    pub open spec fn le_ahead(&self, k: nat, n: nat) -> nat {
        le_value(self.data(), (self.pos() + k) as int, n)
    }

    /// The same data, `n` bytes further on.
    pub open spec fn advanced(&self, old: &ChunkReader, n: nat) -> bool {
        self.wf() && self.data() == old.data() && self.pos() == old.pos() + n
    }

    /// A reader at the start of `bytes`.
    pub fn new(bytes: Vec<u8>) -> (r: ChunkReader)
        ensures
            r.wf(),
            r.data() == bytes@,
            r.pos() == 0,
    {
        ChunkReader { bytes, pos: 0 }
    }

    /// Number of unread bytes.
    pub fn remaining(&self) -> (r: usize)
        requires
            self.wf(),
        ensures
            r == self.data().len() - self.pos(),
    {
        self.bytes.len() - self.pos
    }

    /// Reads the next `len` bytes; fails, reading nothing, where fewer are left.
    pub fn read_bytes(&mut self, len: usize) -> (r: Result<Vec<u8>, ChunkError>)
        requires
            old(self).wf(),
        ensures
            final(self).wf(),
            final(self).data() == old(self).data(),
            old(self).has(len as nat) <==> r is Ok,
            r matches Ok(b) ==> b@ == old(self).data().subrange(
                old(self).pos() as int,
                old(self).pos() + len,
            ) && final(self).pos() == old(self).pos() + len,
            r matches Err(e) ==> e == ChunkError::Truncated && final(self).pos() == old(self).pos(),
    {
        if len > self.bytes.len() - self.pos {
            return Err(ChunkError::Truncated);
        }
        let mut out: Vec<u8> = Vec::new();
        let start = self.pos;
        let mut i: usize = 0;
        while i < len
            invariant
                start + len <= self.bytes@.len(),
                self.bytes@.len() <= usize::MAX,
                i <= len,
                out@ == self.bytes@.subrange(start as int, start + i),
            decreases len - i,
        {
            out.push(self.bytes[start + i]);
            i += 1;
            assert(out@ =~= self.bytes@.subrange(start as int, start + i));
        }
        self.pos = start + len;
        Ok(out)
    }

    /// Reads one byte.
    pub fn read_byte(&mut self) -> (r: Result<u8, ChunkError>)
        requires
            old(self).wf(),
        ensures
            old(self).has(1) <==> r is Ok,
            r matches Ok(b) ==> b == old(self).data()[old(self).pos() as int]
                && final(self).advanced(old(self), 1),
            r matches Err(e) ==> e == ChunkError::Truncated && *final(self) == *old(self),
    {
        if self.pos >= self.bytes.len() {
            return Err(ChunkError::Truncated);
        }
        let b = self.bytes[self.pos];
        self.pos = self.pos + 1;
        Ok(b)
    }

    /// Reads a little-endian 32-bit unsigned integer.
    pub fn read_int(&mut self) -> (r: Result<u32, ChunkError>)
        requires
            old(self).wf(),
        ensures
            old(self).has(4) <==> r is Ok,
            r matches Ok(v) ==> v as nat == old(self).le_ahead(0, 4) && final(self).advanced(
                old(self),
                4,
            ),
            r matches Err(e) ==> e == ChunkError::Truncated && *final(self) == *old(self),
    {
        if self.bytes.len() - self.pos < 4 {
            return Err(ChunkError::Truncated);
        }
        let p = self.pos;
        let (b0, b1, b2, b3) = (
            self.bytes[p] as u32,
            self.bytes[p + 1] as u32,
            self.bytes[p + 2] as u32,
            self.bytes[p + 3] as u32,
        );
        self.pos = p + 4;
        proof {
            reveal_with_fuel(le_value, 5);
        }
        Ok(b0 + 256 * b1 + 65536 * b2 + 16777216 * b3)
    }

    /// Reads a little-endian 64-bit unsigned size field.
    pub fn read_sizet(&mut self) -> (r: Result<u64, ChunkError>)
        requires
            old(self).wf(),
        ensures
            old(self).has(8) <==> r is Ok,
            r matches Ok(v) ==> v as nat == old(self).le_ahead(0, 8) && final(self).advanced(
                old(self),
                8,
            ),
            r matches Err(e) ==> e == ChunkError::Truncated && *final(self) == *old(self),
    {
        if self.bytes.len() - self.pos < 8 {
            return Err(ChunkError::Truncated);
        }
        let p = self.pos;
        let mut v: u64 = 0;
        let mut k: usize = 8;
        while k > 0
            invariant
                p + 8 <= self.bytes@.len(),
                self.bytes@.len() <= usize::MAX,
                k <= 8,
                v as nat == le_value(self.bytes@, p + k, (8 - k) as nat),
                v < pow256((8 - k) as nat),
            decreases k,
        {
            k -= 1;
            let b = self.bytes[p + k] as u64;
            assert(v * 256 + b < pow256((8 - k) as nat)) by (nonlinear_arith)
                requires
                    v < pow256((8 - (k + 1)) as nat),
                    b < 256,
                    pow256((8 - k) as nat) == 256 * pow256((8 - (k + 1)) as nat),
            ;
            proof {
                reveal_with_fuel(pow256, 9);
                lemma_pow256_mono((8 - k) as nat, 8);
            }
            v = v * 256 + b;
        }
        self.pos = p + 8;
        Ok(v)
    }

    /// Reads a size-prefixed string. The stored size counts a terminating byte, which is
    /// dropped; a size of zero gives the empty string with nothing more read.
    pub fn read_string(&mut self) -> (r: Result<String, ChunkError>)
        requires
            old(self).wf(),
        ensures
            final(self).wf(),
            final(self).data() == old(self).data(),
            final(self).pos() >= old(self).pos(),
            r is Ok <==> old(self).has(8) && old(self).has(8 + old(self).le_ahead(0, 8)),
            r matches Ok(s) ==> {
                let n = old(self).le_ahead(0, 8);
                let p = old(self).pos() + 8;
                &&& final(self).pos() == p + n
                &&& n == 0 ==> s@.len() == 0
                &&& n > 0 ==> s@ == utf8_lossy(old(self).data().subrange(p as int, p + n - 1))
            },
            r matches Err(e) ==> e == ChunkError::Truncated,
    {
        let len = self.read_sizet()?;
        if len == 0 {
            return Ok(String::new());
        }
        if len > self.remaining() as u64 {
            return Err(ChunkError::Truncated);
        }
        let ghost p = self.pos();
        let mut bytes = self.read_bytes(len as usize)?;
        bytes.pop();
        assert(bytes@ =~= self.data().subrange(p as int, p + len - 1));
        Ok(decode_text(bytes.as_slice()))
    }

    /// Reads one byte as a flag: any nonzero byte is true.
    pub fn read_boolean(&mut self) -> (r: Result<bool, ChunkError>)
        requires
            old(self).wf(),
        ensures
            old(self).has(1) <==> r is Ok,
            r matches Ok(b) ==> b == (old(self).data()[old(self).pos() as int] != 0)
                && final(self).advanced(old(self), 1),
            r matches Err(e) ==> e == ChunkError::Truncated && *final(self) == *old(self),
    {
        let b = self.read_byte()?;
        Ok(b != 0)
    }

    /// Reads a little-endian 64-bit float, returned as its bit pattern.
    pub fn read_number(&mut self) -> (r: Result<u64, ChunkError>)
        requires
            old(self).wf(),
        ensures
            old(self).has(8) <==> r is Ok,
            r matches Ok(v) ==> v as nat == old(self).le_ahead(0, 8) && final(self).advanced(
                old(self),
                8,
            ),
            r matches Err(e) ==> e == ChunkError::Truncated && *final(self) == *old(self),
    {
        self.read_sizet()
    }
}

/// `256` to the power `n`.
pub open spec fn pow256(n: nat) -> nat
    decreases n,
{
    if n == 0 {
        1
    } else {
        256 * pow256((n - 1) as nat)
    }
}

/// `pow256` grows with its exponent.
proof fn lemma_pow256_mono(a: nat, b: nat)
    requires
        a <= b,
    ensures
        pow256(a) <= pow256(b),
    decreases b,
{
    if a < b {
        lemma_pow256_mono(a, (b - 1) as nat);
    }
}

} // verus!
