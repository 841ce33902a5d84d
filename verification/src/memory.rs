//! The host's memory, as the reader of its objects sees it.
//!
//! Objects are read where they lie and are never written. An address is a
//! 64-bit word; the bytes of a multi-byte field are in little-endian order.

use vstd::prelude::*;

verus! {

/// Bytes that can be read, each under its address.
pub type Bytes = Map<u64, u8>;

/// Whether the `n` bytes from address `a` on can all be read.
pub open spec fn readable(m: Bytes, a: int, n: int) -> bool {
    &&& 0 <= a
    &&& a + n <= 0x1_0000_0000_0000_0000
    &&& forall|k: u64| a <= k < a + n ==> #[trigger] m.contains_key(k)
}

/// The byte at address `a`.
pub open spec fn byte_at(m: Bytes, a: int) -> u8 {
    m[a as u64]
}

/// The little-endian `u32` at address `a`.
#[verifier::opaque]
pub open spec fn u32_at(m: Bytes, a: int) -> u32 {
    (byte_at(m, a) + 0x100 * byte_at(m, a + 1) + 0x1_0000 * byte_at(m, a + 2) + 0x100_0000
        * byte_at(m, a + 3)) as u32
}

/// The little-endian `u64` at address `a`.
#[verifier::opaque]
pub open spec fn u64_at(m: Bytes, a: int) -> u64 {
    (u32_at(m, a) + 0x1_0000_0000 * u32_at(m, a + 4)) as u64
}

/// The `n` bytes from address `a` on.
pub open spec fn bytes_at(m: Bytes, a: int, n: nat) -> Seq<u8> {
    Seq::new(n, |i: int| byte_at(m, a + i))
}

/// The `n` little-endian `u64` words from address `a` on.
pub open spec fn words_at(m: Bytes, a: int, n: nat) -> Seq<u64> {
    Seq::new(n, |i: int| u64_at(m, a + 8 * i))
}

/// Memory that can be read byte by byte and does not change while it is read.
pub trait Memory {
    /// The readable bytes.
    spec fn bytes(&self) -> Bytes;

    /// Reads the byte at `addr`.
    fn read_u8(&self, addr: u64) -> (b: u8)
        requires
            self.bytes().contains_key(addr),
        ensures
            b == self.bytes()[addr],
    ;
}

/// A contiguous copy of memory: `data[i]` is the byte at address `base + i`.
#[derive(Debug, Clone)]
pub struct Snapshot {
    pub base: u64,
    pub data: Vec<u8>,
}

impl Memory for Snapshot {
    open spec fn bytes(&self) -> Bytes {
        Map::new(
            |k: u64| self.base <= k < self.base + self.data@.len(),
            |k: u64| self.data@[k - self.base],
        )
    }

    fn read_u8(&self, addr: u64) -> (b: u8) {
        let offset: u64 = addr - self.base;
        assert(offset < self.data.len());
        self.data[offset as usize]
    }
}

/// Reads the little-endian `u32` at `addr`.
pub fn read_u32<M: Memory>(mem: &M, addr: u64) -> (r: u32)
    requires
        readable(mem.bytes(), addr as int, 4),
    ensures
        r == u32_at(mem.bytes(), addr as int),
{
    proof {
        reveal(u32_at);
    }
    let b0 = mem.read_u8(addr) as u32;
    let b1 = mem.read_u8(addr + 1) as u32;
    let b2 = mem.read_u8(addr + 2) as u32;
    let b3 = mem.read_u8(addr + 3) as u32;
    b0 + 0x100 * b1 + 0x1_0000 * b2 + 0x100_0000 * b3
}

/// Reads the little-endian `u64` at `addr`.
pub fn read_u64<M: Memory>(mem: &M, addr: u64) -> (r: u64)
    requires
        readable(mem.bytes(), addr as int, 8),
    ensures
        r == u64_at(mem.bytes(), addr as int),
{
    proof {
        reveal(u64_at);
    }
    let lo = read_u32(mem, addr) as u64;
    let hi = read_u32(mem, addr + 4) as u64;
    lo + 0x1_0000_0000 * hi
}

/// Copies the `n` bytes from `addr` on.
pub fn read_bytes<M: Memory>(mem: &M, addr: u64, n: u64) -> (r: Vec<u8>)
    requires
        readable(mem.bytes(), addr as int, n as int),
    ensures
        r@ == bytes_at(mem.bytes(), addr as int, n as nat),
{
    let mut out: Vec<u8> = Vec::new();
    let mut i: u64 = 0;
    while i < n
        invariant
            i <= n,
            readable(mem.bytes(), addr as int, n as int),
            out@ == bytes_at(mem.bytes(), addr as int, i as nat),
        decreases n - i,
    {
        let b = mem.read_u8(addr + i);
        out.push(b);
        i = i + 1;
    }
    out
}

/// Copies the `n` little-endian `u64` words from `addr` on.
pub fn read_words<M: Memory>(mem: &M, addr: u64, n: u64) -> (r: Vec<u64>)
    requires
        readable(mem.bytes(), addr as int, 8 * n),
    ensures
        r@ == words_at(mem.bytes(), addr as int, n as nat),
{
    let mut out: Vec<u64> = Vec::new();
    let mut i: u64 = 0;
    while i < n
        invariant
            i <= n,
            readable(mem.bytes(), addr as int, 8 * n),
            out@ == words_at(mem.bytes(), addr as int, i as nat),
        decreases n - i,
    {
        let w = read_u64(mem, addr + 8 * i);
        out.push(w);
        i = i + 1;
    }
    out
}

} // verus!
