use vstd::prelude::*;

verus! {

/// Why a decode stopped. Every error aborts the whole extraction.
#[derive(Debug, Clone, Copy, PartialEq, Eq, Structural)]
pub enum RomError {
    /// An address crossed its bank window or left the loaded image.
    Address,
    /// An unknown selector, opcode or lookup value.
    Format,
    /// Decoded counts disagree with the structure that holds them.
    Consistency,
}

/// A byte in the bank-switched address space: a bank number and an offset
/// into the 16-bit window (`addr`).
#[derive(Default, Debug, Clone, Copy, PartialEq, Eq, Structural)]
pub struct Addr {
    pub bank: u8,
    pub addr: u16,
}

/// Linear position of an address inside the image.
pub open spec fn addr_pos(a: Addr) -> int {
    if a.addr >= 0x4000 {
        a.bank * 0x4000 + a.addr - 0x4000
    } else {
        a.addr as int
    }
}

/// First offset past the window that holds `a`.
pub open spec fn window_end(a: Addr) -> int {
    if a.addr >= 0x4000 {
        0x8000
    } else {
        0x4000
    }
}

/// Advancing `a` by `n` stays strictly inside its window.
pub open spec fn can_advance(a: Addr, n: int) -> bool {
    a.addr + n < window_end(a)
}

/// `a` advanced by `n` bytes (meaningful when `can_advance(a, n)`).
pub open spec fn advanced(a: Addr, n: int) -> Addr {
    Addr { bank: a.bank, addr: (a.addr + n) as u16 }
}

/// `n` bytes can be read one by one from `a`: each step stays in the window
/// and every byte lies inside the image.
pub open spec fn span_readable(s: Seq<u8>, a: Addr, n: int) -> bool {
    &&& 0 <= n
    &&& can_advance(a, n)
    &&& addr_pos(a) + n <= s.len()
}

/// Byte `k` of the image counted from `a`.
pub open spec fn rom_u8(s: Seq<u8>, a: Addr, k: int) -> u8 {
    s[addr_pos(a) + k]
}

/// Little-endian 16-bit value at byte `k` counted from `a`.
pub open spec fn rom_u16(s: Seq<u8>, a: Addr, k: int) -> u16 {
    (rom_u8(s, a, k) + 256 * rom_u8(s, a, k + 1)) as u16
}

/// The `n` bytes that start at byte `k` counted from `a`.
pub open spec fn rom_bytes(s: Seq<u8>, a: Addr, k: int, n: int) -> Seq<u8> {
    s.subrange(addr_pos(a) + k, addr_pos(a) + k + n)
}

pub proof fn lemma_advanced_pos(a: Addr, n: int)
    requires
        0 <= n,
        can_advance(a, n),
    ensures
        addr_pos(advanced(a, n)) == addr_pos(a) + n,
        window_end(advanced(a, n)) == window_end(a),
{
}

/// Readable spans shrink from the front: after one byte, `n - 1` remain.
pub proof fn lemma_span_step(s: Seq<u8>, a: Addr, n: int)
    requires
        span_readable(s, a, n),
        n >= 1,
    ensures
        span_readable(s, advanced(a, 1), n - 1),
        addr_pos(advanced(a, 1)) == addr_pos(a) + 1,
{
}

/// Every byte of a readable span can be read on its own.
pub proof fn lemma_span_inner(s: Seq<u8>, a: Addr, n: int, k: int)
    requires
        span_readable(s, a, n),
        0 <= k < n,
    ensures
        span_readable(s, advanced(a, k), 1),
        addr_pos(advanced(a, k)) == addr_pos(a) + k,
{
}

impl Addr {
    pub fn new(bank: u8, addr: u16) -> (r: Addr)
        ensures
            r.bank == bank,
            r.addr == addr,
    {
        Addr { bank, addr }
    }

    /// Linear position inside the image: offsets of the banked window select
    /// a byte of bank `bank`, lower offsets a byte of the fixed bank.
    pub fn pos(&self) -> (r: usize)
        ensures
            r == addr_pos(*self),
    {
        let addr = self.addr as usize;
        if addr >= 0x4000 {
            self.bank as usize * 0x4000 + addr - 0x4000
        } else {
            addr
        }
    }

    /// Moves the address `off` bytes forward and returns it. Fails, leaving
    /// the address as it was, when that would leave the window.
    pub fn add(&mut self, off: u16) -> (r: Result<Addr, RomError>)
        ensures
            r is Ok <==> can_advance(*old(self), off as int),
            r is Ok ==> r->Ok_0 == advanced(*old(self), off as int) && *final(self) == r->Ok_0,
            r is Err ==> r->Err_0 == RomError::Address && *final(self) == *old(self),
    {
        let end: u32 = if self.addr >= 0x4000 { 0x8000 } else { 0x4000 };
        if (self.addr as u32) + (off as u32) < end {
            self.addr = self.addr + off;
            Ok(*self)
        } else {
            Err(RomError::Address)
        }
    }
}

/// A cursor over the whole image: primitive little-endian reads that move
/// the cursor forward.
pub struct Reader<'a> {
    pub stream: &'a Vec<u8>,
    pub addr: Addr,
}

impl<'a> Reader<'a> {
    /// `n` bytes can be read from the cursor.
    pub open spec fn can_read(&self, n: int) -> bool {
        span_readable(self.stream@, self.addr, n)
    }

    pub open spec fn byte(&self, k: int) -> u8 {
        rom_u8(self.stream@, self.addr, k)
    }

    pub open spec fn word(&self, k: int) -> u16 {
        rom_u16(self.stream@, self.addr, k)
    }

    /// After a successful read of `n` bytes from `pre`: same image, cursor
    /// `n` bytes further.
    pub open spec fn moved_from(&self, pre: Reader<'a>, n: int) -> bool {
        &&& self.stream == pre.stream
        &&& self.addr == advanced(pre.addr, n)
    }

    pub fn new_at(stream: &'a Vec<u8>, addr: Addr) -> (r: Reader<'a>)
        ensures
            r.stream == stream,
            r.addr == addr,
    {
        Reader { stream, addr }
    }

    /// Whether `n` bytes can be read from the cursor.
    pub fn check_read(&self, n: usize) -> (r: bool)
        ensures
            r == self.can_read(n as int),
    {
        let end: u32 = if self.addr.addr >= 0x4000 { 0x8000 } else { 0x4000 };
        if n >= 0x8000 || (self.addr.addr as u32) + (n as u32) >= end {
            false
        } else {
            self.addr.pos() + n <= self.stream.len()
        }
    }

    /// Byte `k` from the cursor, without moving it.
    pub fn peek_u8(&self, k: usize) -> (r: u8)
        requires
            self.can_read(k + 1),
        ensures
            r == self.byte(k as int),
    {
        self.stream[self.addr.pos() + k]
    }

    /// Little-endian word at byte `k` from the cursor, without moving it.
    pub fn peek_u16(&self, k: usize) -> (r: u16)
        requires
            self.can_read(k + 2),
        ensures
            r == self.word(k as int),
    {
        let lo = self.stream[self.addr.pos() + k] as u16;
        let hi = self.stream[self.addr.pos() + k + 1] as u16;
        lo + 256 * hi
    }

    /// Moves the cursor over `n` bytes that were checked to be readable.
    pub fn advance(&mut self, n: usize)
        requires
            old(self).can_read(n as int),
        ensures
            final(self).moved_from(*old(self), n as int),
    {
        self.addr = Addr { bank: self.addr.bank, addr: self.addr.addr + n as u16 };
    }

    pub fn read_u8(&mut self) -> (r: Result<u8, RomError>)
        ensures
            r is Ok <==> old(self).can_read(1),
            r is Ok ==> r->Ok_0 == old(self).byte(0) && final(self).moved_from(*old(self), 1),
            r is Err ==> r->Err_0 == RomError::Address && *final(self) == *old(self),
    {
        if self.check_read(1) {
            let b = self.peek_u8(0);
            self.advance(1);
            Ok(b)
        } else {
            Err(RomError::Address)
        }
    }

    pub fn read_u16(&mut self) -> (r: Result<u16, RomError>)
        ensures
            r is Ok <==> old(self).can_read(2),
            r is Ok ==> r->Ok_0 == old(self).word(0) && final(self).moved_from(*old(self), 2),
            r is Err ==> r->Err_0 == RomError::Address && *final(self) == *old(self),
    {
        if self.check_read(2) {
            let w = self.peek_u16(0);
            self.advance(2);
            Ok(w)
        } else {
            Err(RomError::Address)
        }
    }

    /// Reads `n` consecutive bytes.
    pub fn read_u8s(&mut self, n: usize) -> (r: Result<Vec<u8>, RomError>)
        ensures
            r is Ok <==> old(self).can_read(n as int),
            r is Ok ==> r->Ok_0@ == rom_bytes(old(self).stream@, old(self).addr, 0, n as int)
                && final(self).moved_from(*old(self), n as int),
            r is Err ==> r->Err_0 == RomError::Address && *final(self) == *old(self),
    {
        if !self.check_read(n) {
            return Err(RomError::Address);
        }
        let mut dst: Vec<u8> = Vec::new();
        let mut i: usize = 0;
        while i < n
            invariant
                i <= n,
                self.can_read(n as int),
                dst@ == rom_bytes(self.stream@, self.addr, 0, i as int),
            decreases n - i,
        {
            dst.push(self.peek_u8(i));
            i = i + 1;
            assert(dst@ =~= rom_bytes(self.stream@, self.addr, 0, i as int));
        }
        self.advance(n);
        Ok(dst)
    }

    /// Moves the cursor to `addr`.
    pub fn seek(&mut self, addr: Addr)
        ensures
            final(self).stream == old(self).stream,
            final(self).addr == addr,
    {
        self.addr = addr;
    }

    /// Moves the cursor `offset` bytes forward; fails, leaving the cursor as
    /// it was, when that would leave the window.
    pub fn skip(&mut self, offset: u16) -> (r: Result<(), RomError>)
        ensures
            final(self).stream == old(self).stream,
            r is Ok <==> can_advance(old(self).addr, offset as int),
            r is Ok ==> final(self).addr == advanced(old(self).addr, offset as int),
            r is Err ==> r->Err_0 == RomError::Address && final(self).addr == old(self).addr,
    {
        match self.addr.add(offset) {
            Ok(_) => Ok(()),
            Err(e) => Err(e),
        }
    }
}

/// Fixed-size opaque chunks of `N` bytes, chunk `i` at `base + i * N`.
pub struct BlobSlicer<'a, const N: usize> {
    pub stream: &'a Vec<u8>,
    pub addr: Addr,
}

impl<'a, const N: usize> BlobSlicer<'a, N> {
    pub fn new_at(stream: &'a Vec<u8>, addr: Addr) -> (r: BlobSlicer<'a, N>)
        ensures
            r.stream == stream,
            r.addr == addr,
    {
        BlobSlicer { stream, addr }
    }

    /// Chunk `slice_index`: the `N` bytes at linear position
    /// `pos(base) + slice_index * N`; fails when they leave the image.
    pub fn slice_at(&self, slice_index: u8) -> (r: Result<Vec<u8>, RomError>)
        ensures
            r is Ok <==> addr_pos(self.addr) + (slice_index + 1) * N <= self.stream@.len(),
            r is Ok ==> r->Ok_0@ == rom_bytes(self.stream@, self.addr, slice_index * N, N as int),
            r is Err ==> r->Err_0 == RomError::Address,
    {
        let len = self.stream.len();
        let base = self.addr.pos();
        if N == 0 {
            if base <= len {
                let empty: Vec<u8> = Vec::new();
                assert(empty@ =~= rom_bytes(self.stream@, self.addr, slice_index * N, N as int));
                return Ok(empty);
            } else {
                return Err(RomError::Address);
            }
        }
        if N > len || base > len - N || slice_index as usize > (len - N - base) / N {
            proof {
                if N <= len && base <= len - N {
                    assert((slice_index as int) * N + N > len - base) by (nonlinear_arith)
                        requires
                            slice_index as int > (len - N - base) / (N as int),
                            N > 0,
                            len - N - base >= 0,
                    ;
                }
                assert((slice_index + 1) * N == slice_index * N + N) by (nonlinear_arith);
                assert(slice_index * N >= 0) by (nonlinear_arith);
            }
            return Err(RomError::Address);
        }
        assert((slice_index as int) * N <= len - N - base) by (nonlinear_arith)
            requires
                slice_index as int <= (len - N - base) / (N as int),
                N > 0,
                len - N - base >= 0,
        ;
        assert((slice_index + 1) * N == slice_index * N + N) by (nonlinear_arith);
        let start = base + slice_index as usize * N;
        assert(start + N <= len);
        let mut dst: Vec<u8> = Vec::new();
        let mut i: usize = 0;
        while i < N
            invariant
                i <= N,
                start == addr_pos(self.addr) + slice_index * N,
                start + N <= len,
                len == self.stream@.len(),
                dst@ == rom_bytes(self.stream@, self.addr, slice_index * N, i as int),
            decreases N - i,
        {
            dst.push(self.stream[start + i]);
            i = i + 1;
            assert(dst@ =~= rom_bytes(self.stream@, self.addr, slice_index * N, i as int));
        }
        Ok(dst)
    }
}

} // verus!
