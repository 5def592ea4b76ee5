use vstd::prelude::*;

verus! {

/// The big-endian unsigned integer held by `s[p..p + 2]`.
pub open spec fn be16(s: Seq<u8>, p: int) -> int {
    s[p] * 256 + s[p + 1]
}

/// The big-endian unsigned integer held by `s[p..p + 4]`.
pub open spec fn be32(s: Seq<u8>, p: int) -> int {
    be16(s, p) * 65536 + be16(s, p + 2)
}

/// The big-endian unsigned integer held by `s[p..p + 8]`.
pub open spec fn be64(s: Seq<u8>, p: int) -> int {
    be32(s, p) * 4294967296 + be32(s, p + 4)
}

/// Reads the big-endian `u16` at `p`.
pub fn read_u16(s: &[u8], p: usize) -> (r: u16)
    requires
        p + 2 <= s@.len(),
    ensures
        r == be16(s@, p as int),
{
    s[p] as u16 * 256 + s[p + 1] as u16
}

/// Reads the big-endian `u32` at `p`.
pub fn read_u32(s: &[u8], p: usize) -> (r: u32)
    requires
        p + 4 <= s@.len(),
    ensures
        r == be32(s@, p as int),
{
    let _n = s.len();
    let hi = read_u16(s, p);
    let lo = read_u16(s, p + 2);
    hi as u32 * 65536 + lo as u32
}

/// Reads the big-endian `u64` at `p`.
pub fn read_u64(s: &[u8], p: usize) -> (r: u64)
    requires
        p + 8 <= s@.len(),
    ensures
        r == be64(s@, p as int),
{
    let _n = s.len();
    let hi = read_u32(s, p);
    let lo = read_u32(s, p + 4);
    hi as u64 * 4294967296 + lo as u64
}

/// A sequential big-endian reader over a byte slice.
pub struct Loader<'a> {
    data: &'a [u8],
    pos: usize,
}

impl<'a> Loader<'a> {
    /// The bytes being read.
    pub closed spec fn data(&self) -> Seq<u8> {
        self.data@
    }

    /// The offset of the next byte to read.
    pub closed spec fn pos(&self) -> int {
        self.pos as int
    }

    /// A position is never negative.
    pub proof fn lemma_pos_nonneg(&self)
        ensures
            0 <= self.pos(),
    {
    }

    pub fn new(data: &'a [u8]) -> (r: Loader<'a>)
        ensures
            r.data() == data@,
            r.pos() == 0,
    {
        Loader { data, pos: 0 }
    }

    pub fn position(&self) -> (r: usize)
        ensures
            r == self.pos(),
    {
        self.pos
    }

    /// Reads one byte; `None` at the end of the data.
    pub fn u1(&mut self) -> (r: Option<u8>)
        requires
            old(self).pos() <= old(self).data().len(),
        ensures
            final(self).data() == old(self).data(),
            final(self).pos() <= final(self).data().len(),
            old(self).pos() + 1 <= old(self).data().len() ==> r == Some(
                old(self).data()[old(self).pos()],
            ) && final(self).pos() == old(self).pos() + 1,
            old(self).pos() + 1 > old(self).data().len() ==> r is None,
    {
        if self.pos >= self.data.len() {
            return None;
        }
        let b = self.data[self.pos];
        self.pos = self.pos + 1;
        Some(b)
    }

    /// Reads a big-endian `u16`; `None` if fewer than two bytes are left.
    pub fn u2(&mut self) -> (r: Option<u16>)
        requires
            old(self).pos() <= old(self).data().len(),
        ensures
            final(self).data() == old(self).data(),
            final(self).pos() <= final(self).data().len(),
            old(self).pos() + 2 <= old(self).data().len() ==> r == Some(
                be16(old(self).data(), old(self).pos()) as u16,
            ) && final(self).pos() == old(self).pos() + 2,
            old(self).pos() + 2 > old(self).data().len() ==> r is None,
    {
        if self.data.len() - self.pos < 2 {
            return None;
        }
        let v = read_u16(self.data, self.pos);
        self.pos = self.pos + 2;
        Some(v)
    }

    /// Reads a big-endian `u32`; `None` if fewer than four bytes are left.
    pub fn u4(&mut self) -> (r: Option<u32>)
        requires
            old(self).pos() <= old(self).data().len(),
        ensures
            final(self).data() == old(self).data(),
            final(self).pos() <= final(self).data().len(),
            old(self).pos() + 4 <= old(self).data().len() ==> r == Some(
                be32(old(self).data(), old(self).pos()) as u32,
            ) && final(self).pos() == old(self).pos() + 4,
            old(self).pos() + 4 > old(self).data().len() ==> r is None,
    {
        if self.data.len() - self.pos < 4 {
            return None;
        }
        let v = read_u32(self.data, self.pos);
        self.pos = self.pos + 4;
        Some(v)
    }

    /// Reads a big-endian `u64`; `None` if fewer than eight bytes are left.
    pub fn u8(&mut self) -> (r: Option<u64>)
        requires
            old(self).pos() <= old(self).data().len(),
        ensures
            final(self).data() == old(self).data(),
            final(self).pos() <= final(self).data().len(),
            old(self).pos() + 8 <= old(self).data().len() ==> r == Some(
                be64(old(self).data(), old(self).pos()) as u64,
            ) && final(self).pos() == old(self).pos() + 8,
            old(self).pos() + 8 > old(self).data().len() ==> r is None,
    {
        if self.data.len() - self.pos < 8 {
            return None;
        }
        let v = read_u64(self.data, self.pos);
        self.pos = self.pos + 8;
        Some(v)
    }

    /// Reads `count` raw bytes; `None` if fewer are left.
    pub fn bytes(&mut self, count: usize) -> (r: Option<Vec<u8>>)
        requires
            old(self).pos() <= old(self).data().len(),
        ensures
            final(self).data() == old(self).data(),
            final(self).pos() <= final(self).data().len(),
            old(self).pos() + count <= old(self).data().len() ==> r is Some && r->Some_0@
                == old(self).data().subrange(old(self).pos(), old(self).pos() + count)
                && final(self).pos() == old(self).pos() + count,
            old(self).pos() + count > old(self).data().len() ==> r is None,
    {
        if self.data.len() - self.pos < count {
            return None;
        }
        let r = copy_range(self.data, self.pos, self.pos + count);
        self.pos = self.pos + count;
        Some(r)
    }
}

/// Copies `s[start..end]` into a new vector.
pub fn copy_range(s: &[u8], start: usize, end: usize) -> (r: Vec<u8>)
    requires
        start <= end <= s@.len(),
    ensures
        r@ == s@.subrange(start as int, end as int),
{
    let mut r: Vec<u8> = Vec::new();
    let mut i: usize = start;
    while i < end
        invariant
            start <= i <= end <= s@.len(),
            r@ == s@.subrange(start as int, i as int),
        decreases end - i,
    {
        r.push(s[i]);
        i = i + 1;
        proof {
            assert(r@ =~= s@.subrange(start as int, i as int));
        }
    }
    r
}

} // verus!
