//! A cursor over a byte slice.

use crate::bytes::be_value;
use vstd::prelude::*;

verus! {

/// What is left to read of a byte slice.
pub struct Reader<'a> {
    buf: &'a [u8],
}

impl<'a> View for Reader<'a> {
    type V = Seq<u8>;

    closed spec fn view(&self) -> Seq<u8> {
        self.buf@
    }
}

impl<'a> Reader<'a> {
    /// A reader of all of `buf`.
    pub fn new(buf: &'a [u8]) -> (r: Self)
        ensures
            r@ == buf@,
    {
        Self { buf }
    }

    /// Whether everything has been read.
    pub fn is_empty(&self) -> (b: bool)
        ensures
            b == (self@.len() == 0),
    {
        self.buf.is_empty()
    }

    /// Takes the next `n` bytes; takes nothing if there are fewer.
    pub fn take(&mut self, n: usize) -> (head: Option<&'a [u8]>)
        ensures
            match head {
                Some(h) => {
                    &&& n <= old(self)@.len()
                    &&& h@ == old(self)@.take(n as int)
                    &&& final(self)@ == old(self)@.skip(n as int)
                },
                None => n > old(self)@.len() && final(self)@ == old(self)@,
            },
    {
        if self.buf.len() < n {
            return None;
        }
        let (head, tail) = self.buf.split_at(n);
        self.buf = tail;
        Some(head)
    }

    /// Takes one byte.
    pub fn u8(&mut self) -> (v: Option<u8>)
        ensures
            match v {
                Some(b) => {
                    &&& 1 <= old(self)@.len()
                    &&& b == old(self)@[0]
                    &&& b == be_value(old(self)@.take(1))
                    &&& final(self)@ == old(self)@.skip(1)
                },
                None => 1 > old(self)@.len() && final(self)@ == old(self)@,
            },
    {
        let b = self.take(1)?;
        proof {
            reveal_with_fuel(be_value, 2);
        }
        Some(b[0])
    }

    /// Takes a big-endian number of two bytes.
    pub fn u16(&mut self) -> (v: Option<u16>)
        ensures
            match v {
                Some(x) => {
                    &&& 2 <= old(self)@.len()
                    &&& x == be_value(old(self)@.take(2))
                    &&& final(self)@ == old(self)@.skip(2)
                },
                None => 2 > old(self)@.len() && final(self)@ == old(self)@,
            },
    {
        let b = self.take(2)?;
        proof {
            reveal_with_fuel(be_value, 3);
        }
        Some(b[0] as u16 * 256 + b[1] as u16)
    }

    /// Takes a big-endian number of three bytes.
    pub fn u24(&mut self) -> (v: Option<u32>)
        ensures
            match v {
                Some(x) => {
                    &&& 3 <= old(self)@.len()
                    &&& x == be_value(old(self)@.take(3))
                    &&& x < 0x100_0000
                    &&& final(self)@ == old(self)@.skip(3)
                },
                None => 3 > old(self)@.len() && final(self)@ == old(self)@,
            },
    {
        let b = self.take(3)?;
        proof {
            reveal_with_fuel(be_value, 4);
        }
        Some(b[0] as u32 * 65536 + b[1] as u32 * 256 + b[2] as u32)
    }
}

} // verus!
