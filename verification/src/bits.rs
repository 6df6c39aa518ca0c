//! A bit string with a read position, as carried by the air interface.
use vstd::prelude::*;
use vstd::string::StringSliceAdditionalSpecFns;

use crate::text::ascii_to_string;

verus! {

pub struct BitBuffer {
    bits: Vec<bool>,
    pos: usize,
}

/// The character of a bit in a bit string.
pub open spec fn bit_char(b: bool) -> u8 {
    if b {
        49u8
    } else {
        48u8
    }
}

impl BitBuffer {
    /// All bits, read or not.
    pub closed spec fn bits(&self) -> Seq<bool> {
        self.bits@
    }

    /// The read position.
    pub closed spec fn pos(&self) -> int {
        self.pos as int
    }

    pub open spec fn wf(&self) -> bool {
        0 <= self.pos() <= self.bits().len()
    }

    pub fn new() -> (r: Self)
        ensures
            r.wf(),
            r.bits() == Seq::<bool>::empty(),
            r.pos() == 0,
    {
        BitBuffer { bits: Vec::new(), pos: 0 }
    }

    /// A buffer holding the given bits, read from the start.
    pub fn from_bits(bits: Vec<bool>) -> (r: Self)
        ensures
            r.wf(),
            r.bits() == bits@,
            r.pos() == 0,
    {
        BitBuffer { bits, pos: 0 }
    }

    /// A buffer holding a string of `0` and `1` characters, read from the start; a `1` is a
    /// set bit, any other character a clear one.
    pub fn from_bitstr(s: &str) -> (r: Self)
        ensures
            r.wf(),
            r.bits() == s.spec_bytes().map_values(|b: u8| b == 49u8),
            r.pos() == 0,
    {
        let bytes = s.as_bytes();
        let mut bits: Vec<bool> = Vec::new();
        let mut i: usize = 0;
        while i < bytes.len()
            invariant
                0 <= i <= bytes@.len(),
                bytes@ == s.spec_bytes(),
                bits@ == bytes@.take(i as int).map_values(|b: u8| b == 49u8),
            decreases bytes@.len() - i,
        {
            bits.push(bytes[i] == 49u8);
            proof {
                assert(bytes@.take(i + 1) =~= bytes@.take(i as int).push(bytes@[i as int]));
                assert(bits@ =~= bytes@.take(i + 1).map_values(|b: u8| b == 49u8));
            }
            i = i + 1;
        }
        proof {
            assert(bytes@.take(bytes@.len() as int) =~= bytes@);
        }
        BitBuffer { bits, pos: 0 }
    }

    pub fn get_len(&self) -> (r: usize)
        ensures
            r == self.bits().len(),
    {
        self.bits.len()
    }

    pub fn get_pos(&self) -> (r: usize)
        ensures
            r == self.pos(),
    {
        self.pos
    }

    pub fn get_len_remaining(&self) -> (r: usize)
        requires
            self.wf(),
        ensures
            r == self.bits().len() - self.pos(),
    {
        self.bits.len() - self.pos
    }

    /// Moves the read position.
    pub fn set_raw_pos(&mut self, pos: usize)
        requires
            pos <= old(self).bits().len(),
        ensures
            final(self).wf(),
            final(self).bits() == old(self).bits(),
            final(self).pos() == pos,
    {
        self.pos = pos;
    }

    /// Appends the next `n` unread bits of `src`, which are then read.
    pub fn copy_bits(&mut self, src: &mut BitBuffer, n: usize)
        requires
            old(src).wf(),
            n <= old(src).bits().len() - old(src).pos(),
        ensures
            final(self).bits() == old(self).bits() + old(src).bits().subrange(old(src).pos(), old(src).pos() + n),
            final(self).pos() == old(self).pos(),
            old(self).wf() ==> final(self).wf(),
            final(src).bits() == old(src).bits(),
            final(src).pos() == old(src).pos() + n,
            final(src).wf(),
    {
        let ghost before = self.bits@;
        let start = src.pos;
        assert(start + n <= src.bits.len());
        let mut i: usize = 0;
        while i < n
            invariant
                0 <= i <= n,
                start + n <= src.bits.len(),
                src.pos == start,
                src.bits@ == old(src).bits@,
                self.pos == old(self).pos,
                before == old(self).bits@,
                self.bits@ == before + src.bits@.subrange(start as int, start + i),
            decreases n - i,
        {
            self.bits.push(src.bits[start + i]);
            proof {
                assert(self.bits@ =~= before + src.bits@.subrange(start as int, start + i + 1));
            }
            i = i + 1;
        }
        src.pos = start + n;
    }

    /// The bits as a string of `0` and `1` characters.
    pub fn to_bitstr(&self) -> (s: String)
        ensures
            s@ == self.bits().map_values(|b: bool| bit_char(b) as char),
    {
        let mut bytes: Vec<u8> = Vec::new();
        let mut i: usize = 0;
        while i < self.bits.len()
            invariant
                0 <= i <= self.bits@.len(),
                bytes@ == self.bits@.take(i as int).map_values(|b: bool| bit_char(b)),
            decreases self.bits@.len() - i,
        {
            let c: u8 = if self.bits[i] {
                49u8
            } else {
                48u8
            };
            bytes.push(c);
            proof {
                assert(self.bits@.take(i + 1) =~= self.bits@.take(i as int).push(self.bits@[i as int]));
                assert(bytes@ =~= self.bits@.take(i + 1).map_values(|b: bool| bit_char(b)));
            }
            i = i + 1;
        }
        proof {
            assert(self.bits@.take(self.bits@.len() as int) =~= self.bits@);
        }
        let s = ascii_to_string(bytes);
        proof {
            assert(s@ =~= self.bits().map_values(|b: bool| bit_char(b) as char));
        }
        s
    }
}

} // verus!
