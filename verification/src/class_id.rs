//! The class identifier: two words naming the organisation and the classes
//! that describe the packet's contents.

use vstd::prelude::*;
use crate::error::{Error, ParseError};
use crate::wire::{be64_bytes, be_u64, put_be64, spec_be64, splice};

verus! {

/// The optional class identifier of a packet.
#[derive(Debug, Clone, Copy, PartialEq, Eq, Structural)]
pub struct ClassId {
    /// Organisationally unique identifier, 24 bits.
    pub oui: u32,
    /// Information class code.
    pub information_class: u16,
    /// Packet class code.
    pub packet_class: u16,
}

impl ClassId {
    /// The identifier of the organisation fits its 24 bits.
    pub open spec fn wf(&self) -> bool {
        self.oui <= 0xff_ffff
    }

    /// The class identifier as a 64-bit value.
    pub open spec fn word(&self) -> u64 {
        (self.oui as u64) << 32 | (self.information_class as u64) << 16 | (
        self.packet_class as u64)
    }

    /// The class identifier that a 64-bit value stands for, if its top byte,
    /// which is reserved, is zero.
    pub open spec fn of_word(w: u64) -> Option<ClassId> {
        if w >> 32 <= 0xff_ffff {
            Some(
                ClassId {
                    oui: (w >> 32) as u32,
                    information_class: ((w >> 16) & 0xffff) as u16,
                    packet_class: (w & 0xffff) as u16,
                },
            )
        } else {
            None
        }
    }

    /// A class identifier read back from its own value is itself.
    pub proof fn lemma_of_word_word(self)
        requires
            self.wf(),
        ensures
            ClassId::of_word(self.word()) == Some(self),
    {
        let o: u64 = self.oui as u64;
        let i: u64 = self.information_class as u64;
        let p: u64 = self.packet_class as u64;
        let w: u64 = self.word();
        assert(w >> 32 == o && (w >> 16) & 0xffff == i && w & 0xffff == p) by (bit_vector)
            requires
                w == o << 32 | i << 16 | p,
                o <= 0xff_ffff,
                i < 0x10000,
                p < 0x10000,
        ;
    }

    /// Reads a class identifier from the front of `i`.
    pub fn parse(i: &[u8]) -> (r: Result<(&[u8], ClassId), ParseError>)
        ensures
            match r {
                Ok((rest, c)) => i@.len() >= 8 && ClassId::of_word(spec_be64(i@)) == Some(c)
                    && c.wf() && rest@ == i@.subrange(8, i@.len() as int),
                Err(e) => if i@.len() < 8 {
                    e == ParseError::Incomplete((8 - i@.len()) as usize)
                } else {
                    e == ParseError::Malformed && ClassId::of_word(spec_be64(i@)) is None
                },
            },
    {
        match be_u64(i) {
            Err(e) => Err(e),
            Ok((rest, w)) => {
                if w >> 32 > 0xff_ffff {
                    return Err(ParseError::Malformed);
                }
                assert((w >> 16) & 0xffff < 0x10000) by (bit_vector);
                assert(w & 0xffff < 0x10000) by (bit_vector);
                Ok(
                    (
                        rest,
                        ClassId {
                            oui: (w >> 32) as u32,
                            information_class: ((w >> 16) & 0xffff) as u16,
                            packet_class: (w & 0xffff) as u16,
                        },
                    ),
                )
            },
        }
    }

    /// The class identifier as a 64-bit value.
    pub fn to_word(&self) -> (w: u64)
        ensures
            w == self.word(),
    {
        (self.oui as u64) << 32 | (self.information_class as u64) << 16 | (
        self.packet_class as u64)
    }

    /// Writes the two words into `buffer` at `offset` and returns the number
    /// of bytes written, or fails where fewer than eight bytes are left
    /// there.
    pub fn serialize_at(&self, buffer: &mut [u8], offset: usize) -> (r: Result<usize, Error>)
        requires
            offset <= old(buffer)@.len(),
        ensures
            final(buffer)@.len() == old(buffer)@.len(),
            match r {
                Ok(n) => n == 8 && offset + 8 <= old(buffer)@.len() && final(buffer)@ == splice(
                    old(buffer)@,
                    offset as int,
                    be64_bytes(self.word()),
                ),
                Err(e) => e == Error::BufferFull && old(buffer)@.len() < offset + 8
                    && final(buffer)@ == old(buffer)@,
            },
    {
        if buffer.len() - offset < 8 {
            return Err(Error::BufferFull);
        }
        put_be64(buffer, offset, self.to_word());
        Ok(8)
    }
}

} // verus!
