//! The trailer word: indicator bits with their enables, and the count of
//! associated context packets.

use vstd::prelude::*;
use crate::error::{Error, ParseError};
use crate::wire::{be32_bytes, be_u32, put_be32, spec_be32, splice};
use crate::header::bit;

verus! {

/// The optional last word of a packet.
#[derive(Debug, Clone, Copy, PartialEq, Eq, Structural)]
pub struct Trailer {
    /// Which of the indicators are meaningful, 12 bits.
    pub enables: u16,
    /// The indicators themselves, 12 bits.
    pub indicators: u16,
    /// The context packet count is meaningful.
    pub e: bool,
    /// Number of context packets associated with this packet, 7 bits.
    pub context_packet_count: u8,
}

impl Trailer {
    /// Every field fits the bits that the word has for it.
    pub open spec fn wf(&self) -> bool {
        self.enables < 0x1000 && self.indicators < 0x1000 && self.context_packet_count < 0x80
    }

    /// The trailer as a 32-bit word.
    pub open spec fn word(&self) -> u32 {
        (self.enables as u32) << 20 | (self.indicators as u32) << 8 | bit(self.e) << 7 | (
        self.context_packet_count as u32)
    }

    /// The trailer that a 32-bit word stands for.
    pub open spec fn of_word(w: u32) -> Trailer {
        Trailer {
            enables: (w >> 20) as u16,
            indicators: ((w >> 8) & 0xfff) as u16,
            e: (w >> 7) & 1 == 1,
            context_packet_count: (w & 0x7f) as u8,
        }
    }

    /// A trailer read back from its own word is the trailer itself.
    pub proof fn lemma_of_word_word(self)
        requires
            self.wf(),
        ensures
            Trailer::of_word(self.word()) == self,
    {
        let n: u32 = self.enables as u32;
        let i: u32 = self.indicators as u32;
        let e: u32 = bit(self.e);
        let c: u32 = self.context_packet_count as u32;
        let w: u32 = self.word();
        assert(w >> 20 == n && (w >> 8) & 0xfff == i && (w >> 7) & 1 == e && w & 0x7f == c)
            by (bit_vector)
            requires
                w == n << 20 | i << 8 | e << 7 | c,
                n < 0x1000,
                i < 0x1000,
                e < 2,
                c < 0x80,
        ;
    }

    /// Reads a trailer from the front of `i`.
    pub fn parse(i: &[u8]) -> (r: Result<(&[u8], Trailer), ParseError>)
        ensures
            match r {
                Ok((rest, t)) => i@.len() >= 4 && t == Trailer::of_word(spec_be32(i@)) && t.wf()
                    && rest@ == i@.subrange(4, i@.len() as int),
                Err(e) => i@.len() < 4 && e == ParseError::Incomplete((4 - i@.len()) as usize),
            },
    {
        match be_u32(i) {
            Err(e) => Err(e),
            Ok((rest, w)) => {
                assert(w >> 20 < 0x1000 && (w >> 8) & 0xfff < 0x1000 && w & 0x7f < 0x80)
                    by (bit_vector);
                Ok(
                    (
                        rest,
                        Trailer {
                            enables: (w >> 20) as u16,
                            indicators: ((w >> 8) & 0xfff) as u16,
                            e: (w >> 7) & 1 == 1,
                            context_packet_count: (w & 0x7f) as u8,
                        },
                    ),
                )
            },
        }
    }

    /// The trailer as a 32-bit word.
    pub fn to_word(&self) -> (w: u32)
        ensures
            w == self.word(),
    {
        let e: u32 = if self.e {
            1
        } else {
            0
        };
        (self.enables as u32) << 20 | (self.indicators as u32) << 8 | e << 7 | (
        self.context_packet_count as u32)
    }

    /// Writes the trailer word into `buffer` at `offset` and returns the
    /// number of bytes written, or fails where fewer than four bytes are
    /// left there.
    pub fn serialize_at(&self, buffer: &mut [u8], offset: usize) -> (r: Result<usize, Error>)
        requires
            offset <= old(buffer)@.len(),
        ensures
            final(buffer)@.len() == old(buffer)@.len(),
            match r {
                Ok(n) => n == 4 && offset + 4 <= old(buffer)@.len() && final(buffer)@ == splice(
                    old(buffer)@,
                    offset as int,
                    be32_bytes(self.word()),
                ),
                Err(e) => e == Error::BufferFull && old(buffer)@.len() < offset + 4
                    && final(buffer)@ == old(buffer)@,
            },
    {
        if buffer.len() - offset < 4 {
            return Err(Error::BufferFull);
        }
        put_be32(buffer, offset, self.to_word());
        Ok(4)
    }
}

} // verus!
