//! The header word: packet type, presence flags, timestamp kinds, packet
//! count and total packet size.

use vstd::prelude::*;
use crate::error::{Error, ParseError};
use crate::wire::{be32_bytes, be_u32, put_be32, spec_be32, splice};

verus! {

/// The kind of a packet, held in the top four bits of the header word.
#[derive(Debug, Clone, Copy, PartialEq, Eq, Structural)]
pub enum PktType {
    /// IF data without a stream identifier.
    IfData,
    /// IF data with a stream identifier.
    IfDataWithStream,
    /// Extension data without a stream identifier.
    ExtData,
    /// Extension data with a stream identifier.
    ExtDataWithStream,
    /// IF context.
    IfContext,
    /// Extension context.
    ExtContext,
}

/// Where the integer-seconds timestamp comes from.
#[derive(Debug, Clone, Copy, PartialEq, Eq, Structural)]
pub enum Tsi {
    /// No integer-seconds timestamp is carried.
    Absent,
    /// Coordinated universal time.
    Utc,
    /// GPS time.
    Gps,
    /// Some other time base.
    Other,
}

/// What the fractional-seconds timestamp counts.
#[derive(Debug, Clone, Copy, PartialEq, Eq, Structural)]
pub enum Tsf {
    /// No fractional-seconds timestamp is carried.
    Absent,
    /// A count of samples.
    SampleCount,
    /// Picoseconds of real time.
    RealTime,
    /// A free-running count.
    FreeRunning,
}

/// The first word of every packet.
#[derive(Debug, Clone, Copy, PartialEq, Eq, Structural)]
pub struct Header {
    /// Kind of packet.
    pub packet_type: PktType,
    /// A class identifier follows.
    pub c: bool,
    /// A trailer word ends the packet.
    pub t: bool,
    /// Kind of integer-seconds timestamp.
    pub tsi: Tsi,
    /// Kind of fractional-seconds timestamp.
    pub tsf: Tsf,
    /// Modulo-16 count of packets in the stream.
    pub packet_count: u8,
    /// Length of the whole packet in 32-bit words, this word included.
    pub packet_size: u16,
}

impl PktType {
    /// The four-bit code of this kind.
    pub open spec fn code(self) -> u32 {
        match self {
            PktType::IfData => 0,
            PktType::IfDataWithStream => 1,
            PktType::ExtData => 2,
            PktType::ExtDataWithStream => 3,
            PktType::IfContext => 4,
            PktType::ExtContext => 5,
        }
    }

    /// The kind with the given code, if there is one.
    pub open spec fn of_code(code: u32) -> Option<PktType> {
        if code == 0 {
            Some(PktType::IfData)
        } else if code == 1 {
            Some(PktType::IfDataWithStream)
        } else if code == 2 {
            Some(PktType::ExtData)
        } else if code == 3 {
            Some(PktType::ExtDataWithStream)
        } else if code == 4 {
            Some(PktType::IfContext)
        } else if code == 5 {
            Some(PktType::ExtContext)
        } else {
            None
        }
    }

    /// Whether packets of this kind carry a stream identifier.
    pub open spec fn spec_has_stream_id(self) -> bool {
        self == PktType::IfDataWithStream || self == PktType::ExtDataWithStream
    }

    /// Whether packets of this kind carry a stream identifier.
    #[verifier::when_used_as_spec(spec_has_stream_id)]
    pub fn has_stream_id(self) -> (r: bool)
        ensures
            r == self.spec_has_stream_id(),
    {
        match self {
            PktType::IfDataWithStream => true,
            PktType::ExtDataWithStream => true,
            _ => false,
        }
    }

    fn to_code(self) -> (r: u32)
        ensures
            r == self.code(),
    {
        match self {
            PktType::IfData => 0,
            PktType::IfDataWithStream => 1,
            PktType::ExtData => 2,
            PktType::ExtDataWithStream => 3,
            PktType::IfContext => 4,
            PktType::ExtContext => 5,
        }
    }

    fn from_code(code: u32) -> (r: Option<PktType>)
        ensures
            r == PktType::of_code(code),
    {
        if code == 0 {
            Some(PktType::IfData)
        } else if code == 1 {
            Some(PktType::IfDataWithStream)
        } else if code == 2 {
            Some(PktType::ExtData)
        } else if code == 3 {
            Some(PktType::ExtDataWithStream)
        } else if code == 4 {
            Some(PktType::IfContext)
        } else if code == 5 {
            Some(PktType::ExtContext)
        } else {
            None
        }
    }
}

impl Tsi {
    /// The two-bit code of this kind.
    pub open spec fn code(self) -> u32 {
        match self {
            Tsi::Absent => 0,
            Tsi::Utc => 1,
            Tsi::Gps => 2,
            Tsi::Other => 3,
        }
    }

    /// The kind with the given two-bit code.
    pub open spec fn of_code(code: u32) -> Tsi {
        if code == 0 {
            Tsi::Absent
        } else if code == 1 {
            Tsi::Utc
        } else if code == 2 {
            Tsi::Gps
        } else {
            Tsi::Other
        }
    }

    fn to_code(self) -> (r: u32)
        ensures
            r == self.code(),
    {
        match self {
            Tsi::Absent => 0,
            Tsi::Utc => 1,
            Tsi::Gps => 2,
            Tsi::Other => 3,
        }
    }

    fn from_code(code: u32) -> (r: Tsi)
        ensures
            r == Tsi::of_code(code),
    {
        if code == 0 {
            Tsi::Absent
        } else if code == 1 {
            Tsi::Utc
        } else if code == 2 {
            Tsi::Gps
        } else {
            Tsi::Other
        }
    }
}

impl Tsf {
    /// The two-bit code of this kind.
    pub open spec fn code(self) -> u32 {
        match self {
            Tsf::Absent => 0,
            Tsf::SampleCount => 1,
            Tsf::RealTime => 2,
            Tsf::FreeRunning => 3,
        }
    }

    /// The kind with the given two-bit code.
    pub open spec fn of_code(code: u32) -> Tsf {
        if code == 0 {
            Tsf::Absent
        } else if code == 1 {
            Tsf::SampleCount
        } else if code == 2 {
            Tsf::RealTime
        } else {
            Tsf::FreeRunning
        }
    }

    fn to_code(self) -> (r: u32)
        ensures
            r == self.code(),
    {
        match self {
            Tsf::Absent => 0,
            Tsf::SampleCount => 1,
            Tsf::RealTime => 2,
            Tsf::FreeRunning => 3,
        }
    }

    fn from_code(code: u32) -> (r: Tsf)
        ensures
            r == Tsf::of_code(code),
    {
        if code == 0 {
            Tsf::Absent
        } else if code == 1 {
            Tsf::SampleCount
        } else if code == 2 {
            Tsf::RealTime
        } else {
            Tsf::FreeRunning
        }
    }
}

/// One when the flag is set, zero when it is not.
pub open spec fn bit(b: bool) -> u32 {
    if b {
        1u32
    } else {
        0u32
    }
}

impl Header {
    /// The packet count fits its four bits.
    pub open spec fn wf(&self) -> bool {
        self.packet_count < 16
    }

    /// The header as a 32-bit word.
    pub open spec fn word(&self) -> u32 {
        self.packet_type.code() << 28 | bit(self.c) << 27 | bit(self.t) << 26 | self.tsi.code()
            << 22 | self.tsf.code() << 20 | (self.packet_count as u32) << 16 | (
        self.packet_size as u32)
    }

    /// The header that a 32-bit word stands for, if its packet type is one
    /// of the defined kinds. The two reserved bits are not looked at.
    pub open spec fn of_word(w: u32) -> Option<Header> {
        match PktType::of_code(w >> 28) {
            Some(packet_type) => Some(
                Header {
                    packet_type,
                    c: (w >> 27) & 1 == 1,
                    t: (w >> 26) & 1 == 1,
                    tsi: Tsi::of_code((w >> 22) & 3),
                    tsf: Tsf::of_code((w >> 20) & 3),
                    packet_count: ((w >> 16) & 0xf) as u8,
                    packet_size: (w & 0xffff) as u16,
                },
            ),
            None => None,
        }
    }

    /// The same header with another packet size.
    pub open spec fn with_size(self, packet_size: u16) -> Header {
        Header { packet_size, ..self }
    }

    /// A header read back from its own word is the header itself.
    pub proof fn lemma_of_word_word(self)
        requires
            self.wf(),
        ensures
            Header::of_word(self.word()) == Some(self),
    {
        let p: u32 = self.packet_type.code();
        let c: u32 = bit(self.c);
        let t: u32 = bit(self.t);
        let i: u32 = self.tsi.code();
        let f: u32 = self.tsf.code();
        let n: u32 = self.packet_count as u32;
        let s: u32 = self.packet_size as u32;
        let w: u32 = self.word();
        assert(w >> 28 == p && (w >> 27) & 1 == c && (w >> 26) & 1 == t && (w >> 22) & 3 == i && (w
            >> 20) & 3 == f && (w >> 16) & 0xf == n && w & 0xffff == s) by (bit_vector)
            requires
                w == p << 28 | c << 27 | t << 26 | i << 22 | f << 20 | n << 16 | s,
                p < 16,
                c < 2,
                t < 2,
                i < 4,
                f < 4,
                n < 16,
                s < 0x10000,
        ;
    }

    /// Reads a header from the front of `i`.
    pub fn parse(i: &[u8]) -> (r: Result<(&[u8], Header), ParseError>)
        ensures
            match r {
                Ok((rest, h)) => i@.len() >= 4 && Header::of_word(spec_be32(i@)) == Some(h)
                    && h.wf() && rest@ == i@.subrange(4, i@.len() as int),
                Err(e) => if i@.len() < 4 {
                    e == ParseError::Incomplete((4 - i@.len()) as usize)
                } else {
                    e == ParseError::Malformed && Header::of_word(spec_be32(i@)) is None
                },
            },
    {
        match be_u32(i) {
            Err(e) => Err(e),
            Ok((rest, w)) => {
                assert((w >> 16) & 0xf < 16) by (bit_vector);
                assert(w & 0xffff < 0x10000) by (bit_vector);
                match PktType::from_code(w >> 28) {
                    None => Err(ParseError::Malformed),
                    Some(packet_type) => Ok(
                        (
                            rest,
                            Header {
                                packet_type,
                                c: (w >> 27) & 1 == 1,
                                t: (w >> 26) & 1 == 1,
                                tsi: Tsi::from_code((w >> 22) & 3),
                                tsf: Tsf::from_code((w >> 20) & 3),
                                packet_count: ((w >> 16) & 0xf) as u8,
                                packet_size: (w & 0xffff) as u16,
                            },
                        ),
                    ),
                }
            },
        }
    }

    /// The header as a 32-bit word.
    pub fn to_word(&self) -> (w: u32)
        ensures
            w == self.word(),
    {
        let c: u32 = if self.c {
            1
        } else {
            0
        };
        let t: u32 = if self.t {
            1
        } else {
            0
        };
        self.packet_type.to_code() << 28 | c << 27 | t << 26 | self.tsi.to_code() << 22
            | self.tsf.to_code() << 20 | (self.packet_count as u32) << 16 | (
        self.packet_size as u32)
    }

    /// Writes the header word into `buffer` at `offset` and returns the
    /// number of bytes written, or fails where fewer than four bytes are
    /// left there.
    pub fn serialize_at(&self, buffer: &mut [u8], offset: usize) -> (r: Result<usize, Error>)
        requires
            offset <= old(buffer)@.len(),
        ensures
            final(buffer)@.len() == old(buffer)@.len(),
            match r {
                Ok(n) => n == 4 && offset + 4 <= old(buffer)@.len() && final(buffer)@ == splice(
                    old(buffer)@,
                    offset as int,
                    be32_bytes(self.word()),
                ),
                Err(e) => e == Error::BufferFull && old(buffer)@.len() < offset + 4
                    && final(buffer)@ == old(buffer)@,
            },
    {
        if buffer.len() - offset < 4 {
            return Err(Error::BufferFull);
        }
        put_be32(buffer, offset, self.to_word());
        Ok(4)
    }
}

impl Default for Header {
    /// An IF data packet without optional fields, count and size zero.
    fn default() -> (r: Header)
        ensures
            r == (Header {
                packet_type: PktType::IfData,
                c: false,
                t: false,
                tsi: Tsi::Absent,
                tsf: Tsf::Absent,
                packet_count: 0,
                packet_size: 0,
            }),
    {
        Header {
            packet_type: PktType::IfData,
            c: false,
            t: false,
            tsi: Tsi::Absent,
            tsf: Tsf::Absent,
            packet_count: 0,
            packet_size: 0,
        }
    }
}

} // verus!
