//! The packet: a header, the optional fields that its flags announce, the
//! payload and the optional trailer, with the codec in both directions.

use vstd::prelude::*;
use crate::class_id::ClassId;
use crate::error::{Error, ParseError};
use crate::header::{Header, PktType, Tsf, Tsi};
use crate::trailer::Trailer;
use crate::wire::{
    be32_bytes, be64_bytes, be_u32, be_u64, put_be32, put_be64, put_bytes, spec_be32, splice,
    u32_at, u64_at,
};

verus! {

/// One packet. The payload borrows from the buffer it was read from.
#[derive(Debug, PartialEq)]
pub struct VrtPacket<'a> {
    /// The header word.
    pub header: Header,
    /// Stream identifier, where the packet type has one.
    pub stream_id: Option<u32>,
    /// Class identifier, where the header announces one.
    pub class_id: Option<ClassId>,
    /// Integer-seconds timestamp.
    pub tsi: Option<u32>,
    /// Fractional-seconds timestamp.
    pub tsf: Option<u64>,
    /// The payload bytes.
    pub payload: &'a [u8],
    /// Trailer word, where the header announces one.
    pub trailer: Option<Trailer>,
}

/// A packet as a mathematical value: the payload is a sequence of bytes.
pub ghost struct PacketView {
    pub header: Header,
    pub stream_id: Option<u32>,
    pub class_id: Option<ClassId>,
    pub tsi: Option<u32>,
    pub tsf: Option<u64>,
    pub payload: Seq<u8>,
    pub trailer: Option<Trailer>,
}

impl<'a> View for VrtPacket<'a> {
    type V = PacketView;

    open spec fn view(&self) -> PacketView {
        PacketView {
            header: self.header,
            stream_id: self.stream_id,
            class_id: self.class_id,
            tsi: self.tsi,
            tsf: self.tsf,
            payload: self.payload@,
            trailer: self.trailer,
        }
    }
}

/// The bytes of an optional 32-bit field, none where it is absent.
pub open spec fn opt32_bytes(v: Option<u32>) -> Seq<u8> {
    match v {
        Some(v) => be32_bytes(v),
        None => Seq::<u8>::empty(),
    }
}

/// The bytes of an optional 64-bit field, none where it is absent.
pub open spec fn opt64_bytes(v: Option<u64>) -> Seq<u8> {
    match v {
        Some(v) => be64_bytes(v),
        None => Seq::<u8>::empty(),
    }
}

/// The bytes of an optional class identifier, none where it is absent.
pub open spec fn class_id_bytes(v: Option<ClassId>) -> Seq<u8> {
    match v {
        Some(c) => be64_bytes(c.word()),
        None => Seq::<u8>::empty(),
    }
}

/// The bytes of an optional trailer, none where it is absent.
pub open spec fn trailer_bytes(v: Option<Trailer>) -> Seq<u8> {
    match v {
        Some(t) => be32_bytes(t.word()),
        None => Seq::<u8>::empty(),
    }
}

/// Bytes taken by a field of `width` bytes that may be absent.
pub open spec fn width_if(present: bool, width: int) -> int {
    if present {
        width
    } else {
        0
    }
}

/// Offset of the class identifier, or of what follows where there is none.
pub open spec fn class_id_at(h: Header) -> int {
    4 + width_if(h.packet_type.has_stream_id(), 4)
}

/// Offset of the integer-seconds timestamp.
pub open spec fn tsi_at(h: Header) -> int {
    class_id_at(h) + width_if(h.c, 8)
}

/// Offset of the fractional-seconds timestamp.
pub open spec fn tsf_at(h: Header) -> int {
    tsi_at(h) + width_if(h.tsi != Tsi::Absent, 4)
}

/// Offset of the payload.
pub open spec fn payload_at(h: Header) -> int {
    tsf_at(h) + width_if(h.tsf != Tsf::Absent, 8)
}

/// Bytes that the header, the fields it announces and the trailer take:
/// the least size a packet with this header can have.
pub open spec fn fields_len(h: Header) -> int {
    payload_at(h) + width_if(h.t, 4)
}

/// Length in bytes that the header declares for the whole packet.
pub open spec fn declared_len(h: Header) -> int {
    h.packet_size * 4
}

/// The packet that the header `h` lays out over the bytes `s`.
pub open spec fn packet_in(h: Header, s: Seq<u8>) -> PacketView
    recommends
        fields_len(h) <= declared_len(h) <= s.len(),
{
    PacketView {
        header: h,
        stream_id: if h.packet_type.has_stream_id() {
            Some(u32_at(s, 4))
        } else {
            None
        },
        class_id: if h.c {
            ClassId::of_word(u64_at(s, class_id_at(h)))
        } else {
            None
        },
        tsi: if h.tsi != Tsi::Absent {
            Some(u32_at(s, tsi_at(h)))
        } else {
            None
        },
        tsf: if h.tsf != Tsf::Absent {
            Some(u64_at(s, tsf_at(h)))
        } else {
            None
        },
        payload: s.subrange(payload_at(h), declared_len(h) - width_if(h.t, 4)),
        trailer: if h.t {
            Some(Trailer::of_word(u32_at(s, declared_len(h) - 4)))
        } else {
            None
        },
    }
}

/// What decoding the bytes `s` gives: the input that follows the packet and
/// the packet, or the reason why there is none.
pub open spec fn spec_parse(s: Seq<u8>) -> Result<(Seq<u8>, PacketView), ParseError> {
    if s.len() < 4 {
        Err(ParseError::Incomplete((4 - s.len()) as usize))
    } else {
        match Header::of_word(spec_be32(s)) {
            None => Err(ParseError::Malformed),
            Some(h) => {
                if s.len() < declared_len(h) {
                    Err(ParseError::Incomplete(declared_len(h) as usize))
                } else if declared_len(h) < fields_len(h) {
                    Err(ParseError::Malformed)
                } else if h.c && packet_in(h, s).class_id is None {
                    Err(ParseError::Malformed)
                } else {
                    Ok((s.subrange(declared_len(h), s.len() as int), packet_in(h, s)))
                }
            },
        }
    }
}

impl PacketView {
    /// Each optional field is present exactly where the header announces
    /// it, and every record is well formed.
    pub open spec fn consistent(self) -> bool {
        &&& self.header.wf()
        &&& self.stream_id is Some <==> self.header.packet_type.has_stream_id()
        &&& self.class_id is Some <==> self.header.c
        &&& self.tsi is Some <==> self.header.tsi != Tsi::Absent
        &&& self.tsf is Some <==> self.header.tsf != Tsf::Absent
        &&& self.trailer is Some <==> self.header.t
        &&& self.class_id matches Some(c) ==> c.wf()
        &&& self.trailer matches Some(t) ==> t.wf()
    }

    /// The packet on the wire, with the header as it stands: the header
    /// word, then each optional field that the packet holds, the payload
    /// and the trailer.
    pub open spec fn wire_bytes(self) -> Seq<u8> {
        be32_bytes(self.header.word()) + opt32_bytes(self.stream_id) + class_id_bytes(
            self.class_id,
        ) + opt32_bytes(self.tsi) + opt64_bytes(self.tsf) + self.payload + trailer_bytes(
            self.trailer,
        )
    }

    /// Length of the packet on the wire, in bytes.
    pub open spec fn wire_len(self) -> int {
        4 + width_if(self.stream_id is Some, 4) + width_if(self.class_id is Some, 8) + width_if(
            self.tsi is Some,
            4,
        ) + width_if(self.tsf is Some, 8) + self.payload.len() + width_if(self.trailer is Some, 4)
    }

    /// The same packet with another packet size in its header.
    pub open spec fn with_size(self, packet_size: u16) -> PacketView {
        PacketView { header: self.header.with_size(packet_size), ..self }
    }
}

/// The payload length that a header leaves, or nothing where the declared
/// size cannot hold the fields that the header announces.
fn payload_budget(header: &Header) -> (r: Option<usize>)
    ensures
        match r {
            Some(b) => b == declared_len(*header) - fields_len(*header),
            None => declared_len(*header) < fields_len(*header),
        },
{
    let mut need: usize = 4;
    if header.packet_type.has_stream_id() {
        need += 4;
    }
    if header.c {
        need += 8;
    }
    if header.tsi != Tsi::Absent {
        need += 4;
    }
    if header.tsf != Tsf::Absent {
        need += 8;
    }
    if header.t {
        need += 4;
    }
    (header.packet_size as usize * 4).checked_sub(need)
}

/// Reads a 32-bit field at offset `off` of `s`, where it is present.
fn take_u32<'a>(present: bool, cur: &'a [u8], Ghost(s): Ghost<Seq<u8>>, Ghost(off): Ghost<int>) -> (r:
    Result<(&'a [u8], Option<u32>), ParseError>)
    requires
        0 <= off <= s.len(),
        cur@ == s.subrange(off, s.len() as int),
        present ==> off + 4 <= s.len(),
    ensures
        r matches Ok((next, v)) && next@ == s.subrange(off + width_if(present, 4), s.len() as int)
            && v == (if present {
            Some(u32_at(s, off))
        } else {
            None
        }),
{
    reveal(u32_at);
    if present {
        match be_u32(cur) {
            Err(e) => Err(e),
            Ok((next, v)) => {
                assert(next@ =~= s.subrange(off + 4, s.len() as int));
                Ok((next, Some(v)))
            },
        }
    } else {
        Ok((cur, None))
    }
}

/// Reads a 64-bit field at offset `off` of `s`, where it is present.
fn take_u64<'a>(present: bool, cur: &'a [u8], Ghost(s): Ghost<Seq<u8>>, Ghost(off): Ghost<int>) -> (r:
    Result<(&'a [u8], Option<u64>), ParseError>)
    requires
        0 <= off <= s.len(),
        cur@ == s.subrange(off, s.len() as int),
        present ==> off + 8 <= s.len(),
    ensures
        r matches Ok((next, v)) && next@ == s.subrange(off + width_if(present, 8), s.len() as int)
            && v == (if present {
            Some(u64_at(s, off))
        } else {
            None
        }),
{
    reveal(u64_at);
    if present {
        match be_u64(cur) {
            Err(e) => Err(e),
            Ok((next, v)) => {
                assert(next@ =~= s.subrange(off + 8, s.len() as int));
                Ok((next, Some(v)))
            },
        }
    } else {
        Ok((cur, None))
    }
}

/// Reads a class identifier at offset `off` of `s`, where it is present.
fn take_class_id<'a>(
    present: bool,
    cur: &'a [u8],
    Ghost(s): Ghost<Seq<u8>>,
    Ghost(off): Ghost<int>,
) -> (r: Result<(&'a [u8], Option<ClassId>), ParseError>)
    requires
        0 <= off <= s.len(),
        cur@ == s.subrange(off, s.len() as int),
        present ==> off + 8 <= s.len(),
    ensures
        match r {
            Ok((next, v)) => next@ == s.subrange(off + width_if(present, 8), s.len() as int) && v
                == (if present {
                ClassId::of_word(u64_at(s, off))
            } else {
                None
            }) && (present ==> v is Some) && (v matches Some(c) ==> c.wf()),
            Err(e) => present && e == ParseError::Malformed && ClassId::of_word(u64_at(s, off)) is None,
        },
{
    reveal(u64_at);
    if present {
        match ClassId::parse(cur) {
            Err(e) => Err(e),
            Ok((next, v)) => {
                assert(next@ =~= s.subrange(off + 8, s.len() as int));
                Ok((next, Some(v)))
            },
        }
    } else {
        Ok((cur, None))
    }
}

/// Reads a trailer at offset `off` of `s`, where it is present.
fn take_trailer<'a>(
    present: bool,
    cur: &'a [u8],
    Ghost(s): Ghost<Seq<u8>>,
    Ghost(off): Ghost<int>,
) -> (r: Result<(&'a [u8], Option<Trailer>), ParseError>)
    requires
        0 <= off <= s.len(),
        cur@ == s.subrange(off, s.len() as int),
        present ==> off + 4 <= s.len(),
    ensures
        r matches Ok((next, v)) && next@ == s.subrange(off + width_if(present, 4), s.len() as int)
            && v == (if present {
            Some(Trailer::of_word(u32_at(s, off)))
        } else {
            None
        }) && (v matches Some(t) ==> t.wf()),
{
    reveal(u32_at);
    if present {
        match Trailer::parse(cur) {
            Err(e) => Err(e),
            Ok((next, v)) => {
                assert(next@ =~= s.subrange(off + 4, s.len() as int));
                Ok((next, Some(v)))
            },
        }
    } else {
        Ok((cur, None))
    }
}

/// Splits off the `n` bytes at offset `off` of `s`.
fn take_bytes<'a>(n: usize, cur: &'a [u8], Ghost(s): Ghost<Seq<u8>>, Ghost(off): Ghost<int>) -> (r: (
    &'a [u8],
    &'a [u8],
))
    requires
        0 <= off,
        off + n <= s.len(),
        cur@ == s.subrange(off, s.len() as int),
    ensures
        r.0@ == s.subrange(off, off + n),
        r.1@ == s.subrange(off + n, s.len() as int),
{
    let (head, tail) = cur.split_at(n);
    assert(head@ =~= s.subrange(off, off + n));
    assert(tail@ =~= s.subrange(off + n, s.len() as int));
    (head, tail)
}

/// Writing `more` behind `done` is writing the two as one.
proof fn lemma_splice_append(base: Seq<u8>, done: Seq<u8>, more: Seq<u8>)
    ensures
        done.len() + more.len() <= base.len() ==> splice(
            splice(base, 0, done),
            done.len() as int,
            more,
        ) == splice(base, 0, done + more),
{
    if done.len() + more.len() <= base.len() {
        assert(splice(splice(base, 0, done), done.len() as int, more) =~= splice(
            base,
            0,
            done + more,
        ));
    }
}

/// Writing a new head over an old one of the same length replaces it.
proof fn lemma_splice_head(base: Seq<u8>, head: Seq<u8>, body: Seq<u8>, new_head: Seq<u8>)
    requires
        head.len() == new_head.len(),
        head.len() + body.len() <= base.len(),
    ensures
        splice(splice(base, 0, head + body), 0, new_head) == splice(base, 0, new_head + body),
{
    assert(splice(splice(base, 0, head + body), 0, new_head) =~= splice(
        base,
        0,
        new_head + body,
    ));
}

/// Writes an optional 32-bit field behind the `done` bytes already written and returns
/// the offset behind it.
fn write_opt32(
    v: Option<u32>,
    buffer: &mut [u8],
    offset: usize,
    Ghost(base): Ghost<Seq<u8>>,
    Ghost(done): Ghost<Seq<u8>>,
) -> (r: Result<usize, Error>)
    requires
        offset == done.len(),
        offset <= base.len(),
        old(buffer)@ == splice(base, 0, done),
        old(buffer)@.len() == base.len(),
    ensures
        final(buffer)@.len() == base.len(),
        match r {
            Ok(n) => n == offset + width_if(v is Some, 4) && n <= base.len() && n == (done
                + opt32_bytes(v)).len() && final(buffer)@ == splice(base, 0, done + opt32_bytes(v)),
            Err(e) => e == Error::BufferFull && base.len() < offset + width_if(v is Some, 4),
        },
{
    let cap: usize = buffer.len();
    proof {
        lemma_splice_append(base, done, opt32_bytes(v));
    }
    match v {
        Some(x) => {
            if cap - offset < 4 {
                return Err(Error::BufferFull);
            }
            put_be32(buffer, offset, x);
            Ok(offset + 4)
        },
        None => {
            assert(done + opt32_bytes(v) =~= done);
            Ok(offset)
        },
    }
}

/// Writes an optional 64-bit field behind the `done` bytes already written and returns
/// the offset behind it.
fn write_opt64(
    v: Option<u64>,
    buffer: &mut [u8],
    offset: usize,
    Ghost(base): Ghost<Seq<u8>>,
    Ghost(done): Ghost<Seq<u8>>,
) -> (r: Result<usize, Error>)
    requires
        offset == done.len(),
        offset <= base.len(),
        old(buffer)@ == splice(base, 0, done),
        old(buffer)@.len() == base.len(),
    ensures
        final(buffer)@.len() == base.len(),
        match r {
            Ok(n) => n == offset + width_if(v is Some, 8) && n <= base.len() && n == (done
                + opt64_bytes(v)).len() && final(buffer)@ == splice(base, 0, done + opt64_bytes(v)),
            Err(e) => e == Error::BufferFull && base.len() < offset + width_if(v is Some, 8),
        },
{
    let cap: usize = buffer.len();
    proof {
        lemma_splice_append(base, done, opt64_bytes(v));
    }
    match v {
        Some(x) => {
            if cap - offset < 8 {
                return Err(Error::BufferFull);
            }
            put_be64(buffer, offset, x);
            Ok(offset + 8)
        },
        None => {
            assert(done + opt64_bytes(v) =~= done);
            Ok(offset)
        },
    }
}

/// Writes an optional class identifier behind the `done` bytes already written and returns
/// the offset behind it.
fn write_class_id(
    v: Option<ClassId>,
    buffer: &mut [u8],
    offset: usize,
    Ghost(base): Ghost<Seq<u8>>,
    Ghost(done): Ghost<Seq<u8>>,
) -> (r: Result<usize, Error>)
    requires
        offset == done.len(),
        offset <= base.len(),
        old(buffer)@ == splice(base, 0, done),
        old(buffer)@.len() == base.len(),
    ensures
        final(buffer)@.len() == base.len(),
        match r {
            Ok(n) => n == offset + width_if(v is Some, 8) && n <= base.len() && n == (done
                + class_id_bytes(v)).len() && final(buffer)@ == splice(base, 0, done + class_id_bytes(v)),
            Err(e) => e == Error::BufferFull && base.len() < offset + width_if(v is Some, 8),
        },
{
    assert(buffer@.len() == buffer.len());
    proof {
        lemma_splice_append(base, done, class_id_bytes(v));
    }
    match v {
        Some(x) => {
            match x.serialize_at(buffer, offset) {
                Err(e) => Err(e),
                Ok(n) => Ok(offset + n),
            }
        },
        None => {
            assert(done + class_id_bytes(v) =~= done);
            Ok(offset)
        },
    }
}

/// Writes an optional trailer behind the `done` bytes already written and returns
/// the offset behind it.
fn write_trailer(
    v: Option<Trailer>,
    buffer: &mut [u8],
    offset: usize,
    Ghost(base): Ghost<Seq<u8>>,
    Ghost(done): Ghost<Seq<u8>>,
) -> (r: Result<usize, Error>)
    requires
        offset == done.len(),
        offset <= base.len(),
        old(buffer)@ == splice(base, 0, done),
        old(buffer)@.len() == base.len(),
    ensures
        final(buffer)@.len() == base.len(),
        match r {
            Ok(n) => n == offset + width_if(v is Some, 4) && n <= base.len() && n == (done
                + trailer_bytes(v)).len() && final(buffer)@ == splice(base, 0, done + trailer_bytes(v)),
            Err(e) => e == Error::BufferFull && base.len() < offset + width_if(v is Some, 4),
        },
{
    assert(buffer@.len() == buffer.len());
    proof {
        lemma_splice_append(base, done, trailer_bytes(v));
    }
    match v {
        Some(x) => {
            match x.serialize_at(buffer, offset) {
                Err(e) => Err(e),
                Ok(n) => Ok(offset + n),
            }
        },
        None => {
            assert(done + trailer_bytes(v) =~= done);
            Ok(offset)
        },
    }
}

/// Writes the payload behind the `done` bytes already written and returns
/// the offset behind it.
fn write_payload(
    v: &[u8],
    buffer: &mut [u8],
    offset: usize,
    Ghost(base): Ghost<Seq<u8>>,
    Ghost(done): Ghost<Seq<u8>>,
) -> (r: Result<usize, Error>)
    requires
        offset == done.len(),
        offset <= base.len(),
        old(buffer)@ == splice(base, 0, done),
        old(buffer)@.len() == base.len(),
    ensures
        final(buffer)@.len() == base.len(),
        match r {
            Ok(n) => n == offset + v@.len() && n <= base.len() && n == (done + v@).len() && final(buffer)@ == splice(base, 0, done + v@),
            Err(e) => e == Error::BufferFull && base.len() < offset + v@.len(),
        },
{
    let cap: usize = buffer.len();
    proof {
        lemma_splice_append(base, done, v@);
    }
    if cap - offset < v.len() {
        return Err(Error::BufferFull);
    }
    put_bytes(buffer, offset, v);
    Ok(offset + v.len())
}

/// Writing the header word anew over a packet changes the header alone.
proof fn lemma_rehead(
    base: Seq<u8>,
    head: Seq<u8>,
    new_head: Seq<u8>,
    sid: Seq<u8>,
    cid: Seq<u8>,
    tsi: Seq<u8>,
    tsf: Seq<u8>,
    pay: Seq<u8>,
    trl: Seq<u8>,
)
    requires
        head.len() == new_head.len(),
        (head + sid + cid + tsi + tsf + pay + trl).len() <= base.len(),
    ensures
        splice(splice(base, 0, head + sid + cid + tsi + tsf + pay + trl), 0, new_head) == splice(
            base,
            0,
            new_head + sid + cid + tsi + tsf + pay + trl,
        ),
{
    let body = sid + cid + tsi + tsf + pay + trl;
    assert(head + sid + cid + tsi + tsf + pay + trl =~= head + body);
    assert(new_head + sid + cid + tsi + tsf + pay + trl =~= new_head + body);
    lemma_splice_head(base, head, body, new_head);
}

impl<'a> VrtPacket<'a> {
    /// Reads one packet from the front of `i` and returns it with the input
    /// that follows it.
    ///
    /// The header decides which fields are read, in the order stream
    /// identifier, class identifier, integer-seconds timestamp,
    /// fractional-seconds timestamp; the payload is what the declared size
    /// leaves between them and the trailer. An input shorter than the
    /// declared size is incomplete; a declared size too small for the
    /// announced fields is malformed.
    pub fn parse(i: &'a [u8]) -> (r: Result<(&'a [u8], VrtPacket<'a>), ParseError>)
        ensures
            match r {
                Ok((rest, p)) => spec_parse(i@) == Ok::<(Seq<u8>, PacketView), ParseError>(
                    (rest@, p@),
                ) && p@.consistent(),
                Err(e) => spec_parse(i@) == Err::<(Seq<u8>, PacketView), ParseError>(e),
            },
    {
        let ghost s = i@;
        let (cur, header) = match Header::parse(i) {
            Err(e) => {
                return Err(e);
            },
            Ok(x) => x,
        };
        let expected: usize = header.packet_size as usize * 4;
        if i.len() < expected {
            return Err(ParseError::Incomplete(expected));
        }
        let budget: usize = match payload_budget(&header) {
            None => {
                return Err(ParseError::Malformed);
            },
            Some(b) => b,
        };
        let (cur, stream_id) = match take_u32(
            header.packet_type.has_stream_id(),
            cur,
            Ghost(s),
            Ghost(4),
        ) {
            Err(e) => {
                return Err(e);
            },
            Ok(x) => x,
        };
        let (cur, class_id) = match take_class_id(
            header.c,
            cur,
            Ghost(s),
            Ghost(class_id_at(header)),
        ) {
            Err(e) => {
                return Err(e);
            },
            Ok(x) => x,
        };
        let (cur, tsi) = match take_u32(
            header.tsi != Tsi::Absent,
            cur,
            Ghost(s),
            Ghost(tsi_at(header)),
        ) {
            Err(e) => {
                return Err(e);
            },
            Ok(x) => x,
        };
        let (cur, tsf) = match take_u64(
            header.tsf != Tsf::Absent,
            cur,
            Ghost(s),
            Ghost(tsf_at(header)),
        ) {
            Err(e) => {
                return Err(e);
            },
            Ok(x) => x,
        };
        let (payload, cur) = take_bytes(budget, cur, Ghost(s), Ghost(payload_at(header)));
        let (rest, trailer) = match take_trailer(
            header.t,
            cur,
            Ghost(s),
            Ghost(payload_at(header) + budget),
        ) {
            Err(e) => {
                return Err(e);
            },
            Ok(x) => x,
        };
        let packet = VrtPacket { header, stream_id, class_id, tsi, tsf, payload, trailer };
        assert(packet@ == packet_in(header, s));
        Ok((rest, packet))
    }

    /// Writes every field in wire order, with the header as it stands,
    /// and returns the number of bytes written.
    fn write_fields(&self, buffer: &mut [u8]) -> (r: Result<usize, Error>)
        ensures
            final(buffer)@.len() == old(buffer)@.len(),
            match r {
                Ok(n) => n == self@.wire_len() && n <= old(buffer)@.len() && final(buffer)@
                    == splice(old(buffer)@, 0, self@.wire_bytes()),
                Err(e) => e == Error::BufferFull && old(buffer)@.len() < self@.wire_len(),
            },
    {
        let ghost base = buffer@;
        let ghost head = be32_bytes(self.header.word());
        let ghost sid = opt32_bytes(self.stream_id);
        let ghost cid = class_id_bytes(self.class_id);
        let ghost tsi = opt32_bytes(self.tsi);
        let ghost tsf = opt64_bytes(self.tsf);
        let ghost pay = self.payload@;

        let offset: usize = match self.header.serialize_at(buffer, 0) {
            Err(e) => {
                return Err(e);
            },
            Ok(n) => n,
        };
        let offset: usize = match write_opt32(
            self.stream_id,
            buffer,
            offset,
            Ghost(base),
            Ghost(head),
        ) {
            Err(e) => {
                return Err(e);
            },
            Ok(n) => n,
        };
        let offset: usize = match write_class_id(
            self.class_id,
            buffer,
            offset,
            Ghost(base),
            Ghost(head + sid),
        ) {
            Err(e) => {
                return Err(e);
            },
            Ok(n) => n,
        };
        let offset: usize = match write_opt32(
            self.tsi,
            buffer,
            offset,
            Ghost(base),
            Ghost(head + sid + cid),
        ) {
            Err(e) => {
                return Err(e);
            },
            Ok(n) => n,
        };
        let offset: usize = match write_opt64(
            self.tsf,
            buffer,
            offset,
            Ghost(base),
            Ghost(head + sid + cid + tsi),
        ) {
            Err(e) => {
                return Err(e);
            },
            Ok(n) => n,
        };
        let offset: usize = match write_payload(
            self.payload,
            buffer,
            offset,
            Ghost(base),
            Ghost(head + sid + cid + tsi + tsf),
        ) {
            Err(e) => {
                return Err(e);
            },
            Ok(n) => n,
        };
        let offset: usize = match write_trailer(
            self.trailer,
            buffer,
            offset,
            Ghost(base),
            Ghost(head + sid + cid + tsi + tsf + pay),
        ) {
            Err(e) => {
                return Err(e);
            },
            Ok(n) => n,
        };
        Ok(offset)
    }

    /// Writes the packet into `buffer` and returns the number of bytes
    /// written.
    ///
    /// The fields go out in wire order, each one that the packet holds. The
    /// header's packet size is then set to the number of 32-bit words
    /// written, and the header word is written once more with it, so that
    /// the size on the wire always covers the bytes written exactly. Where
    /// the buffer is too short, the word count does not fit the size field,
    /// or the bytes are no whole number of words, the packet is left as it
    /// was and the buffer's contents are not defined; the three are tested
    /// in this order.
    pub fn serialize(&mut self, buffer: &mut [u8]) -> (r: Result<usize, Error>)
        ensures
            final(buffer)@.len() == old(buffer)@.len(),
            match r {
                Ok(n) => {
                    &&& n == old(self)@.wire_len()
                    &&& n <= old(buffer)@.len()
                    &&& n % 4 == 0
                    &&& n / 4 <= 0xffff
                    &&& final(self).header.packet_size * 4 == n
                    &&& *final(self) == (VrtPacket {
                        header: old(self).header.with_size((n / 4) as u16),
                        ..*old(self)
                    })
                    &&& final(buffer)@ == splice(old(buffer)@, 0, final(self)@.wire_bytes())
                },
                Err(e) => {
                    &&& *final(self) == *old(self)
                    &&& e == Error::BufferFull <==> old(buffer)@.len() < old(self)@.wire_len()
                    &&& e == Error::SizeOverflow <==> old(buffer)@.len() >= old(self)@.wire_len()
                        && old(self)@.wire_len() / 4 > 0xffff
                    &&& e == Error::Misaligned <==> old(buffer)@.len() >= old(self)@.wire_len()
                        && old(self)@.wire_len() / 4 <= 0xffff && old(self)@.wire_len() % 4 != 0
                },
            },
    {
        let ghost base = buffer@;
        let ghost head = be32_bytes(self.header.word());
        let ghost sid = opt32_bytes(self.stream_id);
        let ghost cid = class_id_bytes(self.class_id);
        let ghost tsi = opt32_bytes(self.tsi);
        let ghost tsf = opt64_bytes(self.tsf);
        let ghost pay = self.payload@;
        let ghost trl = trailer_bytes(self.trailer);
        let offset: usize = match self.write_fields(buffer) {
            Err(e) => {
                return Err(e);
            },
            Ok(n) => n,
        };
        let words: usize = offset / 4;
        if words > 0xffff {
            return Err(Error::SizeOverflow);
        }
        if offset % 4 != 0 {
            return Err(Error::Misaligned);
        }
        self.header.packet_size = words as u16;
        let _ = self.header.serialize_at(buffer, 0);
        proof {
            lemma_rehead(base, head, be32_bytes(self.header.word()), sid, cid, tsi, tsf, pay, trl);
        }
        Ok(offset)
    }
}

impl<'a> Default for VrtPacket<'a> {
    /// The default header, no optional field and an empty payload.
    fn default() -> (r: VrtPacket<'a>)
        ensures
            r.header == (Header {
                packet_type: PktType::IfData,
                c: false,
                t: false,
                tsi: Tsi::Absent,
                tsf: Tsf::Absent,
                packet_count: 0,
                packet_size: 0,
            }),
            r.stream_id is None,
            r.class_id is None,
            r.tsi is None,
            r.tsf is None,
            r.payload@.len() == 0,
            r.trailer is None,
            r@.consistent(),
    {
        let empty: &'a [u8] = &[];
        VrtPacket {
            header: Header::default(),
            stream_id: None,
            class_id: None,
            tsi: None,
            tsf: None,
            payload: empty,
            trailer: None,
        }
    }
}

} // verus!
