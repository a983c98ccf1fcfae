//! What holds between encoding and decoding.

use vstd::prelude::*;
use crate::error::ParseError;
use crate::header::{Header, Tsf, Tsi};
use crate::packet::{
    class_id_at, class_id_bytes, declared_len, fields_len, opt32_bytes, opt64_bytes, packet_in,
    payload_at, spec_parse, trailer_bytes, tsf_at, tsi_at, width_if, PacketView,
};
use crate::wire::{
    be32_bytes, be64_bytes, lemma_be32_of_bytes, lemma_be64_of_bytes, spec_be32, splice, u32_at,
    u64_at,
};

verus! {

/// `a` is how `s` begins.
pub open spec fn is_prefix(a: Seq<u8>, s: Seq<u8>) -> bool {
    a.len() <= s.len() && s.subrange(0, a.len() as int) == a
}

/// A sequence begins with its own first part.
proof fn lemma_prefix_front(a: Seq<u8>, b: Seq<u8>)
    ensures
        is_prefix(a, a + b),
{
    assert((a + b).subrange(0, a.len() as int) =~= a);
}

/// What begins with two parts begins with the first of them.
proof fn lemma_prefix_shorter(a: Seq<u8>, b: Seq<u8>, s: Seq<u8>)
    requires
        is_prefix(a + b, s),
    ensures
        is_prefix(a, s),
{
    assert(s.subrange(0, a.len() as int) =~= (a + b).subrange(0, a.len() as int));
    assert((a + b).subrange(0, a.len() as int) =~= a);
}

/// The second of two parts that `s` begins with stands behind the first.
proof fn lemma_prefix_part(a: Seq<u8>, b: Seq<u8>, s: Seq<u8>)
    requires
        is_prefix(a + b, s),
    ensures
        s.subrange(a.len() as int, (a.len() + b.len()) as int) == b,
{
    let ab = a + b;
    assert(s.subrange(a.len() as int, (a.len() + b.len()) as int) =~= s.subrange(
        0,
        ab.len() as int,
    ).subrange(a.len() as int, ab.len() as int));
    assert(ab.subrange(a.len() as int, ab.len() as int) =~= b);
}

/// A 32-bit value is read back from where its bytes stand.
proof fn lemma_read32(pre: Seq<u8>, v: u32, s: Seq<u8>)
    requires
        is_prefix(pre + be32_bytes(v), s),
    ensures
        u32_at(s, pre.len() as int) == v,
{
    reveal(u32_at);
    let b = be32_bytes(v);
    let x = s.subrange(pre.len() as int, s.len() as int);
    lemma_be32_of_bytes(v);
    lemma_prefix_part(pre, b, s);
    let y = s.subrange(pre.len() as int, (pre.len() + 4) as int);
    assert(x[0] == y[0] && x[1] == y[1] && x[2] == y[2] && x[3] == y[3]);
}

/// A 64-bit value is read back from where its bytes stand.
proof fn lemma_read64(pre: Seq<u8>, v: u64, s: Seq<u8>)
    requires
        is_prefix(pre + be64_bytes(v), s),
    ensures
        u64_at(s, pre.len() as int) == v,
{
    reveal(u64_at);
    let b = be64_bytes(v);
    let x = s.subrange(pre.len() as int, s.len() as int);
    lemma_be64_of_bytes(v);
    lemma_prefix_part(pre, b, s);
    let y = s.subrange(pre.len() as int, (pre.len() + 8) as int);
    assert(x[0] == y[0] && x[1] == y[1] && x[2] == y[2] && x[3] == y[3]);
    assert(x.subrange(4, 8) =~= y.subrange(4, 8));
}

/// The length on the wire is the length of the bytes on the wire; with
/// the optional fields that the header announces, it is the length of
/// those fields and of the payload.
pub proof fn lemma_wire_len(p: PacketView)
    ensures
        p.wire_bytes().len() == p.wire_len(),
        p.consistent() ==> p.wire_len() == fields_len(p.header) + p.payload.len(),
{
}

/// Decoding inverts the wire form: a packet whose optional fields agree
/// with its header flags, and whose header declares the size that the
/// packet has on the wire, is read back unchanged from its bytes, with
/// whatever follows them left over.
pub proof fn lemma_decode_wire_bytes(p: PacketView, tail: Seq<u8>)
    requires
        p.consistent(),
        declared_len(p.header) == p.wire_len(),
    ensures
        spec_parse(p.wire_bytes() + tail) == Ok::<(Seq<u8>, PacketView), ParseError>((tail, p)),
{
    let h = p.header;
    let head = be32_bytes(h.word());
    let sid = opt32_bytes(p.stream_id);
    let cid = class_id_bytes(p.class_id);
    let tsi = opt32_bytes(p.tsi);
    let tsf = opt64_bytes(p.tsf);
    let pay = p.payload;
    let trl = trailer_bytes(p.trailer);
    let w1 = head + sid;
    let w2 = w1 + cid;
    let w3 = w2 + tsi;
    let w4 = w3 + tsf;
    let w5 = w4 + pay;
    let w6 = w5 + trl;
    let s = w6 + tail;
    let end = s.len() as int;
    assert(w6 == p.wire_bytes());
    lemma_wire_len(p);
    lemma_prefix_front(w6, tail);
    lemma_prefix_shorter(w5, trl, s);
    lemma_prefix_shorter(w4, pay, s);
    lemma_prefix_shorter(w3, tsf, s);
    lemma_prefix_shorter(w2, tsi, s);
    lemma_prefix_shorter(w1, cid, s);
    lemma_prefix_shorter(head, sid, s);
    assert(head.len() == 4 && w1.len() == class_id_at(h) && w2.len() == tsi_at(h) && w3.len()
        == tsf_at(h) && w4.len() == payload_at(h) && w5.len() == payload_at(h) + pay.len()
        && w6.len() == declared_len(h));
    assert(spec_be32(s) == h.word()) by {
        reveal(u32_at);
        assert(Seq::<u8>::empty() + head =~= head);
        lemma_read32(Seq::<u8>::empty(), h.word(), s);
        assert(s.subrange(0, end) =~= s);
    }
    h.lemma_of_word_word();
    let q = packet_in(h, s);
    assert(q.stream_id == p.stream_id) by {
        if let Some(v) = p.stream_id {
            lemma_read32(head, v, s);
        }
    }
    assert(q.class_id == p.class_id) by {
        if let Some(c) = p.class_id {
            lemma_read64(w1, c.word(), s);
            c.lemma_of_word_word();
        }
    }
    assert(q.tsi == p.tsi) by {
        if let Some(v) = p.tsi {
            lemma_read32(w2, v, s);
        }
    }
    assert(q.tsf == p.tsf) by {
        if let Some(v) = p.tsf {
            lemma_read64(w3, v, s);
        }
    }
    assert(q.payload == p.payload) by {
        lemma_prefix_part(w4, pay, s);
    }
    assert(q.trailer == p.trailer) by {
        if let Some(t) = p.trailer {
            lemma_read32(w5, t.word(), s);
            t.lemma_of_word_word();
        }
    }
    assert(s.subrange(declared_len(h), end) =~= tail);
    assert(q == p);
}

/// Round trip: a packet whose optional fields agree with its header flags,
/// and which encoding accepts (its length is a whole number of words, and
/// their count fits the size field), is given back by decoding the encoded
/// bytes, with the packet size that encoding has set, and what follows
/// those bytes is left over.
pub proof fn lemma_round_trip(p: PacketView, tail: Seq<u8>)
    requires
        p.consistent(),
        p.wire_len() % 4 == 0,
        p.wire_len() / 4 <= 0xffff,
    ensures
        ({
            let q = p.with_size((p.wire_len() / 4) as u16);
            spec_parse(q.wire_bytes() + tail) == Ok::<(Seq<u8>, PacketView), ParseError>((tail, q))
        }),
{
    let q = p.with_size((p.wire_len() / 4) as u16);
    assert(q.consistent());
    assert(q.wire_len() == p.wire_len());
    assert(declared_len(q.header) == q.wire_len());
    lemma_decode_wire_bytes(q, tail);
}

/// Two byte strings that agree on their first `n` bytes hold the same
/// 32-bit value at every offset within them.
proof fn lemma_u32_at_agrees(s: Seq<u8>, t: Seq<u8>, n: int, off: int)
    requires
        0 <= off,
        off + 4 <= n,
        n <= s.len(),
        n <= t.len(),
        s.subrange(0, n) == t.subrange(0, n),
    ensures
        u32_at(s, off) == u32_at(t, off),
{
    reveal(u32_at);
    let a = s.subrange(0, n);
    let b = t.subrange(0, n);
    let x = s.subrange(off, s.len() as int);
    let y = t.subrange(off, t.len() as int);
    assert(x[0] == a[off] && x[1] == a[off + 1] && x[2] == a[off + 2] && x[3] == a[off + 3]);
    assert(y[0] == b[off] && y[1] == b[off + 1] && y[2] == b[off + 2] && y[3] == b[off + 3]);
}

/// Two byte strings that agree on their first `n` bytes hold the same
/// 64-bit value at every offset within them.
proof fn lemma_u64_at_agrees(s: Seq<u8>, t: Seq<u8>, n: int, off: int)
    requires
        0 <= off,
        off + 8 <= n,
        n <= s.len(),
        n <= t.len(),
        s.subrange(0, n) == t.subrange(0, n),
    ensures
        u64_at(s, off) == u64_at(t, off),
{
    reveal(u64_at);
    let a = s.subrange(0, n);
    let b = t.subrange(0, n);
    let x = s.subrange(off, s.len() as int);
    let y = t.subrange(off, t.len() as int);
    assert(x[0] == a[off] && x[1] == a[off + 1] && x[2] == a[off + 2] && x[3] == a[off + 3]);
    assert(y[0] == b[off] && y[1] == b[off + 1] && y[2] == b[off + 2] && y[3] == b[off + 3]);
    assert(x.subrange(4, 8) =~= a.subrange(off + 4, off + 8));
    assert(y.subrange(4, 8) =~= b.subrange(off + 4, off + 8));
}

/// Field order: behind the header word stand the stream identifier, the
/// class identifier, the integer-seconds timestamp and the
/// fractional-seconds timestamp, in this order, each taking its width where
/// the header announces it and nothing where it does not; the payload
/// follows, and the trailer word is counted last.
pub proof fn lemma_field_order(h: Header)
    ensures
        class_id_at(h) == 4 + width_if(h.packet_type.has_stream_id(), 4),
        tsi_at(h) == class_id_at(h) + width_if(h.c, 8),
        tsf_at(h) == tsi_at(h) + width_if(h.tsi != Tsi::Absent, 4),
        payload_at(h) == tsf_at(h) + width_if(h.tsf != Tsf::Absent, 8),
        fields_len(h) == payload_at(h) + width_if(h.t, 4),
        4 <= class_id_at(h) <= tsi_at(h) <= tsf_at(h) <= payload_at(h) <= fields_len(h) <= 32,
{
}

/// A packet whose declared size cannot hold the fields that its own header
/// announces is malformed, however many bytes follow the header.
pub proof fn lemma_short_size_is_malformed(s: Seq<u8>, h: Header)
    requires
        s.len() >= 4,
        Header::of_word(spec_be32(s)) == Some(h),
        declared_len(h) <= s.len(),
        declared_len(h) < fields_len(h),
    ensures
        spec_parse(s) == Err::<(Seq<u8>, PacketView), ParseError>(ParseError::Malformed),
{
}

/// Incomplete input: cut short of the size that its header declares, a
/// byte string decodes to the request for that many bytes; cut within the
/// header word, to the request for the rest of the word.
pub proof fn lemma_truncated_is_incomplete(s: Seq<u8>, h: Header, k: int)
    requires
        s.len() >= 4,
        Header::of_word(spec_be32(s)) == Some(h),
        0 <= k <= s.len(),
        k < declared_len(h),
    ensures
        spec_parse(s.subrange(0, k)) == Err::<(Seq<u8>, PacketView), ParseError>(
            ParseError::Incomplete(
                if k < 4 {
                    (4 - k) as usize
                } else {
                    declared_len(h) as usize
                },
            ),
        ),
{
    let t = s.subrange(0, k);
    if k >= 4 {
        assert(t[0] == s[0] && t[1] == s[1] && t[2] == s[2] && t[3] == s[3]);
    }
}

/// Decoding reads the packet's own bytes and no others: where a byte
/// string holds a packet, every byte string that begins with the same
/// bytes, up to the size declared, holds the same packet, and what follows
/// those bytes is left over.
pub proof fn lemma_parse_reads_declared_bytes(s: Seq<u8>, t: Seq<u8>)
    requires
        spec_parse(s) is Ok,
        ({
            let n = declared_len(spec_parse(s)->Ok_0.1.header);
            n <= t.len() && t.subrange(0, n) == s.subrange(0, n)
        }),
    ensures
        ({
            let p = spec_parse(s)->Ok_0.1;
            let n = declared_len(p.header);
            spec_parse(t) == Ok::<(Seq<u8>, PacketView), ParseError>(
                (t.subrange(n, t.len() as int), p),
            )
        }),
{
    let p = spec_parse(s)->Ok_0.1;
    let h = p.header;
    let n = declared_len(h);
    let a = s.subrange(0, n);
    let b = t.subrange(0, n);
    assert(fields_len(h) <= n <= s.len());
    assert(spec_be32(t) == spec_be32(s)) by {
        assert(s[0] == a[0] && s[1] == a[1] && s[2] == a[2] && s[3] == a[3]);
        assert(t[0] == b[0] && t[1] == b[1] && t[2] == b[2] && t[3] == b[3]);
    }
    let q = packet_in(h, t);
    assert(q.stream_id == p.stream_id) by {
        if h.packet_type.has_stream_id() {
            lemma_u32_at_agrees(s, t, n, 4);
        }
    }
    assert(q.class_id == p.class_id) by {
        if h.c {
            lemma_u64_at_agrees(s, t, n, class_id_at(h));
        }
    }
    assert(q.tsi == p.tsi) by {
        if h.tsi != Tsi::Absent {
            lemma_u32_at_agrees(s, t, n, tsi_at(h));
        }
    }
    assert(q.tsf == p.tsf) by {
        if h.tsf != Tsf::Absent {
            lemma_u64_at_agrees(s, t, n, tsf_at(h));
        }
    }
    assert(q.payload == p.payload) by {
        let lo = payload_at(h);
        let hi = n - width_if(h.t, 4);
        assert(s.subrange(lo, hi) =~= a.subrange(lo, hi));
        assert(t.subrange(lo, hi) =~= b.subrange(lo, hi));
    }
    assert(q.trailer == p.trailer) by {
        if h.t {
            lemma_u32_at_agrees(s, t, n, n - 4);
        }
    }
    assert(q == p);
}

/// Encoding then decoding: where a buffer holds, from its start, the bytes
/// that encoding writes for a packet that it accepts and whose optional
/// fields agree with its header flags, decoding the buffer gives that
/// packet, with the packet size that encoding has set, and the rest of the
/// buffer.
pub proof fn lemma_encoded_buffer_decodes(p: PacketView, base: Seq<u8>)
    requires
        p.consistent(),
        p.wire_len() % 4 == 0,
        p.wire_len() / 4 <= 0xffff,
        p.wire_len() <= base.len(),
    ensures
        ({
            let q = p.with_size((p.wire_len() / 4) as u16);
            spec_parse(splice(base, 0, q.wire_bytes())) == Ok::<(Seq<u8>, PacketView), ParseError>(
                (base.subrange(p.wire_len(), base.len() as int), q),
            )
        }),
{
    let q = p.with_size((p.wire_len() / 4) as u16);
    let tail = base.subrange(p.wire_len(), base.len() as int);
    lemma_wire_len(q);
    assert(q.wire_len() == p.wire_len());
    assert(splice(base, 0, q.wire_bytes()) =~= q.wire_bytes() + tail);
    lemma_round_trip(p, tail);
}

} // verus!
