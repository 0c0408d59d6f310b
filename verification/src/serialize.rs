//! Wire codec: framed, self-describing binary messages.
//!
//! Every message starts with a 4-byte header `[tag, reserved, length LE16]`
//! followed by a 4-byte little-endian flow id and a kind-specific payload.
//! All multi-byte integers are little-endian and byte-packed.

use vstd::prelude::*;

pub mod create;
pub mod install_fold;
pub mod measurement;
pub mod pattern;
pub mod update_field;

use crate::lang::{Instr, Reg, instr_bytes, instr_from, instr_wire_ok, reg_bytes, reg_from,
    reg_wire_ok};
use crate::pattern::PatternEvent;

verus! {

/// Bytes occupied by the `[tag, reserved, length]` header.
pub const HDR_LENGTH: u32 = 4;

/// Little-endian image of a `u16`.
pub open spec fn u16_le(x: u16) -> Seq<u8> {
    seq![(x & 0xff) as u8, ((x >> 8) & 0xff) as u8]
}

/// Little-endian image of a `u32`.
pub open spec fn u32_le(x: u32) -> Seq<u8> {
    seq![
        (x & 0xff) as u8,
        ((x >> 8) & 0xff) as u8,
        ((x >> 16) & 0xff) as u8,
        ((x >> 24) & 0xff) as u8,
    ]
}

/// Little-endian image of a `u64`.
pub open spec fn u64_le(x: u64) -> Seq<u8> {
    seq![
        (x & 0xff) as u8,
        ((x >> 8) & 0xff) as u8,
        ((x >> 16) & 0xff) as u8,
        ((x >> 24) & 0xff) as u8,
        ((x >> 32) & 0xff) as u8,
        ((x >> 40) & 0xff) as u8,
        ((x >> 48) & 0xff) as u8,
        ((x >> 56) & 0xff) as u8,
    ]
}

/// The `u16` read back from two little-endian bytes.
pub open spec fn u16_from(s: Seq<u8>) -> u16
    recommends
        s.len() == 2,
{
    (s[0] as u16) | ((s[1] as u16) << 8)
}

/// The `u32` read back from four little-endian bytes.
pub open spec fn u32_from(s: Seq<u8>) -> u32
    recommends
        s.len() == 4,
{
    (s[0] as u32) | ((s[1] as u32) << 8) | ((s[2] as u32) << 16) | ((s[3] as u32) << 24)
}

/// The `u64` read back from eight little-endian bytes.
pub open spec fn u64_from(s: Seq<u8>) -> u64
    recommends
        s.len() == 8,
{
    (s[0] as u64) | ((s[1] as u64) << 8) | ((s[2] as u64) << 16) | ((s[3] as u64) << 24)
        | ((s[4] as u64) << 32) | ((s[5] as u64) << 40) | ((s[6] as u64) << 48)
        | ((s[7] as u64) << 56)
}

/// Reading back the two little-endian bytes of `x` recovers `x`.
pub proof fn lemma_u16_round_trip(x: u16)
    ensures
        u16_from(u16_le(x)) == x,
{
    assert(((x & 0xff) as u8 as u16) | ((((x >> 8) & 0xff) as u8 as u16) << 8) == x)
        by (bit_vector);
}

/// Reading back the four little-endian bytes of `x` recovers `x`.
pub proof fn lemma_u32_round_trip(x: u32)
    ensures
        u32_from(u32_le(x)) == x,
{
    assert(((x & 0xff) as u8 as u32) | ((((x >> 8) & 0xff) as u8 as u32) << 8) | ((((x >> 16)
        & 0xff) as u8 as u32) << 16) | ((((x >> 24) & 0xff) as u8 as u32) << 24) == x)
        by (bit_vector);
}

/// Reading back the eight little-endian bytes of `x` recovers `x`.
pub proof fn lemma_u64_round_trip(x: u64)
    ensures
        u64_from(u64_le(x)) == x,
{
    assert(((x & 0xff) as u8 as u64) | ((((x >> 8) & 0xff) as u8 as u64) << 8) | ((((x >> 16)
        & 0xff) as u8 as u64) << 16) | ((((x >> 24) & 0xff) as u8 as u64) << 24) | ((((x >> 32)
        & 0xff) as u8 as u64) << 32) | ((((x >> 40) & 0xff) as u8 as u64) << 40) | ((((x >> 48)
        & 0xff) as u8 as u64) << 48) | ((((x >> 56) & 0xff) as u8 as u64) << 56) == x)
        by (bit_vector);
}

/// Append the two little-endian bytes of `x`.
pub fn push_u16(buf: &mut Vec<u8>, x: u16)
    ensures
        final(buf)@ == old(buf)@ + u16_le(x),
{
    buf.push((x & 0xff) as u8);
    buf.push(((x >> 8) & 0xff) as u8);
    proof {
        assert(buf@ =~= old(buf)@ + u16_le(x));
    }
}

/// Append the four little-endian bytes of `x`.
pub fn push_u32(buf: &mut Vec<u8>, x: u32)
    ensures
        final(buf)@ == old(buf)@ + u32_le(x),
{
    buf.push((x & 0xff) as u8);
    buf.push(((x >> 8) & 0xff) as u8);
    buf.push(((x >> 16) & 0xff) as u8);
    buf.push(((x >> 24) & 0xff) as u8);
    proof {
        assert(buf@ =~= old(buf)@ + u32_le(x));
    }
}

/// Append the eight little-endian bytes of `x`.
pub fn push_u64(buf: &mut Vec<u8>, x: u64)
    ensures
        final(buf)@ == old(buf)@ + u64_le(x),
{
    buf.push((x & 0xff) as u8);
    buf.push(((x >> 8) & 0xff) as u8);
    buf.push(((x >> 16) & 0xff) as u8);
    buf.push(((x >> 24) & 0xff) as u8);
    buf.push(((x >> 32) & 0xff) as u8);
    buf.push(((x >> 40) & 0xff) as u8);
    buf.push(((x >> 48) & 0xff) as u8);
    buf.push(((x >> 56) & 0xff) as u8);
    proof {
        assert(buf@ =~= old(buf)@ + u64_le(x));
    }
}

/// Read the `u16` stored little-endian at `buf[i..i + 2]`.
pub fn read_u16(buf: &[u8], i: usize) -> (x: u16)
    requires
        i + 2 <= buf@.len(),
    ensures
        x == u16_from(buf@.subrange(i as int, i + 2)),
{
    let x = (buf[i] as u16) | ((buf[i + 1] as u16) << 8);
    proof {
        let s = buf@.subrange(i as int, i + 2);
        assert(s[0] == buf@[i as int] && s[1] == buf@[i + 1]);
    }
    x
}

/// Read the `u32` stored little-endian at `buf[i..i + 4]`.
pub fn read_u32(buf: &[u8], i: usize) -> (x: u32)
    requires
        i + 4 <= buf@.len(),
    ensures
        x == u32_from(buf@.subrange(i as int, i + 4)),
{
    let x = (buf[i] as u32) | ((buf[i + 1] as u32) << 8) | ((buf[i + 2] as u32) << 16) | ((buf[i
        + 3] as u32) << 24);
    proof {
        let s = buf@.subrange(i as int, i + 4);
        assert(s[0] == buf@[i as int] && s[1] == buf@[i + 1] && s[2] == buf@[i + 2] && s[3]
            == buf@[i + 3]);
    }
    x
}

/// Read the `u64` stored little-endian at `buf[i..i + 8]`.
pub fn read_u64(buf: &[u8], i: usize) -> (x: u64)
    requires
        i + 8 <= buf@.len(),
    ensures
        x == u64_from(buf@.subrange(i as int, i + 8)),
{
    let x = (buf[i] as u64) | ((buf[i + 1] as u64) << 8) | ((buf[i + 2] as u64) << 16) | ((buf[i
        + 3] as u64) << 24) | ((buf[i + 4] as u64) << 32) | ((buf[i + 5] as u64) << 40) | ((buf[i
        + 6] as u64) << 48) | ((buf[i + 7] as u64) << 56);
    proof {
        let s = buf@.subrange(i as int, i + 8);
        assert(s[0] == buf@[i as int] && s[1] == buf@[i + 1] && s[2] == buf@[i + 2] && s[3]
            == buf@[i + 3] && s[4] == buf@[i + 4] && s[5] == buf@[i + 5] && s[6] == buf@[i + 6]
            && s[7] == buf@[i + 7]);
    }
    x
}

/// Decode failure on an inbound frame.
#[derive(Debug, Clone, Copy, PartialEq, Eq, Structural)]
pub enum DecodeError {
    /// The header-declared length disagrees with the buffer handed in.
    BadFraming,
    /// The type tag is not one the codec knows.
    UnknownTag,
    /// The buffer is shorter than its contents require.
    Truncated,
    /// An unknown register discriminant, opcode or event tag, or a count
    /// that the message representation cannot carry.
    InvalidEnum,
}

/// A decoded message, dispatched on by the control plane's loop.
#[derive(Debug)]
pub enum Msg {
    Cr(create::Msg),
    Ms(measurement::Msg),
    Fld(install_fold::Msg),
    Upd(update_field::Msg),
    Pt(pattern::Msg),
}

/// Mathematical image of a message: payload sequences without the
/// redundant counts.
pub ghost enum MsgV {
    Cr {
        sid: u32,
        init_cwnd: u32,
        mss: u32,
        src_ip: u32,
        src_port: u32,
        dst_ip: u32,
        dst_port: u32,
    },
    Ms { sid: u32, fields: Seq<u64> },
    Fld { sid: u32, instrs: Seq<Instr> },
    Upd { sid: u32, fields: Seq<(Reg, u64)> },
    Pt { sid: u32, events: Seq<PatternEvent> },
}

/// Image of a typed message.
pub open spec fn msg_v(m: Msg) -> MsgV {
    match m {
        Msg::Cr(c) => MsgV::Cr {
            sid: c.sid,
            init_cwnd: c.init_cwnd,
            mss: c.mss,
            src_ip: c.src_ip,
            src_port: c.src_port,
            dst_ip: c.dst_ip,
            dst_port: c.dst_port,
        },
        Msg::Ms(x) => MsgV::Ms { sid: x.sid, fields: x.fields@ },
        Msg::Fld(x) => MsgV::Fld { sid: x.sid, instrs: x.instrs.0@ },
        Msg::Upd(x) => MsgV::Upd { sid: x.sid, fields: x.fields@ },
        Msg::Pt(x) => MsgV::Pt { sid: x.sid, events: x.pattern@ },
    }
}

/// The declared counts match the payloads and the frame fits its header.
pub open spec fn msg_wf(m: Msg) -> bool {
    match m {
        Msg::Cr(_) => true,
        Msg::Ms(x) => measurement::wf(x),
        Msg::Fld(x) => install_fold::wf(x),
        Msg::Upd(x) => update_field::wf(x),
        Msg::Pt(x) => pattern::wf(x),
    }
}

/// A message image that the wire format can carry exactly.
pub open spec fn msg_v_wf(m: MsgV) -> bool {
    match m {
        MsgV::Cr { .. } => true,
        MsgV::Ms { fields, .. } => 12 + 8 * fields.len() <= 65535,
        MsgV::Fld { instrs, .. } => 12 + 16 * instrs.len() <= 65535 && forall|i: int|
            0 <= i < instrs.len() ==> instr_wire_ok(#[trigger] instrs[i]),
        MsgV::Upd { fields, .. } => fields.len() <= 255 && forall|i: int|
            0 <= i < fields.len() ==> reg_wire_ok(#[trigger] fields[i].0),
        MsgV::Pt { events, .. } => 12 + 5 * events.len() <= 65535,
    }
}

/// The 4-byte header: tag, a reserved zero byte, and the total frame
/// length little-endian.
pub open spec fn hdr_bytes(tag: u8, len: u16) -> Seq<u8> {
    seq![tag, 0u8] + u16_le(len)
}

/// Packed image of a sequence of 64-bit fields.
pub open spec fn u64s_bytes(xs: Seq<u64>) -> Seq<u8>
    decreases xs.len(),
{
    if xs.len() == 0 {
        Seq::empty()
    } else {
        u64_le(xs[0]) + u64s_bytes(xs.subrange(1, xs.len() as int))
    }
}

/// Packed image of an instruction sequence.
pub open spec fn instrs_bytes(xs: Seq<Instr>) -> Seq<u8>
    decreases xs.len(),
{
    if xs.len() == 0 {
        Seq::empty()
    } else {
        instr_bytes(xs[0]) + instrs_bytes(xs.subrange(1, xs.len() as int))
    }
}

/// Packed image of register/value update entries: 5 register bytes then
/// the value, 13 bytes each.
pub open spec fn upds_bytes(xs: Seq<(Reg, u64)>) -> Seq<u8>
    decreases xs.len(),
{
    if xs.len() == 0 {
        Seq::empty()
    } else {
        reg_bytes(xs[0].0) + u64_le(xs[0].1) + upds_bytes(xs.subrange(1, xs.len() as int))
    }
}

/// Five-byte image of one pattern event: a tag byte and a `u32` argument
/// (zero where the event takes none).
pub open spec fn event_bytes(e: PatternEvent) -> Seq<u8> {
    match e {
        PatternEvent::SetRateAbs(r) => seq![0u8] + u32_le(r),
        PatternEvent::SetCwndAbs(c) => seq![1u8] + u32_le(c),
        PatternEvent::WaitMicros(us) => seq![2u8] + u32_le(us),
        PatternEvent::Report => seq![3u8] + u32_le(0),
    }
}

/// The event read back from five wire bytes; `None` on an unknown tag.
pub open spec fn event_from(s: Seq<u8>) -> Option<PatternEvent>
    recommends
        s.len() == 5,
{
    let v = u32_from(s.subrange(1, 5));
    if s[0] == 0u8 {
        Some(PatternEvent::SetRateAbs(v))
    } else if s[0] == 1u8 {
        Some(PatternEvent::SetCwndAbs(v))
    } else if s[0] == 2u8 {
        Some(PatternEvent::WaitMicros(v))
    } else if s[0] == 3u8 {
        Some(PatternEvent::Report)
    } else {
        None
    }
}

/// Packed image of a pattern event sequence.
pub open spec fn events_bytes(xs: Seq<PatternEvent>) -> Seq<u8>
    decreases xs.len(),
{
    if xs.len() == 0 {
        Seq::empty()
    } else {
        event_bytes(xs[0]) + events_bytes(xs.subrange(1, xs.len() as int))
    }
}

/// Complete wire image of a message: header, flow id, and the
/// kind-specific payload (with its element count where the kind has one).
pub open spec fn msg_bytes(m: MsgV) -> Seq<u8> {
    match m {
        MsgV::Cr { sid, init_cwnd, mss, src_ip, src_port, dst_ip, dst_port } => hdr_bytes(
            0,
            32,
        ) + u32_le(sid) + u32_le(init_cwnd) + u32_le(mss) + u32_le(src_ip) + u32_le(src_port)
            + u32_le(dst_ip) + u32_le(dst_port),
        MsgV::Ms { sid, fields } => hdr_bytes(1, (12 + 8 * fields.len()) as u16) + u32_le(sid)
            + u32_le(fields.len() as u32) + u64s_bytes(fields),
        MsgV::Fld { sid, instrs } => hdr_bytes(2, (12 + 16 * instrs.len()) as u16) + u32_le(sid)
            + u32_le(instrs.len() as u32) + instrs_bytes(instrs),
        MsgV::Upd { sid, fields } => hdr_bytes(3, (12 + 13 * fields.len()) as u16) + u32_le(sid)
            + u32_le(fields.len() as u32) + upds_bytes(fields),
        MsgV::Pt { sid, events } => hdr_bytes(4, (12 + 5 * events.len()) as u16) + u32_le(sid)
            + u32_le(events.len() as u32) + events_bytes(events),
    }
}

/// Fields read back from a packed image expected to hold `n` of them.
pub open spec fn parse_u64s(s: Seq<u8>, n: nat) -> Option<Seq<u64>>
    decreases n,
{
    if n == 0 {
        if s.len() == 0 {
            Some(Seq::empty())
        } else {
            None
        }
    } else if s.len() < 8 {
        None
    } else {
        match parse_u64s(s.skip(8), (n - 1) as nat) {
            Some(rest) => Some(seq![u64_from(s.subrange(0, 8))] + rest),
            None => None,
        }
    }
}

/// Instructions read back from a packed image expected to hold `n`.
pub open spec fn parse_instrs(s: Seq<u8>, n: nat) -> Option<Seq<Instr>>
    decreases n,
{
    if n == 0 {
        if s.len() == 0 {
            Some(Seq::empty())
        } else {
            None
        }
    } else if s.len() < 16 {
        None
    } else {
        match (instr_from(s.subrange(0, 16)), parse_instrs(s.skip(16), (n - 1) as nat)) {
            (Some(ins), Some(rest)) => Some(seq![ins] + rest),
            _ => None,
        }
    }
}

/// Update entries read back from a packed image expected to hold `n`.
pub open spec fn parse_upds(s: Seq<u8>, n: nat) -> Option<Seq<(Reg, u64)>>
    decreases n,
{
    if n == 0 {
        if s.len() == 0 {
            Some(Seq::empty())
        } else {
            None
        }
    } else if s.len() < 13 {
        None
    } else {
        match (reg_from(s.subrange(0, 5)), parse_upds(s.skip(13), (n - 1) as nat)) {
            (Some(r), Some(rest)) => Some(seq![(r, u64_from(s.subrange(5, 13)))] + rest),
            _ => None,
        }
    }
}

/// Pattern events read back from a packed image expected to hold `n`.
pub open spec fn parse_events(s: Seq<u8>, n: nat) -> Option<Seq<PatternEvent>>
    decreases n,
{
    if n == 0 {
        if s.len() == 0 {
            Some(Seq::empty())
        } else {
            None
        }
    } else if s.len() < 5 {
        None
    } else {
        match (event_from(s.subrange(0, 5)), parse_events(s.skip(5), (n - 1) as nat)) {
            (Some(e), Some(rest)) => Some(seq![e] + rest),
            _ => None,
        }
    }
}

/// The message read back from a framed buffer: header validation, tag
/// dispatch, then the kind-specific payload.
pub open spec fn parse_msg(s: Seq<u8>) -> Result<MsgV, DecodeError> {
    if s.len() < 4 {
        Err(DecodeError::Truncated)
    } else if u16_from(s.subrange(2, 4)) as int != s.len() as int {
        Err(DecodeError::BadFraming)
    } else {
        let tag = s[0];
        if tag == 0u8 {
            if s.len() != 32 {
                Err(DecodeError::Truncated)
            } else {
                Ok(MsgV::Cr {
                    sid: u32_from(s.subrange(4, 8)),
                    init_cwnd: u32_from(s.subrange(8, 12)),
                    mss: u32_from(s.subrange(12, 16)),
                    src_ip: u32_from(s.subrange(16, 20)),
                    src_port: u32_from(s.subrange(20, 24)),
                    dst_ip: u32_from(s.subrange(24, 28)),
                    dst_port: u32_from(s.subrange(28, 32)),
                })
            }
        } else if tag == 1u8 {
            if s.len() < 12 {
                Err(DecodeError::Truncated)
            } else {
                let n = u32_from(s.subrange(8, 12));
                if s.len() as int != 12 + 8 * n {
                    Err(DecodeError::Truncated)
                } else {
                    match parse_u64s(s.skip(12), n as nat) {
                        Some(fs) => Ok(MsgV::Ms { sid: u32_from(s.subrange(4, 8)), fields: fs }),
                        None => Err(DecodeError::Truncated),
                    }
                }
            }
        } else if tag == 2u8 {
            if s.len() < 12 {
                Err(DecodeError::Truncated)
            } else {
                let n = u32_from(s.subrange(8, 12));
                if s.len() as int != 12 + 16 * n {
                    Err(DecodeError::Truncated)
                } else {
                    match parse_instrs(s.skip(12), n as nat) {
                        Some(ins) => Ok(
                            MsgV::Fld { sid: u32_from(s.subrange(4, 8)), instrs: ins },
                        ),
                        None => Err(DecodeError::InvalidEnum),
                    }
                }
            }
        } else if tag == 3u8 {
            if s.len() < 12 {
                Err(DecodeError::Truncated)
            } else {
                let n = u32_from(s.subrange(8, 12));
                if s.len() as int != 12 + 13 * n {
                    Err(DecodeError::Truncated)
                } else if n > 255 {
                    Err(DecodeError::InvalidEnum)
                } else {
                    match parse_upds(s.skip(12), n as nat) {
                        Some(fs) => Ok(MsgV::Upd { sid: u32_from(s.subrange(4, 8)), fields: fs }),
                        None => Err(DecodeError::InvalidEnum),
                    }
                }
            }
        } else if tag == 4u8 {
            if s.len() < 12 {
                Err(DecodeError::Truncated)
            } else {
                let n = u32_from(s.subrange(8, 12));
                if s.len() as int != 12 + 5 * n {
                    Err(DecodeError::Truncated)
                } else {
                    match parse_events(s.skip(12), n as nat) {
                        Some(es) => Ok(MsgV::Pt { sid: u32_from(s.subrange(4, 8)), events: es }),
                        None => Err(DecodeError::InvalidEnum),
                    }
                }
            }
        } else {
            Err(DecodeError::UnknownTag)
        }
    }
}

/// A packed field sequence occupies 8 bytes per field.
pub proof fn lemma_u64s_bytes_len(xs: Seq<u64>)
    ensures
        u64s_bytes(xs).len() == 8 * xs.len(),
    decreases xs.len(),
{
    if xs.len() > 0 {
        lemma_u64s_bytes_len(xs.subrange(1, xs.len() as int));
    }
}

/// A packed instruction sequence occupies 16 bytes per instruction.
pub proof fn lemma_instrs_bytes_len(xs: Seq<Instr>)
    ensures
        instrs_bytes(xs).len() == 16 * xs.len(),
    decreases xs.len(),
{
    if xs.len() > 0 {
        lemma_instrs_bytes_len(xs.subrange(1, xs.len() as int));
    }
}

/// A packed update sequence occupies 13 bytes per entry.
pub proof fn lemma_upds_bytes_len(xs: Seq<(Reg, u64)>)
    ensures
        upds_bytes(xs).len() == 13 * xs.len(),
    decreases xs.len(),
{
    if xs.len() > 0 {
        lemma_upds_bytes_len(xs.subrange(1, xs.len() as int));
    }
}

/// A packed event sequence occupies 5 bytes per event.
pub proof fn lemma_events_bytes_len(xs: Seq<PatternEvent>)
    ensures
        events_bytes(xs).len() == 5 * xs.len(),
    decreases xs.len(),
{
    if xs.len() > 0 {
        lemma_events_bytes_len(xs.subrange(1, xs.len() as int));
    }
}

/// Append the packed image of `xs`.
fn write_u64s(buf: &mut Vec<u8>, xs: &Vec<u64>)
    ensures
        final(buf)@ == old(buf)@ + u64s_bytes(xs@),
{
    let n = xs.len();
    let mut i: usize = 0;
    proof {
        assert(xs@.skip(0) =~= xs@);
    }
    while i < n
        invariant
            n == xs@.len(),
            i <= n,
            buf@ + u64s_bytes(xs@.skip(i as int)) == old(buf)@ + u64s_bytes(xs@),
        decreases n - i,
    {
        push_u64(buf, xs[i]);
        proof {
            let rem = xs@.skip(i as int);
            assert(rem[0] == xs@[i as int]);
            assert(rem.subrange(1, rem.len() as int) =~= xs@.skip(i + 1));
            assert(buf@ + u64s_bytes(xs@.skip(i + 1)) =~= old(buf)@ + u64s_bytes(xs@));
        }
        i += 1;
    }
    proof {
        assert(xs@.skip(n as int) =~= Seq::<u64>::empty());
        assert(buf@ =~= old(buf)@ + u64s_bytes(xs@));
    }
}

/// Append the packed image of `xs`.
fn write_instrs(buf: &mut Vec<u8>, xs: &Vec<Instr>)
    ensures
        final(buf)@ == old(buf)@ + instrs_bytes(xs@),
{
    let n = xs.len();
    let mut i: usize = 0;
    proof {
        assert(xs@.skip(0) =~= xs@);
    }
    while i < n
        invariant
            n == xs@.len(),
            i <= n,
            buf@ + instrs_bytes(xs@.skip(i as int)) == old(buf)@ + instrs_bytes(xs@),
        decreases n - i,
    {
        crate::lang::push_instr(buf, &xs[i]);
        proof {
            let rem = xs@.skip(i as int);
            assert(rem[0] == xs@[i as int]);
            assert(rem.subrange(1, rem.len() as int) =~= xs@.skip(i + 1));
            assert(buf@ + instrs_bytes(xs@.skip(i + 1)) =~= old(buf)@ + instrs_bytes(xs@));
        }
        i += 1;
    }
    proof {
        assert(xs@.skip(n as int) =~= Seq::<Instr>::empty());
        assert(buf@ =~= old(buf)@ + instrs_bytes(xs@));
    }
}

/// Append the packed image of `xs`.
fn write_upds(buf: &mut Vec<u8>, xs: &Vec<(Reg, u64)>)
    ensures
        final(buf)@ == old(buf)@ + upds_bytes(xs@),
{
    let n = xs.len();
    let mut i: usize = 0;
    proof {
        assert(xs@.skip(0) =~= xs@);
    }
    while i < n
        invariant
            n == xs@.len(),
            i <= n,
            buf@ + upds_bytes(xs@.skip(i as int)) == old(buf)@ + upds_bytes(xs@),
        decreases n - i,
    {
        crate::lang::push_reg(buf, &xs[i].0);
        push_u64(buf, xs[i].1);
        proof {
            let rem = xs@.skip(i as int);
            assert(rem[0] == xs@[i as int]);
            assert(rem.subrange(1, rem.len() as int) =~= xs@.skip(i + 1));
            assert(buf@ + upds_bytes(xs@.skip(i + 1)) =~= old(buf)@ + upds_bytes(xs@));
        }
        i += 1;
    }
    proof {
        assert(xs@.skip(n as int) =~= Seq::<(Reg, u64)>::empty());
        assert(buf@ =~= old(buf)@ + upds_bytes(xs@));
    }
}

/// Append the five wire bytes of one pattern event.
fn push_event(buf: &mut Vec<u8>, e: &PatternEvent)
    ensures
        final(buf)@ == old(buf)@ + event_bytes(*e),
{
    match e {
        PatternEvent::SetRateAbs(r) => {
            buf.push(0u8);
            push_u32(buf, *r);
        },
        PatternEvent::SetCwndAbs(c) => {
            buf.push(1u8);
            push_u32(buf, *c);
        },
        PatternEvent::WaitMicros(us) => {
            buf.push(2u8);
            push_u32(buf, *us);
        },
        PatternEvent::Report => {
            buf.push(3u8);
            push_u32(buf, 0);
        },
    }
    proof {
        assert(buf@ =~= old(buf)@ + event_bytes(*e));
    }
}

/// Append the packed image of `xs`.
fn write_events(buf: &mut Vec<u8>, xs: &Vec<PatternEvent>)
    ensures
        final(buf)@ == old(buf)@ + events_bytes(xs@),
{
    let n = xs.len();
    let mut i: usize = 0;
    proof {
        assert(xs@.skip(0) =~= xs@);
    }
    while i < n
        invariant
            n == xs@.len(),
            i <= n,
            buf@ + events_bytes(xs@.skip(i as int)) == old(buf)@ + events_bytes(xs@),
        decreases n - i,
    {
        push_event(buf, &xs[i]);
        proof {
            let rem = xs@.skip(i as int);
            assert(rem[0] == xs@[i as int]);
            assert(rem.subrange(1, rem.len() as int) =~= xs@.skip(i + 1));
            assert(buf@ + events_bytes(xs@.skip(i + 1)) =~= old(buf)@ + events_bytes(xs@));
        }
        i += 1;
    }
    proof {
        assert(xs@.skip(n as int) =~= Seq::<PatternEvent>::empty());
        assert(buf@ =~= old(buf)@ + events_bytes(xs@));
    }
}

/// Serialize a message into a framed buffer whose bytes are exactly its
/// wire image. Fails, sending nothing, on a message whose counts disagree
/// with its payload, whose frame would overflow the 16-bit length, or
/// whose registers the wire cannot represent.
pub fn serialize(m: &Msg) -> (r: Result<Vec<u8>, crate::Error>)
    ensures
        msg_wf(*m) ==> (r matches Ok(buf) && buf@ == msg_bytes(msg_v(*m))),
        !msg_wf(*m) ==> r is Err,
{
    match m {
        Msg::Cr(c) => Ok(ser_create(c)),
        Msg::Ms(x) => ser_measurement(x),
        Msg::Fld(x) => ser_install(x),
        Msg::Upd(x) => ser_update(x),
        Msg::Pt(x) => ser_pattern(x),
    }
}

fn ser_create(c: &create::Msg) -> (buf: Vec<u8>)
    ensures
        buf@ == msg_bytes(msg_v(Msg::Cr(*c))),
{
    let mut buf: Vec<u8> = Vec::new();
    buf.push(0u8);
    buf.push(0u8);
    push_u16(&mut buf, 32);
    push_u32(&mut buf, c.sid);
    push_u32(&mut buf, c.init_cwnd);
    push_u32(&mut buf, c.mss);
    push_u32(&mut buf, c.src_ip);
    push_u32(&mut buf, c.src_port);
    push_u32(&mut buf, c.dst_ip);
    push_u32(&mut buf, c.dst_port);
    proof {
        assert(buf@ =~= msg_bytes(msg_v(Msg::Cr(*c))));
    }
    buf
}

fn ser_measurement(x: &measurement::Msg) -> (r: Result<Vec<u8>, crate::Error>)
    ensures
        measurement::wf(*x) ==> (r matches Ok(buf) && buf@ == msg_bytes(msg_v(Msg::Ms(*x)))),
        !measurement::wf(*x) ==> r is Err,
{
    let n = x.fields.len();
    if n > 8190 || x.num_fields as usize != n {
        return Err(crate::Error("measurement message malformed".to_owned()));
    }
    let total: u16 = (12 + 8 * n) as u16;
    let mut buf: Vec<u8> = Vec::new();
    buf.push(1u8);
    buf.push(0u8);
    push_u16(&mut buf, total);
    push_u32(&mut buf, x.sid);
    push_u32(&mut buf, n as u32);
    write_u64s(&mut buf, &x.fields);
    proof {
        assert(buf@ =~= msg_bytes(msg_v(Msg::Ms(*x))));
    }
    Ok(buf)
}

fn ser_install(x: &install_fold::Msg) -> (r: Result<Vec<u8>, crate::Error>)
    ensures
        install_fold::wf(*x) ==> (r matches Ok(buf) && buf@ == msg_bytes(msg_v(Msg::Fld(*x)))),
        !install_fold::wf(*x) ==> r is Err,
{
    let n = x.instrs.0.len();
    if n > 4095 || x.num_instrs as usize != n {
        return Err(crate::Error("install message malformed".to_owned()));
    }
    let mut i: usize = 0;
    while i < n
        invariant
            n == x.instrs.0@.len(),
            i <= n,
            forall|j: int| 0 <= j < i ==> instr_wire_ok(#[trigger] x.instrs.0@[j]),
        decreases n - i,
    {
        let ins = &x.instrs.0[i];
        if !reg_ok_exec(&ins.res) || !reg_ok_exec(&ins.left) || !reg_ok_exec(&ins.right) {
            proof {
                assert(!instr_wire_ok(x.instrs.0@[i as int]));
            }
            return Err(crate::Error("instruction register not representable".to_owned()));
        }
        i += 1;
    }
    let total: u16 = (12 + 16 * n) as u16;
    let mut buf: Vec<u8> = Vec::new();
    buf.push(2u8);
    buf.push(0u8);
    push_u16(&mut buf, total);
    push_u32(&mut buf, x.sid);
    push_u32(&mut buf, n as u32);
    write_instrs(&mut buf, &x.instrs.0);
    proof {
        assert(buf@ =~= msg_bytes(msg_v(Msg::Fld(*x))));
    }
    Ok(buf)
}

fn ser_update(x: &update_field::Msg) -> (r: Result<Vec<u8>, crate::Error>)
    ensures
        update_field::wf(*x) ==> (r matches Ok(buf) && buf@ == msg_bytes(msg_v(Msg::Upd(*x)))),
        !update_field::wf(*x) ==> r is Err,
{
    let n = x.fields.len();
    if x.num_fields as usize != n {
        return Err(crate::Error("update message malformed".to_owned()));
    }
    let mut i: usize = 0;
    while i < n
        invariant
            n == x.fields@.len(),
            i <= n,
            forall|j: int| 0 <= j < i ==> reg_wire_ok(#[trigger] x.fields@[j].0),
        decreases n - i,
    {
        if !reg_ok_exec(&x.fields[i].0) {
            proof {
                assert(!reg_wire_ok(x.fields@[i as int].0));
            }
            return Err(crate::Error("update register not representable".to_owned()));
        }
        i += 1;
    }
    let total: u16 = (12 + 13 * n) as u16;
    let mut buf: Vec<u8> = Vec::new();
    buf.push(3u8);
    buf.push(0u8);
    push_u16(&mut buf, total);
    push_u32(&mut buf, x.sid);
    push_u32(&mut buf, n as u32);
    write_upds(&mut buf, &x.fields);
    proof {
        assert(buf@ =~= msg_bytes(msg_v(Msg::Upd(*x))));
    }
    Ok(buf)
}

fn ser_pattern(x: &pattern::Msg) -> (r: Result<Vec<u8>, crate::Error>)
    ensures
        pattern::wf(*x) ==> (r matches Ok(buf) && buf@ == msg_bytes(msg_v(Msg::Pt(*x)))),
        !pattern::wf(*x) ==> r is Err,
{
    let n = x.pattern.events.len();
    if n > 13104 || x.num_events as usize != n {
        return Err(crate::Error("pattern message malformed".to_owned()));
    }
    let total: u16 = (12 + 5 * n) as u16;
    let mut buf: Vec<u8> = Vec::new();
    buf.push(4u8);
    buf.push(0u8);
    push_u16(&mut buf, total);
    push_u32(&mut buf, x.sid);
    push_u32(&mut buf, n as u32);
    write_events(&mut buf, &x.pattern.events);
    proof {
        assert(buf@ =~= msg_bytes(msg_v(Msg::Pt(*x))));
    }
    Ok(buf)
}

/// `r` with `a` prepended to its contents, if it has any.
pub open spec fn opt_prepend_u64s(a: Seq<u64>, r: Option<Seq<u64>>) -> Option<Seq<u64>> {
    match r {
        Some(x) => Some(a + x),
        None => None,
    }
}

/// `r` with `a` prepended to its contents, if it has any.
pub open spec fn opt_prepend_instrs(a: Seq<Instr>, r: Option<Seq<Instr>>) -> Option<Seq<Instr>> {
    match r {
        Some(x) => Some(a + x),
        None => None,
    }
}

/// `r` with `a` prepended to its contents, if it has any.
pub open spec fn opt_prepend_upds(a: Seq<(Reg, u64)>, r: Option<Seq<(Reg, u64)>>) -> Option<
    Seq<(Reg, u64)>,
> {
    match r {
        Some(x) => Some(a + x),
        None => None,
    }
}

/// `r` with `a` prepended to its contents, if it has any.
pub open spec fn opt_prepend_events(a: Seq<PatternEvent>, r: Option<Seq<PatternEvent>>) -> Option<
    Seq<PatternEvent>,
> {
    match r {
        Some(x) => Some(a + x),
        None => None,
    }
}

/// Read the `n` packed fields that fill `buf[off..]`.
fn read_u64s(buf: &[u8], off: usize, n: u32) -> (out: Vec<u64>)
    requires
        buf@.len() == off + 8 * (n as int),
    ensures
        parse_u64s(buf@.skip(off as int), n as nat) == Some(out@),
        out@.len() == n,
{
    let end: usize = buf.len();
    let mut out: Vec<u64> = Vec::new();
    let mut i: u32 = 0;
    proof {
        match parse_u64s(buf@.skip(off as int), n as nat) {
            Some(x) => {
                assert(out@ + x =~= x);
            },
            None => {},
        }
    }
    while i < n
        invariant
            buf@.len() == off + 8 * (n as int),
            end == buf@.len(),
            i <= n,
            out@.len() == i,
            parse_u64s(buf@.skip(off as int), n as nat) == opt_prepend_u64s(
                out@,
                parse_u64s(buf@.skip(off + 8 * (i as int)), (n - i) as nat),
            ),
        decreases n - i,
    {
        let x = read_u64(buf, off + 8 * (i as usize));
        proof {
            let s = buf@.skip(off + 8 * (i as int));
            assert(s.subrange(0, 8) =~= buf@.subrange(
                off + 8 * (i as int),
                off + 8 * (i as int) + 8,
            ));
            assert(s.skip(8) =~= buf@.skip(off + 8 * ((i + 1) as int)));
            match parse_u64s(s.skip(8), (n - i - 1) as nat) {
                Some(rest) => {
                    assert((out@ + (seq![x] + rest)) =~= ((out@ + seq![x]) + rest));
                },
                None => {},
            }
        }
        out.push(x);
        i += 1;
    }
    proof {
        assert(buf@.skip(off + 8 * (n as int)).len() == 0);
        assert(out@ + Seq::<u64>::empty() =~= out@);
    }
    out
}

/// Read the `n` packed instructions that fill `buf[off..]`; `None` on an
/// unknown opcode or register discriminant.
fn read_instrs(buf: &[u8], off: usize, n: u32) -> (r: Option<Vec<Instr>>)
    requires
        buf@.len() == off + 16 * (n as int),
    ensures
        match r {
            Some(out) => {
                &&& parse_instrs(buf@.skip(off as int), n as nat) == Some(out@)
                &&& out@.len() == n
                &&& forall|j: int| 0 <= j < out@.len() ==> instr_wire_ok(#[trigger] out@[j])
            },
            None => parse_instrs(buf@.skip(off as int), n as nat) is None,
        },
{
    let end: usize = buf.len();
    let mut out: Vec<Instr> = Vec::new();
    let mut i: u32 = 0;
    proof {
        match parse_instrs(buf@.skip(off as int), n as nat) {
            Some(x) => {
                assert(out@ + x =~= x);
            },
            None => {},
        }
    }
    while i < n
        invariant
            buf@.len() == off + 16 * (n as int),
            end == buf@.len(),
            i <= n,
            out@.len() == i,
            forall|j: int| 0 <= j < out@.len() ==> instr_wire_ok(#[trigger] out@[j]),
            parse_instrs(buf@.skip(off as int), n as nat) == opt_prepend_instrs(
                out@,
                parse_instrs(buf@.skip(off + 16 * (i as int)), (n - i) as nat),
            ),
        decreases n - i,
    {
        proof {
            let s = buf@.skip(off + 16 * (i as int));
            assert(s.subrange(0, 16) =~= buf@.subrange(
                off + 16 * (i as int),
                off + 16 * (i as int) + 16,
            ));
            assert(s.skip(16) =~= buf@.skip(off + 16 * ((i + 1) as int)));
        }
        let ins = match crate::lang::read_instr(buf, off + 16 * (i as usize)) {
            Some(ins) => ins,
            None => {
                return None;
            },
        };
        proof {
            let s = buf@.skip(off + 16 * (i as int));
            match parse_instrs(s.skip(16), (n - i - 1) as nat) {
                Some(rest) => {
                    assert((out@ + (seq![ins] + rest)) =~= ((out@ + seq![ins]) + rest));
                },
                None => {},
            }
        }
        out.push(ins);
        i += 1;
    }
    proof {
        assert(buf@.skip(off + 16 * (n as int)).len() == 0);
        assert(out@ + Seq::<Instr>::empty() =~= out@);
    }
    Some(out)
}

/// Read the `n` packed update entries that fill `buf[off..]`; `None` on an
/// unknown register discriminant.
fn read_upds(buf: &[u8], off: usize, n: u32) -> (r: Option<Vec<(Reg, u64)>>)
    requires
        buf@.len() == off + 13 * (n as int),
    ensures
        match r {
            Some(out) => {
                &&& parse_upds(buf@.skip(off as int), n as nat) == Some(out@)
                &&& out@.len() == n
                &&& forall|j: int| 0 <= j < out@.len() ==> reg_wire_ok(#[trigger] out@[j].0)
            },
            None => parse_upds(buf@.skip(off as int), n as nat) is None,
        },
{
    let end: usize = buf.len();
    let mut out: Vec<(Reg, u64)> = Vec::new();
    let mut i: u32 = 0;
    proof {
        match parse_upds(buf@.skip(off as int), n as nat) {
            Some(x) => {
                assert(out@ + x =~= x);
            },
            None => {},
        }
    }
    while i < n
        invariant
            buf@.len() == off + 13 * (n as int),
            end == buf@.len(),
            i <= n,
            out@.len() == i,
            forall|j: int| 0 <= j < out@.len() ==> reg_wire_ok(#[trigger] out@[j].0),
            parse_upds(buf@.skip(off as int), n as nat) == opt_prepend_upds(
                out@,
                parse_upds(buf@.skip(off + 13 * (i as int)), (n - i) as nat),
            ),
        decreases n - i,
    {
        proof {
            let s = buf@.skip(off + 13 * (i as int));
            assert(s.subrange(0, 5) =~= buf@.subrange(
                off + 13 * (i as int),
                off + 13 * (i as int) + 5,
            ));
            assert(s.subrange(5, 13) =~= buf@.subrange(
                off + 13 * (i as int) + 5,
                off + 13 * (i as int) + 13,
            ));
            assert(s.skip(13) =~= buf@.skip(off + 13 * ((i + 1) as int)));
        }
        let reg = match crate::lang::read_reg(buf, off + 13 * (i as usize)) {
            Some(reg) => reg,
            None => {
                return None;
            },
        };
        let val = read_u64(buf, off + 13 * (i as usize) + 5);
        proof {
            let s = buf@.skip(off + 13 * (i as int));
            match parse_upds(s.skip(13), (n - i - 1) as nat) {
                Some(rest) => {
                    assert((out@ + (seq![(reg, val)] + rest)) =~= ((out@ + seq![(reg, val)])
                        + rest));
                },
                None => {},
            }
        }
        out.push((reg, val));
        i += 1;
    }
    proof {
        assert(buf@.skip(off + 13 * (n as int)).len() == 0);
        assert(out@ + Seq::<(Reg, u64)>::empty() =~= out@);
    }
    Some(out)
}

/// Read the pattern event stored at `buf[i..i + 5]`.
fn read_event(buf: &[u8], i: usize) -> (r: Option<PatternEvent>)
    requires
        i + 5 <= buf@.len(),
    ensures
        r == event_from(buf@.subrange(i as int, i + 5)),
{
    proof {
        let s = buf@.subrange(i as int, i + 5);
        assert(s[0] == buf@[i as int]);
        assert(s.subrange(1, 5) =~= buf@.subrange(i + 1, i + 5));
    }
    let d = buf[i];
    let v = read_u32(buf, i + 1);
    if d == 0 {
        Some(PatternEvent::SetRateAbs(v))
    } else if d == 1 {
        Some(PatternEvent::SetCwndAbs(v))
    } else if d == 2 {
        Some(PatternEvent::WaitMicros(v))
    } else if d == 3 {
        Some(PatternEvent::Report)
    } else {
        None
    }
}

/// Read the `n` packed events that fill `buf[off..]`; `None` on an unknown
/// event tag.
fn read_events(buf: &[u8], off: usize, n: u32) -> (r: Option<Vec<PatternEvent>>)
    requires
        buf@.len() == off + 5 * (n as int),
    ensures
        match r {
            Some(out) => parse_events(buf@.skip(off as int), n as nat) == Some(out@) && out@.len()
                == n,
            None => parse_events(buf@.skip(off as int), n as nat) is None,
        },
{
    let end: usize = buf.len();
    let mut out: Vec<PatternEvent> = Vec::new();
    let mut i: u32 = 0;
    proof {
        match parse_events(buf@.skip(off as int), n as nat) {
            Some(x) => {
                assert(out@ + x =~= x);
            },
            None => {},
        }
    }
    while i < n
        invariant
            buf@.len() == off + 5 * (n as int),
            end == buf@.len(),
            i <= n,
            out@.len() == i,
            parse_events(buf@.skip(off as int), n as nat) == opt_prepend_events(
                out@,
                parse_events(buf@.skip(off + 5 * (i as int)), (n - i) as nat),
            ),
        decreases n - i,
    {
        proof {
            let s = buf@.skip(off + 5 * (i as int));
            assert(s.subrange(0, 5) =~= buf@.subrange(
                off + 5 * (i as int),
                off + 5 * (i as int) + 5,
            ));
            assert(s.skip(5) =~= buf@.skip(off + 5 * ((i + 1) as int)));
        }
        let ev = match read_event(buf, off + 5 * (i as usize)) {
            Some(ev) => ev,
            None => {
                return None;
            },
        };
        proof {
            let s = buf@.skip(off + 5 * (i as int));
            match parse_events(s.skip(5), (n - i - 1) as nat) {
                Some(rest) => {
                    assert((out@ + (seq![ev] + rest)) =~= ((out@ + seq![ev]) + rest));
                },
                None => {},
            }
        }
        out.push(ev);
        i += 1;
    }
    proof {
        assert(buf@.skip(off + 5 * (n as int)).len() == 0);
        assert(out@ + Seq::<PatternEvent>::empty() =~= out@);
    }
    Some(out)
}

impl Msg {
    /// Decode a framed buffer: validate the header-declared length against
    /// the buffer, dispatch on the type tag, and read the kind-specific
    /// payload. The result is exactly what the specification-level parser
    /// says, and every decoded message is well-formed.
    pub fn from_buf(buf: &[u8]) -> (r: Result<Msg, DecodeError>)
        ensures
            match r {
                Ok(m) => parse_msg(buf@) == Ok::<MsgV, DecodeError>(msg_v(m)) && msg_wf(m),
                Err(e) => parse_msg(buf@) == Err::<MsgV, DecodeError>(e),
            },
    {
        if buf.len() < 4 {
            return Err(DecodeError::Truncated);
        }
        let declared = read_u16(buf, 2);
        if declared as usize != buf.len() {
            return Err(DecodeError::BadFraming);
        }
        let tag = buf[0];
        if tag == 0 {
            if buf.len() != 32 {
                return Err(DecodeError::Truncated);
            }
            Ok(Msg::Cr(create::Msg {
                sid: read_u32(buf, 4),
                init_cwnd: read_u32(buf, 8),
                mss: read_u32(buf, 12),
                src_ip: read_u32(buf, 16),
                src_port: read_u32(buf, 20),
                dst_ip: read_u32(buf, 24),
                dst_port: read_u32(buf, 28),
            }))
        } else if tag == 1 {
            if buf.len() < 12 {
                return Err(DecodeError::Truncated);
            }
            let n = read_u32(buf, 8);
            if buf.len() as u64 != 12 + 8 * (n as u64) {
                return Err(DecodeError::Truncated);
            }
            let fields = read_u64s(buf, 12, n);
            Ok(Msg::Ms(measurement::Msg { sid: read_u32(buf, 4), num_fields: n, fields }))
        } else if tag == 2 {
            if buf.len() < 12 {
                return Err(DecodeError::Truncated);
            }
            let n = read_u32(buf, 8);
            if buf.len() as u64 != 12 + 16 * (n as u64) {
                return Err(DecodeError::Truncated);
            }
            match read_instrs(buf, 12, n) {
                Some(instrs) => Ok(Msg::Fld(install_fold::Msg {
                    sid: read_u32(buf, 4),
                    num_instrs: n,
                    instrs: crate::lang::Bin(instrs),
                })),
                None => Err(DecodeError::InvalidEnum),
            }
        } else if tag == 3 {
            if buf.len() < 12 {
                return Err(DecodeError::Truncated);
            }
            let n = read_u32(buf, 8);
            if buf.len() as u64 != 12 + 13 * (n as u64) {
                return Err(DecodeError::Truncated);
            }
            if n > 255 {
                return Err(DecodeError::InvalidEnum);
            }
            match read_upds(buf, 12, n) {
                Some(fields) => Ok(Msg::Upd(update_field::Msg {
                    sid: read_u32(buf, 4),
                    num_fields: n as u8,
                    fields,
                })),
                None => Err(DecodeError::InvalidEnum),
            }
        } else if tag == 4 {
            if buf.len() < 12 {
                return Err(DecodeError::Truncated);
            }
            let n = read_u32(buf, 8);
            if buf.len() as u64 != 12 + 5 * (n as u64) {
                return Err(DecodeError::Truncated);
            }
            match read_events(buf, 12, n) {
                Some(events) => Ok(Msg::Pt(pattern::Msg {
                    sid: read_u32(buf, 4),
                    num_events: n,
                    pattern: crate::pattern::Pattern { events },
                })),
                None => Err(DecodeError::InvalidEnum),
            }
        } else {
            Err(DecodeError::UnknownTag)
        }
    }
}

/// Parsing the packed image of a field sequence recovers it.
pub proof fn lemma_parse_u64s_of_bytes(xs: Seq<u64>)
    ensures
        parse_u64s(u64s_bytes(xs), xs.len()) == Some(xs),
    decreases xs.len(),
{
    lemma_u64s_bytes_len(xs);
    if xs.len() > 0 {
        let s = u64s_bytes(xs);
        let tail = xs.subrange(1, xs.len() as int);
        lemma_u64s_bytes_len(tail);
        assert(s.subrange(0, 8) =~= u64_le(xs[0]));
        assert(s.skip(8) =~= u64s_bytes(tail));
        lemma_u64_round_trip(xs[0]);
        lemma_parse_u64s_of_bytes(tail);
        assert(seq![xs[0]] + tail =~= xs);
    }
}

/// Parsing the packed image of a wire-representable instruction sequence
/// recovers it.
pub proof fn lemma_parse_instrs_of_bytes(xs: Seq<Instr>)
    requires
        forall|i: int| 0 <= i < xs.len() ==> instr_wire_ok(#[trigger] xs[i]),
    ensures
        parse_instrs(instrs_bytes(xs), xs.len()) == Some(xs),
    decreases xs.len(),
{
    lemma_instrs_bytes_len(xs);
    if xs.len() > 0 {
        let s = instrs_bytes(xs);
        let tail = xs.subrange(1, xs.len() as int);
        lemma_instrs_bytes_len(tail);
        assert(s.subrange(0, 16) =~= instr_bytes(xs[0]));
        assert(s.skip(16) =~= instrs_bytes(tail));
        crate::lang::lemma_instr_round_trip(xs[0]);
        lemma_parse_instrs_of_bytes(tail);
        assert(seq![xs[0]] + tail =~= xs);
    }
}

/// Parsing the packed image of wire-representable update entries recovers
/// them.
pub proof fn lemma_parse_upds_of_bytes(xs: Seq<(Reg, u64)>)
    requires
        forall|i: int| 0 <= i < xs.len() ==> reg_wire_ok(#[trigger] xs[i].0),
    ensures
        parse_upds(upds_bytes(xs), xs.len()) == Some(xs),
    decreases xs.len(),
{
    lemma_upds_bytes_len(xs);
    if xs.len() > 0 {
        let s = upds_bytes(xs);
        let tail = xs.subrange(1, xs.len() as int);
        lemma_upds_bytes_len(tail);
        assert(s.subrange(0, 5) =~= reg_bytes(xs[0].0));
        assert(s.subrange(5, 13) =~= u64_le(xs[0].1));
        assert(s.skip(13) =~= upds_bytes(tail));
        crate::lang::lemma_reg_round_trip(xs[0].0);
        lemma_u64_round_trip(xs[0].1);
        lemma_parse_upds_of_bytes(tail);
        assert(seq![xs[0]] + tail =~= xs);
    }
}

/// Parsing the five wire bytes of an event recovers it.
pub proof fn lemma_event_round_trip(e: PatternEvent)
    ensures
        event_from(event_bytes(e)) == Some(e),
{
    let s = event_bytes(e);
    match e {
        PatternEvent::SetRateAbs(v) => {
            assert(s.subrange(1, 5) =~= u32_le(v));
            lemma_u32_round_trip(v);
        },
        PatternEvent::SetCwndAbs(v) => {
            assert(s.subrange(1, 5) =~= u32_le(v));
            lemma_u32_round_trip(v);
        },
        PatternEvent::WaitMicros(v) => {
            assert(s.subrange(1, 5) =~= u32_le(v));
            lemma_u32_round_trip(v);
        },
        PatternEvent::Report => {},
    }
}

/// Parsing the packed image of an event sequence recovers it.
pub proof fn lemma_parse_events_of_bytes(xs: Seq<PatternEvent>)
    ensures
        parse_events(events_bytes(xs), xs.len()) == Some(xs),
    decreases xs.len(),
{
    lemma_events_bytes_len(xs);
    if xs.len() > 0 {
        let s = events_bytes(xs);
        let tail = xs.subrange(1, xs.len() as int);
        lemma_events_bytes_len(tail);
        assert(s.subrange(0, 5) =~= event_bytes(xs[0]));
        assert(s.skip(5) =~= events_bytes(tail));
        lemma_event_round_trip(xs[0]);
        lemma_parse_events_of_bytes(tail);
        assert(seq![xs[0]] + tail =~= xs);
    }
}

proof fn lemma_rt_cr(m: MsgV)
    requires
        m is Cr,
    ensures
        parse_msg(msg_bytes(m)) == Ok::<MsgV, DecodeError>(m),
{
    let s = msg_bytes(m);
    if let MsgV::Cr { sid, init_cwnd, mss, src_ip, src_port, dst_ip, dst_port } = m {
        assert(s.len() == 32);
        assert(s.subrange(2, 4) =~= u16_le(32));
        lemma_u16_round_trip(32);
        assert(s.subrange(4, 8) =~= u32_le(sid));
        assert(s.subrange(8, 12) =~= u32_le(init_cwnd));
        assert(s.subrange(12, 16) =~= u32_le(mss));
        assert(s.subrange(16, 20) =~= u32_le(src_ip));
        assert(s.subrange(20, 24) =~= u32_le(src_port));
        assert(s.subrange(24, 28) =~= u32_le(dst_ip));
        assert(s.subrange(28, 32) =~= u32_le(dst_port));
        lemma_u32_round_trip(sid);
        lemma_u32_round_trip(init_cwnd);
        lemma_u32_round_trip(mss);
        lemma_u32_round_trip(src_ip);
        lemma_u32_round_trip(src_port);
        lemma_u32_round_trip(dst_ip);
        lemma_u32_round_trip(dst_port);
    }
}

proof fn lemma_rt_ms(m: MsgV)
    requires
        m is Ms,
        msg_v_wf(m),
    ensures
        parse_msg(msg_bytes(m)) == Ok::<MsgV, DecodeError>(m),
{
    let s = msg_bytes(m);
    if let MsgV::Ms { sid, fields } = m {
        let total = (12 + 8 * fields.len()) as u16;
        lemma_u64s_bytes_len(fields);
        assert(s.len() == 12 + 8 * fields.len());
        assert(s.subrange(2, 4) =~= u16_le(total));
        lemma_u16_round_trip(total);
        assert(s.subrange(4, 8) =~= u32_le(sid));
        lemma_u32_round_trip(sid);
        assert(s.subrange(8, 12) =~= u32_le(fields.len() as u32));
        lemma_u32_round_trip(fields.len() as u32);
        assert(s.skip(12) =~= u64s_bytes(fields));
        lemma_parse_u64s_of_bytes(fields);
    }
}

#[verifier::rlimit(50)]
proof fn lemma_rt_fld(m: MsgV)
    requires
        m is Fld,
        msg_v_wf(m),
    ensures
        parse_msg(msg_bytes(m)) == Ok::<MsgV, DecodeError>(m),
{
    let s = msg_bytes(m);
    if let MsgV::Fld { sid, instrs } = m {
        let total = (12 + 16 * instrs.len()) as u16;
        lemma_instrs_bytes_len(instrs);
        assert(s.len() == 12 + 16 * instrs.len());
        assert(s.subrange(2, 4) =~= u16_le(total));
        lemma_u16_round_trip(total);
        assert(s.subrange(4, 8) =~= u32_le(sid));
        lemma_u32_round_trip(sid);
        assert(s.subrange(8, 12) =~= u32_le(instrs.len() as u32));
        lemma_u32_round_trip(instrs.len() as u32);
        assert(s.skip(12) =~= instrs_bytes(instrs));
        lemma_parse_instrs_of_bytes(instrs);
    }
}

proof fn lemma_rt_upd(m: MsgV)
    requires
        m is Upd,
        msg_v_wf(m),
    ensures
        parse_msg(msg_bytes(m)) == Ok::<MsgV, DecodeError>(m),
{
    let s = msg_bytes(m);
    if let MsgV::Upd { sid, fields } = m {
        let total = (12 + 13 * fields.len()) as u16;
        lemma_upds_bytes_len(fields);
        assert(s.len() == 12 + 13 * fields.len());
        assert(s.subrange(2, 4) =~= u16_le(total));
        lemma_u16_round_trip(total);
        assert(s.subrange(4, 8) =~= u32_le(sid));
        lemma_u32_round_trip(sid);
        assert(s.subrange(8, 12) =~= u32_le(fields.len() as u32));
        lemma_u32_round_trip(fields.len() as u32);
        assert(s.skip(12) =~= upds_bytes(fields));
        lemma_parse_upds_of_bytes(fields);
    }
}

proof fn lemma_rt_pt(m: MsgV)
    requires
        m is Pt,
        msg_v_wf(m),
    ensures
        parse_msg(msg_bytes(m)) == Ok::<MsgV, DecodeError>(m),
{
    let s = msg_bytes(m);
    if let MsgV::Pt { sid, events } = m {
        let total = (12 + 5 * events.len()) as u16;
        lemma_events_bytes_len(events);
        assert(s.len() == 12 + 5 * events.len());
        assert(s.subrange(2, 4) =~= u16_le(total));
        lemma_u16_round_trip(total);
        assert(s.subrange(4, 8) =~= u32_le(sid));
        lemma_u32_round_trip(sid);
        assert(s.subrange(8, 12) =~= u32_le(events.len() as u32));
        lemma_u32_round_trip(events.len() as u32);
        assert(s.skip(12) =~= events_bytes(events));
        lemma_parse_events_of_bytes(events);
    }
}

/// Round trip: parsing the wire image of any wire-representable message
/// recovers exactly that message.
pub proof fn lemma_msg_round_trip(m: MsgV)
    requires
        msg_v_wf(m),
    ensures
        parse_msg(msg_bytes(m)) == Ok::<MsgV, DecodeError>(m),
{
    match m {
        MsgV::Cr { .. } => lemma_rt_cr(m),
        MsgV::Ms { .. } => lemma_rt_ms(m),
        MsgV::Fld { .. } => lemma_rt_fld(m),
        MsgV::Upd { .. } => lemma_rt_upd(m),
        MsgV::Pt { .. } => lemma_rt_pt(m),
    }
}

/// Framing: in every serialized message, bytes 2 and 3 read little-endian
/// equal the length of the whole buffer.
pub proof fn lemma_framing(m: MsgV)
    requires
        msg_v_wf(m),
    ensures
        u16_from(msg_bytes(m).subrange(2, 4)) as int == msg_bytes(m).len() as int,
{
    let s = msg_bytes(m);
    match m {
        MsgV::Cr { .. } => {
            assert(s.subrange(2, 4) =~= u16_le(32));
            lemma_u16_round_trip(32);
        },
        MsgV::Ms { fields, .. } => {
            let total = (12 + 8 * fields.len()) as u16;
            lemma_u64s_bytes_len(fields);
            assert(s.subrange(2, 4) =~= u16_le(total));
            lemma_u16_round_trip(total);
        },
        MsgV::Fld { instrs, .. } => {
            let total = (12 + 16 * instrs.len()) as u16;
            lemma_instrs_bytes_len(instrs);
            assert(s.subrange(2, 4) =~= u16_le(total));
            lemma_u16_round_trip(total);
        },
        MsgV::Upd { fields, .. } => {
            let total = (12 + 13 * fields.len()) as u16;
            lemma_upds_bytes_len(fields);
            assert(s.subrange(2, 4) =~= u16_le(total));
            lemma_u16_round_trip(total);
        },
        MsgV::Pt { events, .. } => {
            let total = (12 + 5 * events.len()) as u16;
            lemma_events_bytes_len(events);
            assert(s.subrange(2, 4) =~= u16_le(total));
            lemma_u16_round_trip(total);
        },
    }
}

/// Runtime check matching `reg_wire_ok`.
fn reg_ok_exec(r: &Reg) -> (b: bool)
    ensures
        b == reg_wire_ok(*r),
{
    match r {
        Reg::Const(_) => true,
        Reg::Perm(_, t) => matches!(t, crate::lang::Type::Num),
        Reg::Implicit(_, t) => matches!(t, crate::lang::Type::Num),
        Reg::Tmp(_) => true,
    }
}

} // verus!
