use ccp::lang::{Bin, Instr, Op, Reg, Type};
use ccp::pattern::{Pattern, PatternEvent};
use ccp::serialize::{self, DecodeError, Msg};

#[test]
fn serialize_update_msg() {
    let m = ccp::serialize::update_field::Msg {
        sid: 1,
        num_fields: 1,
        fields: vec![(Reg::Implicit(4, Type::Num), 42)],
    };

    let buf: Vec<u8> = serialize::serialize(&Msg::Upd(m.clone())).expect("serialize");
    assert_eq!(
        buf,
        vec![
            3, 0, // UPDATE_FIELD
            25, 0, // length = 25
            1, 0, 0, 0, // sock_id = 1
            1, 0, 0, 0, // num_fields = 1
            2, 4, 0, 0, 0, 0x2a, 0, 0, 0, 0, 0, 0, 0, // Reg::Implicit(4) <- 42
        ],
    );
}

#[test]
fn round_trip_create() {
    let c = ccp::serialize::create::Msg {
        sid: 7,
        init_cwnd: 10,
        mss: 1448,
        src_ip: 0x0a000001,
        src_port: 4242,
        dst_ip: 0x0a000002,
        dst_port: 80,
    };
    let buf = serialize::serialize(&Msg::Cr(c)).expect("serialize");
    assert_eq!(buf.len(), 32);
    match Msg::from_buf(&buf).expect("decode") {
        Msg::Cr(c2) => assert_eq!(c2, c),
        _ => panic!("wrong variant"),
    }
}

#[test]
fn round_trip_measurement() {
    let m = ccp::serialize::measurement::Msg { sid: 9, num_fields: 3, fields: vec![1, 2, u64::MAX] };
    let buf = serialize::serialize(&Msg::Ms(m.clone())).expect("serialize");
    match Msg::from_buf(&buf).expect("decode") {
        Msg::Ms(m2) => assert_eq!(m2, m),
        _ => panic!("wrong variant"),
    }
}

#[test]
fn round_trip_install_fold() {
    let instrs = vec![
        Instr {
            op: Op::Add,
            res: Reg::Tmp(0),
            left: Reg::Implicit(0, Type::Num),
            right: Reg::Const(4),
        },
        Instr {
            op: Op::Bind,
            res: Reg::Perm(0, Type::Num),
            left: Reg::Tmp(0),
            right: Reg::Const(0),
        },
    ];
    let m = ccp::serialize::install_fold::Msg { sid: 3, num_instrs: 2, instrs: Bin(instrs.clone()) };
    let buf = serialize::serialize(&Msg::Fld(m)).expect("serialize");
    assert_eq!(buf.len(), 12 + 16 * 2);
    match Msg::from_buf(&buf).expect("decode") {
        Msg::Fld(m2) => {
            assert_eq!(m2.sid, 3);
            assert_eq!(m2.num_instrs, 2);
            assert_eq!(m2.instrs.0, instrs);
        },
        _ => panic!("wrong variant"),
    }
}

#[test]
fn round_trip_update_field() {
    let m = ccp::serialize::update_field::Msg {
        sid: 5,
        num_fields: 2,
        fields: vec![(Reg::Implicit(4, Type::Num), 42), (Reg::Perm(1, Type::Num), 7)],
    };
    let buf = serialize::serialize(&Msg::Upd(m.clone())).expect("serialize");
    match Msg::from_buf(&buf).expect("decode") {
        Msg::Upd(m2) => assert_eq!(m2, m),
        _ => panic!("wrong variant"),
    }
}

#[test]
fn round_trip_pattern() {
    let mut p = Pattern::new();
    p.push(PatternEvent::SetRateAbs(125000));
    p.push(PatternEvent::WaitMicros(1000));
    p.push(PatternEvent::Report);
    let m = ccp::serialize::pattern::Msg { sid: 11, num_events: 3, pattern: p };
    let buf = serialize::serialize(&Msg::Pt(m)).expect("serialize");
    assert_eq!(buf.len(), 12 + 5 * 3);
    match Msg::from_buf(&buf).expect("decode") {
        Msg::Pt(m2) => {
            assert_eq!(m2.sid, 11);
            assert_eq!(m2.num_events, 3);
            assert_eq!(
                m2.pattern.events,
                vec![
                    PatternEvent::SetRateAbs(125000),
                    PatternEvent::WaitMicros(1000),
                    PatternEvent::Report,
                ],
            );
        },
        _ => panic!("wrong variant"),
    }
}

#[test]
fn framing_length_bytes() {
    let m = ccp::serialize::measurement::Msg { sid: 1, num_fields: 2, fields: vec![5, 6] };
    let buf = serialize::serialize(&Msg::Ms(m)).expect("serialize");
    let declared = (buf[2] as usize) | ((buf[3] as usize) << 8);
    assert_eq!(declared, buf.len());
    let c = ccp::serialize::create::Msg {
        sid: 1,
        init_cwnd: 2,
        mss: 3,
        src_ip: 4,
        src_port: 5,
        dst_ip: 6,
        dst_port: 7,
    };
    let buf2 = serialize::serialize(&Msg::Cr(c)).expect("serialize");
    let declared2 = (buf2[2] as usize) | ((buf2[3] as usize) << 8);
    assert_eq!(declared2, buf2.len());
}

#[test]
fn decode_bad_framing() {
    let m = ccp::serialize::measurement::Msg { sid: 1, num_fields: 1, fields: vec![5] };
    let mut buf = serialize::serialize(&Msg::Ms(m)).expect("serialize");
    buf[2] = buf[2].wrapping_add(1);
    assert_eq!(Msg::from_buf(&buf).unwrap_err(), DecodeError::BadFraming);
}

#[test]
fn decode_truncated() {
    assert_eq!(Msg::from_buf(&[3]).unwrap_err(), DecodeError::Truncated);
    // Consistent header, but the count asks for more fields than the body
    // holds.
    let mut buf = vec![1u8, 0, 13, 0, 1, 0, 0, 0, 9, 0, 0, 0, 0];
    let n = buf.len() as u8;
    buf[2] = n;
    assert_eq!(Msg::from_buf(&buf).unwrap_err(), DecodeError::Truncated);
}

#[test]
fn decode_unknown_tag() {
    let buf = vec![9u8, 0, 4, 0];
    assert_eq!(Msg::from_buf(&buf).unwrap_err(), DecodeError::UnknownTag);
}

#[test]
fn decode_invalid_enum() {
    let m = ccp::serialize::update_field::Msg {
        sid: 1,
        num_fields: 1,
        fields: vec![(Reg::Implicit(4, Type::Num), 42)],
    };
    let mut buf = serialize::serialize(&Msg::Upd(m)).expect("serialize");
    buf[12] = 200;  // register discriminant nobody knows
    assert_eq!(Msg::from_buf(&buf).unwrap_err(), DecodeError::InvalidEnum);
}

#[test]
fn serialize_rejects_count_mismatch() {
    let m = ccp::serialize::measurement::Msg { sid: 1, num_fields: 3, fields: vec![5] };
    assert!(serialize::serialize(&Msg::Ms(m)).is_err());
}

#[test]
fn serialize_rejects_bool_register() {
    let m = ccp::serialize::update_field::Msg {
        sid: 1,
        num_fields: 1,
        fields: vec![(Reg::Implicit(3, Type::Bool), 1)],
    };
    assert!(serialize::serialize(&Msg::Upd(m)).is_err());
}
