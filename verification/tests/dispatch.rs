use std::cell::RefCell;
use std::collections::HashMap;
use std::collections::VecDeque;
use std::rc::Rc;

use ccp::ipc::{Backend, Ipc, ListenMode};
use ccp::lang::{Reg, Type};
use ccp::pattern::{Pattern, PatternEvent};
use ccp::serialize::{self, Msg};
use ccp::{CongAlg, Config, Datapath, DatapathInfo, DispatchOutcome, Error, Measurement,
    OutboundKind, dispatch_frame};

struct TestIpc {
    sent: Rc<RefCell<Vec<Vec<u8>>>>,
    inbox: RefCell<VecDeque<Vec<u8>>>,
}

impl Ipc for TestIpc {
    fn send(&self, msg: &[u8]) -> Result<(), Error> {
        self.sent.borrow_mut().push(msg.to_vec());
        Ok(())
    }

    fn recv(&self, _mode: ListenMode) -> Result<Vec<u8>, Error> {
        self.inbox
            .borrow_mut()
            .pop_front()
            .ok_or_else(|| Error("receive channel closed".to_string()))
    }
}

struct TestAlg {
    log: Rc<RefCell<Vec<String>>>,
    sid: u32,
    cwnd: u32,
}

impl CongAlg<TestIpc> for TestAlg {
    type Config = Rc<RefCell<Vec<String>>>;

    fn name() -> String {
        "test".to_string()
    }

    fn create(_control: Datapath<TestIpc>, cfg: Config<TestIpc, Self>, info: DatapathInfo) -> Self {
        cfg.config
            .borrow_mut()
            .push(format!("create {} {} {}", info.sock_id, info.init_cwnd, info.mss));
        TestAlg { log: cfg.config.clone(), sid: info.sock_id, cwnd: info.init_cwnd }
    }

    fn measurement(&mut self, sock_id: u32, m: Measurement) {
        let mut sc = ccp::lang::Scope::new();
        for i in 0..m.num_fields() {
            sc.push(format!("f{}", i).into_bytes(), Reg::Perm(i as u32, Type::Num));
        }
        let vals: Vec<u64> =
            (0..m.num_fields()).map(|i| m.get_field(&format!("f{}", i), &sc).unwrap()).collect();
        self.log.borrow_mut().push(format!("measurement {} {:?}", sock_id, vals));
    }

    fn close(&mut self) {
        self.log.borrow_mut().push(format!("close {}", self.sid));
    }
}

struct Harness {
    log: Rc<RefCell<Vec<String>>>,
    sent: Rc<RefCell<Vec<Vec<u8>>>>,
    backend: Rc<Backend<TestIpc>>,
    cfg: Config<TestIpc, TestAlg>,
    flows: HashMap<u32, TestAlg>,
}

fn harness() -> Harness {
    let log = Rc::new(RefCell::new(Vec::new()));
    let sent = Rc::new(RefCell::new(Vec::new()));
    let ipc = TestIpc { sent: sent.clone(), inbox: RefCell::new(VecDeque::new()) };
    let backend = Rc::new(Backend::new(ipc));
    let cfg = Config::<TestIpc, TestAlg> { config: log.clone() };
    Harness { log, sent, backend, cfg, flows: HashMap::new() }
}

fn create_frame(sid: u32, init_cwnd: u32, mss: u32) -> Vec<u8> {
    serialize::serialize(&Msg::Cr(ccp::serialize::create::Msg {
        sid,
        init_cwnd,
        mss,
        src_ip: 1,
        src_port: 2,
        dst_ip: 3,
        dst_port: 4,
    }))
    .expect("serialize")
}

fn measurement_frame(sid: u32, fields: Vec<u64>) -> Vec<u8> {
    serialize::serialize(&Msg::Ms(ccp::serialize::measurement::Msg {
        sid,
        num_fields: fields.len() as u32,
        fields,
    }))
    .expect("serialize")
}

#[test]
fn create_measure_close() {
    let mut h = harness();
    let o1 = dispatch_frame(&mut h.flows, &h.backend, &h.cfg, &create_frame(7, 10, 1448)).unwrap();
    assert_eq!(o1, DispatchOutcome::Created { sid: 7, replaced: false });
    let o2 =
        dispatch_frame(&mut h.flows, &h.backend, &h.cfg, &measurement_frame(7, vec![100, 200]))
            .unwrap();
    assert_eq!(o2, DispatchOutcome::Delivered { sid: 7 });
    let o3 = dispatch_frame(&mut h.flows, &h.backend, &h.cfg, &measurement_frame(7, vec![]))
        .unwrap();
    assert_eq!(o3, DispatchOutcome::Closed { sid: 7 });
    assert!(h.flows.is_empty());
    let log = h.log.borrow();
    assert_eq!(
        *log,
        vec![
            "create 7 10 1448".to_string(),
            "measurement 7 [100, 200]".to_string(),
            "close 7".to_string(),
        ],
    );
}

#[test]
fn re_create_replaces_without_close() {
    let mut h = harness();
    let o1 = dispatch_frame(&mut h.flows, &h.backend, &h.cfg, &create_frame(1, 10, 1448)).unwrap();
    assert_eq!(o1, DispatchOutcome::Created { sid: 1, replaced: false });
    let o2 = dispatch_frame(&mut h.flows, &h.backend, &h.cfg, &create_frame(1, 20, 1448)).unwrap();
    assert_eq!(o2, DispatchOutcome::Created { sid: 1, replaced: true });
    assert_eq!(h.flows.len(), 1);
    assert_eq!(h.flows.get(&1).unwrap().cwnd, 20);
    let log = h.log.borrow();
    assert_eq!(*log, vec!["create 1 10 1448".to_string(), "create 1 20 1448".to_string()]);
}

#[test]
fn measurement_for_unknown_flow_is_discarded() {
    let mut h = harness();
    let o = dispatch_frame(&mut h.flows, &h.backend, &h.cfg, &measurement_frame(42, vec![1]))
        .unwrap();
    assert_eq!(o, DispatchOutcome::UnknownFlow { sid: 42 });
    assert!(h.flows.is_empty());
    assert!(h.log.borrow().is_empty());
    // The loop goes on: later frames still dispatch.
    let o2 = dispatch_frame(&mut h.flows, &h.backend, &h.cfg, &create_frame(42, 1, 1)).unwrap();
    assert_eq!(o2, DispatchOutcome::Created { sid: 42, replaced: false });
}

#[test]
fn inbound_outbound_only_kinds_are_fatal() {
    let mut h = harness();
    let mut p = Pattern::new();
    p.push(PatternEvent::Report);
    let pt = serialize::serialize(&Msg::Pt(ccp::serialize::pattern::Msg {
        sid: 1,
        num_events: 1,
        pattern: p,
    }))
    .expect("serialize");
    let o = dispatch_frame(&mut h.flows, &h.backend, &h.cfg, &pt).unwrap();
    assert_eq!(o, DispatchOutcome::DirectionViolation { kind: OutboundKind::Pattern });

    let fld = serialize::serialize(&Msg::Fld(ccp::serialize::install_fold::Msg {
        sid: 1,
        num_instrs: 0,
        instrs: ccp::lang::Bin(vec![]),
    }))
    .expect("serialize");
    let o2 = dispatch_frame(&mut h.flows, &h.backend, &h.cfg, &fld).unwrap();
    assert_eq!(o2, DispatchOutcome::DirectionViolation { kind: OutboundKind::InstallFold });

    let upd = serialize::serialize(&Msg::Upd(ccp::serialize::update_field::Msg {
        sid: 1,
        num_fields: 0,
        fields: vec![],
    }))
    .expect("serialize");
    let o3 = dispatch_frame(&mut h.flows, &h.backend, &h.cfg, &upd).unwrap();
    assert_eq!(o3, DispatchOutcome::DirectionViolation { kind: OutboundKind::UpdateField });
    assert!(h.flows.is_empty());
}

#[test]
fn undecodable_frame_is_reported_not_dispatched() {
    let mut h = harness();
    let r = dispatch_frame(&mut h.flows, &h.backend, &h.cfg, &[9u8, 0, 4, 0]);
    assert_eq!(r.unwrap_err(), serialize::DecodeError::UnknownTag);
    assert!(h.flows.is_empty());
}

#[test]
fn install_and_interpret() {
    let h = harness();
    let dp = Datapath::new(h.backend.clone());
    let sc = dp.install_measurement(5, b"(acked (add acked ack)) (rtt rtt)").expect("install");
    assert_eq!(h.sent.borrow().len(), 1);
    assert_eq!(h.sent.borrow()[0][0], 2);  // InstallFold tag
    let m = Measurement::new(vec![5, 17]);
    assert_eq!(m.get_field("acked", &sc), Some(5));
    assert_eq!(m.get_field("rtt", &sc), Some(17));
    assert_eq!(m.get_field("missing", &sc), None);
}

#[test]
fn install_failure_sends_nothing() {
    let h = harness();
    let dp = Datapath::new(h.backend.clone());
    assert!(dp.install_measurement(5, b"(x nonsense)").is_err());
    assert!(h.sent.borrow().is_empty());
}

#[test]
fn install_refuses_program_exceeding_frame() {
    let h = harness();
    let dp = Datapath::new(h.backend.clone());
    let mut src = String::from("(x (add 1");
    for _ in 0..5000 {
        src.push_str(" 1");
    }
    src.push_str("))");
    // The program compiles, but its instructions cannot fit one 16-bit
    // framed message, so the install is refused without sending.
    let (bin, _) = ccp::lang::compile(src.as_bytes()).expect("compile");
    assert!(bin.0.len() > 4095);
    assert!(dp.install_measurement(1, src.as_bytes()).is_err());
    assert!(h.sent.borrow().is_empty());
}

#[test]
fn send_pattern_frames_on_the_wire() {
    let h = harness();
    let dp = Datapath::new(h.backend.clone());
    let mut p = Pattern::new();
    p.push(PatternEvent::SetCwndAbs(10));
    p.push(PatternEvent::Report);
    dp.send_pattern(3, p).expect("send");
    let sent = h.sent.borrow();
    assert_eq!(sent.len(), 1);
    match Msg::from_buf(&sent[0]).expect("decode") {
        Msg::Pt(m) => {
            assert_eq!(m.sid, 3);
            assert_eq!(m.pattern.events, vec![PatternEvent::SetCwndAbs(10), PatternEvent::Report]);
        },
        _ => panic!("wrong variant"),
    }
}

#[test]
fn get_field_out_of_range_or_non_permanent_is_absent() {
    let mut sc = ccp::lang::Scope::new();
    sc.push(b"z".to_vec(), Reg::Perm(5, Type::Num));
    sc.push(b"i".to_vec(), Reg::Implicit(0, Type::Num));
    let m = Measurement::new(vec![1, 2]);
    assert_eq!(m.get_field("z", &sc), None);
    assert_eq!(m.get_field("i", &sc), None);
}
