//! User-space control plane for a split congestion-control architecture.
//!
//! A fast datapath executes per-flow schedules ("patterns") and compiled
//! measurement programs; this crate is the user-space side: it frames and
//! serializes the binary wire protocol, compiles the measurement language
//! into datapath bytecode, and routes incoming messages to per-flow
//! congestion-control algorithm instances.

use vstd::prelude::*;

pub mod ipc;
pub mod lang;
pub mod pattern;
pub mod serialize;

use std::collections::HashMap;
use std::rc::Rc;
use ipc::{Backend, Ipc};
use lang::{Reg, Scope, scope_lookup};
use serialize::{DecodeError, Msg, MsgV, msg_v, msg_wf};
use vstd::string::StringSliceAdditionalSpecFns;

verus! {

broadcast use vstd::std_specs::hash::group_hash_axioms;

/// Unified error carrier: a textual tag describing a lower-layer failure.
#[derive(Debug, Clone)]
pub struct Error(pub String);

/// Shared handle on the transport, given to every algorithm instance so
/// it can drive the same channel that delivered its creation event.
pub struct Datapath<T: Ipc>(Rc<Backend<T>>);

impl<T: Ipc> Datapath<T> {
    /// Wrap a shared transport adapter.
    pub fn new(b: Rc<Backend<T>>) -> Datapath<T> {
        Datapath(b)
    }

    /// Serialize a `Pattern` message for flow `sock_id` and hand it to the
    /// transport. Returns as soon as the transport accepted the bytes; the
    /// flow registry is untouched. A pattern too long for the 16-bit frame
    /// length is rejected without sending anything.
    pub fn send_pattern(&self, sock_id: u32, prog: pattern::Pattern) -> (r: Result<(), Error>)
        ensures
            12 + 5 * prog@.len() > 65535 ==> r is Err,
    {
        let num = prog.len();
        let msg = Msg::Pt(serialize::pattern::Msg {
            sid: sock_id,
            num_events: num as u32,
            pattern: prog,
        });
        let buf = match serialize::serialize(&msg) {
            Ok(buf) => buf,
            Err(e) => {
                return Err(e);
            },
        };
        match self.0.send_msg(buf.as_slice()) {
            Ok(_) => Ok(()),
            Err(e) => Err(e),
        }
    }

    /// Compile the measurement source, serialize the result as an
    /// `InstallFold` message for flow `sock_id`, send it, and return the
    /// compiled scope. On a compile failure nothing is sent and the
    /// compiler's error is surfaced; a program whose instructions exceed
    /// the 16-bit frame length is likewise refused without sending; the
    /// flow registry is untouched.
    pub fn install_measurement(&self, sock_id: u32, src: &[u8]) -> (r: Result<
        Scope,
        Error,
    >)
        ensures
            lang::compile_spec(src@) is Err ==> r is Err,
            lang::compile_spec(src@) matches Ok(out) && 12 + 16 * out.0.len() > 65535 ==> r is Err,
            r matches Ok(sc) ==> (lang::compile_spec(src@) matches Ok(out) && sc@ == out.1
                && lang::scope_wf(sc@)),
    {
        let (bin, sc) = match lang::compile(src) {
            Ok(out) => out,
            Err(e) => {
                return Err(Error(lang::describe_compile_error(&e)));
            },
        };
        let msg = Msg::Fld(serialize::install_fold::Msg {
            sid: sock_id,
            num_instrs: bin.0.len() as u32,
            instrs: bin,
        });
        let buf = match serialize::serialize(&msg) {
            Ok(buf) => buf,
            Err(e) => {
                return Err(e);
            },
        };
        match self.0.send_msg(buf.as_slice()) {
            Ok(_) => Ok(sc),
            Err(e) => Err(e),
        }
    }
}

/// What a measurement report means for `name` under scope `sc`: the field
/// at the permanent register's index, absent when the name is not bound to
/// a permanent register or its index exceeds the report.
pub open spec fn get_field_spec(fields: Seq<u64>, sc: Seq<(Seq<u8>, Reg)>, name: Seq<u8>) -> Option<
    u64,
> {
    match scope_lookup(sc, name) {
        Some(Reg::Perm(idx, _)) => if idx < fields.len() {
            Some(fields[idx as int])
        } else {
            None
        },
        _ => None,
    }
}

/// A measurement report: an ordered sequence of 64-bit fields; field `i`
/// holds the permanent register with index `i`.
pub struct Measurement {
    fields: Vec<u64>,
}

impl View for Measurement {
    type V = Seq<u64>;

    closed spec fn view(&self) -> Seq<u64> {
        self.fields@
    }
}

impl Measurement {
    /// A report carrying exactly `fields`.
    pub fn new(fields: Vec<u64>) -> (m: Measurement)
        ensures
            m@ == fields@,
    {
        Measurement { fields }
    }

    /// Number of fields carried.
    pub fn num_fields(&self) -> (n: usize)
        ensures
            n == self@.len(),
    {
        self.fields.len()
    }

    /// Pure lookup of `field` in this report through the scope that the
    /// report's measurement program was compiled to.
    pub fn get_field(&self, field: &str, sc: &Scope) -> (r: Option<u64>)
        ensures
            r == get_field_spec(self@, sc@, field.spec_bytes()),
    {
        let name = field.as_bytes();
        match sc.get(name) {
            Some(Reg::Perm(idx, _)) => {
                if idx as usize >= self.fields.len() {
                    return None;
                }
                Some(self.fields[idx as usize])
            },
            _ => None,
        }
    }
}

/// Extension capability: a congestion-control algorithm. The dispatch
/// loop constructs one instance per flow and feeds it that flow's events.
pub trait CongAlg<I: Ipc>: Sized {
    /// Algorithm-specific configuration payload.
    type Config: Clone;

    /// Display name of the algorithm.
    fn name() -> String;

    /// Construct the per-flow instance.
    fn create(control: Datapath<I>, cfg: Config<I, Self>, info: DatapathInfo) -> Self;

    /// Deliver one measurement report.
    fn measurement(&mut self, sock_id: u32, m: Measurement);

    /// Termination hook, invoked exactly once when the flow closes.
    fn close(&mut self) {
    }
}

/// Configuration handed to each new instance: the algorithm-specific
/// payload. Cloneable so every flow gets its own copy.
pub struct Config<I, U: ?Sized>
    where I: Ipc, U: CongAlg<I>,
{
    pub config: U::Config,
}

impl<I, U> Clone for Config<I, U>
    where I: Ipc, U: CongAlg<I>,
{
    fn clone(&self) -> Config<I, U> {
        Config { config: self.config.clone() }
    }
}

/// Immutable per-flow metadata taken from the flow's `Create` message.
#[derive(Debug, Clone, Copy, PartialEq, Eq, Structural)]
pub struct DatapathInfo {
    pub sock_id: u32,
    pub init_cwnd: u32,
    pub mss: u32,
    pub src_ip: u32,
    pub src_port: u32,
    pub dst_ip: u32,
    pub dst_port: u32,
}

/// The outbound-only message kind that arrived inbound.
#[derive(Debug, Clone, Copy, PartialEq, Eq, Structural)]
pub enum OutboundKind {
    Pattern,
    InstallFold,
    UpdateField,
}

/// What dispatching one decoded message did, and what the loop around the
/// library should log or do next.
#[derive(Debug, Clone, Copy, PartialEq, Eq, Structural)]
pub enum DispatchOutcome {
    /// A flow was created; `replaced` reports that a prior instance with
    /// the same id was dropped ("re-creating", logged at debug level).
    Created { sid: u32, replaced: bool },
    /// A measurement was delivered to its instance's hook.
    Delivered { sid: u32 },
    /// A zero-field measurement removed the instance after its
    /// termination hook ran.
    Closed { sid: u32 },
    /// Measurement for a flow the registry does not hold: logged at debug
    /// level and discarded.
    UnknownFlow { sid: u32 },
    /// An outbound-only message arrived inbound: a fatal programmer
    /// error; the loop must terminate.
    DirectionViolation { kind: OutboundKind },
}

/// The flow a message addresses.
pub open spec fn msg_sid(m: MsgV) -> u32 {
    match m {
        MsgV::Cr { sid, .. } => sid,
        MsgV::Ms { sid, .. } => sid,
        MsgV::Fld { sid, .. } => sid,
        MsgV::Upd { sid, .. } => sid,
        MsgV::Pt { sid, .. } => sid,
    }
}

/// How the registry's key set moves under one decoded message: `Create`
/// inserts, a zero-field `Measurement` for a present flow removes,
/// everything else leaves it unchanged.
pub open spec fn registry_step(dom: Set<u32>, m: MsgV) -> Set<u32> {
    match m {
        MsgV::Cr { sid, .. } => dom.insert(sid),
        MsgV::Ms { sid, fields } => if dom.contains(sid) && fields.len() == 0 {
            dom.remove(sid)
        } else {
            dom
        },
        _ => dom,
    }
}

/// The outcome the dispatcher owes for one decoded message against a
/// registry with key set `dom`.
pub open spec fn dispatch_outcome(dom: Set<u32>, m: MsgV) -> DispatchOutcome {
    match m {
        MsgV::Cr { sid, .. } => DispatchOutcome::Created { sid, replaced: dom.contains(sid) },
        MsgV::Ms { sid, fields } => if !dom.contains(sid) {
            DispatchOutcome::UnknownFlow { sid }
        } else if fields.len() == 0 {
            DispatchOutcome::Closed { sid }
        } else {
            DispatchOutcome::Delivered { sid }
        },
        MsgV::Fld { .. } => DispatchOutcome::DirectionViolation { kind: OutboundKind::InstallFold },
        MsgV::Upd { .. } => DispatchOutcome::DirectionViolation { kind: OutboundKind::UpdateField },
        MsgV::Pt { .. } => DispatchOutcome::DirectionViolation { kind: OutboundKind::Pattern },
    }
}

/// Route one decoded message: `Create` constructs and registers an
/// instance (replacing any prior one), a `Measurement` is delivered to its
/// instance or closes it when empty, outbound-only kinds are direction
/// violations. The registry's key set moves exactly by `registry_step`,
/// and the outcome is exactly `dispatch_outcome`.
pub fn dispatch_msg<I: Ipc, U: CongAlg<I>>(
    flows: &mut HashMap<u32, U>,
    backend: &Rc<Backend<I>>,
    cfg: &Config<I, U>,
    msg: Msg,
) -> (o: DispatchOutcome)
    requires
        msg_wf(msg),
    ensures
        final(flows)@.dom() == registry_step(old(flows)@.dom(), msg_v(msg)),
        forall|k: u32|
            k != msg_sid(msg_v(msg)) && old(flows)@.contains_key(k)
                ==> final(flows)@.contains_key(k) && final(flows)@[k] == old(flows)@[k],
        o == dispatch_outcome(old(flows)@.dom(), msg_v(msg)),
{
    match msg {
        Msg::Cr(c) => {
            let prior = flows.remove(&c.sid);
            let replaced = prior.is_some();
            let alg = U::create(
                Datapath(backend.clone()),
                cfg.clone(),
                DatapathInfo {
                    sock_id: c.sid,
                    init_cwnd: c.init_cwnd,
                    mss: c.mss,
                    src_ip: c.src_ip,
                    src_port: c.src_port,
                    dst_ip: c.dst_ip,
                    dst_port: c.dst_port,
                },
            );
            flows.insert(c.sid, alg);
            proof {
                assert(flows@.dom() =~= old(flows)@.dom().insert(c.sid));
            }
            DispatchOutcome::Created { sid: c.sid, replaced }
        },
        Msg::Ms(m) => {
            let sid = m.sid;
            if !flows.contains_key(&sid) {
                return DispatchOutcome::UnknownFlow { sid };
            }
            if m.num_fields == 0 {
                match flows.remove(&sid) {
                    Some(mut alg) => {
                        alg.close();
                    },
                    None => {},
                }
                proof {
                    assert(flows@.dom() =~= old(flows)@.dom().remove(sid));
                }
                DispatchOutcome::Closed { sid }
            } else {
                match flows.remove(&sid) {
                    Some(mut alg) => {
                        alg.measurement(sid, Measurement { fields: m.fields });
                        flows.insert(sid, alg);
                    },
                    None => {},
                }
                proof {
                    assert(flows@.dom() =~= old(flows)@.dom());
                }
                DispatchOutcome::Delivered { sid }
            }
        },
        Msg::Pt(_) => DispatchOutcome::DirectionViolation { kind: OutboundKind::Pattern },
        Msg::Fld(_) => DispatchOutcome::DirectionViolation { kind: OutboundKind::InstallFold },
        Msg::Upd(_) => DispatchOutcome::DirectionViolation { kind: OutboundKind::UpdateField },
    }
}

/// Field lookup law: under a scope whose names are pairwise distinct,
/// a name bound to the permanent register with index `idx` reads field
/// `idx` of any report that has more than `idx` fields, and is absent
/// from any report that does not.
pub proof fn lemma_field_lookup(fields: Seq<u64>, sc: Seq<(Seq<u8>, Reg)>, i: int)
    requires
        0 <= i < sc.len(),
        forall|a: int, b: int| 0 <= a < b < sc.len() ==> sc[a].0 != sc[b].0,
    ensures
        sc[i].1 matches Reg::Perm(idx, _) ==> get_field_spec(fields, sc, sc[i].0) == (if idx
            < fields.len() {
            Some(fields[idx as int])
        } else {
            None
        }),
{
    lang::lemma_scope_lookup_distinct(sc, i);
}

/// Install-and-interpret law: under a compiled scope — one satisfying
/// the invariant `install_measurement` guarantees — the `i`-th declared
/// permanent name reads field `i` of a report with more than `i` fields,
/// and is absent from a shorter report.
pub proof fn lemma_scope_field_lookup(fields: Seq<u64>, sc: Seq<(Seq<u8>, Reg)>, i: int)
    requires
        lang::scope_wf(sc),
        0 <= i < sc.len(),
        sc.len() <= 0x1_0000_0000,
    ensures
        get_field_spec(fields, sc, sc[i].0) == (if i < fields.len() {
            Some(fields[i])
        } else {
            None
        }),
{
    lemma_field_lookup(fields, sc, i);
}

/// Field lookup law, absent side: a name no scope entry binds reads
/// nothing from any report.
pub proof fn lemma_field_lookup_absent(fields: Seq<u64>, sc: Seq<(Seq<u8>, Reg)>, name: Seq<u8>)
    requires
        forall|k: int| 0 <= k < sc.len() ==> (#[trigger] sc[k]).0 != name,
    ensures
        get_field_spec(fields, sc, name) is None,
{
    lang::lemma_scope_lookup_none(sc, name);
}

/// `m` creates flow `sid`.
pub open spec fn creates(m: MsgV, sid: u32) -> bool {
    match m {
        MsgV::Cr { sid: s, .. } => s == sid,
        _ => false,
    }
}

/// `m` is the zero-field measurement that closes flow `sid`.
pub open spec fn closes(m: MsgV, sid: u32) -> bool {
    match m {
        MsgV::Ms { sid: s, fields } => s == sid && fields.len() == 0,
        _ => false,
    }
}

/// The registry's key set after the loop has processed the messages `h`
/// in order, starting empty.
pub open spec fn registry_after(h: Seq<MsgV>) -> Set<u32>
    decreases h.len(),
{
    if h.len() == 0 {
        Set::empty()
    } else {
        registry_step(registry_after(h.drop_last()), h.last())
    }
}

/// A `Create` for `sid` was processed and no zero-field measurement for
/// `sid` came after it.
pub open spec fn live(h: Seq<MsgV>, sid: u32) -> bool {
    exists|i: int|
        0 <= i < h.len() && #[trigger] creates(h[i], sid) && (forall|j: int|
            i < j < h.len() ==> !(#[trigger] closes(h[j], sid)))
}

/// Registry law: at any quiescent instant the registry holds exactly the
/// `sock_id`s for which a `Create` has been processed without a
/// subsequent zero-field `Measurement`. (A replacing `Create` keeps the
/// id present, as processing it re-creates the flow.)
pub proof fn lemma_registry_characterization(h: Seq<MsgV>, sid: u32)
    ensures
        registry_after(h).contains(sid) <==> live(h, sid),
    decreases h.len(),
{
    if h.len() > 0 {
        let pre = h.drop_last();
        let m = h.last();
        let n = h.len() as int;
        lemma_registry_characterization(pre, sid);
        if creates(m, sid) {
            assert(creates(h[n - 1], sid));
            assert(forall|j: int| n - 1 < j < n ==> !closes(h[j], sid));
            assert(live(h, sid));
            assert(registry_after(h).contains(sid));
        } else if closes(m, sid) {
            assert(!registry_after(h).contains(sid));
            assert(!live(h, sid)) by {
                if live(h, sid) {
                    let i = choose|i: int|
                        0 <= i < h.len() && #[trigger] creates(h[i], sid) && (forall|j: int|
                            i < j < h.len() ==> !(#[trigger] closes(h[j], sid)));
                    assert(i < n - 1);
                    assert(!closes(h[n - 1], sid));
                }
            }
        } else {
            assert(registry_after(h).contains(sid) == registry_after(pre).contains(sid));
            assert(live(pre, sid) ==> live(h, sid)) by {
                if live(pre, sid) {
                    let i = choose|i: int|
                        0 <= i < pre.len() && #[trigger] creates(pre[i], sid) && (forall|j: int|
                            i < j < pre.len() ==> !(#[trigger] closes(pre[j], sid)));
                    assert(creates(h[i], sid));
                    assert forall|j: int| i < j < n implies !closes(h[j], sid) by {
                        if j < n - 1 {
                            assert(h[j] == pre[j]);
                        } else {
                            assert(h[j] == m);
                        }
                    }
                    assert(live(h, sid));
                }
            }
            assert(live(h, sid) ==> live(pre, sid)) by {
                if live(h, sid) {
                    let i = choose|i: int|
                        0 <= i < h.len() && #[trigger] creates(h[i], sid) && (forall|j: int|
                            i < j < h.len() ==> !(#[trigger] closes(h[j], sid)));
                    assert(i < n - 1);
                    assert(creates(pre[i], sid));
                    assert forall|j: int| i < j < pre.len() implies !closes(pre[j], sid) by {
                        assert(pre[j] == h[j]);
                    }
                    assert(live(pre, sid));
                }
            }
        }
    }
}

/// Decode one inbound frame and dispatch it, reporting exactly the
/// outcome the dispatcher owes for the decoded message. A frame that
/// does not decode leaves the registry untouched: the loop logs and
/// continues (unknown tags are discarded silently).
pub fn dispatch_frame<I: Ipc, U: CongAlg<I>>(
    flows: &mut HashMap<u32, U>,
    backend: &Rc<Backend<I>>,
    cfg: &Config<I, U>,
    frame: &[u8],
) -> (o: Result<DispatchOutcome, DecodeError>)
    ensures
        match serialize::parse_msg(frame@) {
            Ok(mv) => final(flows)@.dom() == registry_step(old(flows)@.dom(), mv) && o == Ok::<
                DispatchOutcome,
                DecodeError,
            >(dispatch_outcome(old(flows)@.dom(), mv)),
            Err(e) => o == Err::<DispatchOutcome, DecodeError>(e) && final(flows)@.dom() == old(
                flows,
            )@.dom(),
        },
{
    match Msg::from_buf(frame) {
        Ok(msg) => Ok(dispatch_msg(flows, backend, cfg, msg)),
        Err(e) => Err(e),
    }
}

} // verus!
