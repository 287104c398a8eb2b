//! The kernel objects that back capabilities: receive gates, send
//! gates, memory gates, services and sessions, plus the VPE record this
//! core reads.
//!
//! Cross-object references are arena keys (`ObjId`): a capability table
//! stores keys, and the syscall layer resolves a key against the object
//! tables before it calls into this core.  Destruction side effects are
//! explicit release functions: a memory gate returns its region to the
//! allocator, a session sends a best-effort CLOSE request to its
//! service.

use vstd::prelude::*;

use vstd::string::StringExecFns;

use crate::{EpId, Event, Label, ObjId, PEId, VPEId, INVALID_VPE};
use crate::mainmem::{Allocation, GlobAddr, MainMem};
use crate::sendqueue::{Message, SendQueue, ThreadManager};
use crate::text::{bool_text, dec_digits, hex_text, push_bool, push_dec, push_hex_text};

verus! {

/// Protocol opcode of the CLOSE request sent to a service.
pub const OP_CLOSE: u64 = 3;

/// Read permission of a memory gate.
pub const PERM_R: u8 = 1;

/// Write permission of a memory gate.
pub const PERM_W: u8 = 2;

/// Execute permission of a memory gate.
pub const PERM_X: u8 = 4;

/// Permission bits of a memory gate.
#[derive(Clone, Copy, PartialEq, Eq, Structural, Debug)]
pub struct Perm {
    pub bits: u8,
}

impl Perm {
    pub fn new(bits: u8) -> (r: Perm)
        ensures
            r.bits == bits,
    {
        Perm { bits }
    }
}

/// Byte `k` of the little-endian encoding of `v`, for shift `8 * k`.
pub open spec fn le_byte(v: u64, shift: u64) -> u8 {
    ((v >> shift) & 0xff) as u8
}

/// The eight bytes of `v`, least significant first.
pub open spec fn u64_le_bytes(v: u64) -> Seq<u8> {
    seq![
        le_byte(v, 0),
        le_byte(v, 8),
        le_byte(v, 16),
        le_byte(v, 24),
        le_byte(v, 32),
        le_byte(v, 40),
        le_byte(v, 48),
        le_byte(v, 56),
    ]
}

/// Wire layout of a CLOSE request: the opcode in the first eight bytes,
/// the session identifier in the next eight, both little-endian.
pub open spec fn close_msg_bytes(ident: u64) -> Seq<u8> {
    u64_le_bytes(OP_CLOSE) + u64_le_bytes(ident)
}

/// Appends the little-endian encoding of `v` to `out`.
fn push_u64_le(out: &mut Vec<u8>, v: u64)
    ensures
        final(out)@ == old(out)@ + u64_le_bytes(v),
{
    out.push(((v >> 0u64) & 0xff) as u8);
    out.push(((v >> 8u64) & 0xff) as u8);
    out.push(((v >> 16u64) & 0xff) as u8);
    out.push(((v >> 24u64) & 0xff) as u8);
    out.push(((v >> 32u64) & 0xff) as u8);
    out.push(((v >> 40u64) & 0xff) as u8);
    out.push(((v >> 48u64) & 0xff) as u8);
    out.push(((v >> 56u64) & 0xff) as u8);
    proof {
        assert(out@ =~= old(out)@ + u64_le_bytes(v));
    }
}

/// Builds the sixteen bytes of a CLOSE request for session `ident`.
pub fn close_msg(ident: u64) -> (r: Vec<u8>)
    ensures
        r@ == close_msg_bytes(ident),
        r@.len() == 16,
{
    let mut out: Vec<u8> = Vec::new();
    push_u64_le(&mut out, OP_CLOSE);
    push_u64_le(&mut out, ident);
    proof {
        assert(out@ =~= close_msg_bytes(ident));
    }
    out
}

/// A virtual PE, as far as this core reads it: its identifier and
/// whether it still hosts a running application.
pub struct VPE {
    pub id: VPEId,
    pub app: bool,
}

impl VPE {
    pub fn new(id: VPEId, app: bool) -> (r: VPE)
        ensures
            r.id == id,
            r.app == app,
    {
        VPE { id, app }
    }

    /// Whether the VPE still hosts a running application.
    pub fn has_app(&self) -> (r: bool)
        ensures
            r == self.app,
    {
        self.app
    }
}

/// Receive gate: metadata of a receive buffer and its slot geometry on
/// some endpoint.  The buffer holds `2^order` bytes split into slots of
/// `2^msg_order` bytes.  Address 0 is the sentinel of an unactivated
/// gate.
pub struct RGateObject {
    pub vpe: VPEId,
    pub ep: Option<EpId>,
    pub addr: usize,
    pub order: u32,
    pub msg_order: u32,
    pub header: usize,
}

impl RGateObject {
    /// A receive gate is well-formed when a message slot fits in the
    /// buffer, the sizes fit the machine word, and it is bound to an
    /// endpoint exactly when its buffer address is set.
    pub open spec fn wf(&self) -> bool {
        &&& self.msg_order <= self.order
        &&& self.order < usize::BITS
        &&& (self.ep is Some <==> self.addr != 0)
    }

    /// Creates an unactivated receive gate: no owner, no endpoint, no
    /// buffer address.
    pub fn new(order: u32, msg_order: u32) -> (r: RGateObject)
        requires
            msg_order <= order,
            order < usize::BITS,
        ensures
            r.vpe == INVALID_VPE,
            r.ep is None,
            r.addr == 0,
            r.order == order,
            r.msg_order == msg_order,
            r.header == 0,
            r.wf(),
    {
        RGateObject { vpe: INVALID_VPE, ep: None, addr: 0, order, msg_order, header: 0 }
    }

    /// Whether this gate has been activated: its buffer address is set.
    pub fn activated(&self) -> (r: bool)
        ensures
            r == (self.addr != 0),
    {
        self.addr != 0
    }

    /// Total size of the receive buffer in bytes.
    pub fn size(&self) -> (r: usize)
        requires
            self.order < usize::BITS,
        ensures
            r == (1usize << self.order),
    {
        1usize << self.order
    }

    /// Size of one message slot in bytes.
    pub fn msg_size(&self) -> (r: usize)
        requires
            self.msg_order < usize::BITS,
        ensures
            r == (1usize << self.msg_order),
    {
        1usize << self.msg_order
    }
}

/// Send gate: authorises transmission to a receive gate with a label
/// and a credit allowance.  `credits == 0` means no explicit credits;
/// what that admits is the DTU driver's decision, not this core's.
pub struct SGateObject {
    pub rgate: ObjId,
    pub label: Label,
    pub credits: u64,
}

impl SGateObject {
    pub fn new(rgate: ObjId, label: Label, credits: u64) -> (r: SGateObject)
        ensures
            r.rgate == rgate,
            r.label == label,
            r.credits == credits,
    {
        SGateObject { rgate, label, credits }
    }
}

/// Memory gate: authorises remote access to `size` bytes at `addr` on
/// PE `pe` with the given permissions.  A derived gate is a window into
/// a parent gate and owns no memory; a non-derived gate owns a region
/// of the allocator registry and returns it on release.
pub struct MGateObject {
    pub pe: PEId,
    pub vpe: VPEId,
    pub addr: usize,
    pub size: usize,
    pub perms: Perm,
    pub derived: bool,
}

impl MGateObject {
    /// Creates a gate for a freshly allocated region; it owns the
    /// region, so it is not derived.
    pub fn new(pe: PEId, vpe: VPEId, addr: usize, size: usize, perms: Perm) -> (r: MGateObject)
        ensures
            r.pe == pe,
            r.vpe == vpe,
            r.addr == addr,
            r.size == size,
            r.perms == perms,
            !r.derived,
    {
        MGateObject { pe, vpe, addr, size, perms, derived: false }
    }

    /// Teardown on final release of this gate: a non-derived gate hands
    /// its region back to the allocator registry, exactly once; a
    /// derived gate releases nothing.
    pub fn release(&self, mem: &mut MainMem)
        ensures
            !self.derived ==> final(mem).frees@ == old(mem).frees@.push(
                (Allocation {
                    gaddr: (GlobAddr { pe: self.pe, offset: self.addr }),
                    size: self.size,
                }),
            ),
            self.derived ==> final(mem).frees@ == old(mem).frees@,
    {
        if !self.derived {
            let gaddr = GlobAddr::new_with(self.pe, self.addr);
            mem.free(&Allocation::new(gaddr, self.size));
        }
    }
}

/// Service: a named provider VPE, its receive gate and the send queue
/// in front of that gate.
pub struct ServObject {
    pub name: String,
    pub rgate: ObjId,
    pub queue: SendQueue,
}

impl ServObject {
    pub fn new(vpe: ObjId, name: String, rgate: ObjId) -> (r: ServObject)
        ensures
            r.name == name,
            r.rgate == rgate,
            r.queue.vpe == vpe,
            r.queue.msgs@.len() == 0,
    {
        ServObject { name, rgate, queue: SendQueue::new(vpe) }
    }

    /// The VPE that provides this service.
    pub fn vpe(&self) -> (r: ObjId)
        ensures
            r == self.queue.vpe,
    {
        self.queue.vpe()
    }

    /// Enqueues a request for the service.  `rgate` is the receive gate
    /// this service's `rgate` key names; it must be activated, anything
    /// else is a programming error.  Returns `None` when the queue
    /// admitted the message immediately and `Some(event)` when it was
    /// deferred.
    pub fn send(&mut self, rgate: &RGateObject, msg: &[u8]) -> (r: Option<Event>)
        requires
            rgate.ep is Some,
        ensures
            final(self).name == old(self).name,
            final(self).rgate == old(self).rgate,
            SendQueue::sent_after(
                old(self).queue,
                final(self).queue,
                rgate.ep->Some_0,
                msg@,
            ),
            r is None <==> old(self).queue.msgs@.len() == 0,
    {
        let rep = rgate.ep.unwrap();
        self.queue.send(rep, msg, msg.len())
    }

    /// Sends a request and waits for the reply.  When the queue defers
    /// the message, the calling kernel thread blocks on the returned
    /// event and fetches the reply from its inbox once resumed.  When
    /// the queue admits the message immediately, no reply is fetched.
    pub fn send_receive(
        &mut self,
        rgate: &RGateObject,
        msg: &[u8],
        tm: &mut ThreadManager,
    ) -> (r: Option<Message>)
        requires
            rgate.ep is Some,
        ensures
            final(self).name == old(self).name,
            final(self).rgate == old(self).rgate,
            SendQueue::sent_after(
                old(self).queue,
                final(self).queue,
                rgate.ep->Some_0,
                msg@,
            ),
            old(self).queue.msgs@.len() == 0 ==> r is None && *final(tm) == *old(tm),
            old(self).queue.msgs@.len() > 0 ==> {
                &&& r == old(tm).inbox
                &&& final(tm).inbox is None
                &&& final(tm).waited@.len() == old(tm).waited@.len() + 1
            },
    {
        let event = self.send(rgate, msg);
        match event {
            Some(event) => {
                tm.wait_for(event);
                tm.fetch_msg()
            },
            None => None,
        }
    }
}

/// Session: a per-client handle into a service, named by an identifier
/// the server chose.  `srv_owned` records whether the handle lives in
/// the server's capability table; release does not read it.
pub struct SessObject {
    pub srv: ObjId,
    pub ident: u64,
    pub srv_owned: bool,
}

impl SessObject {
    pub fn new(srv: ObjId, ident: u64, srv_owned: bool) -> (r: SessObject)
        ensures
            r.srv == srv,
            r.ident == ident,
            r.srv_owned == srv_owned,
    {
        SessObject { srv, ident, srv_owned }
    }

    /// Teardown on final release of the session: a best-effort CLOSE
    /// notification.  If the service's owning VPE still hosts a running
    /// application, exactly one CLOSE request carrying this session's
    /// identifier is enqueued on the service's send queue; the event of
    /// a deferred send is dropped, a destructor never waits.  If the
    /// application is gone, nothing is sent.
    pub fn release(&self, srv: &mut ServObject, srv_rgate: &RGateObject, vpe: &VPE)
        requires
            vpe.app ==> srv_rgate.ep is Some,
        ensures
            final(srv).name == old(srv).name,
            final(srv).rgate == old(srv).rgate,
            vpe.app ==> SendQueue::sent_after(
                old(srv).queue,
                final(srv).queue,
                srv_rgate.ep->Some_0,
                close_msg_bytes(self.ident),
            ),
            !vpe.app ==> final(srv).queue.msgs == old(srv).queue.msgs && final(srv).queue.vpe == old(
                srv,
            ).queue.vpe,
    {
        if vpe.has_app() {
            let smsg = close_msg(self.ident);
            let _ = srv.send(srv_rgate, smsg.as_slice());
        }
    }
}

/// Log form of a receive gate's destination: owning VPE and endpoint,
/// `EP??` while unbound.
pub open spec fn dest_text(r: RGateObject) -> Seq<char> {
    "VPE"@ + dec_digits(r.vpe as int) + ":"@ + (if r.ep is Some {
        "EP"@ + dec_digits(r.ep->Some_0 as int)
    } else {
        "EP??"@
    })
}

/// Log line of a receive gate.
pub open spec fn rgate_text(r: RGateObject) -> Seq<char> {
    "RGate[loc="@ + dest_text(r) + ", addr="@ + hex_text(r.addr as int) + ", sz="@ + hex_text(
        (1usize << r.order) as int,
    ) + ", msz="@ + hex_text((1usize << r.msg_order) as int) + ", hd="@ + hex_text(
        r.header as int,
    ) + "]"@
}

/// Log line of a send gate, given the receive gate it targets.
pub open spec fn sgate_text(g: SGateObject, r: RGateObject) -> Seq<char> {
    "SGate[rgate="@ + dest_text(r) + ", lbl="@ + hex_text(g.label as int) + ", crd="@ + dec_digits(
        g.credits as int,
    ) + "]"@
}

/// Log form of a permission set: one letter per granted permission.
pub open spec fn perm_text(p: Perm) -> Seq<char> {
    (if p.bits & PERM_R != 0 {
        "R"@
    } else {
        Seq::<char>::empty()
    }) + (if p.bits & PERM_W != 0 {
        "W"@
    } else {
        Seq::<char>::empty()
    }) + (if p.bits & PERM_X != 0 {
        "X"@
    } else {
        Seq::<char>::empty()
    })
}

/// Log line of a memory gate.
pub open spec fn mgate_text(m: MGateObject) -> Seq<char> {
    "MGate[tgt=VPE"@ + dec_digits(m.vpe as int) + ":PE"@ + dec_digits(m.pe as int) + ", addr="@
        + hex_text(m.addr as int) + ", sz="@ + hex_text(m.size as int) + ", perm="@ + perm_text(
        m.perms,
    ) + ", der="@ + bool_text(m.derived) + "]"@
}

/// Log line of a service, given its receive gate.
pub open spec fn serv_text(s: ServObject, r: RGateObject) -> Seq<char> {
    "Serv[name="@ + s.name@ + ", rgate="@ + dest_text(r) + "]"@
}

/// Log line of a session, given its service.
pub open spec fn sess_text(sess: SessObject, srv: ServObject) -> Seq<char> {
    "Sess[service="@ + srv.name@ + ", ident="@ + hex_text(sess.ident as int) + "]"@
}

/// Log line of a VPE record.
pub open spec fn vpe_text(v: VPE) -> Seq<char> {
    "VPE[id="@ + dec_digits(v.id as int) + ", app="@ + bool_text(v.app) + "]"@
}

impl RGateObject {
    /// Appends this gate's destination, `VPE<n>:EP<n>` or `VPE<n>:EP??`.
    pub fn print_dest(&self, out: &mut String)
        ensures
            final(out)@ == old(out)@ + dest_text(*self),
    {
        out.append("VPE");
        push_dec(out, self.vpe);
        out.append(":");
        match self.ep {
            Some(ep) => {
                out.append("EP");
                push_dec(out, ep);
            },
            None => {
                out.append("EP??");
            },
        }
        proof {
            assert(out@ =~= old(out)@ + dest_text(*self));
        }
    }

    /// This gate's one-line log form.
    pub fn fmt_text(&self) -> (r: String)
        requires
            self.order < usize::BITS,
            self.msg_order < usize::BITS,
        ensures
            r@ == rgate_text(*self),
    {
        let mut out = String::new();
        out.append("RGate[loc=");
        self.print_dest(&mut out);
        out.append(", addr=");
        push_hex_text(&mut out, self.addr as u64);
        out.append(", sz=");
        push_hex_text(&mut out, self.size() as u64);
        out.append(", msz=");
        push_hex_text(&mut out, self.msg_size() as u64);
        out.append(", hd=");
        push_hex_text(&mut out, self.header as u64);
        out.append("]");
        proof {
            assert(out@ =~= rgate_text(*self));
        }
        out
    }
}

impl SGateObject {
    /// This gate's one-line log form; `rgate` is the receive gate this
    /// gate's `rgate` key names.
    pub fn fmt_text(&self, rgate: &RGateObject) -> (r: String)
        ensures
            r@ == sgate_text(*self, *rgate),
    {
        let mut out = String::new();
        out.append("SGate[rgate=");
        rgate.print_dest(&mut out);
        out.append(", lbl=");
        push_hex_text(&mut out, self.label);
        out.append(", crd=");
        push_dec(&mut out, self.credits);
        out.append("]");
        proof {
            assert(out@ =~= sgate_text(*self, *rgate));
        }
        out
    }
}

impl Perm {
    /// The permission letters, `R`, `W`, `X`, in that order.
    pub fn fmt_text(&self) -> (r: String)
        ensures
            r@ == perm_text(*self),
    {
        let mut out = String::new();
        if self.bits & PERM_R != 0 {
            out.append("R");
        }
        if self.bits & PERM_W != 0 {
            out.append("W");
        }
        if self.bits & PERM_X != 0 {
            out.append("X");
        }
        proof {
            assert(out@ =~= perm_text(*self));
        }
        out
    }
}

impl MGateObject {
    /// This gate's one-line log form.
    pub fn fmt_text(&self) -> (r: String)
        ensures
            r@ == mgate_text(*self),
    {
        let mut out = String::new();
        out.append("MGate[tgt=VPE");
        push_dec(&mut out, self.vpe);
        out.append(":PE");
        push_dec(&mut out, self.pe);
        out.append(", addr=");
        push_hex_text(&mut out, self.addr as u64);
        out.append(", sz=");
        push_hex_text(&mut out, self.size as u64);
        out.append(", perm=");
        let perms = self.perms.fmt_text();
        out.append(perms.as_str());
        out.append(", der=");
        push_bool(&mut out, self.derived);
        out.append("]");
        proof {
            assert(out@ =~= mgate_text(*self));
        }
        out
    }
}

impl ServObject {
    /// The service's one-line log form; `rgate` is the receive gate its
    /// `rgate` key names.
    pub fn fmt_text(&self, rgate: &RGateObject) -> (r: String)
        ensures
            r@ == serv_text(*self, *rgate),
    {
        let mut out = String::new();
        out.append("Serv[name=");
        out.append(self.name.as_str());
        out.append(", rgate=");
        rgate.print_dest(&mut out);
        out.append("]");
        proof {
            assert(out@ =~= serv_text(*self, *rgate));
        }
        out
    }
}

impl SessObject {
    /// The session's one-line log form; `srv` is the service its `srv`
    /// key names.
    pub fn fmt_text(&self, srv: &ServObject) -> (r: String)
        ensures
            r@ == sess_text(*self, *srv),
    {
        let mut out = String::new();
        out.append("Sess[service=");
        out.append(srv.name.as_str());
        out.append(", ident=");
        push_hex_text(&mut out, self.ident);
        out.append("]");
        proof {
            assert(out@ =~= sess_text(*self, *srv));
        }
        out
    }
}

impl VPE {
    /// The VPE's one-line log form.
    pub fn fmt_text(&self) -> (r: String)
        ensures
            r@ == vpe_text(*self),
    {
        let mut out = String::new();
        out.append("VPE[id=");
        push_dec(&mut out, self.id);
        out.append(", app=");
        push_bool(&mut out, self.app);
        out.append("]");
        proof {
            assert(out@ =~= vpe_text(*self));
        }
        out
    }
}

/// The object arena: one table per object kind, indexed by `ObjId`.
/// Capability tables store `KObject` handles; the tables here resolve
/// them.
pub struct KObjects {
    pub rgates: Vec<RGateObject>,
    pub sgates: Vec<SGateObject>,
    pub mgates: Vec<MGateObject>,
    pub servs: Vec<ServObject>,
    pub sesss: Vec<SessObject>,
    pub vpes: Vec<VPE>,
}

/// A capability's reference to a kernel object: a tag naming the kind
/// and the key of the object in the arena.
#[derive(Clone, Copy)]
pub enum KObject {
    RGate(ObjId),
    SGate(ObjId),
    MGate(ObjId),
    Serv(ObjId),
    Sess(ObjId),
    VPE(ObjId),
}

impl KObject {
    /// The handle's key, and the keys it leads to, resolve in the
    /// arena, and the named receive gates have printable orders.
    pub open spec fn resolvable(self, t: &KObjects) -> bool {
        match self {
            KObject::RGate(i) => i < t.rgates@.len() && t.rgates@[i as int].order < usize::BITS
                && t.rgates@[i as int].msg_order < usize::BITS,
            KObject::SGate(i) => i < t.sgates@.len() && t.sgates@[i as int].rgate
                < t.rgates@.len(),
            KObject::MGate(i) => i < t.mgates@.len(),
            KObject::Serv(i) => i < t.servs@.len() && t.servs@[i as int].rgate < t.rgates@.len(),
            KObject::Sess(i) => i < t.sesss@.len() && t.sesss@[i as int].srv < t.servs@.len(),
            KObject::VPE(i) => i < t.vpes@.len(),
        }
    }

    /// The log line of the object the handle names.
    pub open spec fn text(self, t: &KObjects) -> Seq<char> {
        match self {
            KObject::RGate(i) => rgate_text(t.rgates@[i as int]),
            KObject::SGate(i) => sgate_text(
                t.sgates@[i as int],
                t.rgates@[t.sgates@[i as int].rgate as int],
            ),
            KObject::MGate(i) => mgate_text(t.mgates@[i as int]),
            KObject::Serv(i) => serv_text(
                t.servs@[i as int],
                t.rgates@[t.servs@[i as int].rgate as int],
            ),
            KObject::Sess(i) => sess_text(t.sesss@[i as int], t.servs@[t.sesss@[i as int].srv as int]),
            KObject::VPE(i) => vpe_text(t.vpes@[i as int]),
        }
    }

    /// Formats the referenced object by delegating to it.
    pub fn fmt_text(&self, t: &KObjects) -> (r: String)
        requires
            self.resolvable(t),
        ensures
            r@ == self.text(t),
    {
        match *self {
            KObject::RGate(i) => t.rgates[i].fmt_text(),
            KObject::SGate(i) => {
                let g = &t.sgates[i];
                g.fmt_text(&t.rgates[g.rgate])
            },
            KObject::MGate(i) => t.mgates[i].fmt_text(),
            KObject::Serv(i) => {
                let s = &t.servs[i];
                s.fmt_text(&t.rgates[s.rgate])
            },
            KObject::Sess(i) => {
                let s = &t.sesss[i];
                s.fmt_text(&t.servs[s.srv])
            },
            KObject::VPE(i) => t.vpes[i].fmt_text(),
        }
    }
}

} // verus!
