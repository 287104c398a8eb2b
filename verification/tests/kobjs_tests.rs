use kcore::kobjs::{
    KObject, KObjects, MGateObject, Perm, RGateObject, SGateObject, ServObject, SessObject, VPE,
    OP_CLOSE, PERM_R, PERM_W, PERM_X,
};
use kcore::mainmem::{Allocation, GlobAddr, MainMem};
use kcore::sendqueue::{Message, SendQueue, ThreadManager};
use kcore::INVALID_VPE;

#[test]
fn rgate_starts_unactivated() {
    let r = RGateObject::new(12, 6);
    assert!(!r.activated());
    assert_eq!(r.vpe, INVALID_VPE);
    assert_eq!(r.ep, None);
    assert_eq!(r.addr, 0);
}

#[test]
fn rgate_activated_iff_addr_nonzero() {
    let mut r = RGateObject::new(12, 6);
    assert!(!r.activated());
    r.vpe = 2;
    r.ep = Some(3);
    r.addr = 0x4000;
    assert!(r.activated());
    r.addr = 0;
    assert!(!r.activated());
}

#[test]
fn rgate_sizes_are_powers_of_two() {
    let r = RGateObject::new(12, 6);
    assert_eq!(r.size(), 0x1000);
    assert_eq!(r.msg_size(), 0x40);
}

#[test]
fn rgate_fmt() {
    let r = RGateObject::new(6, 6);
    assert_eq!(
        r.fmt_text(),
        "RGate[loc=VPE65535:EP??, addr=0x0, sz=0x40, msz=0x40, hd=0x0]"
    );
    let mut b = RGateObject::new(10, 6);
    b.vpe = 2;
    b.ep = Some(3);
    b.addr = 0x4000;
    b.header = 0x10;
    assert_eq!(
        b.fmt_text(),
        "RGate[loc=VPE2:EP3, addr=0x4000, sz=0x400, msz=0x40, hd=0x10]"
    );
    let t = b.fmt_text();
    for label in ["loc=", "addr=", "sz=", "msz=", "hd="] {
        assert!(t.contains(label));
    }
}

#[test]
fn sgate_fmt() {
    let mut r = RGateObject::new(10, 6);
    r.vpe = 2;
    r.ep = Some(3);
    r.addr = 0x4000;
    let g = SGateObject::new(0, 0xDEAD, 42);
    assert_eq!(g.rgate, 0);
    assert_eq!(g.label, 0xDEAD);
    assert_eq!(g.credits, 42);
    let t = g.fmt_text(&r);
    assert_eq!(t, "SGate[rgate=VPE2:EP3, lbl=0xdead, crd=42]");
    for label in ["rgate=", "lbl=", "crd="] {
        assert!(t.contains(label));
    }
}

#[test]
fn mgate_fmt() {
    let m = MGateObject::new(4, 1, 0x1000, 0x2000, Perm::new(PERM_R | PERM_W));
    let t = m.fmt_text();
    assert_eq!(t, "MGate[tgt=VPE1:PE4, addr=0x1000, sz=0x2000, perm=RW, der=false]");
    for label in ["tgt=", "addr=", "sz=", "perm=", "der="] {
        assert!(t.contains(label));
    }
    let mut d = MGateObject::new(4, 1, 0x1000, 0x2000, Perm::new(PERM_X));
    d.derived = true;
    assert_eq!(d.fmt_text(), "MGate[tgt=VPE1:PE4, addr=0x1000, sz=0x2000, perm=X, der=true]");
}

#[test]
fn serv_and_sess_fmt() {
    let mut r = RGateObject::new(10, 6);
    r.vpe = 7;
    r.ep = Some(1);
    r.addr = 0x8000;
    let srv = ServObject::new(0, String::from("m3fs"), 0);
    let t = srv.fmt_text(&r);
    assert_eq!(t, "Serv[name=m3fs, rgate=VPE7:EP1]");
    assert!(t.contains("name=") && t.contains("rgate="));
    let sess = SessObject::new(0, 0xDEADBEEF, false);
    let u = sess.fmt_text(&srv);
    assert_eq!(u, "Sess[service=m3fs, ident=0xdeadbeef]");
    assert!(u.contains("service=") && u.contains("ident="));
}

#[test]
fn vpe_fmt() {
    let v = VPE::new(5, true);
    assert_eq!(v.fmt_text(), "VPE[id=5, app=true]");
}

#[test]
fn kobject_fmt_delegates() {
    let mut r = RGateObject::new(10, 6);
    r.vpe = 2;
    r.ep = Some(3);
    r.addr = 0x4000;
    let t = KObjects {
        rgates: vec![r],
        sgates: vec![SGateObject::new(0, 0x1, 7)],
        mgates: vec![MGateObject::new(0, 2, 0x100, 0x200, Perm::new(PERM_R))],
        servs: vec![ServObject::new(0, String::from("svc"), 0)],
        sesss: vec![SessObject::new(0, 0x99, true)],
        vpes: vec![VPE::new(2, true)],
    };
    assert_eq!(
        KObject::RGate(0).fmt_text(&t),
        "RGate[loc=VPE2:EP3, addr=0x4000, sz=0x400, msz=0x40, hd=0x0]"
    );
    assert_eq!(KObject::SGate(0).fmt_text(&t), "SGate[rgate=VPE2:EP3, lbl=0x1, crd=7]");
    assert_eq!(
        KObject::MGate(0).fmt_text(&t),
        "MGate[tgt=VPE2:PE0, addr=0x100, sz=0x200, perm=R, der=false]"
    );
    assert_eq!(KObject::Serv(0).fmt_text(&t), "Serv[name=svc, rgate=VPE2:EP3]");
    assert_eq!(KObject::Sess(0).fmt_text(&t), "Sess[service=svc, ident=0x99]");
    assert_eq!(KObject::VPE(0).fmt_text(&t), "VPE[id=2, app=true]");
}

#[test]
fn mgate_release_frees_exactly_once() {
    let mut mem = MainMem::new();
    let m = MGateObject::new(3, 1, 0x2000, 0x800, Perm::new(PERM_R | PERM_W));
    m.release(&mut mem);
    assert_eq!(mem.frees.len(), 1);
    assert_eq!(mem.frees[0], Allocation::new(GlobAddr::new_with(3, 0x2000), 0x800));
}

#[test]
fn derived_mgate_release_frees_nothing() {
    let mut mem = MainMem::new();
    let mut m = MGateObject::new(3, 1, 0x2000, 0x800, Perm::new(PERM_R));
    m.derived = true;
    m.release(&mut mem);
    assert_eq!(mem.frees.len(), 0);
}

#[test]
fn send_queue_defers_when_busy() {
    let mut q = SendQueue::new(0);
    assert_eq!(q.vpe(), 0);
    let first = q.send(4, &[1, 2, 3], 3);
    assert!(first.is_none());
    let second = q.send(4, &[4, 5], 2);
    assert!(second.is_some());
    assert_eq!(q.msgs.len(), 2);
    assert_eq!(q.msgs[0].data, vec![1, 2, 3]);
    assert_eq!(q.msgs[1].data, vec![4, 5]);
}

#[test]
fn serv_send_uses_rgate_endpoint() {
    let mut r = RGateObject::new(10, 6);
    r.ep = Some(5);
    r.addr = 0x8000;
    let mut srv = ServObject::new(1, String::from("svc"), 0);
    let ev = srv.send(&r, &[9, 9]);
    assert!(ev.is_none());
    assert_eq!(srv.queue.msgs.len(), 1);
    assert_eq!(srv.queue.msgs[0].ep, 5);
    assert_eq!(srv.queue.msgs[0].data, vec![9, 9]);
}

#[test]
fn send_receive_waits_only_when_deferred() {
    let mut r = RGateObject::new(10, 6);
    r.ep = Some(5);
    r.addr = 0x8000;
    let mut srv = ServObject::new(1, String::from("svc"), 0);
    let mut tm = ThreadManager::new();
    tm.inbox = Some(Message { data: vec![7] });
    // the queue is idle: admitted immediately, no reply fetched
    let first = srv.send_receive(&r, &[1], &mut tm);
    assert!(first.is_none());
    assert!(tm.inbox.is_some());
    assert_eq!(tm.waited.len(), 0);
    // the queue is busy now: the thread blocks and fetches the reply
    let second = srv.send_receive(&r, &[2], &mut tm);
    assert_eq!(second, Some(Message { data: vec![7] }));
    assert!(tm.inbox.is_none());
    assert_eq!(tm.waited.len(), 1);
}

#[test]
fn session_close_on_drop() {
    let mut r = RGateObject::new(10, 6);
    r.vpe = 7;
    r.ep = Some(1);
    r.addr = 0x8000;
    let vpe = VPE::new(7, true);
    let mut srv = ServObject::new(0, String::from("svc"), 0);
    let sess = SessObject::new(0, 0xDEADBEEF, false);
    sess.release(&mut srv, &r, &vpe);
    assert_eq!(srv.queue.msgs.len(), 1);
    let msg = &srv.queue.msgs[0];
    assert_eq!(msg.ep, 1);
    assert_eq!(msg.data.len(), 16);
    assert_eq!(&msg.data[0..8], &OP_CLOSE.to_le_bytes());
    assert_eq!(&msg.data[8..16], &0xDEADBEEFu64.to_le_bytes());
}

#[test]
fn session_close_skipped_without_app() {
    let r = RGateObject::new(10, 6);
    let vpe = VPE::new(7, false);
    let mut srv = ServObject::new(0, String::from("svc"), 0);
    let sess = SessObject::new(0, 0xDEADBEEF, false);
    sess.release(&mut srv, &r, &vpe);
    assert_eq!(srv.queue.msgs.len(), 0);
}

#[test]
fn serv_vpe_comes_from_queue() {
    let srv = ServObject::new(9, String::from("svc"), 3);
    assert_eq!(srv.vpe(), 9);
    assert_eq!(srv.rgate, 3);
}
