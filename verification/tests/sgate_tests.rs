use kcore::errors::{Code, Error};
use kcore::serial::print_fmt;
use kcore::sgate::{Flags, SGateArgs, SendGate};
use kcore::INVALID_SEL;

#[test]
fn sgate_args_builder() {
    let args = SGateArgs::new(11);
    assert_eq!(args.rgate_sel, 11);
    assert_eq!(args.label, 0);
    assert_eq!(args.credits, 0);
    assert_eq!(args.sel, INVALID_SEL);
    assert_eq!(args.flags, Flags::empty());
    let args = args.credits(64).label(0xBEEF).sel(5);
    assert_eq!(args.rgate_sel, 11);
    assert_eq!(args.credits, 64);
    assert_eq!(args.label, 0xBEEF);
    assert_eq!(args.sel, 5);
}

#[test]
fn new_with_uses_fixed_selector() {
    let args = SGateArgs::new(11).sel(5);
    let g = SendGate::new_with(args, 99, Ok(())).unwrap();
    assert_eq!(g.gate.sel, 5);
    assert_eq!(g.ep(), None);
}

#[test]
fn new_with_takes_fresh_selector_when_unset() {
    let g = SendGate::new(11, 99, Ok(())).unwrap();
    assert_eq!(g.gate.sel, 99);
    assert!(!g.gate.flags.keep_cap);
    assert_eq!(g.ep(), None);
}

#[test]
fn new_with_hands_syscall_error_through() {
    let args = SGateArgs::new(11);
    let r = SendGate::new_with(args, 99, Err(Error::new(Code::NoSpace)));
    match r {
        Err(e) => assert_eq!(e.code(), Code::NoSpace),
        Ok(_) => panic!("creation must fail when the syscall failed"),
    }
}

#[test]
fn new_bind_keeps_capability() {
    let g = SendGate::new_bind(7);
    assert_eq!(g.gate.sel, 7);
    assert!(g.gate.flags.keep_cap);
    assert_eq!(g.ep(), None);
}

#[test]
fn serial_prints() {
    print_fmt("kcore serial line\n");
}
