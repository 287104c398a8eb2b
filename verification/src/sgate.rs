//! User-space send-gate handles: the argument builder and the record a
//! successful creation syscall leaves behind.
//!
//! Creating a gate is a round trip through the syscall layer, which
//! lies outside this core: the caller picks a fresh selector in advance
//! and hands in the syscall's reply, and this module makes the
//! decisions — which selector a new handle uses and what it holds.

use vstd::prelude::*;

use crate::{EpId, Label, Selector, INVALID_SEL};
use crate::errors::Error;

verus! {

/// Capability flags of a user-space gate handle.
#[derive(Clone, Copy, PartialEq, Eq, Structural, Debug)]
pub struct Flags {
    /// Keep the capability when the handle is dropped.
    pub keep_cap: bool,
}

impl Flags {
    /// No flag set.
    pub fn empty() -> (r: Flags)
        ensures
            !r.keep_cap,
    {
        Flags { keep_cap: false }
    }
}

/// User-space gate record: its selector, its flags and, once activated,
/// the endpoint it is bound to.
pub struct Gate {
    pub sel: Selector,
    pub flags: Flags,
    pub ep: Option<EpId>,
}

impl Gate {
    pub fn new(sel: Selector, flags: Flags) -> (r: Gate)
        ensures
            r.sel == sel,
            r.flags == flags,
            r.ep is None,
    {
        Gate { sel, flags, ep: None }
    }
}

/// Builder for the arguments of send-gate creation.
pub struct SGateArgs {
    pub rgate_sel: Selector,
    pub label: Label,
    pub credits: u64,
    pub sel: Selector,
    pub flags: Flags,
}

impl SGateArgs {
    /// Starts from the selector of the receive gate the new send gate
    /// will target: no label, no credits, the selector left for the
    /// runtime to pick.
    pub fn new(rgate_sel: Selector) -> (r: SGateArgs)
        ensures
            r.rgate_sel == rgate_sel,
            r.label == 0,
            r.credits == 0,
            r.sel == INVALID_SEL,
            !r.flags.keep_cap,
    {
        SGateArgs {
            rgate_sel,
            label: 0,
            credits: 0,
            sel: INVALID_SEL,
            flags: Flags::empty(),
        }
    }

    /// Sets the credit allowance.
    pub fn credits(self, credits: u64) -> (r: SGateArgs)
        ensures
            r.credits == credits,
            r.rgate_sel == self.rgate_sel,
            r.label == self.label,
            r.sel == self.sel,
            r.flags == self.flags,
    {
        SGateArgs { credits, ..self }
    }

    /// Sets the label.
    pub fn label(self, label: Label) -> (r: SGateArgs)
        ensures
            r.label == label,
            r.rgate_sel == self.rgate_sel,
            r.credits == self.credits,
            r.sel == self.sel,
            r.flags == self.flags,
    {
        SGateArgs { label, ..self }
    }

    /// Sets the selector the new handle shall use.
    pub fn sel(self, sel: Selector) -> (r: SGateArgs)
        ensures
            r.sel == sel,
            r.rgate_sel == self.rgate_sel,
            r.label == self.label,
            r.credits == self.credits,
            r.flags == self.flags,
    {
        SGateArgs { sel, ..self }
    }
}

/// A user-space send gate.
pub struct SendGate {
    pub gate: Gate,
}

impl SendGate {
    /// The selector the new gate uses: the one the builder fixed, or
    /// the fresh one the runtime allocated when none was fixed.
    pub open spec fn chosen_sel(args: SGateArgs, fresh_sel: Selector) -> Selector {
        if args.sel == INVALID_SEL {
            fresh_sel
        } else {
            args.sel
        }
    }

    /// Creates a gate with default arguments.  `fresh_sel` is the
    /// selector the runtime allocated and `created` the syscall's
    /// reply to the creation request made with the chosen selector.
    pub fn new(rgate_sel: Selector, fresh_sel: Selector, created: Result<(), Error>) -> (r: Result<
        SendGate,
        Error,
    >)
        ensures
            created is Err ==> r == Err::<SendGate, Error>(created->Err_0),
            created is Ok ==> {
                &&& r is Ok
                &&& r->Ok_0.gate.sel == Self::chosen_sel(SGateArgs {
                    rgate_sel,
                    label: 0,
                    credits: 0,
                    sel: INVALID_SEL,
                    flags: (Flags { keep_cap: false }),
                }, fresh_sel)
                &&& !r->Ok_0.gate.flags.keep_cap
                &&& r->Ok_0.gate.ep is None
            },
    {
        Self::new_with(SGateArgs::new(rgate_sel), fresh_sel, created)
    }

    /// Creates a gate from built arguments.  The syscall that installs
    /// the new handle under the chosen selector runs outside this core; its
    /// reply is `created`.  An error is handed through unchanged, and
    /// no handle exists then.
    pub fn new_with(args: SGateArgs, fresh_sel: Selector, created: Result<(), Error>) -> (r:
        Result<SendGate, Error>)
        ensures
            created is Err ==> r == Err::<SendGate, Error>(created->Err_0),
            created is Ok ==> {
                &&& r is Ok
                &&& r->Ok_0.gate.sel == Self::chosen_sel(args, fresh_sel)
                &&& r->Ok_0.gate.flags == args.flags
                &&& r->Ok_0.gate.ep is None
            },
    {
        let sel = if args.sel == INVALID_SEL {
            fresh_sel
        } else {
            args.sel
        };
        match created {
            Ok(()) => Ok(SendGate { gate: Gate::new(sel, args.flags) }),
            Err(e) => Err(e),
        }
    }

    /// Binds a handle to an existing gate; the capability stays behind
    /// when the handle goes.
    pub fn new_bind(sel: Selector) -> (r: SendGate)
        ensures
            r.gate.sel == sel,
            r.gate.flags.keep_cap,
            r.gate.ep is None,
    {
        SendGate { gate: Gate::new(sel, Flags { keep_cap: true }) }
    }

    /// The endpoint this handle is bound to, if it has been activated.
    pub fn ep(&self) -> (r: Option<EpId>)
        ensures
            r == self.gate.ep,
    {
        self.gate.ep
    }
}

} // verus!
