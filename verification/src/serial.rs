//! The serial output line used for kernel logs.

use std::io::Write;

use vstd::prelude::*;

verus! {

/// Handle to the platform's serial output.
pub struct Serial {}

impl Serial {
    /// Relies on std::io::stdout and std::io::Write::write_fmt (through
    /// the write macro): puts the text on the process's standard
    /// output, which stands in for the serial line.
    #[verifier::external_body]
    pub fn put_str(&self, s: &str) {
        let mut out = std::io::stdout();
        let _ = write!(out, "{}", s);
    }
}

/// Prints already-formatted text on the serial output.
pub fn print_fmt(s: &str) {
    let ser = Serial {};
    ser.put_str(s);
}

} // verus!
