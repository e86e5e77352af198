//! The one error type shared by every fallible operation of the crate.
//!
//! Failures from the operating system (via `nix`), from binary parsing (via
//! `goblin`) and from plain I/O are each wrapped into one variant; an address
//! that no mapped binary covers gets its own variant because it is the one
//! error a caller is expected to recover from (by reloading the module map).

use vstd::prelude::*;

use crate::render::{hex_chars, u64_hex};

verus! {

/// Why an operation on a remote process failed.
#[derive(Debug)]
pub enum Error {
    /// No mapped binary's address range contains the given address. The
    /// dominant cause is a stale module map; the rendered message suggests
    /// reloading it.
    NoBinaryForAddress(u64),
    /// A binary or its debug metadata could not be parsed; the field holds
    /// the parser's own message.
    GoblinError(String),
    /// An underlying I/O operation failed; the field holds its message.
    IOError(String),
    /// An underlying OS call failed with the given errno.
    NixError(nix::errno::Errno),
    /// A condition that fits no other variant.
    Other(String),
}

impl From<nix::errno::Errno> for Error {
    fn from(err: nix::errno::Errno) -> (r: Self) {
        Error::NixError(err)
    }
}

impl vstd::std_specs::convert::FromSpecImpl<nix::errno::Errno> for Error {
    open spec fn obeys_from_spec() -> bool {
        true
    }

    open spec fn from_spec(err: nix::errno::Errno) -> Self {
        Error::NixError(err)
    }
}

/// The rendered message for [`Error::NoBinaryForAddress`]: the address in
/// sixteen hexadecimal digits between a fixed prefix and a suggestion to
/// reload the module map.
pub open spec fn no_binary_text(addr: u64) -> Seq<char> {
    "No binary found for address 0x"@ + hex_chars(addr as int, 16) + ". Try reloading."@
}

/// The message that an errno renders to: what `nix` holds for it in its
/// static description table, a function of the errno alone.
pub uninterp spec fn errno_text_of(err: nix::errno::Errno) -> Seq<char>;

/// Relies on `<nix::errno::Errno as Display>::fmt`, which renders a fixed
/// description per errno from a static table: [`errno_text_of`] the errno.
#[verifier::external_body]
fn errno_text(err: &nix::errno::Errno) -> (s: String)
    ensures
        s@ == errno_text_of(*err),
{
    err.to_string()
}

impl Error {
    /// The human-readable message for this error. A wrapped inner error
    /// renders its own message unmodified; the address-resolution miss names
    /// the address and suggests reloading the module map.
    pub fn message(&self) -> (s: String)
        ensures
            (match self {
                Error::NoBinaryForAddress(addr) => s@ == no_binary_text(*addr),
                Error::GoblinError(m) => s@ == m@,
                Error::IOError(m) => s@ == m@,
                Error::Other(m) => s@ == m@,
                Error::NixError(err) => s@ == errno_text_of(*err),
            }),
    {
        match self {
            Error::NoBinaryForAddress(addr) => {
                let mut s = String::from_str("No binary found for address 0x");
                let hex = u64_hex(*addr, 16);
                s.append(hex.as_str());
                s.append(". Try reloading.");
                proof {
                    assert(s@ =~= no_binary_text(*addr));
                }
                s
            },
            Error::GoblinError(m) => m.clone(),
            Error::IOError(m) => m.clone(),
            Error::NixError(err) => errno_text(err),
            Error::Other(m) => m.clone(),
        }
    }
}

} // verus!
