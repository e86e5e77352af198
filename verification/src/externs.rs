//! Declarations of outside types that appear in this crate's signatures.
//! Verus treats a value of each as opaque; nothing is assumed of its inside.

use vstd::prelude::*;

verus! {

#[verifier::external_type_specification]
#[verifier::external_body]
pub struct ExErrno(nix::errno::Errno);

} // verus!
