//! The admin gate: a single-predicate authorization check against one fixed
//! administrative identity. Every privileged operation runs it before any
//! state change.

use vstd::prelude::*;
use crate::types::LedgerError;

verus! {

/// The fixed administrative identity, as a mathematical value.
pub open spec fn admin_key() -> Seq<char> {
    "mizumi-admin-authority"@
}

/// The fixed administrative identity, as a value a caller can present.
pub fn admin_key_string() -> (s: String)
    ensures
        s@ == admin_key(),
{
    "mizumi-admin-authority".to_owned()
}

/// True exactly when `caller` is the administrative identity.
pub fn is_admin(caller: &String) -> (r: bool)
    ensures
        r == (caller@ == admin_key()),
{
    let k: String = admin_key_string();
    *caller == k
}

/// The admin gate: `Ok` exactly when `caller` is the administrative
/// identity, `Err(Unauthorized)` otherwise.
pub fn require_admin(caller: &String) -> (r: Result<(), LedgerError>)
    ensures
        r is Ok <==> caller@ == admin_key(),
        r is Err ==> r == Err::<(), LedgerError>(LedgerError::Unauthorized),
{
    if is_admin(caller) {
        Ok(())
    } else {
        Err(LedgerError::Unauthorized)
    }
}

} // verus!
