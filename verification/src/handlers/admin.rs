//! The security log.

use vstd::prelude::*;

verus! {

/// What the page says after an address was unbanned.
pub fn unban_ip(ip: &str) -> (r: String)
    ensures
        r@ == ip@ + " was unbanned."@,
{
    let mut r = ip.to_owned();
    r.append(" was unbanned.");
    r
}

} // verus!
