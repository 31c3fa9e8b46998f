//! The pages that a phone has visited.

use vstd::prelude::*;

verus! {

/// The title of the page.
pub fn show_history(device_name: &str) -> (r: String)
    ensures
        r@ == device_name@ + " - Browsing history"@,
{
    let mut r = device_name.to_owned();
    r.append(" - Browsing history");
    r
}

} // verus!
