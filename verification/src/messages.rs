//! Error texts: a fixed prefix that names the step that failed, followed by
//! the description of the failure that the operating system or the Nitro
//! Secure Module gave.
use vstd::prelude::*;

verus! {

/// `prefix` followed by `detail`.
pub fn prefixed(prefix: &str, detail: &String) -> (r: String)
    ensures
        r@ == prefix@ + detail@,
{
    let mut r = String::from_str(prefix);
    r.append(detail.as_str());
    r
}

} // verus!
