//! The calling thread's last OS error code.
use vstd::prelude::*;

verus! {

/// Relies on `std::io::Error::last_os_error`, which reads `errno`, and on
/// `raw_os_error`, which returns `Some` for an error built that way.
#[verifier::external_body]
fn last_os_error_code() -> (r: Option<i32>)
    ensures
        r is Some,
{
    std::io::Error::last_os_error().raw_os_error()
}

/// The calling thread's current `errno`.
pub fn get_errno() -> i32 {
    last_os_error_code().unwrap()
}

} // verus!
