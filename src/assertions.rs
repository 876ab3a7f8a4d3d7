//! Checks that report a failed condition as an `Err` with a message.
use vstd::prelude::*;
use vstd::std_specs::cmp::PartialEqSpec;

verus! {

/// The message of a failed equality check, from the two rendered values and
/// the caller's message: `<a> != <b> -- <message>`.
pub open spec fn mismatch_text(a: Seq<char>, b: Seq<char>, message: Seq<char>) -> Seq<char> {
    a + " != "@ + b + " -- "@ + message
}

/// Relies on `format!("{:?}")`: the `Debug` rendering of a value. Nothing is
/// known of the text for an arbitrary type.
#[verifier::external_body]
fn debug_text<T: core::fmt::Debug>(x: &T) -> String {
    format!("{:?}", x)
}

/// Returns the message if the condition is false.
pub fn result_assert(cond: bool, message: &str) -> (r: Result<(), String>)
    ensures
        cond ==> r is Ok,
        !cond ==> (r matches Err(s) && s@ == message@),
{
    if cond {
        Ok(())
    } else {
        Err(message.to_owned())
    }
}

/// Builds the message of a failed equality check from the rendered values.
pub fn mismatch_message(a: &str, b: &str, message: &str) -> (r: String)
    ensures
        r@ == mismatch_text(a@, b@, message@),
{
    let r = a.to_owned();
    let r = r.concat(" != ");
    let r = r.concat(b);
    let r = r.concat(" -- ");
    r.concat(message)
}

/// Returns a formatted error message if `a` and `b` are unequal: both values
/// rendered with `Debug`, then the caller's message.
pub fn result_assert_eq<T: core::fmt::Debug + PartialEq>(a: T, b: T, message: &str) -> (r: Result<
    (),
    String,
>)
    ensures
        T::obeys_eq_spec() ==> (r is Ok <==> a.eq_spec(&b)),
        r matches Err(s) ==> exists|da: Seq<char>, db: Seq<char>|
            s@ == mismatch_text(da, db, message@),
{
    if a == b {
        Ok(())
    } else {
        let da = debug_text(&a);
        let db = debug_text(&b);
        Err(mismatch_message(da.as_str(), db.as_str(), message))
    }
}

} // verus!
