//! Error extraction for fire-and-forget operations: the shell logs what
//! comes back, tagged with the caller's message.

use vstd::prelude::*;

verus! {

/// Strip a result to its error, if any, paired with the message tag for the
/// log line. `None` means there is nothing to log.
pub fn log_err<T, E>(result: Result<T, E>, msg: &str) -> (r: Option<(String, E)>)
    ensures
        result matches Err(e) ==> (r matches Some(p) && p.0@ == msg@ && p.1 == e),
        result matches Ok(t) ==> r is None,
{
    match result {
        Err(e) => Some((String::from_str(msg), e)),
        Ok(_) => None,
    }
}

} // verus!
