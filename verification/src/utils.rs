//! Small utilities with nowhere else to go.

use vstd::prelude::*;

verus! {

/// Turn a list of results into a result of the list: the values in
/// order if every entry succeeded, otherwise the first failure.
#[verifier::loop_isolation(false)]
pub fn sequence_result<T, E>(results: Vec<Result<T, E>>) -> (r: Result<Vec<T>, E>)
    ensures
        r matches Ok(v) ==> ({
            &&& v@.len() == results@.len()
            &&& (forall|i: int|
                0 <= i < results@.len() ==> ((#[trigger] results@[i]) matches Ok(x) && v@[i]
                    == x))
        }),
        r matches Err(e) ==> (exists|i: int|
            ({
                &&& 0 <= i < results@.len()
                &&& ((#[trigger] results@[i]) matches Err(x) && e == x)
                &&& (forall|j: int| 0 <= j < i ==> results@[j] is Ok)
            })),
{
    let ghost all = results@;
    let mut rest = results;
    let mut out: Vec<T> = Vec::new();
    while rest.len() > 0
        invariant
            out@.len() + rest@.len() == all.len(),
            forall|i: int|
                0 <= i < out@.len() ==> ((#[trigger] all[i]) matches Ok(x) && out@[i] == x),
            forall|j: int| 0 <= j < rest@.len() ==> #[trigger] rest@[j] == all[out@.len() + j],
        decreases rest@.len(),
    {
        match rest.remove(0) {
            Ok(t) => {
                out.push(t);
            }
            Err(e) => {
                proof {
                    assert(all[out@.len() as int] matches Err(x) && e == x);
                    assert(forall|j: int| 0 <= j < out@.len() ==> all[j] is Ok);
                }
                return Err(e);
            }
        }
    }
    Ok(out)
}

/// The version triple of this crate's bytecode format.
pub fn get_version() -> (r: (u16, u16, u16))
    ensures
        r == (0u16, 1u16, 0u16),
{
    (0, 1, 0)
}

} // verus!
