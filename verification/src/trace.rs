//! The execution trace of the example computation: the Fibonacci
//! sequence, whose first two entries are the boundary conditions and whose
//! later entries each follow from the two before.

use vstd::prelude::*;

use crate::felt::{add_fe, fe_add, fe_reduced, FIELD_MODULUS};

verus! {

/// Generates a Fibonacci trace of the given length: `1, 1`, then each
/// entry the field sum of the two preceding ones.
pub fn generate_fibonacci_trace(trace_length: usize) -> (r: Vec<u64>)
    requires
        trace_length >= 2,
    ensures
        r@.len() == trace_length,
        r@[0] == 1,
        r@[1] == 1,
        forall|i: int|
            2 <= i < trace_length ==> #[trigger] r@[i] == fe_add(
                r@[i - 1] as int,
                r@[i - 2] as int,
            ),
        fe_reduced(r@),
{
    let mut trace: Vec<u64> = Vec::new();
    trace.push(1);
    trace.push(1);
    let mut i: usize = 2;
    while i < trace_length
        invariant
            2 <= i <= trace_length,
            trace@.len() == i,
            trace@[0] == 1,
            trace@[1] == 1,
            forall|j: int|
                2 <= j < i ==> #[trigger] trace@[j] == fe_add(
                    trace@[j - 1] as int,
                    trace@[j - 2] as int,
                ),
            fe_reduced(trace@),
        decreases trace_length - i,
    {
        let next = add_fe(trace[i - 1], trace[i - 2]);
        trace.push(next);
        i = i + 1;
    }
    trace
}

} // verus!
