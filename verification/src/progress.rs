//! Best-effort progress reporting: the adapters offer cumulative
//! byte counts to a channel that never blocks them, and the history of
//! offered samples is non-decreasing and ends at the bytes processed.

use vstd::prelude::*;

verus! {

#[verifier::external_type_specification]
#[verifier::external_body]
#[verifier::reject_recursive_types(T)]
pub struct ExSender<T>(crossbeam::channel::Sender<T>);

/// Relies on crossbeam's `Sender::try_send`: it offers the value to the
/// channel without ever blocking, and a send that fails — no listener, or a
/// full bounded channel — is ignored, never an error of the operation.
#[verifier::external_body]
pub(crate) fn send_progress(sender: &crossbeam::channel::Sender<u64>, processed: u64) {
    let _ = sender.try_send(processed);
}

/// Whether a sample history never decreases.
pub open spec fn monotone_samples(s: Seq<u64>) -> bool {
    forall|i: int, j: int| 0 <= i <= j < s.len() ==> s[i] <= s[j]
}

/// Whether a sample history fits an operation that has processed `processed`
/// bytes so far: non-decreasing, present as soon as anything was processed,
/// and ending exactly at the current count.
pub open spec fn progress_consistent(samples: Seq<u64>, processed: int) -> bool {
    &&& monotone_samples(samples)
    &&& (samples.len() == 0 ==> processed == 0)
    &&& (samples.len() > 0 ==> samples.last() == processed)
}

/// Recording the new, no smaller count keeps a sample history consistent.
pub proof fn lemma_progress_push(samples: Seq<u64>, processed: int, v: u64)
    requires
        progress_consistent(samples, processed),
        processed <= v,
    ensures
        progress_consistent(samples.push(v), v as int),
{
    let pushed = samples.push(v);
    assert(pushed.last() == v);
    assert forall|i: int, j: int| 0 <= i <= j < pushed.len() implies pushed[i] <= pushed[j] by {
        if j < samples.len() {
            assert(samples[i] <= samples[j]);
        } else if i < samples.len() {
            assert(samples[i] <= samples[samples.len() - 1]);
        }
    }
}

} // verus!
