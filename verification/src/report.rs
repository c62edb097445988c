//! Aggregation of worker results into the final report.
//!
//! Workers hand their discoveries over in no particular order; the collector
//! sorts them once, after all workers have finished. Because each port is
//! probed by exactly one worker, the collected results hold no duplicates, and
//! the sorted report is then strictly ascending.

use vstd::prelude::*;
use vstd::assert_multisets_equal;

verus! {

/// The report order: ascending throughout.
pub open spec fn sorted_ascending(s: Seq<u16>) -> bool {
    forall|i: int, j: int| 0 <= i < j < s.len() ==> s[i] <= s[j]
}

/// Strictly ascending: ascending and free of duplicates.
pub open spec fn strictly_ascending(s: Seq<u16>) -> bool {
    forall|i: int, j: int| 0 <= i < j < s.len() ==> s[i] < s[j]
}

/// Sort the collected open ports into the final report order. The report is
/// a rearrangement of the results: nothing is added, dropped, or changed.
pub fn build_report(results: Vec<u16>) -> (report: Vec<u16>)
    ensures
        sorted_ascending(report@),
        report@.to_multiset() == results@.to_multiset(),
        report@.len() == results@.len(),
{
    let mut rest = results;
    let mut report: Vec<u16> = Vec::new();
    proof {
        broadcast use vstd::seq_lib::group_to_multiset_ensures;

        assert_multisets_equal!(report@.to_multiset().add(rest@.to_multiset()), results@.to_multiset());
    }
    while rest.len() > 0
        invariant
            report@.to_multiset().add(rest@.to_multiset()) == results@.to_multiset(),
            report@.len() + rest@.len() == results@.len(),
            sorted_ascending(report@),
            forall|i: int, j: int|
                0 <= i < report@.len() && 0 <= j < rest@.len() ==> report@[i] <= rest@[j],
        decreases rest@.len(),
    {
        let mut m: usize = 0;
        let mut k: usize = 1;
        while k < rest.len()
            invariant
                0 < rest@.len(),
                m < k <= rest@.len(),
                forall|t: int| 0 <= t < k ==> rest@[m as int] <= #[trigger] rest@[t],
            decreases rest@.len() - k,
        {
            if rest[k] < rest[m] {
                m = k;
            }
            k = k + 1;
        }
        let ghost old_report = report@;
        let ghost old_rest = rest@;
        let x = rest.remove(m);
        report.push(x);
        proof {
            broadcast use vstd::seq_lib::group_to_multiset_ensures;

            assert(old_rest.remove(m as int).to_multiset() == old_rest.to_multiset().remove(x));
            assert(old_rest.to_multiset().count(x) > 0) by {
                assert(old_rest.contains(x));
            }
            assert_multisets_equal!(
                old_report.push(x).to_multiset().add(old_rest.remove(m as int).to_multiset()),
                old_report.to_multiset().add(old_rest.to_multiset())
            );
            assert forall|i: int, j: int|
                0 <= i < report@.len() && 0 <= j < rest@.len() implies report@[i]
                <= rest@[j] by {
                assert(rest@[j] == if j < m { old_rest[j] } else { old_rest[j + 1] });
            }
        }
    }
    report
}

/// An ascending rearrangement of duplicate-free results is strictly
/// ascending: the report never lists a port twice.
pub proof fn lemma_report_strictly_ascending(results: Seq<u16>, report: Seq<u16>)
    requires
        results.no_duplicates(),
        sorted_ascending(report),
        report.to_multiset() == results.to_multiset(),
    ensures
        strictly_ascending(report),
        report.no_duplicates(),
{
    results.lemma_multiset_has_no_duplicates();
    report.lemma_multiset_has_no_duplicates_conv();
    assert forall|i: int, j: int| 0 <= i < j < report.len() implies report[i] < report[j] by {
        assert(report[i] != report[j]);
    }
}

} // verus!
