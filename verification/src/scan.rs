//! The whole scan, composed: each worker probes its residue class and reports
//! the ports that accept a connection; the collector gathers every worker's
//! discoveries and sorts them into the final report.
//!
//! The probing itself happens outside this crate; here a host is simulated by
//! the set of its open ports, handed in as a value. Against that model the
//! composition is proved end to end: the report lists exactly the open ports
//! of the scanned space, each exactly once, in strictly ascending order —
//! whatever the worker count and whatever the openness pattern.

use vstd::prelude::*;
use crate::ports::in_class;
use crate::ports::lemma_ports_partition;
use crate::ports::worker_ports;
use crate::report::build_report;
use crate::report::lemma_report_strictly_ascending;
use crate::report::sorted_ascending;
use crate::report::strictly_ascending;

verus! {

/// The discoveries of one worker that probes `candidates` in order against a
/// host whose open ports are exactly `open`: the open candidates, in probe
/// order.
pub open spec fn discoveries(candidates: Seq<u16>, open: Seq<u16>) -> Seq<u16>
    decreases candidates.len(),
{
    if candidates.len() == 0 {
        Seq::empty()
    } else if open.contains(candidates.last()) {
        discoveries(candidates.drop_last(), open).push(candidates.last())
    } else {
        discoveries(candidates.drop_last(), open)
    }
}

/// A worker discovers a port exactly when it probes it and the port is open;
/// and a worker that never probes the same port twice never reports a port
/// twice.
pub proof fn lemma_discoveries_props(candidates: Seq<u16>, open: Seq<u16>)
    ensures
        forall|p: u16|
            discoveries(candidates, open).contains(p) <==> (candidates.contains(p)
                && open.contains(p)),
        candidates.no_duplicates() ==> discoveries(candidates, open).no_duplicates(),
    decreases candidates.len(),
{
    if candidates.len() > 0 {
        let head = candidates.drop_last();
        let last = candidates.last();
        lemma_discoveries_props(head, open);
        assert forall|p: u16|
            candidates.contains(p) <==> (head.contains(p) || p == last) by {
            if candidates.contains(p) {
                let i = choose|i: int| 0 <= i < candidates.len() && candidates[i] == p;
                if i < candidates.len() - 1 {
                    assert(head[i] == p);
                }
            }
            if head.contains(p) {
                let i = choose|i: int| 0 <= i < head.len() && head[i] == p;
                assert(candidates[i] == p);
            }
            if p == last {
                assert(candidates[candidates.len() - 1] == p);
            }
        }
        let d = discoveries(head, open);
        if open.contains(last) {
            assert forall|p: u16| d.push(last).contains(p) <==> (d.contains(p) || p == last) by {
                if d.push(last).contains(p) {
                    let i = choose|i: int| 0 <= i < d.push(last).len() && d.push(last)[i] == p;
                    if i < d.len() {
                        assert(d[i] == p);
                    }
                }
                if d.contains(p) {
                    let i = choose|i: int| 0 <= i < d.len() && d[i] == p;
                    assert(d.push(last)[i] == p);
                }
                if p == last {
                    assert(d.push(last)[d.len() as int] == p);
                }
            }
        }
        if candidates.no_duplicates() {
            assert(head.no_duplicates());
            if open.contains(last) {
                assert(!head.contains(last));
                assert(!d.contains(last));
                assert forall|i: int, j: int|
                    0 <= i < d.push(last).len() && 0 <= j < d.push(last).len() && i != j
                    implies d.push(last)[i] != d.push(last)[j] by {
                    if i < d.len() && j < d.len() {
                        assert(d[i] != d[j]);
                    } else if i < d.len() {
                        assert(d.contains(d[i]));
                    } else if j < d.len() {
                        assert(d.contains(d[j]));
                    }
                }
            }
        }
    }
}

/// Whether `ports` lists `p`.
pub fn contains_port(ports: &Vec<u16>, p: u16) -> (r: bool)
    ensures
        r == ports@.contains(p),
{
    let mut i: usize = 0;
    while i < ports.len()
        invariant
            i <= ports@.len(),
            forall|t: int| 0 <= t < i ==> ports@[t] != p,
        decreases ports@.len() - i,
    {
        if ports[i] == p {
            return true;
        }
        i = i + 1;
    }
    false
}

/// One worker's probe of its candidates against a simulated host: exactly
/// those candidates that are open, reported in probe order.
pub fn worker_discoveries(candidates: &Vec<u16>, open: &Vec<u16>) -> (found: Vec<u16>)
    ensures
        found@ == discoveries(candidates@, open@),
{
    let mut found: Vec<u16> = Vec::new();
    let mut i: usize = 0;
    while i < candidates.len()
        invariant
            i <= candidates@.len(),
            found@ == discoveries(candidates@.take(i as int), open@),
        decreases candidates@.len() - i,
    {
        proof {
            assert(candidates@.take(i + 1).drop_last() =~= candidates@.take(i as int));
            assert(candidates@.take(i + 1).last() == candidates@[i as int]);
        }
        if contains_port(open, candidates[i]) {
            found.push(candidates[i]);
        }
        i = i + 1;
    }
    proof {
        assert(candidates@.take(candidates@.len() as int) =~= candidates@);
    }
    found
}

/// A whole scan run with `threads` workers against a simulated host whose
/// open ports are exactly `open`: every worker covers its own residue class,
/// the collector gathers all discoveries and sorts them. The report lists
/// exactly the open ports of the scanned space `[1, MAX_PORT]` — port 0 is
/// never probed — each exactly once, in strictly ascending order.
pub fn scan_outcome(threads: u16, open: &Vec<u16>) -> (report: Vec<u16>)
    requires
        1 <= threads,
    ensures
        sorted_ascending(report@),
        strictly_ascending(report@),
        report@.no_duplicates(),
        forall|p: u16| report@.contains(p) <==> (open@.contains(p) && 1 <= p),
{
    let mut collected: Vec<u16> = Vec::new();
    let mut k: u16 = 0;
    while k < threads
        invariant
            k <= threads,
            1 <= threads,
            forall|p: u16|
                collected@.contains(p) <==> (open@.contains(p) && exists|c: int|
                    0 <= c < k && in_class(p as int, c, threads as int)),
            collected@.no_duplicates(),
        decreases threads - k,
    {
        let cand = worker_ports(k, threads);
        let mut found = worker_discoveries(&cand, open);
        proof {
            lemma_discoveries_props(cand@, open@);
        }
        let ghost old_collected = collected@;
        let ghost found_s = found@;
        collected.append(&mut found);
        proof {
            assert(collected@ == old_collected + found_s);
            assert forall|i: int, j: int|
                0 <= i < collected@.len() && 0 <= j < collected@.len() && i != j
                implies collected@[i] != collected@[j] by {
                let n = old_collected.len() as int;
                if i < n && j < n {
                    assert(old_collected[i] != old_collected[j]);
                } else if i >= n && j >= n {
                    assert(found_s[i - n] != found_s[j - n]);
                } else {
                    let (a, b) = if i < n {
                        (i, j)
                    } else {
                        (j, i)
                    };
                    let p = old_collected[a];
                    let q = found_s[b - n];
                    if p == q {
                        assert(old_collected.contains(p));
                        assert(found_s.contains(q));
                        assert(cand@.contains(q));
                        assert(in_class(q as int, k as int, threads as int));
                        let c = choose|c: int|
                            0 <= c < k && in_class(p as int, c, threads as int);
                        assert((p as int - 1) % (threads as int) == c);
                        assert((q as int - 1) % (threads as int) == k);
                    }
                }
            }
            assert forall|p: u16|
                collected@.contains(p) <==> (open@.contains(p) && exists|c: int|
                    0 <= c < k + 1 && in_class(p as int, c, threads as int)) by {
                if collected@.contains(p) {
                    let i = choose|i: int| 0 <= i < collected@.len() && collected@[i] == p;
                    let n = old_collected.len() as int;
                    if i < n {
                        assert(old_collected.contains(p));
                    } else {
                        assert(found_s[i - n] == p);
                        assert(found_s.contains(p));
                        assert(in_class(p as int, k as int, threads as int));
                    }
                }
                if open@.contains(p) && exists|c: int|
                    0 <= c < k + 1 && in_class(p as int, c, threads as int) {
                    let c = choose|c: int|
                        0 <= c < k + 1 && in_class(p as int, c, threads as int);
                    if c < k {
                        assert(old_collected.contains(p));
                        let i = choose|i: int|
                            0 <= i < old_collected.len() && old_collected[i] == p;
                        assert(collected@[i] == p);
                    } else {
                        assert(cand@.contains(p));
                        assert(found_s.contains(p));
                        let i = choose|i: int| 0 <= i < found_s.len() && found_s[i] == p;
                        assert(collected@[old_collected.len() + i] == p);
                    }
                }
            }
        }
        k = k + 1;
    }
    proof {
        assert forall|p: u16|
            collected@.contains(p) <==> (open@.contains(p) && 1 <= p) by {
            if open@.contains(p) && 1 <= p {
                lemma_ports_partition(threads as int, p as int);
            }
        }
    }
    let ghost collected_s = collected@;
    let report = build_report(collected);
    proof {
        broadcast use vstd::seq_lib::group_to_multiset_ensures;

        lemma_report_strictly_ascending(collected_s, report@);
        assert forall|p: u16|
            report@.contains(p) <==> collected_s.contains(p) by {
            assert(report@.contains(p) <==> report@.to_multiset().count(p) > 0);
            assert(collected_s.contains(p) <==> collected_s.to_multiset().count(p) > 0);
        }
    }
    report
}

} // verus!
