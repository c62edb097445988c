//! Partitioning of the port space among workers.
//!
//! A scan with `stride` workers gives the worker with starting offset `k`
//! (for `k` in `[0, stride)`) the ports `k + 1, k + 1 + stride, k + 1 + 2 * stride, ...`
//! up to `MAX_PORT`: one residue class of the port space. The classes of the
//! `stride` offsets are pairwise disjoint and together cover every port in
//! `[1, MAX_PORT]`, so no port is probed twice and none is skipped.

use vstd::prelude::*;
use vstd::arithmetic::div_mod::lemma_div_pos_is_pos;
use vstd::arithmetic::div_mod::lemma_fundamental_div_mod;
use vstd::arithmetic::div_mod::lemma_fundamental_div_mod_converse_mod;
use vstd::arithmetic::div_mod::lemma_mod_division_less_than_divisor;

verus! {

/// The highest TCP port number. Port 0 is reserved and is never scanned.
pub const MAX_PORT: u16 = 65535;

/// Whether port `p` belongs to the residue class scanned by the worker with
/// the given starting offset, when the scan runs with `stride` workers.
pub open spec fn in_class(p: int, offset: int, stride: int) -> bool {
    &&& 1 <= p <= MAX_PORT
    &&& (p - 1) % stride == offset
}

/// The ports assigned to one worker, in the order it probes them: starting at
/// `offset + 1` and advancing by `stride` while the candidate stays within the
/// port space. The result is exactly the worker's residue class, ascending.
pub fn worker_ports(offset: u16, stride: u16) -> (ports: Vec<u16>)
    requires
        1 <= stride,
        offset < stride,
    ensures
        ports@.len() >= 1,
        forall|j: int|
            0 <= j < ports@.len() ==> ports@[j] as int == offset + 1 + j * stride,
        forall|j: int| 0 <= j < ports@.len() ==> 1 <= #[trigger] ports@[j] <= MAX_PORT,
        offset + 1 + ports@.len() * stride > MAX_PORT,
        forall|p: u16|
            ports@.contains(p) <==> in_class(p as int, offset as int, stride as int),
        ports@.no_duplicates(),
{
    let mut ports: Vec<u16> = Vec::new();
    let mut port: u16 = offset + 1;
    ports.push(port);
    while port <= MAX_PORT - stride
        invariant
            1 <= stride,
            offset < stride,
            ports@.len() >= 1,
            port as int == offset + 1 + (ports@.len() - 1) * stride,
            port <= MAX_PORT,
            forall|j: int|
                0 <= j < ports@.len() ==> ports@[j] as int == offset + 1 + j * stride,
            forall|j: int| 0 <= j < ports@.len() ==> 1 <= #[trigger] ports@[j] <= MAX_PORT,
        decreases MAX_PORT - port,
    {
        proof {
            let n = ports@.len() as int;
            assert((n - 1) * stride + stride == n * stride) by (nonlinear_arith);
        }
        port = port + stride;
        ports.push(port);
    }
    proof {
        let n = ports@.len() as int;
        assert((n - 1) * stride + stride == n * stride) by (nonlinear_arith);
        lemma_class_exact(ports@, offset as int, stride as int);
        lemma_class_no_duplicates(ports@, offset as int, stride as int);
    }
    ports
}

/// A sequence whose `j`th element is `offset + 1 + j * stride` and which runs
/// to the end of the port space holds exactly the residue class of `offset`.
proof fn lemma_class_exact(s: Seq<u16>, offset: int, stride: int)
    requires
        1 <= stride,
        0 <= offset < stride,
        forall|j: int| 0 <= j < s.len() ==> s[j] as int == offset + 1 + j * stride,
        forall|j: int| 0 <= j < s.len() ==> 1 <= #[trigger] s[j] <= MAX_PORT,
        offset + 1 + s.len() * stride > MAX_PORT,
    ensures
        forall|p: u16| s.contains(p) <==> in_class(p as int, offset, stride),
{
    assert forall|p: u16| s.contains(p) implies in_class(p as int, offset, stride) by {
        let j = choose|j: int| 0 <= j < s.len() && s[j] == p;
        assert(p as int - 1 == j * stride + offset);
        lemma_fundamental_div_mod_converse_mod(p as int - 1, stride, j, offset);
    }
    assert forall|p: u16| in_class(p as int, offset, stride) implies s.contains(p) by {
        let x = p as int - 1;
        lemma_fundamental_div_mod(x, stride);
        lemma_div_pos_is_pos(x, stride);
        let j = x / stride;
        assert(p as int == offset + 1 + j * stride);
        assert(j < s.len()) by (nonlinear_arith)
            requires
                1 <= stride,
                offset + 1 + j * stride <= MAX_PORT,
                offset + 1 + s.len() * stride > MAX_PORT,
                0 <= j,
        ;
        assert(s[j] == p);
    }
}

/// The ports of one worker are pairwise distinct: consecutive candidates
/// differ by the stride, so the sequence is strictly increasing.
proof fn lemma_class_no_duplicates(s: Seq<u16>, offset: int, stride: int)
    requires
        1 <= stride,
        forall|j: int| 0 <= j < s.len() ==> s[j] as int == offset + 1 + j * stride,
    ensures
        s.no_duplicates(),
{
    assert forall|i: int, j: int|
        0 <= i < s.len() && 0 <= j < s.len() && i != j implies s[i] != s[j] by {
        assert(i * stride != j * stride) by (nonlinear_arith)
            requires
                1 <= stride,
                i != j,
        ;
    }
}

/// Full coverage without overlap: every port in `[1, MAX_PORT]` lies in the
/// residue class of exactly one worker offset in `[0, stride)`, and a residue
/// class holds no port outside `[1, MAX_PORT]`.
pub proof fn lemma_ports_partition(stride: int, p: int)
    requires
        1 <= stride,
        1 <= p <= MAX_PORT,
    ensures
        exists|k: int| 0 <= k < stride && in_class(p, k, stride),
        forall|k1: int, k2: int|
            in_class(p, k1, stride) && in_class(p, k2, stride) ==> k1 == k2,
{
    lemma_mod_division_less_than_divisor(p - 1, stride);
    let k = (p - 1) % stride;
    assert(0 <= k < stride && in_class(p, k, stride));
}

} // verus!
