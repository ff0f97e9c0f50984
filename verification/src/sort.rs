//! Ascending sort of the collected report.
//!
//! Probes complete in no particular order, so the collected open ports arrive
//! unordered; the report shown to the operator is sorted ascending first.
//! Sorting rearranges and never adds, drops, or duplicates an entry, and a
//! sorted, duplicate-free report is pinned down by its set of entries alone —
//! which is what makes the whole scan's output deterministic.

use vstd::prelude::*;

verus! {

/// A sequence of ports in ascending order.
pub open spec fn sorted_ascending(s: Seq<u16>) -> bool {
    forall|i: int, j: int| 0 <= i < j < s.len() ==> s[i] <= s[j]
}

/// Sort the collected ports ascending for display. The entries are exactly
/// those collected: the multiset of the vector is unchanged.
pub fn sort_ports(v: &mut Vec<u16>)
    ensures
        sorted_ascending(final(v)@),
        final(v)@.to_multiset() == old(v)@.to_multiset(),
        final(v)@.len() == old(v)@.len(),
{
    let mut out: Vec<u16> = Vec::new();
    let mut idx: usize = 0;
    proof {
        assert(v@.subrange(0, 0) =~= Seq::<u16>::empty());
        assert(out@ =~= Seq::<u16>::empty());
    }
    while idx < v.len()
        invariant
            idx <= v@.len(),
            sorted_ascending(out@),
            out@.len() == idx,
            out@.to_multiset() == v@.subrange(0, idx as int).to_multiset(),
        decreases v@.len() - idx,
    {
        let x = v[idx];
        let pos = insertion_point(&out, x);
        let ghost before = out@;
        out.insert(pos, x);
        proof {
            assert(sorted_ascending(out@)) by {
                before.insert_ensures(pos as int, x);
            }
            vstd::seq_lib::to_multiset_insert(before, pos as int, x);
            assert(out@.to_multiset() == before.to_multiset().insert(x));
            assert(v@.subrange(0, idx + 1) =~= v@.subrange(0, idx as int).push(x));
            vstd::seq_lib::to_multiset_build(v@.subrange(0, idx as int), x);
        }
        idx = idx + 1;
    }
    proof {
        assert(v@.subrange(0, v@.len() as int) =~= v@);
    }
    *v = out;
}

/// Find where `x` belongs in the sorted vector `out`: the first index whose
/// entry is greater than `x` (or the length, if none is).
fn insertion_point(out: &Vec<u16>, x: u16) -> (pos: usize)
    requires
        sorted_ascending(out@),
    ensures
        pos <= out@.len(),
        forall|m: int| 0 <= m < pos ==> out@[m] <= x,
        forall|m: int| pos <= m < out@.len() ==> out@[m] > x,
{
    let mut k: usize = 0;
    while k < out.len() && out[k] <= x
        invariant
            k <= out@.len(),
            sorted_ascending(out@),
            forall|m: int| 0 <= m < k ==> out@[m] <= x,
        decreases out@.len() - k,
    {
        k = k + 1;
    }
    k
}

/// Two sorted, duplicate-free reports with the same entries are the same
/// sequence. This is what makes the displayed list deterministic: however the
/// completion order or the concurrency limit varied between two scans, equal
/// open-port sets sort to equal reports.
pub proof fn lemma_sorted_unique_seqs_equal(a: Seq<u16>, b: Seq<u16>)
    requires
        sorted_ascending(a),
        sorted_ascending(b),
        a.no_duplicates(),
        b.no_duplicates(),
        forall|p: u16| a.contains(p) <==> b.contains(p),
    ensures
        a == b,
    decreases a.len(),
{
    if a.len() == 0 {
        if b.len() > 0 {
            assert(b.contains(b[0]));
            assert(a.contains(b[0]));
        }
        assert(a =~= b);
    } else {
        assert(a.contains(a[0]));
        assert(b.contains(a[0]));
        assert(b.len() > 0);
        assert(b.contains(b[0]));
        assert(a.contains(b[0]));
        let ia = choose|i: int| 0 <= i < a.len() && a[i] == b[0];
        let ib = choose|i: int| 0 <= i < b.len() && b[i] == a[0];
        assert(a[0] <= a[ia]);
        assert(b[0] <= b[ib]);
        assert(a[0] == b[0]);
        let at = a.subrange(1, a.len() as int);
        let bt = b.subrange(1, b.len() as int);
        assert forall|p: u16| at.contains(p) implies bt.contains(p) by {
            let i = choose|i: int| 0 <= i < at.len() && at[i] == p;
            assert(a[i + 1] == p);
            assert(a.contains(p));
            assert(b.contains(p));
            let j = choose|j: int| 0 <= j < b.len() && b[j] == p;
            assert(p != b[0]) by {
                assert(a[0] != a[i + 1]);
            }
            assert(j != 0);
            assert(bt[j - 1] == p);
        }
        assert forall|p: u16| bt.contains(p) implies at.contains(p) by {
            let i = choose|i: int| 0 <= i < bt.len() && bt[i] == p;
            assert(b[i + 1] == p);
            assert(b.contains(p));
            assert(a.contains(p));
            let j = choose|j: int| 0 <= j < a.len() && a[j] == p;
            assert(p != a[0]) by {
                assert(b[0] != b[i + 1]);
            }
            assert(j != 0);
            assert(at[j - 1] == p);
        }
        lemma_sorted_unique_seqs_equal(at, bt);
        assert(a =~= b) by {
            assert(forall|i: int| 1 <= i < a.len() ==> a[i] == at[i - 1]);
            assert(forall|i: int| 1 <= i < b.len() ==> b[i] == bt[i - 1]);
        }
    }
}

} // verus!
