use vstd::prelude::*;
use vstd::multiset::Multiset;
use crate::snapshot::{ProcessInfo, TopN};

verus! {

broadcast use vstd::seq_lib::group_to_multiset_ensures, vstd::multiset::group_multiset_axioms;

/// Ordered by descending CPU usage.
pub open spec fn heaviest_first(s: Seq<ProcessInfo>) -> bool {
    forall|i: int, j: int| 0 <= i < j < s.len() ==> s[i].cpu_centi >= s[j].cpu_centi
}

/// `r` is the first `r.len()` entries of some ordering of `procs` by descending CPU usage.
pub open spec fn leading_of(r: Seq<ProcessInfo>, procs: Seq<ProcessInfo>) -> bool {
    exists|s: Seq<ProcessInfo>|
        #![trigger s.to_multiset()]
        s.to_multiset() == procs.to_multiset() && heaviest_first(s) && r == s.take(r.len() as int)
}

/// The `n` processes with the highest CPU usage, heaviest first (all of them
/// when there are fewer than `n`).
pub fn top_processes(procs: Vec<ProcessInfo>, n: TopN) -> (r: Vec<ProcessInfo>)
    ensures
        r@.len() == (if n.0 < procs@.len() { n.0 as int } else { procs@.len() as int }),
        heaviest_first(r@),
        leading_of(r@, procs@),
{
    let ghost orig = procs@;
    let mut rest = procs;
    let mut sorted: Vec<ProcessInfo> = Vec::new();
    proof {
        assert(rest@ == orig);
        assert(sorted@.to_multiset() =~= Multiset::<ProcessInfo>::empty());
        assert(sorted@.to_multiset().add(rest@.to_multiset()) =~= orig.to_multiset());
    }
    while rest.len() > 0
        invariant
            heaviest_first(sorted@),
            sorted@.to_multiset().add(rest@.to_multiset()) == orig.to_multiset(),
            sorted@.len() + rest@.len() == orig.len(),
        decreases rest@.len(),
    {
        let ghost rest0 = rest@;
        let p = rest.pop().unwrap();
        proof {
            assert(rest0 =~= rest@.push(p));
        }
        let mut i: usize = 0;
        while i < sorted.len() && sorted[i].cpu_centi >= p.cpu_centi
            invariant
                i <= sorted@.len(),
                forall|k: int| 0 <= k < i ==> sorted@[k].cpu_centi >= p.cpu_centi,
            decreases sorted@.len() - i,
        {
            i += 1;
        }
        let ghost before = sorted@;
        sorted.insert(i, p);
        proof {
            assert(i < before.len() ==> before[i as int].cpu_centi < p.cpu_centi);
            assert forall|a: int, b: int| 0 <= a < b < sorted@.len() implies sorted@[a].cpu_centi >= sorted@[b].cpu_centi by {
                if b < i {
                } else if b == i {
                } else if a < i {
                    assert(sorted@[b] == before[b - 1]);
                } else if a == i {
                    assert(sorted@[b] == before[b - 1]);
                    assert(before[i as int].cpu_centi < p.cpu_centi);
                    if b - 1 > i {
                        assert(before[i as int].cpu_centi >= before[b - 1].cpu_centi);
                    }
                } else {
                    assert(sorted@[a] == before[a - 1]);
                    assert(sorted@[b] == before[b - 1]);
                }
            }
            assert(sorted@.to_multiset() == before.to_multiset().insert(p));
            assert(rest0.to_multiset() == rest@.to_multiset().insert(p));
            assert(sorted@.to_multiset().add(rest@.to_multiset()) =~= before.to_multiset().add(rest0.to_multiset()));
        }
    }
    proof {
        assert(rest@.to_multiset() =~= Multiset::<ProcessInfo>::empty());
        assert(sorted@.to_multiset() =~= orig.to_multiset());
    }
    let ghost full = sorted@;
    sorted.truncate(n.0);
    proof {
        assert(sorted@ =~= full.take(sorted@.len() as int));
        assert(full.to_multiset() == orig.to_multiset() && heaviest_first(full) && sorted@ == full.take(sorted@.len() as int));
    }
    sorted
}

} // verus!
