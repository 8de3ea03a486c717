//! Which other running instances of the application to close, so that one
//! instance owns the library database.

use vstd::prelude::*;
use crate::stats::{contains_str, lower_of, lowercase, occurs_in};

verus! {

broadcast use vstd::seq_lib::group_seq_properties;

/// A process whose lowercase name mentions "manga".
pub open spec fn is_instance(p: (u32, String)) -> bool {
    occurs_in(lower_of(p.1@), "manga"@)
}

/// The processes, of `(id, name)` pairs, that are instances of the
/// application.
pub open spec fn instances(ps: Seq<(u32, String)>) -> Seq<(u32, String)> {
    ps.filter(|p: (u32, String)| is_instance(p))
}

/// A process other than `this_pid`.
pub open spec fn other_than(this_pid: u32) -> spec_fn((u32, String)) -> bool {
    |p: (u32, String)| p.0 != this_pid
}

/// The id of a process.
pub open spec fn pid_of() -> spec_fn((u32, String)) -> u32 {
    |p: (u32, String)| p.0
}

/// The ids of the instances to close: every instance but `this_pid` when
/// more than one instance runs; none otherwise.
pub open spec fn pids_to_close(ps: Seq<(u32, String)>, this_pid: u32) -> Seq<u32> {
    let found = instances(ps);
    if found.len() > 1 {
        found.filter(other_than(this_pid)).map_values(pid_of())
    } else {
        Seq::empty()
    }
}

/// The ids, in the order given, of the running instances to close: all but
/// this one, when more than one runs.
pub fn instances_to_close(processes: &Vec<(u32, String)>, this_pid: u32) -> (r: Vec<u32>)
    ensures
        r@ == pids_to_close(processes@, this_pid),
{
    proof {
        reveal_strlit("manga");
    }
    let ghost fi = |p: (u32, String)| is_instance(p);
    let ghost fo = other_than(this_pid);
    let ghost g = pid_of();
    let mut count: usize = 0;
    let mut others: Vec<u32> = Vec::new();
    let mut i: usize = 0;
    while i < processes.len()
        invariant
            i <= processes@.len(),
            fi == (|p: (u32, String)| is_instance(p)),
            fo == other_than(this_pid),
            g == pid_of(),
            count == processes@.take(i as int).filter(fi).len(),
            others@ == processes@.take(i as int).filter(fi).filter(fo).map_values(g),
            count <= i,
        decreases processes.len() - i,
    {
        let ghost t = processes@;
        let ghost a = t.take(i as int).filter(fi);
        proof {
            assert(t.take(i + 1) =~= t.take(i as int).push(t[i as int]));
            t.take(i as int).lemma_filter_push(t[i as int], fi);
            a.lemma_filter_push(t[i as int], fo);
        }
        let name = lowercase(processes[i].1.as_str());
        if contains_str(name.as_str(), "manga") {
            count = count + 1;
            if processes[i].0 != this_pid {
                others.push(processes[i].0);
                assert(others@ =~= a.push(t[i as int]).filter(fo).map_values(g));
            } else {
                assert(others@ =~= a.push(t[i as int]).filter(fo).map_values(g));
            }
        }
        i = i + 1;
    }
    assert(processes@.take(processes@.len() as int) =~= processes@);
    assert(instances(processes@) == processes@.filter(fi));
    if count > 1 {
        others
    } else {
        let none: Vec<u32> = Vec::new();
        assert(none@ =~= Seq::<u32>::empty());
        none
    }
}

} // verus!
