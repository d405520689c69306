//! Arrangement of the send workers: one worker per send queue, each able to
//! take work from every other worker.
use vstd::prelude::*;

verus! {

/// The ids, in increasing order, of the workers that worker `id` may steal
/// work from: every worker of `0..num_workers` but itself.
pub fn peer_stealers(num_workers: usize, id: usize) -> (r: Vec<usize>)
    ensures
        r@ == Seq::new(num_workers as nat, |i: int| i as usize).filter(|x: usize| x != id),
{
    let ghost all = Seq::new(num_workers as nat, |i: int| i as usize);
    let mut out: Vec<usize> = Vec::new();
    let mut i: usize = 0;
    while i < num_workers
        invariant
            i <= num_workers,
            all == Seq::new(num_workers as nat, |i: int| i as usize),
            out@ == all.subrange(0, i as int).filter(|x: usize| x != id),
        decreases num_workers - i,
    {
        assert(all.subrange(0, i + 1).drop_last() =~= all.subrange(0, i as int));
        assert(all.subrange(0, i + 1).last() == i);
        proof {
            reveal(Seq::filter);
        }
        if i != id {
            out.push(i);
        }
        i = i + 1;
    }
    assert(all.subrange(0, num_workers as int) =~= all);
    out
}

} // verus!
