//! Choosing the nearest of a set of candidate records.
//!
//! The caller measures each candidate against the query point and hands the
//! distance over as an integer that orders as the distances do. The choice
//! walks the candidates once, in the order given: a strictly nearer
//! candidate replaces the best so far, and on an exact tie the candidate
//! replaces the best so far only where the best names it as the address it
//! is an alias or a child of.

use vstd::prelude::*;
use crate::address::{Address, AddressView};

verus! {

/// A record with its distance from the query point.
pub struct Candidate<'a> {
    pub address: &'a Address,
    /// Smaller is nearer; equal numbers are equal distances.
    pub distance: u64,
}

/// A candidate as plain values.
pub struct CandidateView {
    pub address: AddressView,
    pub distance: nat,
}

impl<'a> View for Candidate<'a> {
    type V = CandidateView;

    open spec fn view(&self) -> CandidateView {
        CandidateView { address: self.address@, distance: self.distance as nat }
    }
}

/// The candidates of a list as plain values.
pub open spec fn candidates_of(list: Seq<Candidate>) -> Seq<CandidateView> {
    list.map_values(|c: Candidate| c@)
}

/// `other` takes the place of `best`: it is strictly nearer, or it is
/// exactly as near and `best` refers to it.
pub open spec fn displaces(best: CandidateView, other: CandidateView) -> bool {
    other.distance < best.distance || (other.distance == best.distance
        && best.address.refers_to(other.address))
}

/// The position chosen among the first `n` candidates, walking them in
/// order. For `n` of 0 or 1 it is position 0.
pub open spec fn choice(list: Seq<CandidateView>, n: nat) -> nat
    decreases n,
{
    if n <= 1 {
        0
    } else {
        let best = choice(list, (n - 1) as nat);
        if displaces(list[best as int], list[n - 1]) {
            (n - 1) as nat
        } else {
            best
        }
    }
}

/// The position of the nearest candidate, or `None` where there is no
/// candidate.
pub open spec fn nearest_of(list: Seq<CandidateView>) -> Option<nat> {
    if list.len() == 0 {
        None
    } else {
        Some(choice(list, list.len()))
    }
}

/// The chosen position lies among the candidates walked.
pub proof fn lemma_choice_in_range(list: Seq<CandidateView>, n: nat)
    requires
        1 <= n,
    ensures
        choice(list, n) < n,
    decreases n,
{
    if n > 1 {
        lemma_choice_in_range(list, (n - 1) as nat);
    }
}

/// No candidate is nearer than the chosen one.
pub proof fn lemma_choice_is_nearest(list: Seq<CandidateView>, n: nat, i: int)
    requires
        n <= list.len(),
        0 <= i < n,
    ensures
        list[choice(list, n) as int].distance <= list[i].distance,
    decreases n,
{
    if n > 1 {
        lemma_choice_in_range(list, (n - 1) as nat);
        if i < n - 1 {
            lemma_choice_is_nearest(list, (n - 1) as nat, i);
        }
    }
}

/// The chosen candidate does not refer to any candidate that comes after it
/// at exactly its distance.
pub proof fn lemma_choice_settles_later_ties(list: Seq<CandidateView>, n: nat, j: int)
    requires
        n <= list.len(),
        choice(list, n) < j < n,
        list[j].distance == list[choice(list, n) as int].distance,
    ensures
        !list[choice(list, n) as int].address.refers_to(list[j].address),
    decreases n,
{
    if n > 1 {
        lemma_choice_in_range(list, (n - 1) as nat);
        if j < n - 1 {
            lemma_choice_settles_later_ties(list, (n - 1) as nat, j);
        }
    }
}

/// Of two candidates at exactly the same distance, where the first refers to
/// the second and the second does not refer back, the second is chosen, in
/// whichever order the two are given.
pub proof fn lemma_tie_goes_to_referenced(referring: CandidateView, referenced: CandidateView)
    requires
        referring.distance == referenced.distance,
        referring.address.refers_to(referenced.address),
        !referenced.address.refers_to(referring.address),
    ensures
        nearest_of(seq![referring, referenced]) == Some(1nat),
        nearest_of(seq![referenced, referring]) == Some(0nat),
{
    let forward = seq![referring, referenced];
    let backward = seq![referenced, referring];
    reveal_with_fuel(choice, 3);
    assert(choice(forward, 1) == 0);
    assert(choice(backward, 1) == 0);
    assert(forward[0] == referring && forward[1] == referenced);
    assert(backward[0] == referenced && backward[1] == referring);
}

/// Chooses the nearest candidate and returns its position in `candidates`.
///
/// Returns `None` exactly where `candidates` is empty.
pub fn nearest(candidates: &Vec<Candidate>) -> (r: Option<usize>)
    ensures
        match r {
            Some(at) => nearest_of(candidates_of(candidates@)) == Some(at as nat),
            None => nearest_of(candidates_of(candidates@)) is None,
        },
        r is Some <==> candidates.len() > 0,
        r matches Some(at) ==> at < candidates.len() && forall|i: int|
            0 <= i < candidates.len() ==> candidates[at as int].distance
                <= #[trigger] candidates[i].distance,
{
    let count = candidates.len();
    if count == 0 {
        return None;
    }
    let ghost list = candidates_of(candidates@);
    let mut best: usize = 0;
    let mut next: usize = 1;
    while next < count
        invariant
            count == candidates.len(),
            list == candidates_of(candidates@),
            1 <= next <= count,
            best < next,
            best == choice(list, next as nat),
        decreases count - next,
    {
        let held = &candidates[best];
        let other = &candidates[next];
        assert(list[best as int] == held@);
        assert(list[next as int] == other@);
        if other.distance < held.distance {
            best = next;
        } else if other.distance == held.distance && held.address.refers_to(other.address) {
            best = next;
        }
        next += 1;
    }
    proof {
        assert forall|i: int| 0 <= i < candidates.len() implies candidates[best as int].distance
            <= #[trigger] candidates[i].distance by {
            lemma_choice_is_nearest(list, count as nat, i);
            assert(list[i] == candidates[i]@);
            assert(list[best as int] == candidates[best as int]@);
        }
    }
    Some(best)
}

} // verus!
