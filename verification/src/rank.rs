//! Ranking aircraft by their distance from a point.

use crate::binary64::Binary64;
use crate::coords::Point;
use crate::state::OpenskyState;
use vstd::prelude::*;
use vstd::seq_lib::*;

verus! {

/// An aircraft whose position is known: its place in the collection of
/// states, and that position.
#[derive(Clone, Copy, Debug)]
pub struct Located {
    pub index: usize,
    pub position: Point,
}

/// An aircraft with its distance from the origin, in kilometres. `index` is
/// its place in the collection of states.
#[derive(Clone, Copy, Debug)]
pub struct RankedResult {
    pub distance: Binary64,
    pub index: usize,
}

/// Why no aircraft is reported.
#[derive(Clone, Copy, Debug, PartialEq, Eq, Structural)]
pub enum RankError {
    /// Two or more distances were to be compared and one of them is a NaN.
    NanDistance,
    /// No aircraft has a known position.
    NoResults,
}

/// What is reported at the end: how many aircraft have a known position,
/// and the nearest of them.
#[derive(Clone, Copy, Debug)]
pub struct Report {
    pub located: usize,
    pub nearest: RankedResult,
}

/// The located aircraft among `states`, in the order of `states`, each with
/// its index.
pub open spec fn located_points(states: Seq<OpenskyState>) -> Seq<Located>
    decreases states.len(),
{
    if states.len() == 0 {
        Seq::empty()
    } else {
        let before = located_points(states.drop_last());
        if states.last().located() {
            before.push(
                Located { index: (states.len() - 1) as usize, position: states.last().point() },
            )
        } else {
            before
        }
    }
}

/// How many of `states` are located.
pub open spec fn located_count(states: Seq<OpenskyState>) -> nat
    decreases states.len(),
{
    if states.len() == 0 {
        0
    } else if states.last().located() {
        located_count(states.drop_last()) + 1
    } else {
        located_count(states.drop_last())
    }
}

/// Lists the aircraft whose latitude and longitude are both known. The
/// others are left out without a trace.
pub fn located(states: &Vec<OpenskyState>) -> (r: Vec<Located>)
    ensures
        r@ == located_points(states@),
{
    let mut out: Vec<Located> = Vec::new();
    let mut i: usize = 0;
    while i < states.len()
        invariant
            i <= states.len(),
            out@ == located_points(states@.take(i as int)),
        decreases states.len() - i,
    {
        proof {
            assert(states@.take(i + 1).drop_last() =~= states@.take(i as int));
        }
        match states[i].position() {
            Some(position) => {
                out.push(Located { index: i, position });
            },
            None => {},
        }
        i += 1;
    }
    proof {
        assert(states@.take(i as int) =~= states@);
    }
    out
}

impl RankedResult {
    /// The ranking order: nearer comes first; of two aircraft at the same
    /// distance the one with the smaller index; and of two results that
    /// still agree, which can only differ in the sign of a zero distance,
    /// the one with the smaller encoding. It is a total order.
    pub open spec fn precedes(self, other: RankedResult) -> bool {
        let mine = self.distance.key();
        let theirs = other.distance.key();
        if mine != theirs {
            mine < theirs
        } else if self.index != other.index {
            self.index < other.index
        } else {
            self.distance.bits <= other.distance.bits
        }
    }

    /// Decides the ranking order of two results.
    pub fn ranks_before(&self, other: &RankedResult) -> (r: bool)
        ensures
            r == self.precedes(*other),
    {
        let mine: i64 = self.distance.order_key();
        let theirs: i64 = other.distance.order_key();
        if mine != theirs {
            mine < theirs
        } else if self.index != other.index {
            self.index < other.index
        } else {
            self.distance.to_bits() <= other.distance.to_bits()
        }
    }
}

/// The candidates that stand for `located`, each with the distance that
/// has its place in `distances`; none where the two differ in length.
pub open spec fn paired(located: Seq<Located>, distances: Seq<Binary64>) -> Option<
    Seq<RankedResult>,
> {
    if located.len() == distances.len() {
        Some(
            Seq::new(
                located.len(),
                |k: int| RankedResult { distance: distances[k], index: located[k].index },
            ),
        )
    } else {
        None
    }
}

/// Joins each located aircraft with its distance from the origin.
pub fn with_distances(located: &Vec<Located>, distances: &Vec<Binary64>) -> (r: Option<
    Vec<RankedResult>,
>)
    ensures
        match paired(located@, distances@) {
            Some(candidates) => r matches Some(v) && v@ == candidates,
            None => r is None,
        },
{
    if located.len() != distances.len() {
        return None;
    }
    let mut out: Vec<RankedResult> = Vec::new();
    let mut k: usize = 0;
    while k < located.len()
        invariant
            k <= located.len(),
            located.len() == distances.len(),
            out.len() == k,
            forall|i: int|
                0 <= i < k ==> out@[i] == (RankedResult {
                    distance: distances@[i],
                    index: located@[i].index,
                }),
        decreases located.len() - k,
    {
        out.push(RankedResult { distance: distances[k], index: located[k].index });
        k += 1;
    }
    proof {
        assert(out@ =~= paired(located@, distances@)->0);
    }
    Some(out)
}

/// Whether each result precedes all that come after it.
pub open spec fn ascending(s: Seq<RankedResult>) -> bool {
    forall|i: int, j: int| 0 <= i < j < s.len() ==> s[i].precedes(s[j])
}

/// Whether one of the distances is a NaN.
pub open spec fn holds_nan(s: Seq<RankedResult>) -> bool {
    exists|i: int| 0 <= i < s.len() && s[i].distance.nan()
}

/// Whether the results can be put in order: a NaN compares with nothing,
/// so it may only stand alone, where nothing is compared.
pub open spec fn comparable(s: Seq<RankedResult>) -> bool {
    s.len() < 2 || !holds_nan(s)
}

/// Tells whether one of the distances is a NaN.
pub fn any_nan(candidates: &Vec<RankedResult>) -> (r: bool)
    ensures
        r == holds_nan(candidates@),
{
    let mut i: usize = 0;
    while i < candidates.len()
        invariant
            i <= candidates.len(),
            forall|k: int| 0 <= k < i ==> !candidates@[k].distance.nan(),
        decreases candidates.len() - i,
    {
        if candidates[i].distance.is_nan() {
            return true;
        }
        i += 1;
    }
    false
}

/// Whether each result of `s` precedes `x`.
pub open spec fn all_precede(s: Seq<RankedResult>, x: RankedResult) -> bool {
    forall|k: int| 0 <= k < s.len() ==> (#[trigger] s[k]).precedes(x)
}

/// An ascending run stays ascending when a result that none of it follows
/// is put at its end, and what the longer run precedes is what its last
/// result precedes.
proof fn lemma_push_keeps_ascending(s: Seq<RankedResult>, x: RankedResult, next: RankedResult)
    requires
        ascending(s),
        all_precede(s, x),
    ensures
        ascending(s.push(x)),
        x.precedes(next) ==> all_precede(s.push(x), next),
{
    let t = s.push(x);
    assert forall|i: int, j: int| 0 <= i < j < t.len() implies t[i].precedes(t[j]) by {
        if j < s.len() {
            assert(s[i].precedes(s[j]));
        } else {
            assert(s[i].precedes(x));
        }
    }
    if x.precedes(next) {
        assert forall|k: int| 0 <= k < t.len() implies (#[trigger] t[k]).precedes(next) by {
            if k < s.len() {
                assert(s[k].precedes(x));
            }
        }
    }
}

/// Taking one more result of `a` adds that result to what was taken.
proof fn lemma_take_one_more(a: Seq<RankedResult>, i: int)
    requires
        0 <= i < a.len(),
    ensures
        a.take(i + 1).to_multiset() == a.take(i).to_multiset().insert(a[i]),
{
    assert(a.take(i + 1) =~= a.take(i).push(a[i]));
    to_multiset_build(a.take(i), a[i]);
}

/// Merges two ascending runs into one.
fn merge(a: &Vec<RankedResult>, b: &Vec<RankedResult>) -> (r: Vec<RankedResult>)
    requires
        ascending(a@),
        ascending(b@),
        a.len() + b.len() <= usize::MAX,
    ensures
        ascending(r@),
        r.len() == a.len() + b.len(),
        r@.to_multiset() == a@.to_multiset().add(b@.to_multiset()),
{
    let mut out: Vec<RankedResult> = Vec::new();
    let mut i: usize = 0;
    let mut j: usize = 0;
    proof {
        broadcast use vstd::multiset::group_multiset_axioms;

        assert(a@.take(0) =~= out@);
        assert(b@.take(0) =~= out@);
        out@.to_multiset_ensures();
        vstd::multiset::lemma_multiset_empty_len(out@.to_multiset());
        assert(out@.to_multiset() =~= a@.take(0).to_multiset().add(b@.take(0).to_multiset()));
    }
    while i < a.len() || j < b.len()
        invariant
            i <= a.len(),
            j <= b.len(),
            a.len() + b.len() <= usize::MAX,
            out.len() == i + j,
            ascending(a@),
            ascending(b@),
            ascending(out@),
            i < a.len() ==> all_precede(out@, a@[i as int]),
            j < b.len() ==> all_precede(out@, b@[j as int]),
            out@.to_multiset() == a@.take(i as int).to_multiset().add(
                b@.take(j as int).to_multiset(),
            ),
        decreases a.len() - i + b.len() - j,
    {
        let from_a: bool = if i >= a.len() {
            false
        } else if j >= b.len() {
            true
        } else {
            a[i].ranks_before(&b[j])
        };
        if from_a {
            proof {
                let x = a@[i as int];
                if i + 1 < a.len() {
                    assert(x.precedes(a@[i + 1]));
                    lemma_push_keeps_ascending(out@, x, a@[i + 1]);
                }
                if j < b.len() {
                    lemma_push_keeps_ascending(out@, x, b@[j as int]);
                }
                lemma_push_keeps_ascending(out@, x, x);
                lemma_take_one_more(a@, i as int);
                to_multiset_build(out@, x);
                assert(out@.push(x).to_multiset() =~= a@.take(i + 1).to_multiset().add(
                    b@.take(j as int).to_multiset(),
                ));
            }
            out.push(a[i]);
            i += 1;
        } else {
            proof {
                let x = b@[j as int];
                if j + 1 < b.len() {
                    assert(x.precedes(b@[j + 1]));
                    lemma_push_keeps_ascending(out@, x, b@[j + 1]);
                }
                if i < a.len() {
                    lemma_push_keeps_ascending(out@, x, a@[i as int]);
                }
                lemma_push_keeps_ascending(out@, x, x);
                lemma_take_one_more(b@, j as int);
                to_multiset_build(out@, x);
                assert(out@.push(x).to_multiset() =~= a@.take(i as int).to_multiset().add(
                    b@.take(j + 1).to_multiset(),
                ));
            }
            out.push(b[j]);
            j += 1;
        }
    }
    proof {
        assert(a@.take(i as int) =~= a@);
        assert(b@.take(j as int) =~= b@);
    }
    out
}

/// Sorts the results at `lo..hi` into a vector of their own.
fn sort_range(v: &Vec<RankedResult>, lo: usize, hi: usize) -> (r: Vec<RankedResult>)
    requires
        lo <= hi <= v.len(),
    ensures
        ascending(r@),
        r.len() == hi - lo,
        r@.to_multiset() == v@.subrange(lo as int, hi as int).to_multiset(),
    decreases hi - lo,
{
    if hi - lo == 0 {
        let out: Vec<RankedResult> = Vec::new();
        proof {
            assert(v@.subrange(lo as int, hi as int) =~= out@);
        }
        out
    } else if hi - lo == 1 {
        let mut out: Vec<RankedResult> = Vec::new();
        out.push(v[lo]);
        proof {
            assert(v@.subrange(lo as int, hi as int) =~= out@);
        }
        out
    } else {
        let mid: usize = lo + (hi - lo) / 2;
        let left = sort_range(v, lo, mid);
        let right = sort_range(v, mid, hi);
        proof {
            let whole = v@.subrange(lo as int, hi as int);
            let first = v@.subrange(lo as int, mid as int);
            let second = v@.subrange(mid as int, hi as int);
            assert(whole =~= first + second);
            lemma_multiset_commutative(first, second);
        }
        merge(&left, &right)
    }
}

/// Puts the results in ranking order: ascending by distance, and by index
/// where distances are equal. With two or more results, of which one has a
/// NaN for its distance, there is no order and the ranking fails; a single
/// result is never compared and is ranked as it is.
pub fn rank(candidates: &Vec<RankedResult>) -> (r: Result<Vec<RankedResult>, RankError>)
    ensures
        comparable(candidates@) ==> (r matches Ok(ranked) && ascending(ranked@)
            && ranked@.to_multiset() == candidates@.to_multiset() && forall|i: int, j: int|
            0 <= i < j < ranked.len() ==> !(#[trigger] ranked@[j]).distance.less_than(
                (#[trigger] ranked@[i]).distance,
            )),
        !comparable(candidates@) ==> r == Err::<Vec<RankedResult>, RankError>(
            RankError::NanDistance,
        ),
{
    if candidates.len() >= 2 && any_nan(candidates) {
        return Err(RankError::NanDistance);
    }
    let ranked = sort_range(candidates, 0, candidates.len());
    proof {
        assert(candidates@.subrange(0, candidates.len() as int) =~= candidates@);
        assert forall|i: int, j: int| 0 <= i < j < ranked.len() implies !(
        #[trigger] ranked@[j]).distance.less_than((#[trigger] ranked@[i]).distance) by {
            assert(ranked@[i].precedes(ranked@[j]));
        }
    }
    Ok(ranked)
}

/// Picks the head of a ranking, and counts the ranking. An empty ranking
/// gives `NoResults`.
pub fn report(ranked: &Vec<RankedResult>) -> (r: Result<Report, RankError>)
    ensures
        ranked.len() == 0 ==> r == Err::<Report, RankError>(RankError::NoResults),
        ranked.len() > 0 ==> r == Ok::<Report, RankError>(
            Report { located: ranked.len(), nearest: ranked@[0] },
        ),
{
    if ranked.len() == 0 {
        Err(RankError::NoResults)
    } else {
        Ok(Report { located: ranked.len(), nearest: ranked[0] })
    }
}

/// What `nearest` answers for the given candidates: a failure where they
/// cannot be ranked or where there are none, and else their number with a
/// candidate that precedes every candidate in the ranking order.
pub open spec fn answers(candidates: Seq<RankedResult>, r: Result<Report, RankError>) -> bool {
    if !comparable(candidates) {
        r == Err::<Report, RankError>(RankError::NanDistance)
    } else if candidates.len() == 0 {
        r == Err::<Report, RankError>(RankError::NoResults)
    } else {
        &&& r matches Ok(found)
        &&& found.located == candidates.len()
        &&& candidates.contains(found.nearest)
        &&& forall|i: int|
            0 <= i < candidates.len() ==> found.nearest.precedes(#[trigger] candidates[i])
    }
}

/// Ranks the candidates and reports the nearest of them.
pub fn nearest(candidates: &Vec<RankedResult>) -> (r: Result<Report, RankError>)
    ensures
        answers(candidates@, r),
{
    match rank(candidates) {
        Err(e) => Err(e),
        Ok(ranked) => {
            proof {
                lemma_same_members(ranked@, candidates@);
                if ranked.len() > 0 {
                    assert(ranked@.contains(ranked@[0]));
                    assert forall|i: int| 0 <= i < candidates.len() implies ranked@[0].precedes(
                        #[trigger] candidates@[i],
                    ) by {
                        assert(candidates@.contains(candidates@[i]));
                        let k = choose|k: int| 0 <= k < ranked.len() && ranked@[k] == candidates@[i];
                        if k > 0 {
                            assert(ranked@[0].precedes(ranked@[k]));
                        }
                    }
                }
            }
            report(&ranked)
        },
    }
}

/// The answer is settled by the candidates: two answers to the same
/// candidates are the same answer.
pub proof fn lemma_answer_is_unique(
    candidates: Seq<RankedResult>,
    first: Result<Report, RankError>,
    second: Result<Report, RankError>,
)
    requires
        answers(candidates, first),
        answers(candidates, second),
    ensures
        first == second,
{
    if comparable(candidates) && candidates.len() > 0 {
        let a = first->Ok_0.nearest;
        let b = second->Ok_0.nearest;
        let i = choose|i: int| 0 <= i < candidates.len() && candidates[i] == a;
        let j = choose|j: int| 0 <= j < candidates.len() && candidates[j] == b;
        assert(a.precedes(candidates[j]));
        assert(b.precedes(candidates[i]));
        assert(a.distance.bits == b.distance.bits);
    }
}

/// There is one ranking of given candidates: two ascending sequences that
/// hold the same results, each as often as the other, are the same.
pub proof fn lemma_ranking_is_unique(x: Seq<RankedResult>, y: Seq<RankedResult>)
    requires
        ascending(x),
        ascending(y),
        x.to_multiset() == y.to_multiset(),
    ensures
        x == y,
{
    let order = |a: RankedResult, b: RankedResult| a.precedes(b);
    assert(vstd::relations::total_ordering(order)) by {
        assert forall|a: RankedResult, b: RankedResult| #[trigger]
            order(a, b) && #[trigger] order(b, a) implies a == b by {
            assert(a.distance.bits == b.distance.bits);
        }
    }
    assert(vstd::relations::sorted_by(x, order));
    assert(vstd::relations::sorted_by(y, order));
    lemma_sorted_unique(x, y, order);
}

/// Two sequences with the same multiset have the same length and the same
/// members.
pub proof fn lemma_same_members<A>(x: Seq<A>, y: Seq<A>)
    requires
        x.to_multiset() == y.to_multiset(),
    ensures
        x.len() == y.len(),
        forall|a: A| x.contains(a) <==> y.contains(a),
{
    x.to_multiset_ensures();
    y.to_multiset_ensures();
    assert forall|a: A| x.contains(a) <==> y.contains(a) by {
        assert(x.contains(a) <==> x.to_multiset().count(a) > 0);
        assert(y.contains(a) <==> y.to_multiset().count(a) > 0);
    }
}

/// `located_points` lists each located aircraft once and no other: its
/// length is the count of the located, its indices rise, each entry is a
/// located aircraft with that aircraft's position, and each located
/// aircraft has an entry.
pub proof fn lemma_located_points(states: Seq<OpenskyState>)
    requires
        states.len() <= usize::MAX,
    ensures
        located_points(states).len() == located_count(states),
        located_count(states) <= states.len(),
        forall|k: int|
            0 <= k < located_points(states).len() ==> {
                let entry = #[trigger] located_points(states)[k];
                &&& entry.index < states.len()
                &&& states[entry.index as int].located()
                &&& entry.position == states[entry.index as int].point()
            },
        forall|j: int, k: int|
            0 <= j < k < located_points(states).len() ==> (#[trigger] located_points(
                states,
            )[j]).index < (#[trigger] located_points(states)[k]).index,
        forall|i: int|
            0 <= i < states.len() && (#[trigger] states[i]).located() ==> exists|k: int|
                0 <= k < located_points(states).len() && (#[trigger] located_points(
                    states,
                )[k]).index == i,
    decreases states.len(),
{
    if states.len() > 0 {
        let before = states.drop_last();
        let last = (states.len() - 1) as int;
        lemma_located_points(before);
        let points = located_points(states);
        let earlier = located_points(before);
        assert forall|i: int| 0 <= i < states.len() && (#[trigger] states[i]).located() implies exists|
            k: int,
        |
            0 <= k < points.len() && (#[trigger] points[k]).index == i by {
            if i < last {
                assert(before[i].located());
                let k = choose|k: int| 0 <= k < earlier.len() && (#[trigger] earlier[k]).index == i;
                assert(points[k].index == i);
            } else {
                assert(points[points.len() - 1].index == i);
            }
        }
    }
}

/// A ranking of the located aircraft of `states`, whatever their distances,
/// leaves out exactly the aircraft that lack a coordinate: it is as long as
/// the located aircraft are many, each of its entries is a located
/// aircraft, and each located aircraft is among its entries.
pub proof fn lemma_ranking_keeps_the_located(
    states: Seq<OpenskyState>,
    distances: Seq<Binary64>,
    candidates: Seq<RankedResult>,
    ranked: Seq<RankedResult>,
)
    requires
        states.len() <= usize::MAX,
        paired(located_points(states), distances) == Some(candidates),
        ranked.to_multiset() == candidates.to_multiset(),
    ensures
        ranked.len() == located_count(states),
        forall|k: int|
            0 <= k < ranked.len() ==> (#[trigger] ranked[k]).index < states.len()
                && states[ranked[k].index as int].located(),
        forall|i: int|
            0 <= i < states.len() && (#[trigger] states[i]).located() ==> exists|k: int|
                0 <= k < ranked.len() && (#[trigger] ranked[k]).index == i,
{
    lemma_located_points(states);
    lemma_same_members(ranked, candidates);
    let points = located_points(states);
    assert forall|k: int| 0 <= k < ranked.len() implies (#[trigger] ranked[k]).index
        < states.len() && states[ranked[k].index as int].located() by {
        assert(ranked.contains(ranked[k]));
        let c = choose|c: int| 0 <= c < candidates.len() && candidates[c] == ranked[k];
        assert(candidates[c].index == points[c].index);
    }
    assert forall|i: int| 0 <= i < states.len() && (#[trigger] states[i]).located() implies exists|
        k: int,
    |
        0 <= k < ranked.len() && (#[trigger] ranked[k]).index == i by {
        let c = choose|c: int| 0 <= c < points.len() && (#[trigger] points[c]).index == i;
        assert(candidates[c].index == i);
        assert(candidates.contains(candidates[c]));
        let k = choose|k: int| 0 <= k < ranked.len() && ranked[k] == candidates[c];
        assert(ranked[k].index == i);
    }
}

/// Where no aircraft has a known position, there is no candidate, and the
/// answer is `NoResults`, not a failure of another kind.
pub proof fn lemma_nothing_located_no_results(
    states: Seq<OpenskyState>,
    distances: Seq<Binary64>,
    candidates: Seq<RankedResult>,
    r: Result<Report, RankError>,
)
    requires
        states.len() <= usize::MAX,
        forall|i: int| 0 <= i < states.len() ==> !(#[trigger] states[i]).located(),
        paired(located_points(states), distances) == Some(candidates),
        answers(candidates, r),
    ensures
        candidates.len() == 0,
        r == Err::<Report, RankError>(RankError::NoResults),
{
    lemma_located_points(states);
    let points = located_points(states);
    if points.len() > 0 {
        assert(states[points[0].index as int].located());
    }
}

} // verus!
