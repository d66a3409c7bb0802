//! Finding what a ray hits first in a scene of many shapes. Every shape is
//! asked in turn for its nearest hit, each time no farther than the nearest
//! hit found so far; what was found last is the nearest hit of the scene.
//!
//! The shapes do their own geometry. This module keeps the search: which
//! bound the next shape is asked with, and which hit stands at the end.

use vstd::prelude::*;

verus! {

/// The upper bound with which the next shape is asked: the distance of the
/// hit found so far, or `t_max` while there is none.
pub open spec fn bound_after<D, R>(t_max: D, best: Option<(D, R)>) -> D {
    match best {
        Some((distance, _)) => distance,
        None => t_max,
    }
}

/// What stands after a shape has answered: its hit, if it gave one, and
/// else what stood before.
pub open spec fn replace<D, R>(best: Option<(D, R)>, answer: Option<(D, R)>) -> Option<(D, R)> {
    match answer {
        Some(_) => answer,
        None => best,
    }
}

/// The search for the nearest hit of one ray, as far as it has come.
pub struct Nearest<D, R> {
    t_max: D,
    best: Option<(D, R)>,
}

impl<D: Copy, R> Nearest<D, R> {
    /// The upper bound that the search began with.
    pub closed spec fn t_max(&self) -> D {
        self.t_max
    }

    /// The hit found so far, with its distance.
    pub closed spec fn best(&self) -> Option<(D, R)> {
        self.best
    }

    /// Begins a search among the hits that lie no farther than `t_max`.
    pub fn new(t_max: D) -> (search: Self)
        ensures
            search.t_max() == t_max,
            search.best() is None,
    {
        Nearest { t_max, best: None }
    }

    /// The upper bound with which to ask the next shape.
    pub fn bound(&self) -> (d: D)
        ensures
            d == bound_after(self.t_max(), self.best()),
    {
        match &self.best {
            Some((distance, _)) => *distance,
            None => self.t_max,
        }
    }

    /// Takes in the answer of the shape that was asked with [`Self::bound`]:
    /// its hit with the hit's distance, or `None`.
    pub fn observe(&mut self, answer: Option<(D, R)>)
        ensures
            final(self).t_max() == old(self).t_max(),
            final(self).best() == replace(old(self).best(), answer),
    {
        match answer {
            Some(hit) => {
                self.best = Some(hit);
            },
            None => {},
        }
    }

    /// Ends the search and gives the hit that stands.
    pub fn finish(self) -> (found: Option<R>)
        ensures
            found == match self.best() {
                Some((_, record)) => Some(record),
                None => None,
            },
    {
        match self.best {
            Some((_, record)) => Some(record),
            None => None,
        }
    }
}

/// The hit, if it lies no farther than `bound` in the order `rank`.
pub open spec fn within<D, R>(rank: spec_fn(D) -> int, answer: Option<(D, R)>, bound: D)
    -> Option<(D, R)> {
    match answer {
        Some((distance, _)) => if rank(distance) <= rank(bound) {
            answer
        } else {
            None
        },
        None => None,
    }
}

/// Whether a shape answers as shapes must: `shape(t_min, t_max)` is its
/// hit between the two bounds with the hit's distance. The hit lies between
/// the bounds, and under a lower upper bound the answer is the same hit as
/// long as it still lies within, and none once it does not.
pub open spec fn answers_with_its_nearest<D, R>(
    rank: spec_fn(D) -> int,
    shape: spec_fn(D, D) -> Option<(D, R)>,
) -> bool {
    &&& forall|t_min: D, t_max: D| #[trigger]
        shape(t_min, t_max) matches Some((distance, _)) ==> rank(t_min) <= rank(distance) <= rank(
            t_max,
        )
    &&& forall|t_min: D, t_max: D, bound: D|
        rank(bound) <= rank(t_max) ==> #[trigger] within(rank, shape(t_min, t_max), bound)
            == shape(t_min, bound)
}

/// What stands after the first `n` shapes were asked in turn, each with the
/// bound that the answers before it left.
pub open spec fn searched<D, R>(
    shapes: Seq<spec_fn(D, D) -> Option<(D, R)>>,
    t_min: D,
    t_max: D,
    n: nat,
) -> Option<(D, R)>
    decreases n,
{
    if n == 0 {
        None
    } else {
        let before = searched(shapes, t_min, t_max, (n - 1) as nat);
        replace(before, shapes[n - 1](t_min, bound_after(t_max, before)))
    }
}

/// Of two answers the nearer one; the later one where they lie equally far.
pub open spec fn nearer<D, R>(
    rank: spec_fn(D) -> int,
    earlier: Option<(D, R)>,
    later: Option<(D, R)>,
) -> Option<(D, R)> {
    match (earlier, later) {
        (Some((a, _)), Some((b, _))) => if rank(b) <= rank(a) {
            later
        } else {
            earlier
        },
        (None, _) => later,
        (_, None) => earlier,
    }
}

/// The nearest of the hits that the first `n` shapes give when each is
/// asked by itself with the full bounds.
pub open spec fn nearest_of<D, R>(
    rank: spec_fn(D) -> int,
    shapes: Seq<spec_fn(D, D) -> Option<(D, R)>>,
    t_min: D,
    t_max: D,
    n: nat,
) -> Option<(D, R)>
    decreases n,
{
    if n == 0 {
        None
    } else {
        nearer(
            rank,
            nearest_of(rank, shapes, t_min, t_max, (n - 1) as nat),
            shapes[n - 1](t_min, t_max),
        )
    }
}

/// Whether all of the first `n` shapes answer as shapes must.
pub open spec fn all_answer_with_their_nearest<D, R>(
    rank: spec_fn(D) -> int,
    shapes: Seq<spec_fn(D, D) -> Option<(D, R)>>,
    n: nat,
) -> bool {
    forall|i: int| 0 <= i < n ==> answers_with_its_nearest(rank, #[trigger] shapes[i])
}

/// The nearest of the hits that the shapes give by themselves lies between
/// the bounds.
pub proof fn lemma_nearest_of_lies_within<D, R>(
    rank: spec_fn(D) -> int,
    shapes: Seq<spec_fn(D, D) -> Option<(D, R)>>,
    t_min: D,
    t_max: D,
    n: nat,
)
    requires
        n <= shapes.len(),
        all_answer_with_their_nearest(rank, shapes, n),
    ensures
        nearest_of(rank, shapes, t_min, t_max, n) matches Some((distance, _)) ==> rank(t_min)
            <= rank(distance) <= rank(t_max),
    decreases n,
{
    if n > 0 {
        lemma_nearest_of_lies_within(rank, shapes, t_min, t_max, (n - 1) as nat);
        let shape = shapes[n - 1];
        assert(answers_with_its_nearest(rank, shape));
        assert(shape(t_min, t_max) matches Some((distance, _)) ==> rank(t_min) <= rank(distance)
            <= rank(t_max));
    }
}

/// Asking the shapes in turn, each no farther than the nearest hit found so
/// far, finds the nearest of the hits that the shapes give when each is
/// asked by itself with the full bounds; where two lie equally near, that
/// of the later shape.
pub proof fn lemma_search_finds_the_nearest<D, R>(
    rank: spec_fn(D) -> int,
    shapes: Seq<spec_fn(D, D) -> Option<(D, R)>>,
    t_min: D,
    t_max: D,
    n: nat,
)
    requires
        n <= shapes.len(),
        all_answer_with_their_nearest(rank, shapes, n),
    ensures
        searched(shapes, t_min, t_max, n) == nearest_of(rank, shapes, t_min, t_max, n),
    decreases n,
{
    if n > 0 {
        let m = (n - 1) as nat;
        lemma_search_finds_the_nearest(rank, shapes, t_min, t_max, m);
        lemma_nearest_of_lies_within(rank, shapes, t_min, t_max, m);
        let before = searched(shapes, t_min, t_max, m);
        let bound = bound_after(t_max, before);
        let shape = shapes[n - 1];
        assert(answers_with_its_nearest(rank, shape));
        let alone = shape(t_min, t_max);
        assert(alone matches Some((distance, _)) ==> rank(t_min) <= rank(distance) <= rank(
            t_max,
        ));
        assert(rank(bound) <= rank(t_max));
        assert(within(rank, shape(t_min, t_max), bound) == shape(t_min, bound));
    }
}

/// Whether `answer` is the nearest of the hits that the first `n` shapes
/// give by themselves: none if none of them is hit; else the hit of one of
/// them that no other hit lies nearer than, and that no hit of a later
/// shape lies as near as.
pub open spec fn is_the_nearest<D, R>(
    rank: spec_fn(D) -> int,
    shapes: Seq<spec_fn(D, D) -> Option<(D, R)>>,
    t_min: D,
    t_max: D,
    n: nat,
    answer: Option<(D, R)>,
) -> bool {
    match answer {
        None => forall|i: int| 0 <= i < n ==> (#[trigger] shapes[i])(t_min, t_max) is None,
        Some((distance, _)) => {
            &&& exists|i: int|
                0 <= i < n && (#[trigger] shapes[i])(t_min, t_max) == answer && forall|j: int|
                    i < j < n ==> ((#[trigger] shapes[j])(t_min, t_max) matches Some((other, _))
                        ==> rank(distance) < rank(other))
            &&& forall|j: int|
                0 <= j < n ==> ((#[trigger] shapes[j])(t_min, t_max) matches Some((other, _))
                    ==> rank(distance) <= rank(other))
        },
    }
}

/// [`nearest_of`] is the nearest of the hits that the shapes give by
/// themselves.
pub proof fn lemma_nearest_of_is_the_nearest<D, R>(
    rank: spec_fn(D) -> int,
    shapes: Seq<spec_fn(D, D) -> Option<(D, R)>>,
    t_min: D,
    t_max: D,
    n: nat,
)
    requires
        n <= shapes.len(),
    ensures
        is_the_nearest(rank, shapes, t_min, t_max, n, nearest_of(rank, shapes, t_min, t_max, n)),
    decreases n,
{
    if n > 0 {
        let m = (n - 1) as nat;
        lemma_nearest_of_is_the_nearest(rank, shapes, t_min, t_max, m);
        let before = nearest_of(rank, shapes, t_min, t_max, m);
        let last = shapes[n - 1](t_min, t_max);
        let answer = nearest_of(rank, shapes, t_min, t_max, n);
        assert(answer == nearer(rank, before, last));
        match answer {
            None => {},
            Some((distance, _)) => {
                let last_stands = match (before, last) {
                    (_, None) => false,
                    (None, Some(_)) => true,
                    (Some((a, _)), Some((b, _))) => rank(b) <= rank(a),
                };
                if last_stands {
                    assert(answer == last);
                    assert(shapes[n - 1](t_min, t_max) == answer);
                } else {
                    assert(answer == before);
                    let i = choose|i: int|
                        0 <= i < m && (#[trigger] shapes[i])(t_min, t_max) == answer
                            && forall|j: int|
                            i < j < m ==> ((#[trigger] shapes[j])(t_min, t_max) matches Some(
                                (other, _),
                            ) ==> rank(distance) < rank(other));
                    assert(0 <= i < n && shapes[i](t_min, t_max) == answer);
                }
            },
        }
    }
}

/// Whether `best` can stand after the first `n` shapes were asked in turn
/// through `cast`, each with the bound that the answers before it left.
pub open spec fn can_stand<H, D, R, F: Fn(&H, D, D) -> Option<(D, R)>>(
    cast: F,
    members: Seq<H>,
    t_min: D,
    t_max: D,
    n: nat,
    best: Option<(D, R)>,
) -> bool
    decreases n,
{
    if n == 0 {
        best is None
    } else {
        exists|before: Option<(D, R)>, answer: Option<(D, R)>|
            {
                &&& can_stand(cast, members, t_min, t_max, (n - 1) as nat, before)
                &&& #[trigger] cast.ensures(
                    (&members[n - 1], t_min, bound_after(t_max, before)),
                    answer,
                )
                &&& best == #[trigger] replace(before, answer)
            }
    }
}

/// A scene: shapes in the order in which they were added.
pub struct World<H> {
    pub members: Vec<H>,
}

impl<H> View for World<H> {
    type V = Seq<H>;

    open spec fn view(&self) -> Seq<H> {
        self.members@
    }
}

impl<H> World<H> {
    /// A scene without shapes.
    pub fn new() -> (world: Self)
        ensures
            world@ == Seq::<H>::empty(),
    {
        World { members: Vec::new() }
    }

    /// Adds a shape behind those that are there.
    pub fn push(&mut self, member: H)
        ensures
            final(self)@ == old(self)@.push(member),
    {
        self.members.push(member);
    }

    /// The number of shapes.
    pub fn len(&self) -> (n: usize)
        ensures
            n == self@.len(),
    {
        self.members.len()
    }

    /// Finds the nearest hit of the scene between `t_min` and `t_max`.
    /// `cast` asks one shape for its nearest hit between two bounds and
    /// gives the hit with its distance. Every shape is asked once, in the
    /// order of the scene, each no farther than the hit found so far.
    pub fn hit<D: Copy, R, F: Fn(&H, D, D) -> Option<(D, R)>>(
        &self,
        t_min: D,
        t_max: D,
        cast: F,
    ) -> (found: Option<R>)
        requires
            forall|i: int, bound: D|
                0 <= i < self@.len() ==> #[trigger] cast.requires((&self@[i], t_min, bound)),
        ensures
            exists|best: Option<(D, R)>|
                {
                    &&& #[trigger] can_stand(cast, self@, t_min, t_max, self@.len(), best)
                    &&& found == match best {
                        Some((_, record)) => Some(record),
                        None => None,
                    }
                },
    {
        let mut search: Nearest<D, R> = Nearest::new(t_max);
        let mut i: usize = 0;
        while i < self.members.len()
            invariant
                i <= self.members.len(),
                search.t_max() == t_max,
                can_stand(cast, self@, t_min, t_max, i as nat, search.best()),
                forall|i: int, bound: D|
                    0 <= i < self@.len() ==> #[trigger] cast.requires((&self@[i], t_min, bound)),
            decreases self.members.len() - i,
        {
            let ghost before = search.best();
            let answer = cast(&self.members[i], t_min, search.bound());
            search.observe(answer);
            i = i + 1;
            assert(can_stand(cast, self@, t_min, t_max, i as nat, search.best())) by {
                assert(cast.ensures((&self@[i - 1], t_min, bound_after(t_max, before)), answer));
                assert(search.best() == replace(before, answer));
            }
        }
        let ghost best = search.best();
        assert(can_stand(cast, self@, t_min, t_max, self@.len(), best));
        search.finish()
    }
}

/// Where `cast` answers for each shape as the shape's own `shapes[i]` says,
/// what stands at the end of the search is what [`searched`] says.
pub proof fn lemma_what_stands_is_searched<H, D, R, F: Fn(&H, D, D) -> Option<(D, R)>>(
    cast: F,
    members: Seq<H>,
    shapes: Seq<spec_fn(D, D) -> Option<(D, R)>>,
    t_min: D,
    t_max: D,
    n: nat,
    best: Option<(D, R)>,
)
    requires
        n <= members.len(),
        members.len() == shapes.len(),
        forall|i: int, bound: D, answer: Option<(D, R)>|
            0 <= i < n && #[trigger] cast.ensures((&members[i], t_min, bound), answer)
                ==> answer == shapes[i](t_min, bound),
        can_stand(cast, members, t_min, t_max, n, best),
    ensures
        best == searched(shapes, t_min, t_max, n),
    decreases n,
{
    if n > 0 {
        let (before, answer) = choose|before: Option<(D, R)>, answer: Option<(D, R)>|
            {
                &&& can_stand(cast, members, t_min, t_max, (n - 1) as nat, before)
                &&& #[trigger] cast.ensures(
                    (&members[n - 1], t_min, bound_after(t_max, before)),
                    answer,
                )
                &&& best == #[trigger] replace(before, answer)
            };
        lemma_what_stands_is_searched(
            cast,
            members,
            shapes,
            t_min,
            t_max,
            (n - 1) as nat,
            before,
        );
    }
}

/// A scene answers a ray with the nearest of the hits that its shapes give
/// when each is asked by itself with the same bounds, and where two lie
/// equally near, with that of the shape added later: so it is for every
/// `best` that can stand at the end of [`World::hit`], where `cast` answers
/// for each shape as `shapes[i]` says and the shapes answer as shapes must.
pub proof fn lemma_world_hit_is_the_nearest_member_hit<
    H,
    D,
    R,
    F: Fn(&H, D, D) -> Option<(D, R)>,
>(
    cast: F,
    members: Seq<H>,
    rank: spec_fn(D) -> int,
    shapes: Seq<spec_fn(D, D) -> Option<(D, R)>>,
    t_min: D,
    t_max: D,
    best: Option<(D, R)>,
)
    requires
        members.len() == shapes.len(),
        forall|i: int, bound: D, answer: Option<(D, R)>|
            0 <= i < members.len() && #[trigger] cast.ensures((&members[i], t_min, bound), answer)
                ==> answer == shapes[i](t_min, bound),
        all_answer_with_their_nearest(rank, shapes, shapes.len()),
        can_stand(cast, members, t_min, t_max, members.len(), best),
    ensures
        best == nearest_of(rank, shapes, t_min, t_max, shapes.len()),
        is_the_nearest(rank, shapes, t_min, t_max, shapes.len(), best),
{
    lemma_what_stands_is_searched(cast, members, shapes, t_min, t_max, members.len(), best);
    lemma_search_finds_the_nearest(rank, shapes, t_min, t_max, shapes.len());
    lemma_nearest_of_is_the_nearest(rank, shapes, t_min, t_max, shapes.len());
}

/// The first of the first `n` candidates that is flagged.
pub open spec fn first_flagged_of<T>(candidates: Seq<(bool, T)>, n: nat) -> Option<T>
    decreases n,
{
    if n == 0 {
        None
    } else {
        match first_flagged_of(candidates, (n - 1) as nat) {
            Some(found) => Some(found),
            None => if candidates[n - 1].0 {
                Some(candidates[n - 1].1)
            } else {
                None
            },
        }
    }
}

/// Picks the first candidate that is flagged. A shape that a ray can cross
/// more than once lists its crossings from the nearest on, each flagged if
/// it lies between the bounds, and so finds the one to answer with.
pub fn first_flagged<T: Copy>(candidates: &[(bool, T)]) -> (found: Option<T>)
    ensures
        found == first_flagged_of(candidates@, candidates@.len()),
{
    let mut i: usize = 0;
    while i < candidates.len()
        invariant
            i <= candidates@.len(),
            first_flagged_of(candidates@, i as nat) is None,
        ensures
            i <= candidates@.len(),
            i < candidates@.len() ==> candidates@[i as int].0 && first_flagged_of(
                candidates@,
                i as nat,
            ) is None,
            i == candidates@.len() ==> first_flagged_of(candidates@, i as nat) is None,
        decreases candidates.len() - i,
    {
        if candidates[i].0 {
            break ;
        }
        i = i + 1;
    }
    if i < candidates.len() {
        proof {
            lemma_first_flagged_stays(candidates@, (i + 1) as nat, candidates@.len());
        }
        Some(candidates[i].1)
    } else {
        None
    }
}

/// What was found among fewer candidates stays found among more.
pub proof fn lemma_first_flagged_stays<T>(candidates: Seq<(bool, T)>, n: nat, m: nat)
    requires
        n <= m,
        first_flagged_of(candidates, n) is Some,
    ensures
        first_flagged_of(candidates, m) == first_flagged_of(candidates, n),
    decreases m,
{
    if n < m {
        lemma_first_flagged_stays(candidates, n, (m - 1) as nat);
    }
}

/// The crossings of a shape, each flagged if its distance lies between the
/// bounds.
pub open spec fn flagged_by_bounds<D, R>(
    rank: spec_fn(D) -> int,
    crossings: Seq<(D, R)>,
    t_min: D,
    t_max: D,
) -> Seq<(bool, (D, R))> {
    Seq::new(
        crossings.len(),
        |i: int| (rank(t_min) <= rank(crossings[i].0) <= rank(t_max), crossings[i]),
    )
}

/// Whether the crossings are listed from the nearest on.
pub open spec fn ascending<D, R>(rank: spec_fn(D) -> int, crossings: Seq<(D, R)>) -> bool {
    forall|i: int, j: int|
        0 <= i <= j < crossings.len() ==> rank(#[trigger] crossings[i].0) <= rank(
            #[trigger] crossings[j].0,
        )
}

/// The shape that answers with the first of its crossings that lies between
/// the bounds.
pub open spec fn shape_of_crossings<D, R>(rank: spec_fn(D) -> int, crossings: Seq<(D, R)>)
    -> spec_fn(D, D) -> Option<(D, R)> {
    |t_min: D, t_max: D|
        first_flagged_of(flagged_by_bounds(rank, crossings, t_min, t_max), crossings.len())
}

proof fn lemma_first_flagged_is_first<T>(candidates: Seq<(bool, T)>, n: nat)
    requires
        n <= candidates.len(),
    ensures
        match first_flagged_of(candidates, n) {
            Some(found) => exists|i: int|
                0 <= i < n && (#[trigger] candidates[i]).0 && candidates[i].1 == found
                    && forall|j: int| 0 <= j < i ==> !(#[trigger] candidates[j]).0,
            None => forall|j: int| 0 <= j < n ==> !(#[trigger] candidates[j]).0,
        },
    decreases n,
{
    if n > 0 {
        lemma_first_flagged_is_first(candidates, (n - 1) as nat);
        if first_flagged_of(candidates, (n - 1) as nat) is None && candidates[n - 1].0 {
            assert(candidates[n - 1].0 && candidates[n - 1].1 == candidates[n - 1].1);
        }
    }
}

proof fn lemma_flagged_first_is_found<T>(candidates: Seq<(bool, T)>, n: nat, i: int)
    requires
        n <= candidates.len(),
        0 <= i < n,
        candidates[i].0,
        forall|j: int| 0 <= j < i ==> !(#[trigger] candidates[j]).0,
    ensures
        first_flagged_of(candidates, n) == Some(candidates[i].1),
    decreases n,
{
    if n - 1 > i {
        lemma_flagged_first_is_found(candidates, (n - 1) as nat, i);
    } else {
        lemma_first_flagged_is_first(candidates, i as nat);
    }
}

/// A shape that lists its crossings from the nearest on and answers with
/// the first that lies between the bounds answers as shapes must: with the
/// least root of a sphere, and with the one crossing of a plane.
pub proof fn lemma_first_crossing_answers_as_shapes_must<D, R>(
    rank: spec_fn(D) -> int,
    crossings: Seq<(D, R)>,
)
    requires
        ascending(rank, crossings),
    ensures
        answers_with_its_nearest(rank, shape_of_crossings(rank, crossings)),
{
    let shape = shape_of_crossings(rank, crossings);
    let n = crossings.len();
    assert forall|t_min: D, t_max: D| #[trigger]
        shape(t_min, t_max) matches Some((distance, _)) ==> rank(t_min) <= rank(distance) <= rank(
            t_max,
        ) by {
        lemma_first_flagged_is_first(flagged_by_bounds(rank, crossings, t_min, t_max), n);
    }
    assert forall|t_min: D, t_max: D, bound: D| rank(bound) <= rank(t_max) implies #[trigger] within(
        rank,
        shape(t_min, t_max),
        bound,
    ) == shape(t_min, bound) by {
        let wide = flagged_by_bounds(rank, crossings, t_min, t_max);
        let narrow = flagged_by_bounds(rank, crossings, t_min, bound);
        lemma_first_flagged_is_first(wide, n);
        lemma_first_flagged_is_first(narrow, n);
        match first_flagged_of(wide, n) {
            Some((distance, record)) => {
                let i = choose|i: int|
                    0 <= i < n && (#[trigger] wide[i]).0 && wide[i].1 == (distance, record)
                        && forall|j: int| 0 <= j < i ==> !(#[trigger] wide[j]).0;
                if rank(distance) <= rank(bound) {
                    assert(narrow[i].0);
                    assert forall|j: int| 0 <= j < i implies !(#[trigger] narrow[j]).0 by {
                        assert(!wide[j].0);
                    }
                    lemma_flagged_first_is_found(narrow, n, i);
                } else {
                    assert forall|j: int| 0 <= j < n implies !(#[trigger] narrow[j]).0 by {
                        if narrow[j].0 {
                            assert(wide[j].0);
                            assert(i <= j);
                            assert(rank(crossings[i].0) <= rank(crossings[j].0));
                        }
                    }
                    if first_flagged_of(narrow, n) is Some {
                        let k = choose|k: int| 0 <= k < n && (#[trigger] narrow[k]).0;
                    }
                }
            },
            None => {
                assert forall|j: int| 0 <= j < n implies !(#[trigger] narrow[j]).0 by {
                    assert(!wide[j].0);
                }
                if first_flagged_of(narrow, n) is Some {
                    let k = choose|k: int| 0 <= k < n && (#[trigger] narrow[k]).0;
                }
            },
        }
    }
}

} // verus!
