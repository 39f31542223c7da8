use vstd::prelude::*;

verus! {

/// Where a point lies relative to a line through a plane point with a given
/// normal, read off the sign of its signed distance: below (negative), on
/// (zero), above (positive), or unordered (the distance is not a number).
#[derive(Clone, Copy, PartialEq, Eq, Debug)]
pub enum Side {
    Below,
    On,
    Above,
    Unordered,
}

impl Side {
    /// The signed distance is at least zero.
    pub open spec fn not_below(self) -> bool {
        self is On || self is Above
    }

    /// The signed distance is at most zero.
    pub open spec fn at_or_below(self) -> bool {
        self is Below || self is On
    }

    /// The signed distance is at most zero.
    pub fn is_at_or_below(&self) -> (r: bool)
        ensures
            r == self.at_or_below(),
    {
        match self {
            Side::Below | Side::On => true,
            _ => false,
        }
    }

    /// The signed distance is below zero.
    pub fn is_below(&self) -> (r: bool)
        ensures
            r == (*self is Below),
    {
        match self {
            Side::Below => true,
            _ => false,
        }
    }

    /// The signed distance is zero or above.
    pub fn is_not_below(&self) -> (r: bool)
        ensures
            r == self.not_below(),
    {
        match self {
            Side::On | Side::Above => true,
            _ => false,
        }
    }
}

/// What clipping the segment `a`-`b` keeps, given the sides of its ends and
/// the point where it crosses the line.
pub open spec fn clip_result<P>(a: P, b: P, side_a: Side, side_b: Side, mid: P) -> Option<(P, P)> {
    if side_a is Below && side_b is Below {
        None
    } else if side_a.not_below() && side_b.not_below() {
        Some((a, b))
    } else if side_a is Below {
        Some((mid, b))
    } else {
        Some((a, mid))
    }
}

/// The clip needs the crossing point.
pub open spec fn clip_crosses(side_a: Side, side_b: Side) -> bool {
    !(side_a is Below && side_b is Below) && !(side_a.not_below() && side_b.not_below())
}

/// `clipped` is an outcome of clipping `a`-`b` against the line through
/// `plane_pt` with normal `normal`, for the given side and crossing maps.
pub open spec fn is_clip_outcome<P, FS: Fn(P, P, P) -> Side, FC: Fn(P, P, P, P) -> P>(
    a: P,
    b: P,
    plane_pt: P,
    normal: P,
    side: FS,
    crossing: FC,
    clipped: Option<(P, P)>,
) -> bool {
    exists|sa: Side, sb: Side, mid: P|
        #![trigger clip_result(a, b, sa, sb, mid)]
        {
            &&& call_ensures(side, (a, plane_pt, normal), sa)
            &&& call_ensures(side, (b, plane_pt, normal), sb)
            &&& clip_crosses(sa, sb) ==> call_ensures(crossing, (a, b, plane_pt, normal), mid)
            &&& clipped == clip_result(a, b, sa, sb, mid)
        }
}

/// Clips the segment `a`-`b` to the side of the line through `plane_pt`
/// that `inward_normal` points to.
pub fn clip_segment<P: Copy, FS: Fn(P, P, P) -> Side, FC: Fn(P, P, P, P) -> P>(
    a: P,
    b: P,
    plane_pt: P,
    inward_normal: P,
    side: &FS,
    crossing: &FC,
) -> (clipped: Option<(P, P)>)
    requires
        forall|p: P, q: P, r: P| call_requires(*side, (p, q, r)),
        forall|p: P, q: P, r: P, s: P| call_requires(*crossing, (p, q, r, s)),
    ensures
        is_clip_outcome(a, b, plane_pt, inward_normal, *side, *crossing, clipped),
{
    let da = side(a, plane_pt, inward_normal);
    let db = side(b, plane_pt, inward_normal);
    if da.is_below() && db.is_below() {
        assert(clip_result(a, b, da, db, a) == None::<(P, P)>);
        return None;
    }
    if da.is_not_below() && db.is_not_below() {
        assert(clip_result(a, b, da, db, a) == Some((a, b)));
        return Some((a, b));
    }
    let mid = crossing(a, b, plane_pt, inward_normal);
    if da.is_below() {
        assert(clip_result(a, b, da, db, mid) == Some((mid, b)));
        Some((mid, b))
    } else {
        assert(clip_result(a, b, da, db, mid) == Some((a, mid)));
        Some((a, mid))
    }
}

/// The ends of a clipped segment that lie on or below the reference face,
/// in order.
pub open spec fn kept_contacts<P>(p0: P, p1: P, side0: Side, side1: Side) -> Seq<P> {
    let first: Seq<P> = if side0.at_or_below() { seq![p0] } else { seq![] };
    if side1.at_or_below() { first.push(p1) } else { first }
}

/// `contacts` is what the manifold keeps of the twice-clipped segment `seg`.
pub open spec fn is_kept_outcome<P, FS: Fn(P, P, P) -> Side>(
    seg: Option<(P, P)>,
    ref_v0: P,
    ref_normal: P,
    side: FS,
    contacts: Seq<P>,
) -> bool {
    match seg {
        None => contacts == Seq::<P>::empty(),
        Some((p0, p1)) => exists|k0: Side, k1: Side|
            #![trigger kept_contacts(p0, p1, k0, k1)]
            {
                &&& call_ensures(side, (p0, ref_v0, ref_normal), k0)
                &&& call_ensures(side, (p1, ref_v0, ref_normal), k1)
                &&& contacts == kept_contacts(p0, p1, k0, k1)
            },
    }
}

/// Each end of the twice-clipped segment is a contact exactly when its own
/// side of the reference face is below or on it, whatever the other end's:
/// an end on or below the face is never dropped, the ends keep their order,
/// and nothing else is a contact.
pub proof fn lemma_kept_ends_independent<P, FS: Fn(P, P, P) -> Side>(
    p0: P,
    p1: P,
    ref_v0: P,
    ref_normal: P,
    side: FS,
    contacts: Seq<P>,
)
    requires
        is_kept_outcome(Some((p0, p1)), ref_v0, ref_normal, side, contacts),
    ensures
        exists|k0: Side, k1: Side|
            #![trigger call_ensures(side, (p0, ref_v0, ref_normal), k0), call_ensures(side, (p1, ref_v0, ref_normal), k1)]
            {
                let keep0 = k0 is Below || k0 is On;
                let keep1 = k1 is Below || k1 is On;
                &&& call_ensures(side, (p0, ref_v0, ref_normal), k0)
                &&& call_ensures(side, (p1, ref_v0, ref_normal), k1)
                &&& contacts.len() == (if keep0 { 1int } else { 0int }) + (if keep1 { 1int } else { 0int })
                &&& keep0 ==> contacts[0] == p0
                &&& keep1 ==> contacts[contacts.len() - 1] == p1
            },
{
    let (k0, k1) = choose|k0: Side, k1: Side|
        {
            &&& call_ensures(side, (p0, ref_v0, ref_normal), k0)
            &&& call_ensures(side, (p1, ref_v0, ref_normal), k1)
            &&& contacts == kept_contacts(p0, p1, k0, k1)
        };
    let keep0 = k0 is Below || k0 is On;
    let keep1 = k1 is Below || k1 is On;
    assert(contacts.len() == (if keep0 { 1int } else { 0int }) + (if keep1 { 1int } else { 0int }));
    assert(keep0 ==> contacts[0] == p0);
    assert(keep1 ==> contacts[contacts.len() - 1] == p1);
}

/// `contacts` is what the manifold makes of the segment `seg` that survived
/// the first clip: it is clipped again against the far end of the reference
/// face, then filtered.
pub open spec fn is_second_clip_outcome<
    P,
    FS: Fn(P, P, P) -> Side,
    FC: Fn(P, P, P, P) -> P,
    FN: Fn(P) -> P,
>(
    seg: Option<(P, P)>,
    ref_v0: P,
    ref_v1: P,
    ref_normal: P,
    tangent: P,
    side: FS,
    crossing: FC,
    negate: FN,
    contacts: Seq<P>,
) -> bool {
    match seg {
        None => contacts == Seq::<P>::empty(),
        Some((s0, s1)) => exists|back: P, seg2: Option<(P, P)>|
            #![trigger is_clip_outcome(s0, s1, ref_v1, back, side, crossing, seg2)]
            {
                &&& call_ensures(negate, (tangent,), back)
                &&& is_clip_outcome(s0, s1, ref_v1, back, side, crossing, seg2)
                &&& is_kept_outcome(seg2, ref_v0, ref_normal, side, contacts)
            },
    }
}

/// `contacts` is an outcome of building the contact manifold of the incident
/// edge `inc_v0`-`inc_v1` against the reference edge `ref_v0`-`ref_v1`.
pub open spec fn is_manifold_outcome<
    P,
    FS: Fn(P, P, P) -> Side,
    FC: Fn(P, P, P, P) -> P,
    FE: Fn(P, P) -> Option<P>,
    FN: Fn(P) -> P,
>(
    ref_v0: P,
    ref_v1: P,
    ref_normal: P,
    inc_v0: P,
    inc_v1: P,
    side: FS,
    crossing: FC,
    unit_edge: FE,
    negate: FN,
    contacts: Seq<P>,
) -> bool {
    exists|t: Option<P>|
        #![trigger call_ensures(unit_edge, (ref_v0, ref_v1), t)]
        {
            &&& call_ensures(unit_edge, (ref_v0, ref_v1), t)
            &&& match t {
                None => contacts == Seq::<P>::empty(),
                Some(tangent) => exists|seg1: Option<(P, P)>|
                    #![trigger is_clip_outcome(inc_v0, inc_v1, ref_v0, tangent, side, crossing, seg1)]
                    {
                        &&& is_clip_outcome(inc_v0, inc_v1, ref_v0, tangent, side, crossing, seg1)
                        &&& is_second_clip_outcome(
                            seg1,
                            ref_v0,
                            ref_v1,
                            ref_normal,
                            tangent,
                            side,
                            crossing,
                            negate,
                            contacts,
                        )
                    },
            }
        }
}

/// The contact points of an incident edge against a reference edge: the
/// incident edge clipped to the slab between the reference edge's ends,
/// keeping the ends that lie on or below the reference face. No contact
/// comes out where the reference edge is too short to give a direction.
pub fn contact_manifold<
    P: Copy,
    FS: Fn(P, P, P) -> Side,
    FC: Fn(P, P, P, P) -> P,
    FE: Fn(P, P) -> Option<P>,
    FN: Fn(P) -> P,
>(
    ref_v0: P,
    ref_v1: P,
    ref_normal: P,
    inc_v0: P,
    inc_v1: P,
    side: &FS,
    crossing: &FC,
    unit_edge: &FE,
    negate: &FN,
) -> (contacts: Vec<P>)
    requires
        forall|p: P, q: P, r: P| call_requires(*side, (p, q, r)),
        forall|p: P, q: P, r: P, s: P| call_requires(*crossing, (p, q, r, s)),
        forall|p: P, q: P| call_requires(*unit_edge, (p, q)),
        forall|p: P| call_requires(*negate, (p,)),
    ensures
        is_manifold_outcome(
            ref_v0,
            ref_v1,
            ref_normal,
            inc_v0,
            inc_v1,
            *side,
            *crossing,
            *unit_edge,
            *negate,
            contacts@,
        ),
        contacts@.len() <= 2,
        forall|i: int|
            #![trigger contacts@[i]]
            0 <= i < contacts@.len() ==> exists|s: Side|
                #![trigger call_ensures(*side, (contacts@[i], ref_v0, ref_normal), s)]
                call_ensures(*side, (contacts@[i], ref_v0, ref_normal), s) && s.at_or_below(),
{
    let mut contacts: Vec<P> = Vec::new();
    let tangent = match unit_edge(ref_v0, ref_v1) {
        None => {
            return contacts;
        },
        Some(t) => t,
    };
    let seg = match clip_segment(inc_v0, inc_v1, ref_v0, tangent, side, crossing) {
        None => {
            assert(is_second_clip_outcome(
                None,
                ref_v0,
                ref_v1,
                ref_normal,
                tangent,
                *side,
                *crossing,
                *negate,
                contacts@,
            ));
            return contacts;
        },
        Some(s) => s,
    };
    let back = negate(tangent);
    let seg2 = match clip_segment(seg.0, seg.1, ref_v1, back, side, crossing) {
        None => {
            assert(is_kept_outcome(None, ref_v0, ref_normal, *side, contacts@));
            return contacts;
        },
        Some(s) => s,
    };
    let k0 = side(seg2.0, ref_v0, ref_normal);
    let k1 = side(seg2.1, ref_v0, ref_normal);
    if k0.is_at_or_below() {
        contacts.push(seg2.0);
    }
    if k1.is_at_or_below() {
        contacts.push(seg2.1);
    }
    assert(contacts@ == kept_contacts(seg2.0, seg2.1, k0, k1));
    contacts
}

/// `i` is the axis that the box-box test settles on: its overlap is a
/// number below `bound`, no axis overlaps by less, and every earlier axis
/// whose overlap is a number overlaps by more.
pub open spec fn is_least_overlap(overlaps: Seq<Option<Option<u32>>>, bound: u32, i: int) -> bool {
    &&& 0 <= i < overlaps.len()
    &&& overlaps[i] matches Some(Some(k)) && k < bound
    &&& forall|j: int|
        0 <= j < overlaps.len() ==> (#[trigger] overlaps[j] matches Some(Some(kj)) ==> overlaps[i]->0->0 <= kj)
    &&& forall|j: int|
        0 <= j < i ==> (#[trigger] overlaps[j] matches Some(Some(kj)) ==> overlaps[i]->0->0 < kj)
}

/// The axis the box-box test settles on overlaps by no more than any axis,
/// the first included, and by less than every earlier axis; its overlap is
/// below the bound.
pub proof fn lemma_least_overlap_is_least(overlaps: Seq<Option<Option<u32>>>, bound: u32, i: int, j: int)
    requires
        is_least_overlap(overlaps, bound, i),
        0 <= j < overlaps.len(),
        overlaps[j] is Some,
        overlaps[j]->0 is Some,
    ensures
        0 <= i < overlaps.len(),
        overlaps[i] is Some && overlaps[i]->0 is Some,
        overlaps[i]->0->0 < bound,
        overlaps[i]->0->0 <= overlaps[j]->0->0,
        j < i ==> overlaps[i]->0->0 < overlaps[j]->0->0,
{
    assert(overlaps[j] matches Some(Some(kj)));
}

/// When no axis is chosen, no axis at all, the first included, overlaps by a
/// number below the bound.
pub proof fn lemma_none_below_covers_every_axis(overlaps: Seq<Option<Option<u32>>>, bound: u32, j: int)
    requires
        none_below(overlaps, bound),
        0 <= j < overlaps.len(),
        overlaps[j] is Some,
        overlaps[j]->0 is Some,
    ensures
        overlaps[j]->0->0 >= bound,
{
    assert(overlaps[j] matches Some(Some(kj)));
}

/// No axis overlaps by a number below `bound`.
pub open spec fn none_below(overlaps: Seq<Option<Option<u32>>>, bound: u32) -> bool {
    forall|j: int| 0 <= j < overlaps.len() ==> (#[trigger] overlaps[j] matches Some(Some(kj)) ==> kj >= bound)
}

/// The separating-axis decision of the box-box test. Each entry is one
/// candidate axis: `None` where the two boxes' projections on it do not
/// overlap, otherwise the order key of the overlap (`None` inside for an
/// overlap that is not a number). Returns `None` when some axis separates the
/// boxes; otherwise the first axis of least overlap among those below
/// `bound`, the key of the overlap that the search starts from, if any is.
pub fn least_overlap_axis(overlaps: &[Option<Option<u32>>], bound: u32) -> (axis: Option<Option<usize>>)
    ensures
        axis is None <==> exists|i: int| 0 <= i < overlaps@.len() && #[trigger] overlaps@[i] is None,
        axis matches Some(None) ==> none_below(overlaps@, bound),
        axis matches Some(Some(i)) ==> is_least_overlap(overlaps@, bound, i as int),
        axis matches Some(Some(i)) ==> {
            &&& i < overlaps@.len()
            &&& overlaps@[i as int] matches Some(Some(k)) && k < bound
            &&& forall|j: int|
                0 <= j < overlaps@.len() ==> (#[trigger] overlaps@[j] matches Some(Some(kj))
                    ==> overlaps@[i as int]->0->0 <= kj)
            &&& forall|j: int|
                0 <= j < i ==> (#[trigger] overlaps@[j] matches Some(Some(kj)) ==> overlaps@[i as int]->0->0 < kj)
        },
        axis matches Some(None) ==> forall|j: int|
            0 <= j < overlaps@.len() ==> (#[trigger] overlaps@[j] matches Some(Some(kj)) ==> kj >= bound),
{
    let mut min_overlap: u32 = bound;
    let mut best_axis: Option<usize> = None;
    let mut i: usize = 0;
    while i < overlaps.len()
        invariant
            i <= overlaps@.len(),
            forall|j: int| 0 <= j < i ==> !(#[trigger] overlaps@[j] is None),
            min_overlap <= bound,
            best_axis is None ==> min_overlap == bound,
            best_axis matches Some(b) ==> b < i && overlaps@[b as int] == Some(Some(min_overlap)),
            forall|j: int| 0 <= j < i ==> (#[trigger] overlaps@[j] matches Some(Some(kj)) ==> min_overlap <= kj),
            best_axis matches Some(b) ==> forall|j: int|
                0 <= j < b ==> (#[trigger] overlaps@[j] matches Some(Some(kj)) ==> min_overlap < kj),
            best_axis matches Some(b) ==> min_overlap < bound,
        decreases overlaps@.len() - i,
    {
        match overlaps[i] {
            None => {
                return None;
            },
            Some(Some(o)) => {
                if o < min_overlap {
                    min_overlap = o;
                    best_axis = Some(i);
                }
            },
            Some(None) => {},
        }
        i = i + 1;
    }
    Some(best_axis)
}

/// What the contact solver reads of a body to decide whether to test it
/// against another: whether it collides at all, and whether it is static.
#[derive(Clone, Copy, PartialEq, Eq, Debug)]
pub struct ContactFlags {
    pub can_collide: bool,
    pub is_static: bool,
}

/// Two bodies are tested against each other when both collide and at least
/// one of them can move.
pub open spec fn pair_is_tested(a: ContactFlags, b: ContactFlags) -> bool {
    a.can_collide && b.can_collide && !(a.is_static && b.is_static)
}

/// The pair `(i, j)` of body indices is one the solver tests.
pub open spec fn is_tested_pair(flags: Seq<ContactFlags>, p: (usize, usize)) -> bool {
    &&& p.0 < p.1
    &&& p.1 < flags.len()
    &&& pair_is_tested(flags[p.0 as int], flags[p.1 as int])
}

/// `p` comes before `q` in the solver's order: by first index, then second.
pub open spec fn pair_before(p: (usize, usize), q: (usize, usize)) -> bool {
    p.0 < q.0 || (p.0 == q.0 && p.1 < q.1)
}

/// `pairs` lists every pair that the solver tests, and no other, in the
/// solver's order.
pub open spec fn is_pair_schedule(flags: Seq<ContactFlags>, pairs: Seq<(usize, usize)>) -> bool {
    &&& forall|k: int| 0 <= k < pairs.len() ==> is_tested_pair(flags, #[trigger] pairs[k])
    &&& forall|k: int, l: int|
        0 <= k < l < pairs.len() ==> pair_before(#[trigger] pairs[k], #[trigger] pairs[l])
    &&& forall|i: usize, j: usize| is_tested_pair(flags, (i, j)) ==> #[trigger] pairs.contains((i, j))
}

/// Two sequences of pairs, each in strictly increasing solver order, that
/// hold the same pairs are equal.
proof fn lemma_ordered_pairs_equal(a: Seq<(usize, usize)>, b: Seq<(usize, usize)>)
    requires
        forall|k: int, l: int| 0 <= k < l < a.len() ==> pair_before(#[trigger] a[k], #[trigger] a[l]),
        forall|k: int, l: int| 0 <= k < l < b.len() ==> pair_before(#[trigger] b[k], #[trigger] b[l]),
        forall|x: (usize, usize)|
            #![trigger a.contains(x)]
            #![trigger b.contains(x)]
            a.contains(x) <==> b.contains(x),
    ensures
        a == b,
    decreases a.len(),
{
    if a.len() == 0 {
        if b.len() > 0 {
            assert(b.contains(b[0]));
        }
        assert(a =~= b);
    } else if b.len() == 0 {
        assert(a.contains(a[0]));
    } else {
        assert(a.contains(a[0]));
        assert(b.contains(b[0]));
        let k = choose|k: int| 0 <= k < b.len() && b[k] == a[0];
        let m = choose|m: int| 0 <= m < a.len() && a[m] == b[0];
        if k > 0 && m > 0 {
            assert(pair_before(b[0], b[k]));
            assert(pair_before(a[0], a[m]));
            assert(false);
        } else if k > 0 {
            assert(pair_before(b[0], b[k]));
        } else if m > 0 {
            assert(pair_before(a[0], a[m]));
        }
        assert(a[0] == b[0]);
        let a1 = a.drop_first();
        let b1 = b.drop_first();
        assert forall|x: (usize, usize)| #[trigger] a1.contains(x) implies b1.contains(x) by {
            let i = choose|i: int| 0 <= i < a1.len() && a1[i] == x;
            assert(a[i + 1] == x);
            assert(pair_before(a[0], a[i + 1]));
            assert(a.contains(x));
            let j = choose|j: int| 0 <= j < b.len() && b[j] == x;
            assert(j != 0);
            assert(b1[j - 1] == x);
        }
        assert forall|x: (usize, usize)| #[trigger] b1.contains(x) implies a1.contains(x) by {
            let i = choose|i: int| 0 <= i < b1.len() && b1[i] == x;
            assert(b[i + 1] == x);
            assert(pair_before(b[0], b[i + 1]));
            assert(b.contains(x));
            let j = choose|j: int| 0 <= j < a.len() && a[j] == x;
            assert(j != 0);
            assert(a1[j - 1] == x);
        }
        assert forall|k: int, l: int| 0 <= k < l < a1.len() implies pair_before(#[trigger] a1[k], #[trigger] a1[l]) by {
            assert(pair_before(a[k + 1], a[l + 1]));
        }
        assert forall|k: int, l: int| 0 <= k < l < b1.len() implies pair_before(#[trigger] b1[k], #[trigger] b1[l]) by {
            assert(pair_before(b[k + 1], b[l + 1]));
        }
        lemma_ordered_pairs_equal(a1, b1);
        assert(a =~= seq![a[0]] + a1);
        assert(b =~= seq![b[0]] + b1);
    }
}

/// The solver's schedule is determined by the bodies' flags: two lists that
/// both meet it are the same list.
pub proof fn lemma_pair_schedule_unique(
    flags: Seq<ContactFlags>,
    a: Seq<(usize, usize)>,
    b: Seq<(usize, usize)>,
)
    requires
        is_pair_schedule(flags, a),
        is_pair_schedule(flags, b),
    ensures
        a == b,
{
    assert forall|x: (usize, usize)|
        #![trigger a.contains(x)]
        #![trigger b.contains(x)]
        a.contains(x) <==> b.contains(x) by {
        if a.contains(x) {
            let k = choose|k: int| 0 <= k < a.len() && a[k] == x;
            assert(is_tested_pair(flags, a[k]));
            assert(is_tested_pair(flags, (x.0, x.1)));
        }
        if b.contains(x) {
            let k = choose|k: int| 0 <= k < b.len() && b[k] == x;
            assert(is_tested_pair(flags, b[k]));
            assert(is_tested_pair(flags, (x.0, x.1)));
        }
    }
    lemma_ordered_pairs_equal(a, b);
}

/// The solver tests each pair of bodies at most once per pass.
pub proof fn lemma_pair_schedule_no_repeats(flags: Seq<ContactFlags>, pairs: Seq<(usize, usize)>, k: int, l: int)
    requires
        is_pair_schedule(flags, pairs),
        0 <= k < pairs.len(),
        0 <= l < pairs.len(),
        k != l,
    ensures
        pairs[k] != pairs[l],
{
    if k < l {
        assert(pair_before(pairs[k], pairs[l]));
    } else {
        assert(pair_before(pairs[l], pairs[k]));
    }
}

/// Whether a pair of bodies is tested depends on those two bodies alone: the
/// pair `i < j` is listed exactly when both collide and not both are static,
/// whatever the other bodies are.
pub proof fn lemma_pair_listed_iff_both_tested(
    flags: Seq<ContactFlags>,
    pairs: Seq<(usize, usize)>,
    i: usize,
    j: usize,
)
    requires
        is_pair_schedule(flags, pairs),
        i < j < flags.len(),
    ensures
        pairs.contains((i, j)) <==> {
            &&& flags[i as int].can_collide
            &&& flags[j as int].can_collide
            &&& !(flags[i as int].is_static && flags[j as int].is_static)
        },
{
    if pairs.contains((i, j)) {
        let k = choose|k: int| 0 <= k < pairs.len() && pairs[k] == (i, j);
        assert(is_tested_pair(flags, pairs[k]));
    }
    if flags[i as int].can_collide && flags[j as int].can_collide
        && !(flags[i as int].is_static && flags[j as int].is_static) {
        assert(is_tested_pair(flags, (i, j)));
    }
}

/// A body that does not collide, or two static bodies, are never tested.
pub proof fn lemma_pair_schedule_skips(flags: Seq<ContactFlags>, pairs: Seq<(usize, usize)>, k: int)
    requires
        is_pair_schedule(flags, pairs),
        0 <= k < pairs.len(),
    ensures
        flags[pairs[k].0 as int].can_collide,
        flags[pairs[k].1 as int].can_collide,
        !(flags[pairs[k].0 as int].is_static && flags[pairs[k].1 as int].is_static),
{
    assert(is_tested_pair(flags, pairs[k]));
}

/// Whether the solver tests the bodies with these flags against each other.
pub fn should_test_pair(a: &ContactFlags, b: &ContactFlags) -> (tested: bool)
    ensures
        tested == pair_is_tested(*a, *b),
{
    if !a.can_collide || !b.can_collide {
        return false;
    }
    if a.is_static && b.is_static {
        return false;
    }
    true
}

/// The pairs of bodies that one pass of the contact solver tests, in the
/// order it tests them: every pair `i < j` of bodies that both collide and
/// are not both static, each once, ordered by `i`, then `j`.
pub fn collision_pairs(flags: &[ContactFlags]) -> (pairs: Vec<(usize, usize)>)
    ensures
        is_pair_schedule(flags@, pairs@),
        forall|i: usize, j: usize|
            i < j < flags@.len() ==> (#[trigger] pairs@.contains((i, j)) <==> {
                &&& flags@[i as int].can_collide
                &&& flags@[j as int].can_collide
                &&& !(flags@[i as int].is_static && flags@[j as int].is_static)
            }),
{
    let n = flags.len();
    let mut pairs: Vec<(usize, usize)> = Vec::new();
    let mut i: usize = 0;
    while i < n
        invariant
            n == flags@.len(),
            i <= n,
            forall|k: int| 0 <= k < pairs@.len() ==> is_tested_pair(flags@, #[trigger] pairs@[k]),
            forall|k: int, l: int|
                0 <= k < l < pairs@.len() ==> pair_before(#[trigger] pairs@[k], #[trigger] pairs@[l]),
            forall|k: int| 0 <= k < pairs@.len() ==> (#[trigger] pairs@[k]).0 < i,
            forall|a: usize, b: usize|
                a < i && is_tested_pair(flags@, (a, b)) ==> #[trigger] pairs@.contains((a, b)),
        decreases n - i,
    {
        let mut j: usize = i + 1;
        while j < n
            invariant
                n == flags@.len(),
                i < n,
                i + 1 <= j <= n,
                forall|k: int| 0 <= k < pairs@.len() ==> is_tested_pair(flags@, #[trigger] pairs@[k]),
                forall|k: int, l: int|
                    0 <= k < l < pairs@.len() ==> pair_before(#[trigger] pairs@[k], #[trigger] pairs@[l]),
                forall|k: int|
                    0 <= k < pairs@.len() ==> pair_before(#[trigger] pairs@[k], (i, j)),
                forall|a: usize, b: usize|
                    (a < i || (a == i && b < j)) && is_tested_pair(flags@, (a, b))
                        ==> #[trigger] pairs@.contains((a, b)),
            decreases n - j,
        {
            if should_test_pair(&flags[i], &flags[j]) {
                let ghost before = pairs@;
                pairs.push((i, j));
                assert(pairs@[before.len() as int] == (i, j));
                assert forall|a: usize, b: usize|
                    (a < i || (a == i && b < j + 1)) && is_tested_pair(flags@, (a, b))
                        implies #[trigger] pairs@.contains((a, b)) by {
                    if a == i && b == j {
                        assert(pairs@[before.len() as int] == (a, b));
                    } else {
                        assert(before.contains((a, b)));
                        let k = choose|k: int| 0 <= k < before.len() && before[k] == (a, b);
                        assert(pairs@[k] == (a, b));
                    }
                }
            }
            j = j + 1;
        }
        i = i + 1;
    }
    proof {
        assert forall|a: usize, b: usize|
            a < b < flags@.len() implies (#[trigger] pairs@.contains((a, b)) <==> {
                &&& flags@[a as int].can_collide
                &&& flags@[b as int].can_collide
                &&& !(flags@[a as int].is_static && flags@[b as int].is_static)
            }) by {
            lemma_pair_listed_iff_both_tested(flags@, pairs@, a, b);
        }
    }
    pairs
}

} // verus!
