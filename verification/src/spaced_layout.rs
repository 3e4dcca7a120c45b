use vstd::prelude::*;
use crate::geometry::Coord;
use crate::seqs::{
    highest, highest_bounds, indices, lowest, lowest_bounds, total, total_all, total_at_most,
    total_grows, total_of_sums, total_step,
};

verus! {

/// What the compaction reads of an item: the position that it would like
/// its centre to have, and the room that it takes along the axis.
#[derive(Debug, PartialEq, Eq, Structural, Clone, Copy)]
pub struct SpaceableItem {
    pub desired: Coord,
    pub extent: Coord,
}

/// The largest desired position, to either side of zero, and the largest
/// sum of extents, that the compaction takes.
pub const COORD_LIMIT: Coord = 0x2000_0000_0000_0000;

/// The extents of the items.
pub open spec fn extents(items: Seq<SpaceableItem>) -> Seq<int> {
    Seq::new(items.len(), |k: int| items[k].extent as int)
}

/// Whether the items can be compacted: no extent is negative, and the
/// desired positions and the sum of the extents are within `COORD_LIMIT`.
pub open spec fn compactable(items: Seq<SpaceableItem>) -> bool {
    &&& forall|k: int|
        0 <= k < items.len() ==> 0 <= (#[trigger] items[k]).extent && -COORD_LIMIT
            <= items[k].desired <= COORD_LIMIT
    &&& total(extents(items)) <= COORD_LIMIT
}

/// The labels at the start: each item is a span of its own, named by the
/// item's index.
pub open spec fn start_labels(n: nat) -> Seq<int> {
    Seq::new(n, |k: int| k)
}

/// Whether each label names a span by the index of its first item.
pub open spec fn labels_ok(labels: Seq<int>) -> bool {
    forall|k: int|
        0 <= k < labels.len() ==> 0 <= #[trigger] labels[k] < labels.len() && labels[labels[k]]
            == labels[k]
}

/// Whether `g` names a span.
pub open spec fn is_head(labels: Seq<int>, g: int) -> bool {
    0 <= g < labels.len() && labels[g] == g
}

/// For each item its extent if it is in span `g`, and zero if it is not.
pub open spec fn member_extents(items: Seq<SpaceableItem>, labels: Seq<int>, g: int) -> Seq<int> {
    Seq::new(
        items.len(),
        |k: int|
            if labels[k] == g {
                items[k].extent as int
            } else {
                0
            },
    )
}

/// For each item its desired position if it is in span `g`, and that of
/// the first item of the span if it is not.
pub open spec fn member_desired(items: Seq<SpaceableItem>, labels: Seq<int>, g: int) -> Seq<int> {
    Seq::new(
        items.len(),
        |k: int|
            if labels[k] == g {
                items[k].desired as int
            } else {
                items[g].desired as int
            },
    )
}

/// The room that span `g` needs: the sum of its items' extents.
pub open spec fn span_extent(items: Seq<SpaceableItem>, labels: Seq<int>, g: int) -> int {
    total(member_extents(items, labels, g))
}

/// The least desired position in span `g`.
pub open spec fn span_min(items: Seq<SpaceableItem>, labels: Seq<int>, g: int) -> int {
    lowest(member_desired(items, labels, g), items[g].desired as int)
}

/// The greatest desired position in span `g`.
pub open spec fn span_max(items: Seq<SpaceableItem>, labels: Seq<int>, g: int) -> int {
    highest(member_desired(items, labels, g), items[g].desired as int)
}

/// Twice the lower end of the interval that span `g` requires: the
/// interval is centred between the least and the greatest desired position
/// and as wide as the span's items together.
pub open spec fn twice_required_min(items: Seq<SpaceableItem>, labels: Seq<int>, g: int) -> int {
    span_min(items, labels, g) + span_max(items, labels, g) - span_extent(items, labels, g)
}

/// Twice the upper end of the interval that span `g` requires.
pub open spec fn twice_required_max(items: Seq<SpaceableItem>, labels: Seq<int>, g: int) -> int {
    span_min(items, labels, g) + span_max(items, labels, g) + span_extent(items, labels, g)
}

/// Whether the required intervals of two spans overlap. Intervals that
/// only touch do overlap.
pub open spec fn spans_overlap(
    items: Seq<SpaceableItem>,
    labels: Seq<int>,
    a: int,
    b: int,
) -> bool {
    !(twice_required_max(items, labels, a) < twice_required_min(items, labels, b)
        || twice_required_max(items, labels, b) < twice_required_min(items, labels, a))
}

/// The first pair of spans that overlap, among the pairs from `(a, b)` on:
/// the pairs are taken by their first span, then by their second.
pub open spec fn pair_from(
    items: Seq<SpaceableItem>,
    labels: Seq<int>,
    a: int,
    b: int,
) -> Option<(int, int)>
    decreases labels.len() - a, labels.len() - b,
{
    if a < 0 || a >= labels.len() || b <= a {
        None
    } else if b >= labels.len() {
        pair_from(items, labels, a + 1, a + 2)
    } else if is_head(labels, a) && is_head(labels, b) && spans_overlap(items, labels, a, b) {
        Some((a, b))
    } else {
        pair_from(items, labels, a, b + 1)
    }
}

/// The first pair of spans that overlap.
pub open spec fn first_pair(items: Seq<SpaceableItem>, labels: Seq<int>) -> Option<(int, int)> {
    pair_from(items, labels, 0, 1)
}

/// The labels after span `b` has gone into span `a`.
pub open spec fn joined_labels(labels: Seq<int>, a: int, b: int) -> Seq<int> {
    Seq::new(
        labels.len(),
        |k: int|
            if labels[k] == b {
                a
            } else {
                labels[k]
            },
    )
}

/// The labels after at most `rounds` merges: as long as two spans overlap,
/// the second span of the first such pair goes into the first.
pub open spec fn merged(items: Seq<SpaceableItem>, labels: Seq<int>, rounds: nat) -> Seq<int>
    decreases rounds,
{
    if rounds == 0 {
        labels
    } else {
        match first_pair(items, labels) {
            None => labels,
            Some((a, b)) => merged(items, joined_labels(labels, a, b), (rounds - 1) as nat),
        }
    }
}

/// The spans at the end of the merging, as the label of each item.
pub open spec fn final_labels(items: Seq<SpaceableItem>) -> Seq<int> {
    merged(items, start_labels(items.len()), items.len())
}

/// Whether item `a` is laid out before item `b` in a span that holds both:
/// by desired position, and by index where these are equal.
pub open spec fn comes_before(items: Seq<SpaceableItem>, a: int, b: int) -> bool {
    items[a].desired < items[b].desired || (items[a].desired == items[b].desired && a < b)
}

/// For each item its extent if it is in the span of item `k` and comes
/// before it, and zero if it does not.
pub open spec fn earlier_extents(items: Seq<SpaceableItem>, labels: Seq<int>, k: int) -> Seq<int> {
    Seq::new(
        items.len(),
        |m: int|
            if labels[m] == labels[k] && comes_before(items, m, k) {
                items[m].extent as int
            } else {
                0
            },
    )
}

/// Twice the position of the centre of item `k`: the items of a span lie
/// side by side from the lower end of the span's required interval on, in
/// the order of `comes_before`, each in a slot of its own extent.
pub open spec fn twice_position(items: Seq<SpaceableItem>, labels: Seq<int>, k: int) -> int {
    twice_required_min(items, labels, labels[k]) + 2 * total(earlier_extents(items, labels, k))
        + items[k].extent
}

/// Twice the position that the compaction gives the centre of item `k`.
/// The centre itself may lie between two whole units: it is its double
/// that is a whole number, and the compaction hands out the double, so that
/// nothing is rounded.
pub open spec fn doubled_centre(items: Seq<SpaceableItem>, k: int) -> int {
    twice_position(items, final_labels(items), k)
}

/// Whether no two of the items overlap when `twice` holds, for each, twice
/// the position of its centre: the centres of two items are half of both
/// extents apart at least, so that the intervals about them, each as wide as
/// its item's extent, share an end at most.
pub open spec fn kept_apart(items: Seq<SpaceableItem>, twice: Seq<Coord>) -> bool {
    forall|i: int, j: int|
        #![trigger twice[i], twice[j]]
        0 <= i < items.len() && 0 <= j < items.len() && i != j ==> twice[i] + items[i].extent
            + items[j].extent <= twice[j] || twice[j] + items[i].extent + items[j].extent
            <= twice[i]
}

/// What is known of a span of well-formed labels over items that can be
/// compacted.
pub proof fn span_facts(items: Seq<SpaceableItem>, labels: Seq<int>, g: int)
    requires
        compactable(items),
        labels.len() == items.len(),
        is_head(labels, g),
    ensures
        -COORD_LIMIT <= span_min(items, labels, g) <= items[g].desired,
        items[g].desired <= span_max(items, labels, g) <= COORD_LIMIT,
        0 <= span_extent(items, labels, g) <= COORD_LIMIT,
        items[g].extent <= span_extent(items, labels, g),
        forall|k: int|
            0 <= k < items.len() && #[trigger] labels[k] == g ==> span_min(items, labels, g)
                <= items[k].desired <= span_max(items, labels, g),
{
    let wanted = member_desired(items, labels, g);
    let rooms = member_extents(items, labels, g);
    lowest_bounds(wanted, items[g].desired as int);
    highest_bounds(wanted, items[g].desired as int);
    total_at_most(rooms, extents(items));
    total_grows(rooms, 0, rooms.len() as int);
    total_all(rooms);
    crate::seqs::total_covers(rooms, g);
    assert forall|k: int| 0 <= k < items.len() && #[trigger] labels[k] == g implies span_min(
        items,
        labels,
        g,
    ) <= items[k].desired <= span_max(items, labels, g) by {
        assert(wanted[k] == items[k].desired);
    }
}

/// What the spans are after span `b` has gone into span `a`.
pub proof fn spans_after_join(items: Seq<SpaceableItem>, labels: Seq<int>, a: int, b: int)
    requires
        labels.len() == items.len(),
        labels_ok(labels),
        is_head(labels, a),
        is_head(labels, b),
        a != b,
    ensures
        labels_ok(joined_labels(labels, a, b)),
        forall|g: int|
            is_head(joined_labels(labels, a, b), g) <==> is_head(labels, g) && g != b,
        span_extent(items, joined_labels(labels, a, b), a) == span_extent(items, labels, a)
            + span_extent(items, labels, b),
        span_min(items, joined_labels(labels, a, b), a) == if span_min(items, labels, b)
            < span_min(items, labels, a) {
            span_min(items, labels, b)
        } else {
            span_min(items, labels, a)
        },
        span_max(items, joined_labels(labels, a, b), a) == if span_max(items, labels, b)
            > span_max(items, labels, a) {
            span_max(items, labels, b)
        } else {
            span_max(items, labels, a)
        },
        forall|g: int|
            is_head(labels, g) && g != a && g != b ==> span_extent(
                items,
                joined_labels(labels, a, b),
                g,
            ) == span_extent(items, labels, g) && span_min(items, joined_labels(labels, a, b), g)
                == span_min(items, labels, g) && span_max(items, joined_labels(labels, a, b), g)
                == span_max(items, labels, g),
{
    let after = joined_labels(labels, a, b);
    assert(labels_ok(after)) by {
        assert forall|k: int| 0 <= k < after.len() implies 0 <= #[trigger] after[k] < after.len()
            && after[after[k]] == after[k] by {
            assert(labels[labels[k]] == labels[k]);
        }
    }
    assert forall|g: int| is_head(after, g) <==> is_head(labels, g) && g != b by {
        if 0 <= g < labels.len() {
            assert(labels[labels[g]] == labels[g]);
        }
    }
    total_of_sums(
        member_extents(items, labels, a),
        member_extents(items, labels, b),
        member_extents(items, after, a),
    );
    let da = items[a].desired as int;
    let db = items[b].desired as int;
    let wa = member_desired(items, labels, a);
    let wb = member_desired(items, labels, b);
    let wj = member_desired(items, after, a);
    lowest_bounds(wa, da);
    lowest_bounds(wb, db);
    lowest_bounds(wj, da);
    highest_bounds(wa, da);
    highest_bounds(wb, db);
    highest_bounds(wj, da);
    assert(wj[b] == db);
    assert forall|k: int| 0 <= k < items.len() implies lowest(wa, da) <= #[trigger] wa[k]
        && lowest(wb, db) <= wb[k] && lowest(wj, da) <= wj[k] && highest(wa, da) >= wa[k]
        && highest(wb, db) >= wb[k] && highest(wj, da) >= wj[k] by {}
    let low = if lowest(wb, db) < lowest(wa, da) {
        lowest(wb, db)
    } else {
        lowest(wa, da)
    };
    assert(lowest(wj, da) <= low) by {
        if lowest(wa, da) != da {
            let k = choose|k: int| 0 <= k < wa.len() && wa[k] == lowest(wa, da);
            assert(wj[k] == wa[k]);
        }
        if lowest(wb, db) != db {
            let k = choose|k: int| 0 <= k < wb.len() && wb[k] == lowest(wb, db);
            assert(wj[k] == wb[k]);
        }
    }
    assert(lowest(wj, da) >= low) by {
        if lowest(wj, da) != da {
            let k = choose|k: int| 0 <= k < wj.len() && wj[k] == lowest(wj, da);
            assert(wj[k] == wa[k] || wj[k] == wb[k]);
        }
    }
    let high = if highest(wb, db) > highest(wa, da) {
        highest(wb, db)
    } else {
        highest(wa, da)
    };
    assert(highest(wj, da) >= high) by {
        if highest(wa, da) != da {
            let k = choose|k: int| 0 <= k < wa.len() && wa[k] == highest(wa, da);
            assert(wj[k] == wa[k]);
        }
        if highest(wb, db) != db {
            let k = choose|k: int| 0 <= k < wb.len() && wb[k] == highest(wb, db);
            assert(wj[k] == wb[k]);
        }
    }
    assert(highest(wj, da) <= high) by {
        if highest(wj, da) != da {
            let k = choose|k: int| 0 <= k < wj.len() && wj[k] == highest(wj, da);
            assert(wj[k] == wa[k] || wj[k] == wb[k]);
        }
    }
    assert forall|g: int| is_head(labels, g) && g != a && g != b implies span_extent(
        items,
        after,
        g,
    ) == span_extent(items, labels, g) && span_min(items, after, g) == span_min(items, labels, g)
        && span_max(items, after, g) == span_max(items, labels, g) by {
        assert(member_extents(items, after, g) =~= member_extents(items, labels, g));
        assert(member_desired(items, after, g) =~= member_desired(items, labels, g));
    }
}

/// What a pair that was found is, and what it means that none was.
pub proof fn pair_facts(items: Seq<SpaceableItem>, labels: Seq<int>, a: int, b: int)
    requires
        0 <= a < b,
    ensures
        match pair_from(items, labels, a, b) {
            Some((x, y)) => 0 <= x < y < labels.len() && is_head(labels, x) && is_head(labels, y)
                && spans_overlap(items, labels, x, y),
            None => forall|x: int, y: int|
                0 <= x < y < labels.len() && (x > a || (x == a && y >= b)) && is_head(labels, x)
                    && is_head(labels, y) ==> !spans_overlap(items, labels, x, y),
        },
    decreases labels.len() - a, labels.len() - b,
{
    if a >= labels.len() {
    } else if b >= labels.len() {
        pair_facts(items, labels, a + 1, a + 2);
    } else if is_head(labels, a) && is_head(labels, b) && spans_overlap(items, labels, a, b) {
    } else {
        pair_facts(items, labels, a, b + 1);
    }
}

/// The desired positions and the room of a span during the merging.
#[derive(Debug, Clone, Copy)]
pub struct CompactSpan {
    pub desired_min: Coord,
    pub desired_max: Coord,
    pub min_extent: Coord,
}

impl CompactSpan {
    /// Whether this is what span `g` holds.
    pub open spec fn describes(self, items: Seq<SpaceableItem>, labels: Seq<int>, g: int) -> bool {
        &&& self.desired_min == span_min(items, labels, g)
        &&& self.desired_max == span_max(items, labels, g)
        &&& self.min_extent == span_extent(items, labels, g)
    }

    /// Whether the numbers of the span are small enough to be added up.
    pub open spec fn in_range(self) -> bool {
        &&& -COORD_LIMIT <= self.desired_min <= self.desired_max <= COORD_LIMIT
        &&& 0 <= self.min_extent <= COORD_LIMIT
    }

    /// The span of one item.
    pub fn new(item: &SpaceableItem) -> (span: CompactSpan)
        ensures
            span.desired_min == item.desired,
            span.desired_max == item.desired,
            span.min_extent == item.extent,
    {
        CompactSpan {
            desired_min: item.desired,
            desired_max: item.desired,
            min_extent: item.extent,
        }
    }

    /// Twice the lower end of the interval that the span requires.
    pub fn twice_required_min(&self) -> (r: Coord)
        requires
            self.in_range(),
        ensures
            r == self.desired_min + self.desired_max - self.min_extent,
    {
        self.desired_min + self.desired_max - self.min_extent
    }

    /// Twice the upper end of the interval that the span requires.
    pub fn twice_required_max(&self) -> (r: Coord)
        requires
            self.in_range(),
        ensures
            r == self.desired_min + self.desired_max + self.min_extent,
    {
        self.desired_min + self.desired_max + self.min_extent
    }

    /// Whether the required intervals of the two spans overlap or touch.
    pub fn overlaps(&self, other: &CompactSpan) -> (r: bool)
        requires
            self.in_range(),
            other.in_range(),
        ensures
            r == !(self.desired_min + self.desired_max + self.min_extent < other.desired_min
                + other.desired_max - other.min_extent || other.desired_min + other.desired_max
                + other.min_extent < self.desired_min + self.desired_max - self.min_extent),
    {
        !(self.twice_required_min() > other.twice_required_max() || self.twice_required_max()
            < other.twice_required_min())
    }

    /// Takes the items of `other` into this span.
    pub fn merge(&mut self, other: CompactSpan)
        requires
            old(self).min_extent + other.min_extent <= Coord::MAX,
            old(self).min_extent + other.min_extent >= Coord::MIN,
        ensures
            final(self).desired_min == if other.desired_min < old(self).desired_min {
                other.desired_min
            } else {
                old(self).desired_min
            },
            final(self).desired_max == if other.desired_max > old(self).desired_max {
                other.desired_max
            } else {
                old(self).desired_max
            },
            final(self).min_extent == old(self).min_extent + other.min_extent,
    {
        if other.desired_min < self.desired_min {
            self.desired_min = other.desired_min;
        }
        if other.desired_max > self.desired_max {
            self.desired_max = other.desired_max;
        }
        self.min_extent = self.min_extent + other.min_extent;
    }
}

/// Whether the labels and the spans that the merging holds belong together.
pub open spec fn state_ok(
    items: Seq<SpaceableItem>,
    labels: Seq<usize>,
    spans: Seq<CompactSpan>,
) -> bool {
    &&& labels.len() == items.len()
    &&& spans.len() == items.len()
    &&& labels_ok(indices(labels))
    &&& forall|g: int|
        is_head(indices(labels), g) ==> (#[trigger] spans[g]).describes(items, indices(labels), g)
}

/// The first two spans whose required intervals overlap: the pairs are
/// taken by their first span, then by their second.
fn find_pair_to_merge(
    items: &Vec<SpaceableItem>,
    labels: &Vec<usize>,
    spans: &Vec<CompactSpan>,
) -> (pair: Option<(usize, usize)>)
    requires
        compactable(items@),
        state_ok(items@, labels@, spans@),
    ensures
        match pair {
            Some((a, b)) => first_pair(items@, indices(labels@)) == Some((a as int, b as int)),
            None => first_pair(items@, indices(labels@)).is_none(),
        },
{
    let n = labels.len();
    let ghost marks = indices(labels@);
    let mut a: usize = 0;
    while a < n
        invariant
            n == labels.len(),
            marks == indices(labels@),
            compactable(items@),
            state_ok(items@, labels@, spans@),
            a <= n,
            first_pair(items@, marks) == pair_from(items@, marks, a as int, a as int + 1),
        decreases n - a,
    {
        if labels[a] == a {
            let mut b: usize = a + 1;
            while b < n
                invariant
                    n == labels.len(),
                    marks == indices(labels@),
                    compactable(items@),
                    state_ok(items@, labels@, spans@),
                    a < b <= n,
                    is_head(marks, a as int),
                    first_pair(items@, marks) == pair_from(items@, marks, a as int, b as int),
                decreases n - b,
            {
                if labels[b] == b {
                    proof {
                        span_facts(items@, marks, a as int);
                        span_facts(items@, marks, b as int);
                        assert(spans@[a as int].describes(items@, marks, a as int));
                        assert(spans@[b as int].describes(items@, marks, b as int));
                    }
                    if spans[a].overlaps(&spans[b]) {
                        return Some((a, b));
                    }
                }
                b = b + 1;
            }
        } else {
            proof {
                skip_first(items@, marks, a as int, a as int + 1);
            }
        }
        a = a + 1;
    }
    None
}

/// No pair is found with a first index that names no span.
proof fn skip_first(items: Seq<SpaceableItem>, labels: Seq<int>, a: int, b: int)
    requires
        0 <= a < b,
        !is_head(labels, a),
    ensures
        pair_from(items, labels, a, b) == pair_from(items, labels, a + 1, a + 2),
    decreases labels.len() - b,
{
    if a < labels.len() && b < labels.len() {
        skip_first(items, labels, a, b + 1);
    }
}

/// Twice the sum of the extents of the items that lie before item `k` in
/// its span.
fn room_before(items: &Vec<SpaceableItem>, labels: &Vec<usize>, k: usize) -> (room: Coord)
    requires
        compactable(items@),
        labels.len() == items.len(),
        k < items.len(),
    ensures
        room == total(earlier_extents(items@, indices(labels@), k as int)),
        0 <= room <= COORD_LIMIT,
{
    let ghost marks = indices(labels@);
    let ghost rooms = earlier_extents(items@, marks, k as int);
    let n = items.len();
    let mut room: Coord = 0;
    let mut m: usize = 0;
    proof {
        total_at_most(rooms, extents(items@));
        total_all(rooms);
    }
    while m < n
        invariant
            n == items.len(),
            labels.len() == n,
            k < n,
            m <= n,
            marks == indices(labels@),
            rooms == earlier_extents(items@, marks, k as int),
            compactable(items@),
            room == total(rooms.take(m as int)),
            total(rooms) <= COORD_LIMIT,
        decreases n - m,
    {
        proof {
            total_step(rooms, m as int);
            total_grows(rooms, m as int + 1, n as int);
            total_grows(rooms, 0, m as int);
            total_all(rooms);
        }
        if labels[m] == labels[k] && (items[m].desired < items[k].desired || (items[m].desired
            == items[k].desired && m < k)) {
            room = room + items[m].extent;
        }
        m = m + 1;
    }
    proof {
        total_grows(rooms, 0, n as int);
    }
    room
}

/// Positions for the items such that no two of them overlap, each as
/// twice the position of the item's centre: each item stays where it would
/// like to be unless others are in its way; items in each other's way are
/// laid out side by side, in the order of their desired positions, about the
/// middle of the positions that they would like.
pub fn compact(items: &Vec<SpaceableItem>) -> (positions: Vec<Coord>)
    requires
        compactable(items@),
    ensures
        positions@.len() == items@.len(),
        forall|k: int|
            0 <= k < items@.len() ==> #[trigger] positions@[k] == doubled_centre(items@, k) && -3
                * COORD_LIMIT <= positions@[k] <= 3 * COORD_LIMIT,
        kept_apart(items@, positions@),
{
    let n = items.len();
    let mut labels: Vec<usize> = Vec::new();
    let mut spans: Vec<CompactSpan> = Vec::new();
    let mut k: usize = 0;
    while k < n
        invariant
            n == items.len(),
            k <= n,
            labels.len() == k,
            spans.len() == k,
            forall|j: int| 0 <= j < k ==> labels@[j] == j,
            forall|j: int|
                0 <= j < k ==> (#[trigger] spans@[j]).desired_min == items@[j].desired && spans@[j].desired_max
                    == items@[j].desired && spans@[j].min_extent == items@[j].extent,
        decreases n - k,
    {
        labels.push(k);
        spans.push(CompactSpan::new(&items[k]));
        k = k + 1;
    }
    proof {
        assert(indices(labels@) =~= start_labels(n as nat));
        assert forall|g: int| is_head(indices(labels@), g) implies (#[trigger] spans@[g]).describes(
            items@,
            indices(labels@),
            g,
        ) by {
            alone(items@, g);
        }
    }
    let mut rounds: usize = n;
    let mut settled: bool = false;
    while rounds > 0 && !settled
        invariant
            n == items.len(),
            compactable(items@),
            state_ok(items@, labels@, spans@),
            merged(items@, indices(labels@), rounds as nat) == final_labels(items@),
            settled ==> first_pair(items@, indices(labels@)).is_none(),
        decreases rounds + if settled { 0int } else { 1int },
    {
        match find_pair_to_merge(items, &labels, &spans) {
            None => {
                settled = true;
            },
            Some((a, b)) => {
                let ghost before = indices(labels@);
                proof {
                    pair_facts(items@, before, 0, 1);
                    spans_after_join(items@, before, a as int, b as int);
                    span_facts(items@, before, a as int);
                    span_facts(items@, before, b as int);
                    assert(spans@[a as int].describes(items@, before, a as int));
                    assert(spans@[b as int].describes(items@, before, b as int));
                    total_at_most(
                        member_extents(items@, joined_labels(before, a as int, b as int), a as int),
                        extents(items@),
                    );
                }
                let mut j: usize = 0;
                while j < n
                    invariant
                        n == items.len(),
                        labels.len() == n,
                        j <= n,
                        before.len() == n,
                        forall|i: int|
                            0 <= i < j ==> labels@[i] as int == joined_labels(
                                before,
                                a as int,
                                b as int,
                            )[i],
                        forall|i: int| j <= i < n ==> labels@[i] as int == before[i],
                    decreases n - j,
                {
                    if labels[j] == b {
                        labels[j] = a;
                    }
                    j = j + 1;
                }
                assert(indices(labels@) =~= joined_labels(before, a as int, b as int));
                let ghost held = spans@;
                let other = spans[b];
                let mut span = spans[a];
                span.merge(other);
                spans[a] = span;
                rounds = rounds - 1;
                proof {
                    let after = indices(labels@);
                    assert forall|g: int| is_head(after, g) implies (#[trigger] spans@[g]).describes(
                        items@,
                        after,
                        g,
                    ) by {
                        if g != a as int {
                            assert(is_head(before, g) && g != b as int);
                            assert(held[g].describes(items@, before, g));
                        }
                    }
                }
            },
        }
    }
    assert(indices(labels@) == final_labels(items@));
    let mut positions: Vec<Coord> = Vec::new();
    let mut k: usize = 0;
    while k < n
        invariant
            n == items.len(),
            k <= n,
            positions.len() == k,
            compactable(items@),
            state_ok(items@, labels@, spans@),
            indices(labels@) == final_labels(items@),
            forall|j: int|
                0 <= j < k ==> #[trigger] positions@[j] == doubled_centre(items@, j) && -3
                    * COORD_LIMIT <= positions@[j] <= 3 * COORD_LIMIT,
        decreases n - k,
    {
        let g = labels[k];
        let ghost marks = indices(labels@);
        proof {
            assert(marks[k as int] == g);
            assert(marks[marks[k as int]] == marks[k as int]);
            span_facts(items@, marks, g as int);
            assert(spans@[g as int].describes(items@, marks, g as int));
            slot_in_span(items@, marks, k as int);
        }
        let room = room_before(items, &labels, k);
        let twice = spans[g].twice_required_min() + 2 * room + items[k].extent;
        positions.push(twice);
        k = k + 1;
    }
    proof {
        assert forall|i: int, j: int|
            #![trigger positions@[i], positions@[j]]
            0 <= i < items@.len() && 0 <= j < items@.len() && i != j implies positions@[i]
            + items@[i].extent + items@[j].extent <= positions@[j] || positions@[j]
            + items@[i].extent + items@[j].extent <= positions@[i] by {
            crate::spacing_laws::compaction_keeps_apart(items@, i, j);
        }
    }
    positions
}

/// A span of one item wants what the item wants.
pub proof fn alone(items: Seq<SpaceableItem>, g: int)
    requires
        0 <= g < items.len(),
    ensures
        span_min(items, start_labels(items.len()), g) == items[g].desired,
        span_max(items, start_labels(items.len()), g) == items[g].desired,
        span_extent(items, start_labels(items.len()), g) == items[g].extent,
        total(earlier_extents(items, start_labels(items.len()), g)) == 0,
{
    let labels = start_labels(items.len());
    let wanted = member_desired(items, labels, g);
    lowest_bounds(wanted, items[g].desired as int);
    highest_bounds(wanted, items[g].desired as int);
    crate::seqs::total_of_one(member_extents(items, labels, g), g);
    crate::seqs::total_of_none(earlier_extents(items, labels, g));
}

/// The slot of an item lies within the interval that its span requires.
pub proof fn slot_in_span(items: Seq<SpaceableItem>, labels: Seq<int>, k: int)
    requires
        compactable(items),
        labels.len() == items.len(),
        0 <= k < items.len(),
    ensures
        0 <= total(earlier_extents(items, labels, k)),
        total(earlier_extents(items, labels, k)) + items[k].extent <= span_extent(
            items,
            labels,
            labels[k],
        ),
        twice_required_min(items, labels, labels[k]) + items[k].extent <= twice_position(
            items,
            labels,
            k,
        ),
        twice_position(items, labels, k) + items[k].extent <= twice_required_max(
            items,
            labels,
            labels[k],
        ),
{
    let earlier = earlier_extents(items, labels, k);
    let all = member_extents(items, labels, labels[k]);
    total_grows(earlier, 0, earlier.len() as int);
    total_all(earlier);
    crate::seqs::total_below(earlier, all, k, items[k].extent as int);
}

/// Whether the items can be compacted.
pub fn can_compact(items: &Vec<SpaceableItem>) -> (r: bool)
    ensures
        r == compactable(items@),
{
    let ghost rooms = extents(items@);
    let mut sum: Coord = 0;
    let mut k: usize = 0;
    proof {
        total_all(rooms);
    }
    while k < items.len()
        invariant
            k <= items.len(),
            rooms == extents(items@),
            sum == total(rooms.take(k as int)),
            0 <= sum <= COORD_LIMIT,
            forall|j: int|
                0 <= j < k ==> 0 <= (#[trigger] items@[j]).extent && -COORD_LIMIT
                    <= items@[j].desired <= COORD_LIMIT,
        decreases items.len() - k,
    {
        let item = items[k];
        if item.extent < 0 || item.desired < -COORD_LIMIT || item.desired > COORD_LIMIT {
            return false;
        }
        proof {
            total_step(rooms, k as int);
        }
        if item.extent > COORD_LIMIT - sum {
            proof {
                if compactable(items@) {
                    total_grows(rooms, k as int + 1, items.len() as int);
                    total_all(rooms);
                }
            }
            return false;
        }
        sum = sum + item.extent;
        k = k + 1;
    }
    true
}

/// Positions for the items such that no two of them overlap, each as
/// twice the position of the item's centre, as `compact` gives them, and
/// `None` where the items cannot be compacted.
pub fn try_compact(items: &Vec<SpaceableItem>) -> (positions: Option<Vec<Coord>>)
    ensures
        positions.is_some() == compactable(items@),
        match positions {
            Some(positions) => positions@.len() == items@.len() && kept_apart(items@, positions@)
                && forall|k: int|
                0 <= k < items@.len() ==> #[trigger] positions@[k] == doubled_centre(items@, k)
                    && -3 * COORD_LIMIT <= positions@[k] <= 3 * COORD_LIMIT,
            None => true,
        },
{
    if can_compact(items) {
        Some(compact(items))
    } else {
        None
    }
}

/// An item that the compaction can lay out.
pub trait Spaceable {
    /// Whether the item has a position that it would like to have.
    spec fn ready(&self) -> bool;

    /// The position that the item would like its centre to have.
    spec fn desired_loc(&self) -> Coord;

    /// The room that the item takes.
    spec fn extent(&self) -> Coord;

    /// Whether the item has been told that its centre lies at half of
    /// `twice`. An item that is drawn in whole units may keep the whole unit
    /// at or below it.
    spec fn told(&self, twice: Coord) -> bool;

    /// The position that the item would like its centre to have.
    fn get_desired_loc(&self) -> (r: Coord)
        requires
            self.ready(),
        ensures
            r == self.desired_loc(),
    ;

    /// The room that the item takes.
    fn get_extent(&self) -> (r: Coord)
        requires
            self.ready(),
        ensures
            r == self.extent(),
    ;

    /// Tells the item where its centre lies: `pos` is twice the position,
    /// which may lie between two whole units.
    fn set_position(&mut self, pos: Coord)
        requires
            old(self).ready(),
        ensures
            final(self).ready(),
            final(self).desired_loc() == old(self).desired_loc(),
            final(self).extent() == old(self).extent(),
            final(self).told(pos),
    ;
}

/// What the compaction reads of the items.
pub open spec fn wishes<T: Spaceable>(items: Seq<T>) -> Seq<SpaceableItem> {
    Seq::new(
        items.len(),
        |k: int| SpaceableItem { desired: items[k].desired_loc(), extent: items[k].extent() },
    )
}

/// Lays out the items: tells each the position that `compact` finds for
/// it, as twice the position of its centre. Says whether it did so; where
/// the items cannot be compacted, none of them is told a position.
pub fn layout<T: Spaceable>(items: &mut Vec<T>) -> (done: bool)
    requires
        forall|k: int| 0 <= k < old(items)@.len() ==> (#[trigger] old(items)@[k]).ready(),
    ensures
        done == compactable(wishes(old(items)@)),
        final(items)@.len() == old(items)@.len(),
        !done ==> final(items)@ == old(items)@,
        wishes(final(items)@) == wishes(old(items)@),
        done ==> forall|k: int|
            0 <= k < final(items)@.len() ==> -3 * COORD_LIMIT <= doubled_centre(
                wishes(old(items)@),
                k,
            ) <= 3 * COORD_LIMIT && (#[trigger] final(items)@[k]).told(
                doubled_centre(wishes(old(items)@), k) as Coord,
            ),
        done ==> kept_apart(
            wishes(old(items)@),
            Seq::new(
                old(items)@.len(),
                |k: int| doubled_centre(wishes(old(items)@), k) as Coord,
            ),
        ),
{
    let n = items.len();
    let mut plain: Vec<SpaceableItem> = Vec::new();
    let mut k: usize = 0;
    while k < n
        invariant
            n == items.len(),
            k <= n,
            items@ == old(items)@,
            plain@.len() == k,
            forall|j: int| 0 <= j < n ==> (#[trigger] items@[j]).ready(),
            forall|j: int| 0 <= j < k ==> #[trigger] plain@[j] == wishes(items@)[j],
        decreases n - k,
    {
        let item = &items[k];
        plain.push(SpaceableItem { desired: item.get_desired_loc(), extent: item.get_extent() });
        k = k + 1;
    }
    assert(plain@ =~= wishes(items@));
    let positions = match try_compact(&plain) {
        Some(positions) => positions,
        None => {
            return false;
        },
    };
    let ghost before = items@;
    let mut k: usize = 0;
    while k < n
        invariant
            n == items.len(),
            k <= n,
            before == old(items)@,
            before.len() == n,
            positions@.len() == n,
            forall|j: int|
                0 <= j < n ==> #[trigger] positions@[j] == doubled_centre(wishes(before), j) && -3
                    * COORD_LIMIT <= positions@[j] <= 3 * COORD_LIMIT,
            forall|j: int| 0 <= j < n ==> (#[trigger] items@[j]).ready(),
            forall|j: int|
                0 <= j < n ==> (#[trigger] items@[j]).desired_loc() == before[j].desired_loc()
                    && items@[j].extent() == before[j].extent(),
            forall|j: int| 0 <= j < k ==> (#[trigger] items@[j]).told(positions@[j]),
        decreases n - k,
    {
        let item: &mut T = &mut items[k];
        item.set_position(positions[k]);
        k = k + 1;
    }
    assert(wishes(items@) =~= wishes(before));
    assert(positions@ =~= Seq::new(
        before.len(),
        |k: int| doubled_centre(wishes(before), k) as Coord,
    ));
    true
}

} // verus!
