use vstd::prelude::*;
use crate::seqs::{total, total_at_most, total_below, total_of_one, total_of_ones, total_of_sums};
use crate::spaced_layout::{
    alone, comes_before, compactable, doubled_centre, earlier_extents, final_labels, first_pair,
    is_head, joined_labels, labels_ok, merged, pair_facts, slot_in_span, span_extent, span_facts,
    span_max, span_min, spans_after_join, spans_overlap, start_labels, SpaceableItem, COORD_LIMIT,
};

verus! {

/// Whether the intervals that two items would like to take overlap or
/// touch: each is centred at the desired position and as wide as the extent.
pub open spec fn intervals_overlap(a: SpaceableItem, b: SpaceableItem) -> bool {
    !(2 * a.desired + a.extent < 2 * b.desired - b.extent || 2 * b.desired + b.extent < 2
        * a.desired - a.extent)
}

/// For each index one if it names a span, and zero if it does not.
pub open spec fn head_marks(labels: Seq<int>) -> Seq<int> {
    Seq::new(
        labels.len(),
        |g: int|
            if labels[g] == g {
                1int
            } else {
                0int
            },
    )
}

/// Whether the labels are well formed and every span needs at least the
/// room between its least and its greatest desired position.
pub open spec fn spans_wide(items: Seq<SpaceableItem>, labels: Seq<int>) -> bool {
    &&& labels.len() == items.len()
    &&& labels_ok(labels)
    &&& forall|g: int|
        is_head(labels, g) ==> span_max(items, labels, g) - span_min(items, labels, g)
            <= #[trigger] span_extent(items, labels, g)
}

/// Merging keeps every span at least as wide as its desired positions are
/// apart.
pub proof fn merged_stays_wide(items: Seq<SpaceableItem>, labels: Seq<int>, rounds: nat)
    requires
        compactable(items),
        spans_wide(items, labels),
    ensures
        spans_wide(items, merged(items, labels, rounds)),
    decreases rounds,
{
    if rounds > 0 {
        pair_facts(items, labels, 0, 1);
        match first_pair(items, labels) {
            None => {},
            Some((a, b)) => {
                let after = joined_labels(labels, a, b);
                spans_after_join(items, labels, a, b);
                span_facts(items, labels, a);
                span_facts(items, labels, b);
                assert(span_max(items, labels, a) - span_min(items, labels, a) <= span_extent(
                    items,
                    labels,
                    a,
                ));
                assert(span_max(items, labels, b) - span_min(items, labels, b) <= span_extent(
                    items,
                    labels,
                    b,
                ));
                assert forall|g: int| is_head(after, g) implies span_max(items, after, g)
                    - span_min(items, after, g) <= #[trigger] span_extent(items, after, g) by {
                    if g != a {
                        assert(is_head(labels, g) && g != b);
                        assert(span_max(items, labels, g) - span_min(items, labels, g)
                            <= span_extent(items, labels, g));
                    }
                }
                merged_stays_wide(items, after, (rounds - 1) as nat);
            },
        }
    }
}

/// Two spans are two of the spans.
proof fn two_heads(labels: Seq<int>, a: int, b: int)
    requires
        is_head(labels, a),
        is_head(labels, b),
        a != b,
    ensures
        total(head_marks(labels)) >= 2,
        total(head_marks(joined_labels(labels, a, b))) + 1 <= total(head_marks(labels)),
        labels_ok(labels) ==> total(head_marks(joined_labels(labels, a, b))) + 1 == total(
            head_marks(labels),
        ),
{
    let n = labels.len();
    let at_a = Seq::new(n, |g: int| if g == a { 1int } else { 0int });
    let at_b = Seq::new(n, |g: int| if g == b { 1int } else { 0int });
    let both = Seq::new(n, |g: int| if g == a || g == b { 1int } else { 0int });
    total_of_one(at_a, a);
    total_of_one(at_b, b);
    total_of_sums(at_a, at_b, both);
    total_at_most(both, head_marks(labels));
    let after = head_marks(joined_labels(labels, a, b));
    total_below(after, head_marks(labels), b, 1);
    if labels_ok(labels) {
        let sum = Seq::new(n, |g: int| after[g] + at_b[g]);
        assert(sum =~= head_marks(labels)) by {
            assert forall|g: int| 0 <= g < n implies sum[g] == head_marks(labels)[g] by {
                assert(labels[labels[g]] == labels[g]);
            }
        }
        total_of_sums(after, at_b, sum);
    }
}

/// After as many rounds as there are spans no two spans overlap.
pub proof fn merged_settles(items: Seq<SpaceableItem>, labels: Seq<int>, rounds: nat)
    requires
        labels.len() == items.len(),
        labels_ok(labels),
        total(head_marks(labels)) <= rounds + 1,
    ensures
        first_pair(items, merged(items, labels, rounds)).is_none(),
    decreases rounds,
{
    pair_facts(items, labels, 0, 1);
    match first_pair(items, labels) {
        None => {},
        Some((a, b)) => {
            two_heads(labels, a, b);
            if rounds > 0 {
                spans_after_join(items, labels, a, b);
                merged_settles(items, joined_labels(labels, a, b), (rounds - 1) as nat);
            }
        },
    }
}

/// What holds of the spans at the end of the merging: every span is at
/// least as wide as its desired positions are apart, and no two overlap.
pub proof fn final_spans(items: Seq<SpaceableItem>)
    requires
        compactable(items),
    ensures
        spans_wide(items, final_labels(items)),
        forall|x: int, y: int|
            is_head(final_labels(items), x) && is_head(final_labels(items), y) && x != y
                ==> !spans_overlap(items, final_labels(items), x, y),
{
    let start = start_labels(items.len());
    assert(spans_wide(items, start)) by {
        assert forall|g: int| is_head(start, g) implies span_max(items, start, g) - span_min(
            items,
            start,
            g,
        ) <= #[trigger] span_extent(items, start, g) by {
            alone(items, g);
        }
    }
    merged_stays_wide(items, start, items.len());
    total_at_most(head_marks(start), Seq::new(items.len(), |g: int| 1int));
    total_of_ones(Seq::new(items.len(), |g: int| 1int));
    merged_settles(items, start, items.len());
    pair_facts(items, final_labels(items), 0, 1);
    assert forall|x: int, y: int|
        is_head(final_labels(items), x) && is_head(final_labels(items), y) && x != y
            implies !spans_overlap(items, final_labels(items), x, y) by {
        if x < y {
        } else {
            assert(!spans_overlap(items, final_labels(items), y, x));
        }
    }
}

/// The compaction keeps the items in order and apart. Where item `a` comes
/// before item `b`, by desired position and, where these are equal, by index,
/// the slot of `a` ends where or before that of `b` begins: the centre of
/// `b` lies at least half of both extents after that of `a`, and so never
/// before it.
pub proof fn compaction_keeps_order(items: Seq<SpaceableItem>, a: int, b: int)
    requires
        compactable(items),
        0 <= a < items.len(),
        0 <= b < items.len(),
        comes_before(items, a, b),
    ensures
        doubled_centre(items, a) + items[a].extent + items[b].extent <= doubled_centre(items, b),
        doubled_centre(items, a) <= doubled_centre(items, b),
{
    let labels = final_labels(items);
    final_spans(items);
    let ga = labels[a];
    let gb = labels[b];
    assert(is_head(labels, ga)) by {
        assert(labels[labels[a]] == labels[a]);
    }
    assert(is_head(labels, gb)) by {
        assert(labels[labels[b]] == labels[b]);
    }
    slot_in_span(items, labels, a);
    slot_in_span(items, labels, b);
    if ga == gb {
        let before_a = earlier_extents(items, labels, a);
        let before_b = earlier_extents(items, labels, b);
        total_below(before_a, before_b, a, items[a].extent as int);
    } else {
        span_facts(items, labels, ga);
        span_facts(items, labels, gb);
        assert(span_max(items, labels, ga) - span_min(items, labels, ga) <= span_extent(
            items,
            labels,
            ga,
        ));
        assert(span_max(items, labels, gb) - span_min(items, labels, gb) <= span_extent(
            items,
            labels,
            gb,
        ));
        assert(!spans_overlap(items, labels, ga, gb));
        assert(span_min(items, labels, ga) <= items[a].desired <= span_max(items, labels, ga));
        assert(span_min(items, labels, gb) <= items[b].desired <= span_max(items, labels, gb));
    }
}

/// No two items overlap after the compaction: the centres of two items
/// are at least half of both extents apart, so that the intervals about
/// them, each as wide as its item's extent, share an end at most.
pub proof fn compaction_keeps_apart(items: Seq<SpaceableItem>, i: int, j: int)
    requires
        compactable(items),
        0 <= i < items.len(),
        0 <= j < items.len(),
        i != j,
    ensures
        doubled_centre(items, i) + items[i].extent + items[j].extent <= doubled_centre(items, j)
            || doubled_centre(items, j) + items[i].extent + items[j].extent <= doubled_centre(
            items,
            i,
        ),
{
    if comes_before(items, i, j) {
        compaction_keeps_order(items, i, j);
    } else {
        compaction_keeps_order(items, j, i);
    }
}

/// Every centre that the compaction gives lies within three times
/// `COORD_LIMIT` when it is doubled.
pub proof fn compaction_stays_in_range(items: Seq<SpaceableItem>, k: int)
    requires
        compactable(items),
        0 <= k < items.len(),
    ensures
        -3 * COORD_LIMIT <= doubled_centre(items, k) <= 3 * COORD_LIMIT,
{
    let labels = final_labels(items);
    final_spans(items);
    assert(is_head(labels, labels[k])) by {
        assert(labels[labels[k]] == labels[k]);
    }
    span_facts(items, labels, labels[k]);
    slot_in_span(items, labels, k);
}

/// Items that are not in each other's way stay where they would like to
/// be: where no two of the desired intervals overlap or touch, the centre of
/// each item is its desired position.
pub proof fn compaction_keeps_free_items(items: Seq<SpaceableItem>, k: int)
    requires
        compactable(items),
        forall|i: int, j: int|
            0 <= i < items.len() && 0 <= j < items.len() && i != j ==> !intervals_overlap(
                items[i],
                items[j],
            ),
        0 <= k < items.len(),
    ensures
        final_labels(items) == start_labels(items.len()),
        doubled_centre(items, k) == 2 * items[k].desired,
{
    let start = start_labels(items.len());
    pair_facts(items, start, 0, 1);
    match first_pair(items, start) {
        None => {},
        Some((x, y)) => {
            alone(items, x);
            alone(items, y);
            assert(intervals_overlap(items[x], items[y]));
        },
    }
    alone(items, k);
}

} // verus!
