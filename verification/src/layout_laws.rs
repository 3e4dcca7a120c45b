use vstd::prelude::*;
use crate::data_tree::{Tree, TreeLayoutDirection};
use crate::lookup::Identified;
use crate::seqs::{
    highest, highest_bounds, joined_len, joined_pick, joined_place, total, total_all, total_covers,
    total_grows,
};
use crate::tree_layout::Measured;

verus! {

/// A layout has one box for each visible node.
pub proof fn one_box_per_visible_node<T: Measured>(
    t: Tree<T>,
    root: Tree<T>,
    level: nat,
    at: int,
    spacing: int,
    gap: int,
)
    ensures
        t.boxes(root, level, at, spacing, gap).len() == t.visible().len(),
    decreases t,
{
    t.visible_unfold();
    t.boxes_unfold(root, level, at, spacing, gap);
    let parts = t.child_boxes(root, level, at, spacing, gap);
    let seen = t.child_visible();
    if t.is_open() {
        joined_len(parts);
        joined_len(seen);
        assert(Seq::new(parts.len(), |i: int| parts[i].len() as int) =~= Seq::new(
            seen.len(),
            |i: int| seen[i].len() as int,
        )) by {
            assert forall|i: int| 0 <= i < parts.len() implies parts[i].len() == seen[i].len() by {
                one_box_per_visible_node(
                    t.children[i],
                    root,
                    level + 1,
                    t.children_at(at, gap) + total(t.child_rooms(gap).take(i)),
                    spacing,
                    gap,
                );
            }
        }
    } else if !t.collapsed {
        assert(seen.len() == 0);
    }
}

/// The layout of a tree has as many boxes as the tree has visible nodes:
/// what is below a collapsed node has no box.
pub proof fn layout_counts_visible_nodes<T: Measured>(
    t: Tree<T>,
    spacing: int,
    gap: int,
    direction: TreeLayoutDirection,
)
    ensures
        t.arranged(spacing, gap, direction).len() == t.visible().len(),
{
    one_box_per_visible_node(t, t, 0, 0, spacing, gap);
}

/// Where the band of child `i` begins and ends: within the band of the
/// tree, and after the bands of the children before it.
pub proof fn child_band_place<T: Measured>(t: Tree<T>, at: int, gap: int, i: int)
    requires
        t.measured(),
        t.is_open(),
        0 <= gap,
        0 <= i < t.children.len(),
    ensures
        t.children[i].measured(),
        at <= t.children_at(at, gap) + total(t.child_rooms(gap).take(i)),
        t.children_at(at, gap) + total(t.child_rooms(gap).take(i)) + t.children[i].band(gap)
            <= at + t.band(gap),
        forall|j: int|
            i < j < t.children.len() ==> t.children_at(at, gap) + total(
                t.child_rooms(gap).take(i),
            ) + t.children[i].band(gap) + gap <= t.children_at(at, gap) + total(
                #[trigger] t.child_rooms(gap).take(j),
            ),
{
    let rooms = t.child_rooms(gap);
    t.band_facts(gap);
    t.children_unfold(gap);
    t.children_measured();
    total_covers(rooms, i);
    total_grows(rooms, 0, i);
    total_all(rooms);
    assert forall|j: int| i < j < t.children.len() implies total(rooms.take(i)) + rooms[i] <= total(
        #[trigger] rooms.take(j),
    ) by {
        crate::seqs::total_step(rooms, i);
        total_grows(rooms, i + 1, j);
    }
}

/// Every box of a subtree lies within the band of the subtree.
pub proof fn boxes_within_band<T: Measured>(
    t: Tree<T>,
    root: Tree<T>,
    level: nat,
    at: int,
    spacing: int,
    gap: int,
    k: int,
)
    requires
        t.measured(),
        0 <= gap,
        0 <= k < t.boxes(root, level, at, spacing, gap).len(),
    ensures
        0 <= t.boxes(root, level, at, spacing, gap)[k].extent.cross,
        at <= t.boxes(root, level, at, spacing, gap)[k].cross,
        t.boxes(root, level, at, spacing, gap)[k].cross + t.boxes(
            root,
            level,
            at,
            spacing,
            gap,
        )[k].extent.cross <= at + t.band(gap),
    decreases t,
{
    t.band_facts(gap);
    if k > 0 {
        let parts = t.child_boxes(root, level, at, spacing, gap);
        t.boxes_unfold(root, level, at, spacing, gap);
        let (i, j) = joined_pick(parts, k - 1);
        child_band_place(t, at, gap, i);
        boxes_within_band(
            t.children[i],
            root,
            level + 1,
            t.children_at(at, gap) + total(t.child_rooms(gap).take(i)),
            spacing,
            gap,
            j,
        );
    }
}

/// The subtrees of two siblings do not overlap, and are at least the
/// spacing between siblings apart: every box of the subtree of child `i`
/// ends at least `gap` before any box of the subtree of a later child `j`
/// begins, across the axis of growth.
pub proof fn sibling_subtrees_apart<T: Measured>(
    t: Tree<T>,
    root: Tree<T>,
    level: nat,
    at: int,
    spacing: int,
    gap: int,
    i: int,
    j: int,
    x: int,
    y: int,
)
    requires
        t.measured(),
        t.is_open(),
        0 <= gap,
        0 <= i < j < t.children.len(),
        0 <= x < t.child_boxes(root, level, at, spacing, gap)[i].len(),
        0 <= y < t.child_boxes(root, level, at, spacing, gap)[j].len(),
    ensures
        t.child_boxes(root, level, at, spacing, gap)[i][x].cross + t.child_boxes(
            root,
            level,
            at,
            spacing,
            gap,
        )[i][x].extent.cross + gap <= t.child_boxes(root, level, at, spacing, gap)[j][y].cross,
{
    t.boxes_unfold(root, level, at, spacing, gap);
    child_band_place(t, at, gap, i);
    child_band_place(t, at, gap, j);
    let rooms = t.child_rooms(gap);
    assert(t.children_at(at, gap) + total(rooms.take(i)) + t.children[i].band(gap) + gap
        <= t.children_at(at, gap) + total(rooms.take(j)));
    boxes_within_band(
        t.children[i],
        root,
        level + 1,
        t.children_at(at, gap) + total(rooms.take(i)),
        spacing,
        gap,
        x,
    );
    boxes_within_band(
        t.children[j],
        root,
        level + 1,
        t.children_at(at, gap) + total(rooms.take(j)),
        spacing,
        gap,
        y,
    );
}

/// Every box of a part of a tree lies on one of the tree's levels.
pub proof fn boxes_within_levels<T: Measured>(
    t: Tree<T>,
    root: Tree<T>,
    level: nat,
    at: int,
    spacing: int,
    gap: int,
    k: int,
)
    requires
        t.measured(),
        root.measured(),
        t.sits_in(root, level),
        0 <= spacing,
        0 <= k < t.boxes(root, level, at, spacing, gap).len(),
    ensures
        0 <= t.boxes(root, level, at, spacing, gap)[k].main,
        0 <= t.boxes(root, level, at, spacing, gap)[k].extent.main,
        t.boxes(root, level, at, spacing, gap)[k].main + t.boxes(
            root,
            level,
            at,
            spacing,
            gap,
        )[k].extent.main <= root.main_extent(spacing),
    decreases t,
{
    t.height_facts();
    t.band_facts(0);
    root.level_ends(level, spacing);
    assert(t.layer(0) <= root.layer(level + 0));
    if k > 0 {
        let parts = t.child_boxes(root, level, at, spacing, gap);
        t.boxes_unfold(root, level, at, spacing, gap);
        let (i, j) = joined_pick(parts, k - 1);
        t.child_sits_in(root, level, i);
        boxes_within_levels(
            t.children[i],
            root,
            level + 1,
            t.children_at(at, gap) + total(t.child_rooms(gap).take(i)),
            spacing,
            gap,
            j,
        );
    }
}

/// Every box of a layout lies within the bounds of the layout.
pub proof fn layout_within_bounds<T: Measured>(
    t: Tree<T>,
    spacing: int,
    gap: int,
    direction: TreeLayoutDirection,
    k: int,
)
    requires
        t.measured(),
        t.fits(spacing, gap),
        0 <= spacing,
        0 <= gap,
        0 <= k < t.arranged(spacing, gap, direction).len(),
    ensures
        t.bounds(spacing, gap, direction).main <= t.arranged(spacing, gap, direction)[k].main,
        t.arranged(spacing, gap, direction)[k].main + t.arranged(
            spacing,
            gap,
            direction,
        )[k].extent.main <= t.bounds(spacing, gap, direction).main + t.bounds(
            spacing,
            gap,
            direction,
        ).extent.main,
        t.bounds(spacing, gap, direction).cross <= t.arranged(spacing, gap, direction)[k].cross,
        t.arranged(spacing, gap, direction)[k].cross + t.arranged(
            spacing,
            gap,
            direction,
        )[k].extent.cross <= t.bounds(spacing, gap, direction).cross + t.bounds(
            spacing,
            gap,
            direction,
        ).extent.cross,
{
    t.height_facts();
    t.band_facts(gap);
    t.level_ends((t.height() - 1) as nat, spacing);
    boxes_within_band(t, t, 0, 0, spacing, gap, k);
    boxes_within_levels(t, t, 0, 0, spacing, gap, k);
}

/// No box of a layout has a negative side.
pub proof fn box_sides<T: Measured>(
    t: Tree<T>,
    spacing: int,
    gap: int,
    direction: TreeLayoutDirection,
    k: int,
)
    requires
        t.measured(),
        0 <= spacing,
        0 <= gap,
        0 <= k < t.arranged(spacing, gap, direction).len(),
    ensures
        0 <= t.arranged(spacing, gap, direction)[k].extent.main,
        0 <= t.arranged(spacing, gap, direction)[k].extent.cross,
{
    boxes_within_band(t, t, 0, 0, spacing, gap, k);
    boxes_within_levels(t, t, 0, 0, spacing, gap, k);
}

/// A box of each subtree begins where the band of the subtree begins,
/// and one ends where it ends: the band is no wider than what lies in it.
pub proof fn band_is_filled<T: Measured>(
    t: Tree<T>,
    root: Tree<T>,
    level: nat,
    at: int,
    spacing: int,
    gap: int,
) -> (ends: (int, int))
    requires
        t.measured(),
        0 <= gap,
    ensures
        0 <= ends.0 < t.boxes(root, level, at, spacing, gap).len(),
        0 <= ends.1 < t.boxes(root, level, at, spacing, gap).len(),
        t.boxes(root, level, at, spacing, gap)[ends.0].cross == at,
        t.boxes(root, level, at, spacing, gap)[ends.1].cross + t.boxes(
            root,
            level,
            at,
            spacing,
            gap,
        )[ends.1].extent.cross == at + t.band(gap),
    decreases t,
{
    t.band_facts(gap);
    t.children_unfold(gap);
    if !t.is_open() || t.inner_band(gap) <= t.cross_of() {
        (0, 0)
    } else {
        let parts = t.child_boxes(root, level, at, spacing, gap);
        let rooms = t.child_rooms(gap);
        let n = t.children.len() as int;
        t.boxes_unfold(root, level, at, spacing, gap);
        t.children_measured();
        assert(rooms.take(0) =~= Seq::<int>::empty());
        let first = band_is_filled(
            t.children[0],
            root,
            level + 1,
            t.children_at(at, gap) + total(rooms.take(0)),
            spacing,
            gap,
        );
        let low = joined_place(parts, 0, first.0);
        crate::seqs::total_step(rooms, n - 1);
        total_all(rooms);
        let last = band_is_filled(
            t.children[n - 1],
            root,
            level + 1,
            t.children_at(at, gap) + total(rooms.take(n - 1)),
            spacing,
            gap,
        );
        let high = joined_place(parts, n - 1, last.1);
        (low + 1, high + 1)
    }
}

/// On each visible level of a subtree there is a box as thick as the
/// level.
pub proof fn level_is_filled<T: Measured>(
    t: Tree<T>,
    root: Tree<T>,
    level: nat,
    at: int,
    spacing: int,
    gap: int,
    d: nat,
) -> (k: int)
    requires
        t.measured(),
        d < t.height(),
    ensures
        0 <= k < t.boxes(root, level, at, spacing, gap).len(),
        t.boxes(root, level, at, spacing, gap)[k].main == root.layer_start(level + d, spacing),
        t.boxes(root, level, at, spacing, gap)[k].extent.main == t.layer(d),
    decreases t,
{
    t.band_facts(0);
    t.height_facts();
    t.children_unfold(gap);
    if d == 0 {
        0
    } else {
        let below = (d - 1) as nat;
        let parts = t.child_boxes(root, level, at, spacing, gap);
        let layers = t.child_layers(below);
        let heights = t.child_heights();
        t.boxes_unfold(root, level, at, spacing, gap);
        t.layers_unfold(below);
        t.children_measured();
        highest_bounds(layers, 0);
        highest_bounds(heights, 0);
        let i = if highest(layers, 0) != 0 {
            choose|i: int| 0 <= i < layers.len() && layers[i] == highest(layers, 0)
        } else {
            choose|i: int| 0 <= i < heights.len() && heights[i] == highest(heights, 0)
        };
        t.children[i].layer_facts(below);
        assert(layers[i] == t.children[i].layer(below));
        assert(heights[i] == t.children[i].height());
        let j = level_is_filled(
            t.children[i],
            root,
            level + 1,
            t.children_at(at, gap) + total(t.child_rooms(gap).take(i)),
            spacing,
            gap,
            below,
        );
        assert(level + 1 + below == level + d);
        joined_place(parts, i, j) + 1
    }
}

/// The bounds of a layout are the smallest box that holds the layout: on
/// each of the four sides a box of the layout reaches to the bounds.
pub proof fn layout_reaches_bounds<T: Measured>(
    t: Tree<T>,
    spacing: int,
    gap: int,
    direction: TreeLayoutDirection,
) -> (sides: (int, int, int, int))
    requires
        t.measured(),
        t.fits(spacing, gap),
        0 <= spacing,
        0 <= gap,
    ensures
        0 <= sides.0 < t.arranged(spacing, gap, direction).len(),
        0 <= sides.1 < t.arranged(spacing, gap, direction).len(),
        0 <= sides.2 < t.arranged(spacing, gap, direction).len(),
        0 <= sides.3 < t.arranged(spacing, gap, direction).len(),
        t.arranged(spacing, gap, direction)[sides.0].main == t.bounds(spacing, gap, direction).main,
        t.arranged(spacing, gap, direction)[sides.1].main + t.arranged(
            spacing,
            gap,
            direction,
        )[sides.1].extent.main == t.bounds(spacing, gap, direction).main + t.bounds(
            spacing,
            gap,
            direction,
        ).extent.main,
        t.arranged(spacing, gap, direction)[sides.2].cross == t.bounds(
            spacing,
            gap,
            direction,
        ).cross,
        t.arranged(spacing, gap, direction)[sides.3].cross + t.arranged(
            spacing,
            gap,
            direction,
        )[sides.3].extent.cross == t.bounds(spacing, gap, direction).cross + t.bounds(
            spacing,
            gap,
            direction,
        ).extent.cross,
{
    t.height_facts();
    t.band_facts(gap);
    t.level_ends((t.height() - 1) as nat, spacing);
    let ends = band_is_filled(t, t, 0, 0, spacing, gap);
    let deep = level_is_filled(t, t, 0, 0, spacing, gap, (t.height() - 1) as nat);
    let top = level_is_filled(t, t, 0, 0, spacing, gap, 0);
    match direction {
        TreeLayoutDirection::Right => (top, deep, ends.0, ends.1),
        TreeLayoutDirection::Left => (deep, top, ends.0, ends.1),
    }
}

/// A tree that shows one node only is laid out as one box, and that box is
/// the bounds of the layout and has the size of the node.
pub proof fn single_node_layout<T: Measured>(
    t: Tree<T>,
    spacing: int,
    gap: int,
    direction: TreeLayoutDirection,
)
    requires
        t.measured(),
        !t.is_open(),
    ensures
        t.arranged(spacing, gap, direction) == seq![t.bounds(spacing, gap, direction)],
        t.bounds(spacing, gap, direction).extent == t.data.extent_view().unwrap(),
{
    assert(t.arranged(spacing, gap, direction) =~= seq![t.bounds(spacing, gap, direction)]);
}

/// Collapsing a node and expanding it again, or the other way round, gives
/// the layout back as it was.
pub proof fn layout_after_round_trip<T: Measured + Identified>(
    t: Tree<T>,
    id: Seq<char>,
    spacing: int,
    gap: int,
    direction: TreeLayoutDirection,
)
    ensures
        t.toggled(id).toggled(id).arranged(spacing, gap, direction) == t.arranged(
            spacing,
            gap,
            direction,
        ),
        t.toggled(id).toggled(id).bounds(spacing, gap, direction) == t.bounds(
            spacing,
            gap,
            direction,
        ),
{
    t.toggled_twice(id);
}

} // verus!
