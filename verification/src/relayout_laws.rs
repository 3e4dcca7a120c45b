use vstd::prelude::*;
use crate::capability_tree::CapabilityData;
use crate::data_tree::{Tree, TreeLayoutDirection};
use crate::document::{ITEM_SPACING, LAYER_SPACING};
use crate::geometry::Coord;
use crate::seqs::total;
use crate::text_size::TextSizeError;
use crate::tree_layout::{models, BoxModel, Layout, LayoutError};
use crate::visible_part::layout_reads_the_visible;

verus! {

impl Tree<CapabilityData> {
    /// Noting sizes leaves the shape of the tree as it is.
    pub proof fn with_sizes_shape(
        self,
        sizes: Seq<Result<(Coord, Coord), TextSizeError>>,
        from: int,
    )
        ensures
            self.with_sizes(sizes, from).shape() == self.shape(),
        decreases self,
    {
        let after = self.with_sizes(sizes, from);
        self.sizing_unfold(sizes, from);
        self.pruning_unfold();
        after.pruning_unfold();
        if !self.collapsed {
            assert forall|i: int| 0 <= i < self.children.len() implies after.child_shapes()[i]
                == self.child_shapes()[i] by {
                self.children[i].with_sizes_shape(
                    sizes,
                    from + 1 + total(self.child_counts().take(i)),
                );
            }
            assert(after.child_shapes() =~= self.child_shapes());
        }
    }

    /// Placing the visible nodes leaves the shape of the tree as it is, and
    /// what the layout reads of it.
    pub proof fn located_shape(
        self,
        boxes: Seq<BoxModel>,
        from: int,
        direction: TreeLayoutDirection,
    )
        ensures
            self.located(boxes, from, direction).shape() == self.shape(),
            self.located(boxes, from, direction).seen() == self.seen(),
        decreases self,
    {
        let after = self.located(boxes, from, direction);
        self.placing_unfold(boxes, from, direction, self);
        self.pruning_unfold();
        after.pruning_unfold();
        self.seen_unfold();
        after.seen_unfold();
        if !self.collapsed {
            assert forall|i: int| 0 <= i < self.children.len() implies #[trigger] after.child_shapes()[i]
                == self.child_shapes()[i] by {
                self.children[i].located_shape(
                    boxes,
                    from + 1 + total(self.child_counts().take(i)),
                    direction,
                );
            }
            assert forall|i: int| 0 <= i < self.children.len() implies #[trigger] after.child_seen()[i]
                == self.child_seen()[i] by {
                self.children[i].located_shape(
                    boxes,
                    from + 1 + total(self.child_counts().take(i)),
                    direction,
                );
            }
            assert(after.child_shapes() =~= self.child_shapes());
            assert(after.child_seen() =~= self.child_seen());
        }
    }

    /// Styling the nodes leaves the shape of the tree as it is, and what
    /// the layout reads of it.
    pub proof fn styled_shape(self, is_root: bool)
        ensures
            self.styled(is_root).shape() == self.shape(),
            self.styled(is_root).seen() == self.seen(),
        decreases self,
    {
        let after = self.styled(is_root);
        self.placing_unfold(Seq::empty(), 0, TreeLayoutDirection::Right, self);
        self.pruning_unfold();
        after.pruning_unfold();
        self.seen_unfold();
        after.seen_unfold();
        if !self.collapsed {
            assert forall|i: int| 0 <= i < self.children.len() implies #[trigger] after.child_shapes()[i]
                == self.child_shapes()[i] by {
                self.children[i].styled_shape(false);
            }
            assert forall|i: int| 0 <= i < self.children.len() implies #[trigger] after.child_seen()[i]
                == self.child_seen()[i] by {
                self.children[i].styled_shape(false);
            }
            assert(after.child_shapes() =~= self.child_shapes());
            assert(after.child_seen() =~= self.child_seen());
        }
    }

    /// Of trees of one shape the layout reads the same once the same sizes
    /// are noted in them.
    pub proof fn sized_alike(
        self,
        other: Tree<CapabilityData>,
        sizes: Seq<Result<(Coord, Coord), TextSizeError>>,
        from: int,
    )
        requires
            self.shape() == other.shape(),
        ensures
            self.with_sizes(sizes, from).seen() == other.with_sizes(sizes, from).seen(),
        decreases self,
    {
        let mine = self.with_sizes(sizes, from);
        let theirs = other.with_sizes(sizes, from);
        self.shape_reads(other);
        self.shape_counts(other);
        self.sizing_unfold(sizes, from);
        other.sizing_unfold(sizes, from);
        mine.seen_unfold();
        theirs.seen_unfold();
        if !self.collapsed {
            assert forall|i: int| 0 <= i < self.children.len() implies #[trigger] mine.child_seen()[i]
                == theirs.child_seen()[i] by {
                self.children[i].sized_alike(
                    other.children[i],
                    sizes,
                    from + 1 + total(self.child_counts().take(i)),
                );
            }
            assert(mine.child_seen() =~= theirs.child_seen());
        }
    }

    /// Noting sizes leaves every identifier and collapse flag as it is.
    pub proof fn with_sizes_names(
        self,
        sizes: Seq<Result<(Coord, Coord), TextSizeError>>,
        from: int,
    )
        ensures
            self.with_sizes(sizes, from).names() == self.names(),
        decreases self,
    {
        let after = self.with_sizes(sizes, from);
        self.sizing_unfold(sizes, from);
        self.names_unfold();
        after.names_unfold();
        if !self.collapsed {
            assert forall|i: int| 0 <= i < self.children.len() implies #[trigger] after.child_names()[i]
                == self.child_names()[i] by {
                self.children[i].with_sizes_names(
                    sizes,
                    from + 1 + total(self.child_counts().take(i)),
                );
            }
        }
        assert(after.child_names() =~= self.child_names());
    }

    /// Placing the visible nodes leaves every identifier and collapse flag
    /// as it is.
    pub proof fn located_names(
        self,
        boxes: Seq<BoxModel>,
        from: int,
        direction: TreeLayoutDirection,
    )
        ensures
            self.located(boxes, from, direction).names() == self.names(),
        decreases self,
    {
        let after = self.located(boxes, from, direction);
        self.placing_unfold(boxes, from, direction, self);
        self.names_unfold();
        after.names_unfold();
        if !self.collapsed {
            assert forall|i: int| 0 <= i < self.children.len() implies #[trigger] after.child_names()[i]
                == self.child_names()[i] by {
                self.children[i].located_names(
                    boxes,
                    from + 1 + total(self.child_counts().take(i)),
                    direction,
                );
            }
        }
        assert(after.child_names() =~= self.child_names());
    }

    /// Styling the nodes leaves every identifier and collapse flag as it
    /// is.
    pub proof fn styled_names(self, is_root: bool)
        ensures
            self.styled(is_root).names() == self.names(),
        decreases self,
    {
        let after = self.styled(is_root);
        self.placing_unfold(Seq::empty(), 0, TreeLayoutDirection::Right, self);
        self.names_unfold();
        after.names_unfold();
        assert forall|i: int| 0 <= i < self.children.len() implies #[trigger] after.child_names()[i]
            == self.child_names()[i] by {
            self.children[i].styled_names(false);
        }
        assert(after.child_names() =~= self.child_names());
    }

    /// What the layout makes of a tree has the identifiers and the
    /// collapse flags of the tree.
    pub proof fn laid_out_names(
        self,
        direction: TreeLayoutDirection,
        after: Tree<CapabilityData>,
        r: Result<Layout, LayoutError>,
    )
        requires
            self.laid_out(direction, after, r),
        ensures
            after.names() == self.names(),
    {
        match r {
            Ok(layout) => {
                let placed = self.located(models(layout.boxes@), 0, direction);
                self.located_names(models(layout.boxes@), 0, direction);
                placed.styled_names(true);
            },
            Err(_) => {},
        }
    }

    /// What the layout makes of a tree has the shape of the tree.
    pub proof fn laid_out_shape(
        self,
        direction: TreeLayoutDirection,
        after: Tree<CapabilityData>,
        r: Result<Layout, LayoutError>,
    )
        requires
            self.laid_out(direction, after, r),
        ensures
            after.shape() == self.shape(),
    {
        match r {
            Ok(layout) => {
                let placed = self.located(models(layout.boxes@), 0, direction);
                self.located_shape(models(layout.boxes@), 0, direction);
                placed.styled_shape(true);
            },
            Err(_) => {},
        }
    }
}

/// Whether two layouts ended alike: with the same boxes and the same
/// bounds, or with the same error.
pub open spec fn same_outcome(r: Result<Layout, LayoutError>, other: Result<Layout, LayoutError>)
    -> bool {
    match (r, other) {
        (Ok(a), Ok(b)) => models(a.boxes@) == models(b.boxes@) && a.bounds@ == b.bounds@,
        (Err(a), Err(b)) => a == b,
        _ => false,
    }
}

/// The layout of a tree of capabilities is a function of the shape of what
/// is visible of it and of the sizes that its visible texts are given: two
/// trees of one shape, laid out with the same sizes on the same side, get the
/// same boxes, or fail alike, whatever else their nodes hold, positions and
/// styles of an earlier layout among it, and whatever is hidden in them.
pub proof fn layout_reads_shape_and_sizes(
    t: Tree<CapabilityData>,
    other: Tree<CapabilityData>,
    sizes: Seq<Result<(Coord, Coord), TextSizeError>>,
    direction: TreeLayoutDirection,
    after: Tree<CapabilityData>,
    r: Result<Layout, LayoutError>,
    other_after: Tree<CapabilityData>,
    other_r: Result<Layout, LayoutError>,
)
    requires
        t.shape() == other.shape(),
        t.with_sizes(sizes, 0).laid_out(direction, after, r),
        other.with_sizes(sizes, 0).laid_out(direction, other_after, other_r),
    ensures
        same_outcome(r, other_r),
{
    t.sized_alike(other, sizes, 0);
    layout_reads_the_visible(
        t.with_sizes(sizes, 0),
        other.with_sizes(sizes, 0),
        LAYER_SPACING as int,
        ITEM_SPACING as int,
        direction,
    );
}

/// The nodes that are hidden, and the sizes that they hold, do not
/// influence the layout: the tree without the nodes below its collapsed
/// nodes is laid out as the tree is.
pub proof fn hidden_capabilities_do_not_count(
    t: Tree<CapabilityData>,
    sizes: Seq<Result<(Coord, Coord), TextSizeError>>,
    direction: TreeLayoutDirection,
    after: Tree<CapabilityData>,
    r: Result<Layout, LayoutError>,
    pruned_after: Tree<CapabilityData>,
    pruned_r: Result<Layout, LayoutError>,
)
    requires
        t.with_sizes(sizes, 0).laid_out(direction, after, r),
        t.pruned().with_sizes(sizes, 0).laid_out(direction, pruned_after, pruned_r),
    ensures
        same_outcome(r, pruned_r),
{
    t.pruned_shape();
    layout_reads_shape_and_sizes(t, t.pruned(), sizes, direction, after, r, pruned_after, pruned_r);
}

/// A second layout in a row gives what the first gave: the positions and
/// styles that a layout leaves in the tree do not influence the next one.
pub proof fn second_layout_is_the_first(
    t: Tree<CapabilityData>,
    sizes: Seq<Result<(Coord, Coord), TextSizeError>>,
    direction: TreeLayoutDirection,
    after: Tree<CapabilityData>,
    r: Result<Layout, LayoutError>,
    again: Tree<CapabilityData>,
    second: Result<Layout, LayoutError>,
)
    requires
        t.with_sizes(sizes, 0).laid_out(direction, after, r),
        after.with_sizes(sizes, 0).laid_out(direction, again, second),
    ensures
        same_outcome(r, second),
{
    t.with_sizes_shape(sizes, 0);
    t.with_sizes(sizes, 0).laid_out_shape(direction, after, r);
    layout_reads_shape_and_sizes(t, after, sizes, direction, after, r, again, second);
}

/// A layout after a node has been collapsed and expanded again, or the
/// other way round, gives what the layout before gave, where the texts have
/// the sizes that they had: the layout that is made in between, whatever
/// sizes it is made with, leaves nothing that the next one reads.
pub proof fn layout_after_collapse_and_expand(
    t: Tree<CapabilityData>,
    id: Seq<char>,
    sizes: Seq<Result<(Coord, Coord), TextSizeError>>,
    between: Seq<Result<(Coord, Coord), TextSizeError>>,
    direction: TreeLayoutDirection,
    first: Tree<CapabilityData>,
    r: Result<Layout, LayoutError>,
    middle: Tree<CapabilityData>,
    r_middle: Result<Layout, LayoutError>,
    last: Tree<CapabilityData>,
    r_last: Result<Layout, LayoutError>,
)
    requires
        t.with_sizes(sizes, 0).laid_out(direction, first, r),
        first.toggled(id).with_sizes(between, 0).laid_out(direction, middle, r_middle),
        middle.toggled(id).with_sizes(sizes, 0).laid_out(direction, last, r_last),
    ensures
        middle.toggled(id).shape() == t.shape(),
        same_outcome(r, r_last),
{
    t.with_sizes_names(sizes, 0);
    t.with_sizes(sizes, 0).laid_out_names(direction, first, r);
    let folded = first.toggled(id);
    folded.with_sizes_names(between, 0);
    folded.with_sizes(between, 0).laid_out_names(direction, middle, r_middle);
    middle.names_toggled(folded, id);
    first.toggled_twice(id);
    middle.toggled(id).names_shape(t);
    layout_reads_shape_and_sizes(t, middle.toggled(id), sizes, direction, first, r, last, r_last);
}

} // verus!
