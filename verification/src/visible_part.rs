use vstd::prelude::*;
use crate::data_tree::{Tree, TreeLayoutDirection};
use crate::seqs::total;
use crate::tree_layout::{Extent, Measured};

verus! {

impl<T> Tree<T> {
    /// The children, each without its hidden nodes.
    pub open spec fn child_pruned(self) -> Seq<Tree<T>>
        decreases self, 0int,
    {
        Seq::new(
            self.children.len(),
            |i: int|
                if 0 <= i < self.children.len() {
                    self.children[i].pruned()
                } else {
                    self
                },
        )
    }

    /// The tree without its hidden nodes: a collapsed node has lost its
    /// children, and all that is below them.
    pub open spec fn pruned(self) -> Tree<T>
        decreases self, 1int,
    {
        Tree {
            data: self.data,
            collapsed: self.collapsed,
            children: if self.collapsed {
                Seq::empty()
            } else {
                self.child_pruned()
            },
        }
    }

    /// The shapes of the children.
    pub open spec fn child_shapes(self) -> Seq<Tree<()>>
        decreases self, 0int,
    {
        Seq::new(
            self.children.len(),
            |i: int|
                if 0 <= i < self.children.len() {
                    self.children[i].shape()
                } else {
                    Tree { data: (), collapsed: false, children: Seq::empty() }
                },
        )
    }

    /// The shape of what is visible of the tree: its visible nodes without
    /// their payloads, each with its collapse flag.
    pub open spec fn shape(self) -> Tree<()>
        decreases self, 1int,
    {
        Tree {
            data: (),
            collapsed: self.collapsed,
            children: if self.collapsed {
                Seq::empty()
            } else {
                self.child_shapes()
            },
        }
    }

    /// The children of the pruned tree and the shapes of the children,
    /// child by child.
    pub proof fn pruning_unfold(self)
        ensures
            self.child_pruned().len() == self.children.len(),
            self.child_shapes().len() == self.children.len(),
            forall|i: int|
                0 <= i < self.children.len() ==> #[trigger] self.child_pruned()[i]
                    == self.children[i].pruned(),
            forall|i: int|
                0 <= i < self.children.len() ==> #[trigger] self.child_shapes()[i]
                    == self.children[i].shape(),
    {
    }

    /// What two trees of one shape have in common, node by node.
    pub proof fn shape_reads<U>(self, other: Tree<U>)
        requires
            self.shape() == other.shape(),
        ensures
            self.collapsed == other.collapsed,
            self.is_open() == other.is_open(),
            !self.collapsed ==> self.children.len() == other.children.len(),
            !self.collapsed ==> forall|i: int|
                0 <= i < self.children.len() ==> (#[trigger] self.children[i]).shape()
                    == other.children[i].shape(),
    {
        self.pruning_unfold();
        other.pruning_unfold();
        if !self.collapsed {
            assert(self.child_shapes().len() == other.child_shapes().len());
            assert forall|i: int| 0 <= i < self.children.len() implies (
            #[trigger] self.children[i]).shape() == other.children[i].shape() by {
                assert(self.child_shapes()[i] == other.child_shapes()[i]);
            }
        }
    }

    /// Trees of one shape have as many visible nodes, child by child.
    pub proof fn shape_counts<U>(self, other: Tree<U>)
        requires
            self.shape() == other.shape(),
        ensures
            self.visible().len() == other.visible().len(),
            !self.collapsed ==> self.child_counts() == other.child_counts(),
        decreases self,
    {
        self.shape_reads(other);
        self.visible_count();
        other.visible_count();
        if !self.collapsed {
            assert forall|i: int| 0 <= i < self.children.len() implies self.child_counts()[i]
                == other.child_counts()[i] by {
                self.children[i].shape_counts(other.children[i]);
            }
            assert(self.child_counts() =~= other.child_counts());
        }
    }

    /// The pruned tree has the shape of the tree.
    pub proof fn pruned_shape(self)
        ensures
            self.pruned().shape() == self.shape(),
        decreases self,
    {
        self.pruning_unfold();
        self.pruned().pruning_unfold();
        if !self.collapsed {
            assert forall|i: int| 0 <= i < self.children.len() implies self.pruned().child_shapes()[i]
                == self.child_shapes()[i] by {
                self.children[i].pruned_shape();
            }
            assert(self.pruned().child_shapes() =~= self.child_shapes());
        }
    }

    /// The pruned tree shows what the tree shows, and nothing is hidden in
    /// it: it has as many nodes as are visible.
    pub proof fn pruned_shows_all(self)
        ensures
            self.pruned().visible() == self.visible(),
            self.pruned().size() == self.visible().len(),
        decreases self,
    {
        self.pruning_unfold();
        self.visible_unfold();
        self.visible_count();
        let p = self.pruned();
        p.visible_unfold();
        p.size_unfold();
        if !self.collapsed {
            assert(p.children.len() == self.children.len());
            assert forall|i: int| 0 <= i < self.children.len() implies #[trigger] p.child_visible()[i]
                == self.child_visible()[i] by {
                self.children[i].pruned_shows_all();
                assert(p.children[i] == self.children[i].pruned());
            }
            assert forall|i: int| 0 <= i < self.children.len() implies #[trigger] p.child_sizes()[i]
                == self.child_counts()[i] by {
                self.children[i].pruned_shows_all();
                assert(p.children[i] == self.children[i].pruned());
            }
            assert(p.child_visible() =~= self.child_visible());
            assert(p.child_sizes() =~= self.child_counts());
        } else {
            assert(p.child_sizes() =~= Seq::<int>::empty());
        }
    }
}

impl<T: Measured> Tree<T> {
    /// What the layout reads of each child.
    pub open spec fn child_seen(self) -> Seq<Tree<Option<Extent>>>
        decreases self, 0int,
    {
        Seq::new(
            self.children.len(),
            |i: int|
                if 0 <= i < self.children.len() {
                    self.children[i].seen()
                } else {
                    Tree { data: None, collapsed: false, children: Seq::empty() }
                },
        )
    }

    /// What the layout reads of the tree: the visible nodes, each with its
    /// collapse flag and the size of its box, and nothing of what is hidden.
    pub open spec fn seen(self) -> Tree<Option<Extent>>
        decreases self, 1int,
    {
        Tree {
            data: self.data.extent_view(),
            collapsed: self.collapsed,
            children: if self.collapsed {
                Seq::empty()
            } else {
                self.child_seen()
            },
        }
    }

    /// What the layout reads of the children, child by child.
    pub proof fn seen_unfold(self)
        ensures
            self.child_seen().len() == self.children.len(),
            forall|i: int|
                0 <= i < self.children.len() ==> #[trigger] self.child_seen()[i]
                    == self.children[i].seen(),
    {
    }

    /// What two trees have in common of which the layout reads the same,
    /// node by node.
    pub proof fn seen_reads(self, other: Tree<T>)
        requires
            self.seen() == other.seen(),
        ensures
            self.data.extent_view() == other.data.extent_view(),
            self.main_of() == other.main_of(),
            self.cross_of() == other.cross_of(),
            self.is_open() == other.is_open(),
            self.is_open() ==> self.children.len() == other.children.len(),
            self.is_open() ==> forall|i: int|
                0 <= i < self.children.len() ==> (#[trigger] self.children[i]).seen()
                    == other.children[i].seen(),
    {
        self.seen_unfold();
        other.seen_unfold();
        if !self.collapsed {
            assert(self.child_seen().len() == other.child_seen().len());
            assert forall|i: int| 0 <= i < self.children.len() implies (
            #[trigger] self.children[i]).seen() == other.children[i].seen() by {
                assert(self.child_seen()[i] == other.child_seen()[i]);
            }
        }
    }

    /// The pruned tree is read as the tree is.
    pub proof fn pruned_seen(self)
        ensures
            self.pruned().seen() == self.seen(),
        decreases self,
    {
        self.pruning_unfold();
        self.seen_unfold();
        self.pruned().seen_unfold();
        if !self.collapsed {
            assert forall|i: int| 0 <= i < self.children.len() implies self.pruned().child_seen()[i]
                == self.child_seen()[i] by {
                self.children[i].pruned_seen();
            }
            assert(self.pruned().child_seen() =~= self.child_seen());
        }
    }

    /// Trees of which the layout reads the same are both measured or both
    /// not, and have bands of one width and as many levels.
    pub proof fn seen_sizes(self, other: Tree<T>, gap: int)
        requires
            self.seen() == other.seen(),
        ensures
            self.measured() == other.measured(),
            self.band(gap) == other.band(gap),
            self.height() == other.height(),
            self.is_open() ==> self.child_rooms(gap) == other.child_rooms(gap),
            self.inner_band(gap) == other.inner_band(gap) || !self.is_open(),
        decreases self,
    {
        self.seen_reads(other);
        self.children_unfold(gap);
        other.children_unfold(gap);
        if self.is_open() {
            assert forall|i: int| 0 <= i < self.children.len() implies #[trigger] self.child_measured()[i]
                == other.child_measured()[i] by {
                self.children[i].seen_sizes(other.children[i], gap);
            }
            assert forall|i: int| 0 <= i < self.children.len() implies #[trigger] self.child_rooms(
                gap,
            )[i] == other.child_rooms(gap)[i] by {
                self.children[i].seen_sizes(other.children[i], gap);
            }
            assert forall|i: int| 0 <= i < self.children.len() implies #[trigger] self.child_heights()[i]
                == other.child_heights()[i] by {
                self.children[i].seen_sizes(other.children[i], gap);
            }
            assert(self.child_measured() =~= other.child_measured());
            assert(self.child_rooms(gap) =~= other.child_rooms(gap));
            assert(self.child_heights() =~= other.child_heights());
        }
    }

    /// Trees of which the layout reads the same have levels of one
    /// thickness.
    pub proof fn seen_layers(self, other: Tree<T>, level: nat)
        requires
            self.seen() == other.seen(),
        ensures
            self.layer(level) == other.layer(level),
        decreases self,
    {
        self.seen_reads(other);
        if level > 0 && self.is_open() {
            let below = (level - 1) as nat;
            self.layers_unfold(below);
            other.layers_unfold(below);
            assert forall|i: int| 0 <= i < self.children.len() implies self.child_layers(below)[i]
                == other.child_layers(below)[i] by {
                self.children[i].seen_layers(other.children[i], below);
            }
            assert(self.child_layers(below) =~= other.child_layers(below));
        }
    }

    /// Trees of which the layout reads the same have their levels begin
    /// at the same places.
    pub proof fn seen_starts(self, other: Tree<T>, level: nat, spacing: int)
        requires
            self.seen() == other.seen(),
        ensures
            self.layer_start(level, spacing) == other.layer_start(level, spacing),
        decreases level,
    {
        if level > 0 {
            self.seen_starts(other, (level - 1) as nat, spacing);
            self.seen_layers(other, (level - 1) as nat);
        }
    }

    /// Trees of which the layout reads the same, as parts of trees of
    /// which it reads the same, have the same boxes.
    pub proof fn seen_boxes(
        self,
        other: Tree<T>,
        root: Tree<T>,
        other_root: Tree<T>,
        level: nat,
        at: int,
        spacing: int,
        gap: int,
    )
        requires
            self.seen() == other.seen(),
            root.seen() == other_root.seen(),
        ensures
            self.boxes(root, level, at, spacing, gap) == other.boxes(
                other_root,
                level,
                at,
                spacing,
                gap,
            ),
        decreases self,
    {
        self.seen_reads(other);
        self.seen_sizes(other, gap);
        root.seen_starts(other_root, level, spacing);
        if self.is_open() {
            self.boxes_unfold(root, level, at, spacing, gap);
            other.boxes_unfold(other_root, level, at, spacing, gap);
            let mine = self.child_boxes(root, level, at, spacing, gap);
            let theirs = other.child_boxes(other_root, level, at, spacing, gap);
            assert forall|i: int| 0 <= i < self.children.len() implies mine[i] == theirs[i] by {
                self.children[i].seen_boxes(
                    other.children[i],
                    root,
                    other_root,
                    level + 1,
                    self.children_at(at, gap) + total(self.child_rooms(gap).take(i)),
                    spacing,
                    gap,
                );
            }
            assert(mine =~= theirs);
        }
    }
}

/// The layout is a function of what it reads: trees that have the same
/// visible nodes with the same collapse flags and sizes of boxes have the
/// same layout, whatever else their payloads hold and whatever is hidden in
/// them.
pub proof fn layout_reads_the_visible<T: Measured>(
    t: Tree<T>,
    other: Tree<T>,
    spacing: int,
    gap: int,
    direction: TreeLayoutDirection,
)
    requires
        t.seen() == other.seen(),
    ensures
        t.measured() == other.measured(),
        t.fits(spacing, gap) == other.fits(spacing, gap),
        t.arranged(spacing, gap, direction) == other.arranged(spacing, gap, direction),
        t.bounds(spacing, gap, direction) == other.bounds(spacing, gap, direction),
{
    t.seen_sizes(other, gap);
    t.seen_boxes(other, t, other, 0, 0, spacing, gap);
    let last = (t.height() - 1) as nat;
    t.height_facts();
    t.seen_starts(other, last, spacing);
    t.seen_layers(other, last);
}

/// Hidden nodes do not influence the layout: the tree without the nodes
/// below its collapsed nodes shows the same nodes, hides none, and has the
/// same layout.
pub proof fn hidden_nodes_do_not_count<T: Measured>(
    t: Tree<T>,
    spacing: int,
    gap: int,
    direction: TreeLayoutDirection,
)
    ensures
        t.pruned().visible() == t.visible(),
        t.pruned().size() == t.visible().len(),
        t.pruned().measured() == t.measured(),
        t.pruned().fits(spacing, gap) == t.fits(spacing, gap),
        t.pruned().arranged(spacing, gap, direction) == t.arranged(spacing, gap, direction),
        t.pruned().bounds(spacing, gap, direction) == t.bounds(spacing, gap, direction),
{
    t.pruned_shows_all();
    t.pruned_seen();
    layout_reads_the_visible(t.pruned(), t, spacing, gap, direction);
}

} // verus!
