use vstd::prelude::*;
use crate::data_tree::{DTNode, Tree, TreeLayoutDirection};
use crate::geometry::Coord;
use crate::seqs::{
    highest, highest_all, highest_bounds, highest_step, joined, joined_all, joined_step, total,
    total_all, total_covers, total_grows, total_step,
};

verus! {

/// The size of a node's box: `main` along the axis on which the tree grows,
/// `cross` along the axis on which siblings lie side by side.
#[derive(Debug, PartialEq, Eq, Structural, Clone, Copy)]
pub struct Extent {
    pub main: Coord,
    pub cross: Coord,
}

/// A payload whose box has been measured, or has not.
pub trait Measured {
    /// The size of the box, and `None` where it is not known.
    spec fn extent_view(&self) -> Option<Extent>;

    /// The size of the box, and `None` where it is not known.
    fn extent(&self) -> (e: Option<Extent>)
        ensures
            e == self.extent_view(),
    ;
}

/// Why a tree was not laid out.
#[derive(Debug, PartialEq, Eq, Structural, Clone, Copy)]
pub enum LayoutError {
    /// A visible node has no size, or a size with a negative side.
    SizingUnavailable,
    /// The layout is wider or deeper than `LAYOUT_LIMIT`.
    TooLarge,
}

/// The box of a node in a layout: its corner with the least coordinates,
/// and its size.
#[derive(Debug, PartialEq, Eq, Structural, Clone, Copy)]
pub struct NodeBox {
    pub main: Coord,
    pub cross: Coord,
    pub extent: Extent,
}

/// The mathematical value of a `NodeBox`.
pub struct BoxModel {
    pub main: int,
    pub cross: int,
    pub extent: Extent,
}

impl View for NodeBox {
    type V = BoxModel;

    open spec fn view(&self) -> BoxModel {
        BoxModel { main: self.main as int, cross: self.cross as int, extent: self.extent }
    }
}

/// A layout: the boxes of the visible nodes, each node before its children
/// and the children in their order, and the box that holds them all.
#[derive(Debug)]
pub struct Layout {
    pub boxes: Vec<NodeBox>,
    pub bounds: NodeBox,
}

/// The greatest width and the greatest depth of a layout.
pub const LAYOUT_LIMIT: Coord = 0x2000_0000_0000_0000;

/// Whether a size is known and has no negative side.
pub open spec fn usable(e: Option<Extent>) -> bool {
    match e {
        Some(e) => 0 <= e.main && 0 <= e.cross,
        None => false,
    }
}

/// Whether every one of `s` holds.
pub open spec fn all_hold(s: Seq<bool>) -> bool {
    forall|i: int| 0 <= i < s.len() ==> s[i]
}

/// The values of the boxes.
pub open spec fn models(boxes: Seq<NodeBox>) -> Seq<BoxModel> {
    Seq::new(boxes.len(), |i: int| boxes[i]@)
}

/// The box turned over to the other side of the root.
pub open spec fn mirrored(b: BoxModel) -> BoxModel {
    BoxModel { main: -b.main - b.extent.main, ..b }
}

/// The boxes, each turned over to the other side of the root.
pub open spec fn all_mirrored(boxes: Seq<BoxModel>) -> Seq<BoxModel> {
    Seq::new(boxes.len(), |i: int| mirrored(boxes[i]))
}

impl<T: Measured> Tree<T> {
    /// The size of the root's box along the axis of growth.
    pub open spec fn main_of(self) -> int {
        match self.data.extent_view() {
            Some(e) => e.main as int,
            None => 0,
        }
    }

    /// The size of the root's box across the axis of growth.
    pub open spec fn cross_of(self) -> int {
        match self.data.extent_view() {
            Some(e) => e.cross as int,
            None => 0,
        }
    }

    /// For each child, whether all that is visible of it has a usable size.
    pub open spec fn child_measured(self) -> Seq<bool>
        decreases self, 0int,
    {
        Seq::new(
            self.children.len(),
            |i: int|
                if 0 <= i < self.children.len() {
                    self.children[i].measured()
                } else {
                    true
                },
        )
    }

    /// Whether every visible node has a usable size.
    pub open spec fn measured(self) -> bool
        decreases self, 1int,
    {
        usable(self.data.extent_view()) && (self.is_open() ==> all_hold(self.child_measured()))
    }

    /// For each child the width of its band and, after it, the spacing
    /// between two siblings.
    pub open spec fn child_rooms(self, gap: int) -> Seq<int>
        decreases self, 0int,
    {
        Seq::new(
            self.children.len(),
            |i: int|
                if 0 <= i < self.children.len() {
                    self.children[i].band(gap) + gap
                } else {
                    0
                },
        )
    }

    /// The width that the bands of the children take together, with the
    /// spacing between them.
    pub open spec fn inner_band(self, gap: int) -> int {
        total(self.child_rooms(gap)) - gap
    }

    /// The width of the band of the tree: the interval across the axis of
    /// growth that the root and all that is visible below it take. It is as
    /// wide as the root's box, or as the bands of the visible children
    /// together where that is more.
    pub open spec fn band(self, gap: int) -> int
        decreases self, 1int,
    {
        if !self.is_open() {
            self.cross_of()
        } else {
            let inner = total(self.child_rooms(gap)) - gap;
            if inner > self.cross_of() {
                inner
            } else {
                self.cross_of()
            }
        }
    }

    /// For each child the number of its visible levels.
    pub open spec fn child_heights(self) -> Seq<int>
        decreases self, 0int,
    {
        Seq::new(
            self.children.len(),
            |i: int|
                if 0 <= i < self.children.len() {
                    self.children[i].height() as int
                } else {
                    0
                },
        )
    }

    /// The number of visible levels: one for a tree whose root shows no
    /// children.
    pub open spec fn height(self) -> nat
        decreases self, 1int,
    {
        if !self.is_open() {
            1
        } else {
            (1 + highest(self.child_heights(), 0)) as nat
        }
    }

    /// For each child the thickness of its level `level`.
    pub open spec fn child_layers(self, level: nat) -> Seq<int>
        decreases self, 0int,
    {
        Seq::new(
            self.children.len(),
            |i: int|
                if 0 <= i < self.children.len() {
                    self.children[i].layer(level)
                } else {
                    0
                },
        )
    }

    /// The thickness of level `level`, the root being level 0: the greatest
    /// size along the axis of growth among the visible nodes of that level,
    /// and zero where there is none.
    pub open spec fn layer(self, level: nat) -> int
        decreases self, 1int,
    {
        if level == 0 {
            self.main_of()
        } else if self.is_open() {
            highest(self.child_layers((level - 1) as nat), 0)
        } else {
            0
        }
    }

    /// Where level `level` begins along the axis of growth: each level
    /// begins where the one before it ends, and the spacing between two
    /// levels after that.
    pub open spec fn layer_start(self, level: nat, spacing: int) -> int
        decreases level,
    {
        if level == 0 {
            0
        } else {
            self.layer_start((level - 1) as nat, spacing) + self.layer((level - 1) as nat)
                + spacing
        }
    }

    /// How far the layout reaches along the axis of growth: to the end of
    /// the last visible level.
    pub open spec fn main_extent(self, spacing: int) -> int {
        self.layer_start((self.height() - 1) as nat, spacing) + self.layer(
            (self.height() - 1) as nat,
        )
    }

    /// Whether the layout is within `LAYOUT_LIMIT` in both directions.
    pub open spec fn fits(self, spacing: int, gap: int) -> bool {
        self.band(gap) <= LAYOUT_LIMIT && self.main_extent(spacing) <= LAYOUT_LIMIT
    }

    /// Where the bands of the children begin: they lie in the middle of
    /// the band of the tree, which begins at `at`.
    pub open spec fn children_at(self, at: int, gap: int) -> int {
        at + (self.band(gap) - self.inner_band(gap)) / 2
    }

    /// For each child the boxes of its visible nodes.
    pub open spec fn child_boxes(
        self,
        root: Tree<T>,
        level: nat,
        at: int,
        spacing: int,
        gap: int,
    ) -> Seq<Seq<BoxModel>>
        decreases self, 0int,
    {
        Seq::new(
            self.children.len(),
            |i: int|
                if 0 <= i < self.children.len() {
                    self.children[i].boxes(
                        root,
                        level + 1,
                        self.children_at(at, gap) + total(self.child_rooms(gap).take(i)),
                        spacing,
                        gap,
                    )
                } else {
                    Seq::empty()
                },
        )
    }

    /// The box of the root when the band of the tree begins at `at` and the
    /// root is on level `level` of `root`: it lies in the middle of the band,
    /// and begins where its level begins.
    pub open spec fn own_box(self, root: Tree<T>, level: nat, at: int, spacing: int, gap: int)
        -> BoxModel {
        BoxModel {
            main: root.layer_start(level, spacing),
            cross: at + (self.band(gap) - self.cross_of()) / 2,
            extent: self.data.extent_view().unwrap(),
        }
    }

    /// The boxes of the visible nodes, each node before its children and
    /// the children in their order, when the band of the tree begins at `at`
    /// and the root is on level `level` of `root`. The bands of the children
    /// lie side by side, with the spacing `gap` between them.
    pub open spec fn boxes(self, root: Tree<T>, level: nat, at: int, spacing: int, gap: int)
        -> Seq<BoxModel>
        decreases self, 1int,
    {
        if !self.is_open() {
            seq![self.own_box(root, level, at, spacing, gap)]
        } else {
            seq![self.own_box(root, level, at, spacing, gap)] + joined(
                self.child_boxes(root, level, at, spacing, gap),
            )
        }
    }

    /// The layout of the tree: the boxes of its visible nodes. A tree that
    /// grows to the right has its root's box begin at 0 along the axis of
    /// growth, one that grows to the left has it end there.
    pub open spec fn arranged(self, spacing: int, gap: int, direction: TreeLayoutDirection)
        -> Seq<BoxModel> {
        match direction {
            TreeLayoutDirection::Right => self.boxes(self, 0, 0, spacing, gap),
            TreeLayoutDirection::Left => all_mirrored(self.boxes(self, 0, 0, spacing, gap)),
        }
    }

    /// The box that holds the layout.
    pub open spec fn bounds(self, spacing: int, gap: int, direction: TreeLayoutDirection)
        -> BoxModel {
        BoxModel {
            main: match direction {
                TreeLayoutDirection::Right => 0,
                TreeLayoutDirection::Left => -self.main_extent(spacing),
            },
            cross: 0,
            extent: Extent {
                main: self.main_extent(spacing) as Coord,
                cross: self.band(gap) as Coord,
            },
        }
    }

    /// What the children of a tree contribute, child by child.
    pub proof fn children_unfold(self, gap: int)
        ensures
            self.child_measured().len() == self.children.len(),
            self.child_rooms(gap).len() == self.children.len(),
            self.child_heights().len() == self.children.len(),
            forall|i: int|
                0 <= i < self.children.len() ==> #[trigger] self.child_measured()[i]
                    == self.children[i].measured(),
            forall|i: int|
                0 <= i < self.children.len() ==> #[trigger] self.child_rooms(gap)[i]
                    == self.children[i].band(gap) + gap,
            forall|i: int|
                0 <= i < self.children.len() ==> #[trigger] self.child_heights()[i]
                    == self.children[i].height(),
    {
    }

    /// The thickness of a level of each child.
    pub proof fn layers_unfold(self, level: nat)
        ensures
            self.child_layers(level).len() == self.children.len(),
            forall|i: int|
                0 <= i < self.children.len() ==> #[trigger] self.child_layers(level)[i]
                    == self.children[i].layer(level),
    {
    }

    /// The boxes of each child.
    pub proof fn boxes_unfold(self, root: Tree<T>, level: nat, at: int, spacing: int, gap: int)
        ensures
            self.child_boxes(root, level, at, spacing, gap).len() == self.children.len(),
            forall|i: int|
                0 <= i < self.children.len() ==> #[trigger] self.child_boxes(
                    root,
                    level,
                    at,
                    spacing,
                    gap,
                )[i] == self.children[i].boxes(
                    root,
                    level + 1,
                    self.children_at(at, gap) + total(self.child_rooms(gap).take(i)),
                    spacing,
                    gap,
                ),
    {
    }

    /// The band of a measured tree is at least as wide as the root's box
    /// and as each child's band, and what the children need is not negative.
    pub proof fn band_facts(self, gap: int)
        requires
            self.measured(),
            0 <= gap,
        ensures
            0 <= self.cross_of() <= self.band(gap),
            0 <= self.main_of(),
            self.is_open() ==> self.inner_band(gap) <= self.band(gap),
            self.is_open() ==> 0 <= self.inner_band(gap),
            self.is_open() ==> forall|i: int|
                0 <= i < self.children.len() ==> 0 <= #[trigger] self.children[i].band(gap)
                    <= self.inner_band(gap),
            self.is_open() ==> forall|i: int|
                0 <= i < self.children.len() ==> gap <= #[trigger] self.child_rooms(gap)[i],
        decreases self,
    {
        self.children_unfold(gap);
        if self.is_open() {
            let rooms = self.child_rooms(gap);
            assert forall|i: int| 0 <= i < self.children.len() implies 0 <= self.children[i].band(
                gap,
            ) && gap <= #[trigger] rooms[i] by {
                assert(self.child_measured()[i]);
                self.children[i].band_facts(gap);
            }
            assert forall|i: int| 0 <= i < self.children.len() implies 0
                <= #[trigger] self.children[i].band(gap) <= self.inner_band(gap) by {
                assert(gap <= rooms[i]);
                total_covers(rooms, i);
            }
            total_covers(rooms, 0);
        }
    }

    /// A tree has a first level, and as its root begins no level of a
    /// child is missing.
    pub proof fn height_facts(self)
        ensures
            self.height() >= 1,
            self.is_open() ==> forall|i: int|
                0 <= i < self.children.len() ==> 1 <= #[trigger] self.children[i].height()
                    < self.height(),
            self.is_open() ==> exists|i: int|
                0 <= i < self.children.len() && self.children[i].height() + 1 == self.height(),
        decreases self,
    {
        self.children_unfold(0);
        if self.is_open() {
            let heights = self.child_heights();
            highest_bounds(heights, 0);
            assert forall|i: int| 0 <= i < self.children.len() implies 1
                <= #[trigger] self.children[i].height() < self.height() by {
                self.children[i].height_facts();
                assert(heights[i] == self.children[i].height());
            }
            assert(heights[0] >= 1);
            let k = choose|k: int| 0 <= k < heights.len() && heights[k] == highest(heights, 0);
            assert(self.children[k].height() + 1 == self.height());
        }
    }

    /// No level is thinner than nothing, and below the last visible level
    /// there is nothing.
    pub proof fn layer_facts(self, level: nat)
        requires
            self.measured(),
        ensures
            0 <= self.layer(level),
            level >= self.height() ==> self.layer(level) == 0,
        decreases self,
    {
        self.children_unfold(0);
        self.height_facts();
        if level > 0 && self.is_open() {
            let below = (level - 1) as nat;
            self.layers_unfold(below);
            let layers = self.child_layers(below);
            highest_bounds(layers, 0);
            if level >= self.height() {
                assert forall|i: int| 0 <= i < layers.len() implies layers[i] == 0 by {
                    assert(self.child_measured()[i]);
                    self.children[i].layer_facts(below);
                }
            }
        }
    }

    /// The levels begin one after the other.
    pub proof fn starts_grow(self, low: nat, high: nat, spacing: int)
        requires
            self.measured(),
            0 <= spacing,
            low <= high,
        ensures
            0 <= self.layer_start(low, spacing),
            self.layer_start(low, spacing) <= self.layer_start(high, spacing),
            low < high ==> self.layer_start(low, spacing) + self.layer(low) + spacing
                <= self.layer_start(high, spacing),
        decreases high,
    {
        if high > 0 {
            self.layer_facts((high - 1) as nat);
            if low < high {
                self.starts_grow(low, (high - 1) as nat, spacing);
            } else {
                self.starts_grow((low - 1) as nat, (high - 1) as nat, spacing);
            }
        }
    }
}

impl<T: Measured> Tree<T> {
    /// Whether this tree can be a part of `root` with its root on level
    /// `level`: none of its levels is below the last of `root`, or thicker
    /// than the level of `root` on which it lies.
    pub open spec fn sits_in(self, root: Tree<T>, level: nat) -> bool {
        &&& level + self.height() <= root.height()
        &&& forall|d: nat| #[trigger] self.layer(d) <= root.layer(level + d)
    }

    /// The visible children of a part of `root` are parts of `root`, one
    /// level down.
    pub proof fn child_sits_in(self, root: Tree<T>, level: nat, i: int)
        requires
            self.measured(),
            self.is_open(),
            self.sits_in(root, level),
            0 <= i < self.children.len(),
        ensures
            self.children[i].sits_in(root, level + 1),
            self.children[i].measured(),
    {
        self.children_unfold(0);
        self.height_facts();
        assert(self.child_measured()[i]);
        let child = self.children[i];
        assert forall|d: nat| #[trigger] child.layer(d) <= root.layer(level + 1 + d) by {
            self.layers_unfold(d);
            highest_bounds(self.child_layers(d), 0);
            assert(self.child_layers(d)[i] == child.layer(d));
            assert(self.layer(d + 1) == highest(self.child_layers(d), 0));
            assert(self.layer(d + 1) <= root.layer(level + (d + 1)));
            assert(level + (d + 1) == level + 1 + d);
        }
    }

    /// The visible children of a measured tree are measured.
    pub proof fn children_measured(self)
        requires
            self.measured(),
            self.is_open(),
        ensures
            forall|i: int| 0 <= i < self.children.len() ==> (#[trigger] self.children[i]).measured(),
    {
        self.children_unfold(0);
        assert forall|i: int| 0 <= i < self.children.len() implies (#[trigger] self.children[i]).measured() by {
            assert(self.child_measured()[i]);
        }
    }

    /// Every visible level ends within the extent of the layout.
    pub proof fn level_ends(self, level: nat, spacing: int)
        requires
            self.measured(),
            0 <= spacing,
            level < self.height(),
        ensures
            0 <= self.layer_start(level, spacing),
            0 <= self.layer(level),
            self.layer_start(level, spacing) + self.layer(level) <= self.main_extent(spacing),
    {
        self.starts_grow(level, (self.height() - 1) as nat, spacing);
        self.layer_facts(level);
        self.layer_facts((self.height() - 1) as nat);
    }
}

impl<T: Measured> DTNode<T> {
    /// Whether every visible node has a size, and one with no negative
    /// side.
    pub fn is_measured(&self) -> (r: bool)
        ensures
            r == self@.measured(),
        decreases self,
    {
        match self.data.extent() {
            None => {
                return false;
            },
            Some(e) => {
                if e.main < 0 || e.cross < 0 {
                    return false;
                }
            },
        }
        if self.collapsed {
            return true;
        }
        proof {
            self@.children_unfold(0);
            self.view_unfold();
        }
        let mut i: usize = 0;
        while i < self.children.len()
            invariant
                i <= self.children.len(),
                !self.collapsed,
                usable(self.data.extent_view()),
                self@.children.len() == self.children.len(),
                self@.child_measured().len() == self.children.len(),
                forall|j: int|
                    0 <= j < self.children.len() ==> #[trigger] self@.children[j]
                        == self.children[j]@,
                forall|j: int|
                    0 <= j < self.children.len() ==> #[trigger] self@.child_measured()[j]
                        == self@.children[j].measured(),
                forall|j: int| 0 <= j < i ==> self@.child_measured()[j],
            decreases self.children.len() - i,
        {
            if !self.children[i].is_measured() {
                assert(self@.children[i as int] == self.children[i as int]@);
                assert(!self@.child_measured()[i as int]);
                assert(!all_hold(self@.child_measured()));
                return false;
            }
            i = i + 1;
        }
        assert(all_hold(self@.child_measured()));
        true
    }

    /// The width of the band of the tree, and `None` where it is more than
    /// `LAYOUT_LIMIT`.
    pub fn band_of(&self, gap: Coord) -> (r: Option<Coord>)
        requires
            self@.measured(),
            0 <= gap,
        ensures
            match r {
                Some(band) => band == self@.band(gap as int) && 0 <= band <= LAYOUT_LIMIT,
                None => self@.band(gap as int) > LAYOUT_LIMIT,
            },
        decreases self,
    {
        proof {
            self@.band_facts(gap as int);
            self@.children_unfold(gap as int);
            self.view_unfold();
            if self@.is_open() {
                self@.children_measured();
            }
        }
        let cross = match self.data.extent() {
            Some(e) => e.cross,
            None => 0,
        };
        if cross > LAYOUT_LIMIT {
            return None;
        }
        let n = self.children.len();
        if self.collapsed || n == 0 {
            return Some(cross);
        }
        let ghost rooms = self@.child_rooms(gap as int);
        let mut taken: i128 = 0;
        let mut i: usize = 0;
        proof {
            total_all(rooms);
        }
        while i < n
            invariant
                n == self.children.len(),
                i <= n,
                0 <= gap,
                self@.measured(),
                self@.is_open(),
                rooms == self@.child_rooms(gap as int),
                rooms.len() == n,
                forall|j: int| 0 <= j < n ==> #[trigger] self@.children[j] == self.children[j]@,
                forall|j: int|
                    0 <= j < n ==> #[trigger] rooms[j] == self@.children[j].band(gap as int) + gap,
                forall|j: int| 0 <= j < n ==> gap <= #[trigger] rooms[j],
                forall|j: int| 0 <= j < n ==> (#[trigger] self@.children[j]).measured(),
                taken == total(rooms.take(i as int)),
                0 <= taken <= LAYOUT_LIMIT + gap,
            decreases n - i,
        {
            proof {
                total_step(rooms, i as int);
                total_grows(rooms, i as int + 1, n as int);
                total_all(rooms);
                total_covers(rooms, i as int);
                assert(self@.children[i as int] == self.children[i as int]@);
                assert(rooms[i as int] == self@.children[i as int].band(gap as int) + gap);
            }
            match self.children[i].band_of(gap) {
                None => {
                    return None;
                },
                Some(band) => {
                    taken = taken + band as i128 + gap as i128;
                    if taken - gap as i128 > LAYOUT_LIMIT as i128 {
                        return None;
                    }
                },
            }
            i = i + 1;
        }
        let inner: Coord = (taken - gap as i128) as Coord;
        if inner > cross {
            Some(inner)
        } else {
            Some(cross)
        }
    }

    /// The thickness of level `level`, and `None` where no visible node is
    /// on that level.
    pub fn layer_at(&self, level: usize) -> (r: Option<Coord>)
        requires
            self@.measured(),
        ensures
            match r {
                Some(thickness) => level < self@.height() && thickness == self@.layer(level as nat)
                    && 0 <= thickness,
                None => level >= self@.height(),
            },
        decreases self,
    {
        proof {
            self@.height_facts();
            self@.children_unfold(0);
            self@.band_facts(0);
            self.view_unfold();
            if self@.is_open() {
                self@.children_measured();
            }
        }
        if level == 0 {
            return match self.data.extent() {
                Some(e) => Some(e.main),
                None => Some(0),
            };
        }
        let n = self.children.len();
        if self.collapsed || n == 0 {
            return None;
        }
        let below: usize = level - 1;
        let ghost heights = self@.child_heights();
        let ghost layers = self@.child_layers(below as nat);
        proof {
            self@.layers_unfold(below as nat);
            highest_all(heights, 0);
            highest_all(layers, 0);
        }
        let mut best: Option<Coord> = None;
        let mut i: usize = 0;
        while i < n
            invariant
                n == self.children.len(),
                i <= n,
                below + 1 == level,
                self@.measured(),
                self@.is_open(),
                heights == self@.child_heights(),
                layers == self@.child_layers(below as nat),
                heights.len() == n,
                layers.len() == n,
                forall|j: int| 0 <= j < n ==> #[trigger] self@.children[j] == self.children[j]@,
                forall|j: int| 0 <= j < n ==> #[trigger] heights[j] == self@.children[j].height(),
                forall|j: int|
                    0 <= j < n ==> #[trigger] layers[j] == self@.children[j].layer(below as nat),
                forall|j: int| 0 <= j < n ==> (#[trigger] self@.children[j]).measured(),
                match best {
                    Some(thickness) => highest(heights.take(i as int), 0) > below && thickness
                        == highest(layers.take(i as int), 0) && 0 <= thickness,
                    None => highest(heights.take(i as int), 0) <= below && highest(
                        layers.take(i as int),
                        0,
                    ) == 0,
                },
            decreases n - i,
        {
            proof {
                highest_step(heights, 0, i as int);
                highest_step(layers, 0, i as int);
                assert(self@.children[i as int] == self.children[i as int]@);
                self@.children[i as int].layer_facts(below as nat);
                assert(heights[i as int] == self@.children[i as int].height());
                assert(layers[i as int] == self@.children[i as int].layer(below as nat));
            }
            match self.children[i].layer_at(below) {
                None => {},
                Some(thickness) => {
                    best = match best {
                        Some(other) => if thickness > other {
                            Some(thickness)
                        } else {
                            Some(other)
                        },
                        None => Some(thickness),
                    };
                },
            }
            i = i + 1;
        }
        best
    }

    /// Appends to `out` the boxes of the visible nodes of this tree, whose
    /// band begins at `at` and is `band` wide, and whose root is on level
    /// `level` of the tree whose levels begin at `starts`.
    fn place(
        &self,
        starts: &Vec<Coord>,
        level: usize,
        at: Coord,
        band: Coord,
        gap: Coord,
        out: &mut Vec<NodeBox>,
        Ghost(root): Ghost<Tree<T>>,
        Ghost(spacing): Ghost<int>,
    )
        requires
            self@.measured(),
            root.measured(),
            0 <= gap,
            0 <= spacing,
            band == self@.band(gap as int),
            0 <= at,
            at + band <= LAYOUT_LIMIT,
            self@.sits_in(root, level as nat),
            root.main_extent(spacing) <= LAYOUT_LIMIT,
            starts@.len() == root.height(),
            forall|d: int|
                0 <= d < starts@.len() ==> #[trigger] starts@[d] == root.layer_start(
                    d as nat,
                    spacing,
                ),
        ensures
            models(final(out)@) == models(old(out)@) + self@.boxes(
                root,
                level as nat,
                at as int,
                spacing,
                gap as int,
            ),
            forall|k: int|
                0 <= k < old(out)@.len() ==> #[trigger] final(out)@[k] == old(out)@[k],
            forall|k: int|
                old(out)@.len() <= k < final(out)@.len() ==> 0 <= (#[trigger] final(out)@[k]).main
                    && 0 <= final(out)@[k].extent.main && final(out)@[k].main
                    + final(out)@[k].extent.main <= LAYOUT_LIMIT,
        decreases self,
    {
        let ghost before = out@;
        let ghost tree = self@;
        proof {
            tree.band_facts(gap as int);
            tree.children_unfold(gap as int);
            tree.height_facts();
            root.level_ends(level as nat, spacing);
            assert(tree.layer(0) <= root.layer(level as nat + 0));
            self.view_unfold();
            if tree.is_open() {
                tree.children_measured();
            }
        }
        let extent = match self.data.extent() {
            Some(e) => e,
            None => Extent { main: 0, cross: 0 },
        };
        let own = NodeBox { main: starts[level], cross: at + (band - extent.cross) / 2, extent };
        out.push(own);
        assert(own@ == tree.own_box(root, level as nat, at as int, spacing, gap as int));
        assert(models(out@) =~= models(before) + seq![own@]);
        let n = self.children.len();
        if self.collapsed || n == 0 {
            return ;
        }
        let ghost rooms = tree.child_rooms(gap as int);
        let ghost parts = tree.child_boxes(root, level as nat, at as int, spacing, gap as int);
        proof {
            tree.boxes_unfold(root, level as nat, at as int, spacing, gap as int);
            total_all(rooms);
            joined_all(parts);
        }
        let mut bands: Vec<Coord> = Vec::new();
        let mut taken: i128 = 0;
        let mut i: usize = 0;
        while i < n
            invariant
                n == self.children.len(),
                i <= n,
                0 <= gap,
                tree == self@,
                tree.measured(),
                tree.is_open(),
                band == tree.band(gap as int),
                band <= LAYOUT_LIMIT,
                rooms == tree.child_rooms(gap as int),
                rooms.len() == n,
                forall|j: int| 0 <= j < n ==> #[trigger] tree.children[j] == self.children[j]@,
                forall|j: int|
                    0 <= j < n ==> #[trigger] rooms[j] == tree.children[j].band(gap as int) + gap,
                forall|j: int| 0 <= j < n ==> gap <= #[trigger] rooms[j],
                forall|j: int| 0 <= j < n ==> (#[trigger] tree.children[j]).measured(),
                forall|j: int|
                    0 <= j < n ==> 0 <= #[trigger] tree.children[j].band(gap as int)
                        <= tree.inner_band(gap as int),
                tree.inner_band(gap as int) <= band,
                bands@.len() == i,
                forall|j: int|
                    0 <= j < i ==> #[trigger] bands@[j] == tree.children[j].band(gap as int),
                taken == total(rooms.take(i as int)),
                0 <= taken <= total(rooms),
                total(rooms) <= LAYOUT_LIMIT + gap,
            decreases n - i,
        {
            proof {
                total_step(rooms, i as int);
                total_grows(rooms, i as int + 1, n as int);
                total_all(rooms);
                assert(tree.children[i as int] == self.children[i as int]@);
                assert(rooms[i as int] == tree.children[i as int].band(gap as int) + gap);
                assert(0 <= tree.children[i as int].band(gap as int) <= tree.inner_band(
                    gap as int,
                ));
            }
            let width = match self.children[i].band_of(gap) {
                Some(width) => width,
                None => 0,
            };
            bands.push(width);
            taken = taken + width as i128 + gap as i128;
            i = i + 1;
        }
        let inner: Coord = (taken - gap as i128) as Coord;
        let first: Coord = at + (band - inner) / 2;
        assert(first == tree.children_at(at as int, gap as int));
        assert(level + 1 < starts.len());
        let mut offset: i128 = 0;
        let mut i: usize = 0;
        while i < n
            invariant
                n == self.children.len(),
                i <= n,
                0 <= gap,
                0 <= spacing,
                tree == self@,
                tree.measured(),
                tree.is_open(),
                root.measured(),
                tree.sits_in(root, level as nat),
                root.main_extent(spacing) <= LAYOUT_LIMIT,
                starts@.len() == root.height(),
                forall|d: int|
                    0 <= d < starts@.len() ==> #[trigger] starts@[d] == root.layer_start(
                        d as nat,
                        spacing,
                    ),
                level + 1 < starts.len(),
                band == tree.band(gap as int),
                0 <= at,
                at + band <= LAYOUT_LIMIT,
                first == tree.children_at(at as int, gap as int),
                at <= first,
                first + tree.inner_band(gap as int) <= at + band,
                rooms == tree.child_rooms(gap as int),
                rooms.len() == n,
                parts == tree.child_boxes(root, level as nat, at as int, spacing, gap as int),
                parts.len() == n,
                forall|j: int| 0 <= j < n ==> #[trigger] tree.children[j] == self.children[j]@,
                forall|j: int|
                    0 <= j < n ==> #[trigger] parts[j] == tree.children[j].boxes(
                        root,
                        (level + 1) as nat,
                        first + total(rooms.take(j)),
                        spacing,
                        gap as int,
                    ),
                forall|j: int|
                    0 <= j < n ==> #[trigger] rooms[j] == tree.children[j].band(gap as int) + gap,
                forall|j: int| 0 <= j < n ==> gap <= #[trigger] rooms[j],
                bands@.len() == n,
                forall|j: int|
                    0 <= j < n ==> #[trigger] bands@[j] == tree.children[j].band(gap as int),
                offset == total(rooms.take(i as int)),
                0 <= offset <= total(rooms),
                total(rooms) == tree.inner_band(gap as int) + gap,
                models(out@) == models(before) + seq![own@] + joined(parts.take(i as int)),
                out@.len() >= before.len() + 1,
                forall|k: int| 0 <= k < before.len() ==> #[trigger] out@[k] == before[k],
                forall|k: int|
                    before.len() <= k < out@.len() ==> 0 <= (#[trigger] out@[k]).main && 0
                        <= out@[k].extent.main && out@[k].main + out@[k].extent.main
                        <= LAYOUT_LIMIT,
            decreases n - i,
        {
            proof {
                total_step(rooms, i as int);
                total_grows(rooms, i as int + 1, n as int);
                total_all(rooms);
                total_covers(rooms, i as int);
                joined_step(parts, i as int);
                tree.child_sits_in(root, level as nat, i as int);
                assert(tree.children[i as int] == self.children[i as int]@);
                assert(rooms[i as int] == tree.children[i as int].band(gap as int) + gap);
                assert(bands@[i as int] == tree.children[i as int].band(gap as int));
            }
            let child_at: Coord = (first as i128 + offset) as Coord;
            self.children[i].place(
                starts,
                level + 1,
                child_at,
                bands[i],
                gap,
                out,
                Ghost(root),
                Ghost(spacing),
            );
            assert(models(out@) =~= models(before) + seq![own@] + joined(
                parts.take(i as int + 1),
            ));
            offset = offset + bands[i] as i128 + gap as i128;
            i = i + 1;
        }
        assert(models(out@) =~= models(before) + tree.boxes(
            root,
            level as nat,
            at as int,
            spacing,
            gap as int,
        ));
    }
}

/// Lays out the visible part of a tree. The nodes of a level begin at one
/// coordinate along the axis of growth; each level begins `layer_spacing`
/// after the thickest box of the level before it. Across that axis every
/// subtree has a band of its own: the bands of siblings lie side by side with
/// `item_spacing` between them, and a node lies in the middle of the band of
/// its subtree.
pub fn layout_tree<T: Measured>(
    tree: &DTNode<T>,
    layer_spacing: Coord,
    item_spacing: Coord,
    direction: TreeLayoutDirection,
) -> (r: Result<Layout, LayoutError>)
    requires
        0 <= layer_spacing,
        0 <= item_spacing,
    ensures
        match r {
            Ok(layout) => tree@.measured() && tree@.fits(layer_spacing as int, item_spacing as int)
                && layout.boxes@.len() == tree@.visible().len() && models(layout.boxes@)
                == tree@.arranged(layer_spacing as int, item_spacing as int, direction)
                && layout.bounds@ == tree@.bounds(
                layer_spacing as int,
                item_spacing as int,
                direction,
            ),
            Err(LayoutError::SizingUnavailable) => !tree@.measured(),
            Err(LayoutError::TooLarge) => tree@.measured() && !tree@.fits(
                layer_spacing as int,
                item_spacing as int,
            ),
        },
{
    if !tree.is_measured() {
        return Err(LayoutError::SizingUnavailable);
    }
    let band = match tree.band_of(item_spacing) {
        Some(band) => band,
        None => {
            return Err(LayoutError::TooLarge);
        },
    };
    let ghost root = tree@;
    let ghost spacing = layer_spacing as int;
    let mut starts: Vec<Coord> = Vec::new();
    let mut end: Coord = 0;
    let mut done: bool = false;
    proof {
        root.height_facts();
    }
    while !done
        invariant
            root == tree@,
            root.measured(),
            spacing == layer_spacing as int,
            0 <= spacing,
            starts@.len() <= root.height(),
            done ==> starts@.len() == root.height(),
            forall|d: int|
                0 <= d < starts@.len() ==> #[trigger] starts@[d] == root.layer_start(
                    d as nat,
                    spacing,
                ),
            starts@.len() == 0 ==> end == 0,
            starts@.len() > 0 ==> end == root.layer_start((starts@.len() - 1) as nat, spacing)
                + root.layer((starts@.len() - 1) as nat),
            0 <= end <= LAYOUT_LIMIT,
        decreases root.height() - starts@.len() + if done { 0int } else { 1int },
    {
        let level = starts.len();
        match tree.layer_at(level) {
            None => {
                done = true;
            },
            Some(thickness) => {
                proof {
                    root.level_ends(level as nat, spacing);
                }
                let mut start: Coord = 0;
                if level > 0 {
                    if layer_spacing > LAYOUT_LIMIT - end {
                        return Err(LayoutError::TooLarge);
                    }
                    start = end + layer_spacing;
                }
                if thickness > LAYOUT_LIMIT - start {
                    return Err(LayoutError::TooLarge);
                }
                starts.push(start);
                end = start + thickness;
            },
        }
    }
    let mut boxes: Vec<NodeBox> = Vec::new();
    assert(models(boxes@) =~= Seq::empty());
    tree.place(&starts, 0, 0, band, item_spacing, &mut boxes, Ghost(root), Ghost(spacing));
    assert(models(boxes@) =~= root.boxes(root, 0, 0, spacing, item_spacing as int));
    let mut low: Coord = 0;
    match direction {
        TreeLayoutDirection::Right => {},
        TreeLayoutDirection::Left => {
            let ghost plain = boxes@;
            let mut k: usize = 0;
            while k < boxes.len()
                invariant
                    k <= boxes.len(),
                    boxes@.len() == plain.len(),
                    forall|j: int|
                        0 <= j < plain.len() ==> 0 <= (#[trigger] plain[j]).main && 0
                            <= plain[j].extent.main && plain[j].main + plain[j].extent.main
                            <= LAYOUT_LIMIT,
                    forall|j: int| 0 <= j < k ==> (#[trigger] boxes@[j])@ == mirrored(plain[j]@),
                    forall|j: int| k <= j < plain.len() ==> #[trigger] boxes@[j] == plain[j],
                decreases boxes.len() - k,
            {
                let b = boxes[k];
                boxes[k] = NodeBox { main: -b.main - b.extent.main, cross: b.cross, extent: b.extent };
                k = k + 1;
            }
            assert(models(boxes@) =~= all_mirrored(models(plain)));
            low = -end;
        },
    }
    let bounds = NodeBox { main: low, cross: 0, extent: Extent { main: end, cross: band } };
    proof {
        crate::layout_laws::layout_counts_visible_nodes(root, spacing, item_spacing as int, direction);
    }
    Ok(Layout { boxes, bounds })
}

} // verus!
