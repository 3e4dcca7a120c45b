use vstd::prelude::*;
use vstd::string::StringExecFns;
use crate::capability_db::{CapabilitiesDB, CapabilitiesRow};
use crate::fold_up::{folds, leading_names, texts, FoldInfo};
use crate::data_tree::{
    balanced, grow_is_balanced, pointees, DTNode, DTNodeBuild, InvalidGrowth, Tree,
    TreeLayoutDirection,
};
use crate::connecting_lines::LINE_CTRL_OFFSET;
use crate::document::{
    BASELINE_RISE, COLLAPSE_DOT_RADIUS, ITEM_SPACING, LAYER_SPACING, NODE_ITEM_ROUND_CORNER,
    TEXT_ITEM_PADDING,
};
use crate::svg_writer::{
    begin_tag_text, end_tag_text, single_tag_text, text_tag_text, Attributes, Renderable, TagWriter,
    TagWriterError,
};
use crate::used_by::{color_strs, get_color_strs};
use crate::geometry::{half, is_edge, Coord, Rect};
use crate::lookup::Identified;
use crate::seqs::{total, total_all, total_grows, total_step};
use crate::text::{decimal, decimal_text, same_text, signed_decimal, signed_decimal_text};
use crate::text_size::{may_answer, TextSizeError, TextSizer};
use crate::tree_layout::{
    layout_tree, models, BoxModel, Extent, Layout, LayoutError, Measured, NodeBox, LAYOUT_LIMIT,
};
use crate::used_by::{UsedBy, UsedBySet};

verus! {

/// Where a node stands in its tree, which decides how it is drawn.
#[derive(Debug, PartialEq, Eq, Structural, Clone, Copy)]
pub enum NodeLocationStyle {
    RootNode,
    BranchNode,
    LeafNode,
}

/// Whether a capability belongs to the core, to the surround systems, or
/// to neither for certain.
#[derive(Debug, PartialEq, Eq, Structural, Clone, Copy)]
pub enum CoreOrSurround {
    Core,
    Surround,
    NotSure,
    Blank,
    Mixed,
}

/// What is drawn at a node to collapse and expand it.
#[derive(Debug, PartialEq, Eq, Structural, Clone, Copy)]
pub enum TreeCollapsePolicy {
    Nothing,
    JavaScriptReplace,
}

/// The words that stand for a placement in the data.
pub open spec fn core_or_surround_word(x: CoreOrSurround) -> Seq<char> {
    match x {
        CoreOrSurround::Core => "Core"@,
        CoreOrSurround::Surround => "Surround"@,
        CoreOrSurround::NotSure => "Not Sure"@,
        CoreOrSurround::Blank => ""@,
        CoreOrSurround::Mixed => "Mixed"@,
    }
}

/// The placement that words of the data stand for, and `None` where they
/// stand for none.
pub open spec fn core_or_surround_of(word: Seq<char>) -> Option<CoreOrSurround> {
    if word == "Core"@ {
        Some(CoreOrSurround::Core)
    } else if word == "Surround"@ {
        Some(CoreOrSurround::Surround)
    } else if word == "Not Sure"@ {
        Some(CoreOrSurround::NotSure)
    } else if word == ""@ {
        Some(CoreOrSurround::Blank)
    } else if word == "Mixed"@ {
        Some(CoreOrSurround::Mixed)
    } else {
        None
    }
}

impl CoreOrSurround {
    /// Reads the words of the data; `None` where they are not one of the
    /// five.
    pub fn from_text(s: &str) -> (r: Option<CoreOrSurround>)
        ensures
            r == core_or_surround_of(s@),
    {
        if same_text(s, "Core") {
            Some(CoreOrSurround::Core)
        } else if same_text(s, "Surround") {
            Some(CoreOrSurround::Surround)
        } else if same_text(s, "Not Sure") {
            Some(CoreOrSurround::NotSure)
        } else if same_text(s, "") {
            Some(CoreOrSurround::Blank)
        } else if same_text(s, "Mixed") {
            Some(CoreOrSurround::Mixed)
        } else {
            None
        }
    }

    /// The words that stand for the placement in the data.
    pub fn as_text(self) -> (s: &'static str)
        ensures
            s@ == core_or_surround_word(self),
    {
        match self {
            CoreOrSurround::Core => "Core",
            CoreOrSurround::Surround => "Surround",
            CoreOrSurround::NotSure => "Not Sure",
            CoreOrSurround::Blank => "",
            CoreOrSurround::Mixed => "Mixed",
        }
    }
}

impl Default for CoreOrSurround {
    fn default() -> (r: CoreOrSurround)
        ensures
            r == CoreOrSurround::Blank,
    {
        CoreOrSurround::Blank
    }
}

impl Default for TreeCollapsePolicy {
    fn default() -> (r: TreeCollapsePolicy)
        ensures
            r == TreeCollapsePolicy::Nothing,
    {
        TreeCollapsePolicy::Nothing
    }
}

/// The font in which the texts of the nodes are measured.
pub const NODE_FONT: &'static str = "Arial";

/// The size of the font in which the texts of the nodes are measured.
pub const NODE_FONT_SIZE: Coord = 14;

/// The greatest width and height of a text that a node can be laid out
/// with.
pub const TEXT_SIZE_LIMIT: Coord = 0x1000_0000_0000_0000;

/// A capability, as the payload of a tree node.
#[derive(Debug)]
pub struct CapabilityData {
    pub id: String,
    pub parent_id: String,
    pub text: String,
    pub used_by_set: UsedBySet,
    pub description: String,
    pub core_surround: CoreOrSurround,
    pub notes: String,
    /// The width and the height of the text, where it has been measured.
    pub text_size: Option<(Coord, Coord)>,
    /// Where the node lies: across, the edge of its box that is nearest to
    /// the root; down, the middle of its box.
    pub location: (Coord, Coord),
    pub node_loc_style: NodeLocationStyle,
}

/// Whether the answers are such as the sizer may give when it is asked for
/// the sizes of the texts of the capabilities, one after the other, in the
/// font and at the size in which the nodes are drawn.
pub open spec fn measured_by<S: TextSizer>(
    sizer: &S,
    nodes: Seq<CapabilityData>,
    sizes: Seq<Result<(Coord, Coord), TextSizeError>>,
) -> bool {
    &&& sizes.len() == nodes.len()
    &&& forall|k: int|
        0 <= k < nodes.len() ==> may_answer(
            sizer,
            nodes[k].text@,
            NODE_FONT,
            NODE_FONT_SIZE,
            #[trigger] sizes[k],
        )
}

/// What is noted of an answer to the question what size a text has: the
/// size, or that there is none.
pub open spec fn noted(answer: Result<(Coord, Coord), TextSizeError>) -> Option<(Coord, Coord)> {
    match answer {
        Ok(size) => Some(size),
        Err(_) => None,
    }
}

/// The size of the box about a text of the size `text_size`, as the layout
/// takes it: its width along the axis of growth, its height across. `None`
/// where the text has no size, or one that is negative or beyond
/// `TEXT_SIZE_LIMIT`.
pub open spec fn box_extent(text_size: Option<(Coord, Coord)>) -> Option<Extent> {
    match text_size {
        Some((width, height)) => if 0 <= width <= TEXT_SIZE_LIMIT && 0 <= height
            <= TEXT_SIZE_LIMIT {
            Some(
                Extent {
                    main: (width + 2 * TEXT_ITEM_PADDING) as Coord,
                    cross: (height + 2 * TEXT_ITEM_PADDING) as Coord,
                },
            )
        } else {
            None
        },
        None => None,
    }
}

/// Where a node with the box `b` lies: across, at the edge of the box that
/// is nearest to the root; down, in the middle of the box.
pub open spec fn location_of(b: BoxModel, direction: TreeLayoutDirection) -> (int, int) {
    (
        match direction {
            TreeLayoutDirection::Right => b.main,
            TreeLayoutDirection::Left => b.main + b.extent.main,
        },
        b.cross + b.extent.cross / 2,
    )
}

/// Whether the box is one of a layout: within `LAYOUT_LIMIT`.
pub open spec fn box_in_range(b: NodeBox) -> bool {
    &&& -LAYOUT_LIMIT <= b.main <= LAYOUT_LIMIT
    &&& 0 <= b.cross <= LAYOUT_LIMIT
    &&& 0 <= b.extent.main <= LAYOUT_LIMIT
    &&& 0 <= b.extent.cross <= LAYOUT_LIMIT
}

impl CapabilityData {
    /// The capability with this data, not measured, at the origin, and
    /// taken for a branch.
    pub fn new_new(
        id: &str,
        parent_id: &str,
        text: &str,
        used_by_set: UsedBySet,
        description: &str,
        core_surround: CoreOrSurround,
        notes: &str,
    ) -> (data: Self)
        ensures
            data.id@ == id@,
            data.parent_id@ == parent_id@,
            data.text@ == text@,
            data.used_by_set == used_by_set,
            data.description@ == description@,
            data.core_surround == core_surround,
            data.notes@ == notes@,
            data.text_size.is_none(),
            data.location == (0i64, 0i64),
            data.node_loc_style == NodeLocationStyle::BranchNode,
    {
        CapabilityData {
            id: id.to_owned(),
            parent_id: parent_id.to_owned(),
            text: text.to_owned(),
            used_by_set,
            description: description.to_owned(),
            core_surround,
            notes: notes.to_owned(),
            text_size: None,
            location: (0, 0),
            node_loc_style: NodeLocationStyle::BranchNode,
        }
    }

    /// A capability that is named by the next number of `id_source`: its
    /// identifier is `XX` and that number.
    pub fn new_generating_id(text: &str, used_by_set: UsedBySet, id_source: &mut usize) -> (data:
        Self)
        requires
            *old(id_source) < usize::MAX,
        ensures
            *final(id_source) == *old(id_source) + 1,
            data.id@ == "XX"@ + decimal(*old(id_source) as nat),
            data.parent_id@ == "XXX"@,
            data.text@ == text@,
            data.used_by_set == used_by_set,
            data.description@ == ""@,
            data.core_surround == CoreOrSurround::Blank,
            data.notes@ == ""@,
            data.text_size.is_none(),
            data.location == (0i64, 0i64),
            data.node_loc_style == NodeLocationStyle::BranchNode,
    {
        let number = *id_source;
        *id_source = number + 1;
        let mut id = "XX".to_owned();
        id.append(decimal_text(number as u64).as_str());
        let mut data = CapabilityData::new_new(
            "",
            "XXX",
            text,
            used_by_set,
            "",
            CoreOrSurround::Blank,
            "",
        );
        data.id = id;
        data
    }

    /// This capability at another place.
    pub open spec fn moved_to(self, location: (int, int)) -> CapabilityData {
        CapabilityData { location: (location.0 as Coord, location.1 as Coord), ..self }
    }

    /// This capability drawn in another way.
    pub open spec fn drawn_as(self, style: NodeLocationStyle) -> CapabilityData {
        CapabilityData { node_loc_style: style, ..self }
    }

    /// This capability with another size of its text.
    pub open spec fn sized(self, text_size: Option<(Coord, Coord)>) -> CapabilityData {
        CapabilityData { text_size, ..self }
    }

    /// The box of the node: about the text, with the padding on each side.
    /// It lies to the right of the node's location in a tree that grows to
    /// the right, and to the left of it in one that grows to the left.
    /// `None` where the text has no usable size, or an edge of the box would
    /// lie beyond `EDGE_LIMIT`.
    pub open spec fn bbox(self, direction: TreeLayoutDirection) -> Option<Rect> {
        match box_extent(self.text_size) {
            Some(extent) => {
                let left = match direction {
                    TreeLayoutDirection::Right => self.location.0 as int,
                    TreeLayoutDirection::Left => self.location.0 - extent.main,
                };
                let top = self.location.1 - extent.cross / 2;
                if is_edge(left) && is_edge(top) && is_edge(left + extent.main) && is_edge(
                    top + extent.cross,
                ) {
                    Some(
                        Rect {
                            left: left as Coord,
                            top: top as Coord,
                            width: extent.main,
                            height: extent.cross,
                        },
                    )
                } else {
                    None
                }
            },
            None => None,
        }
    }

    /// The box of the node, and `None` where it has none.
    pub fn get_bbox(&self, direction: TreeLayoutDirection) -> (r: Option<Rect>)
        ensures
            r == self.bbox(direction),
            r.is_some() ==> r.unwrap().wf(),
    {
        match self.extent() {
            Some(extent) => {
                let limit: i128 = crate::geometry::EDGE_LIMIT as i128;
                let left: i128 = match direction {
                    TreeLayoutDirection::Right => self.location.0 as i128,
                    TreeLayoutDirection::Left => self.location.0 as i128 - extent.main as i128,
                };
                let top: i128 = self.location.1 as i128 - half(extent.cross) as i128;
                if left < -limit || left > limit || top < -limit || top > limit || left
                    + extent.main as i128 > limit || top + extent.cross as i128 > limit {
                    return None;
                }
                Some(Rect::new_ltwh(left as Coord, top as Coord, extent.main, extent.cross))
            },
            None => None,
        }
    }
}

impl Identified for CapabilityData {
    open spec fn id_view(&self) -> Seq<char> {
        self.id@
    }

    fn id(&self) -> (id: &String) {
        &self.id
    }
}

impl Measured for CapabilityData {
    open spec fn extent_view(&self) -> Option<Extent> {
        box_extent(self.text_size)
    }

    fn extent(&self) -> (e: Option<Extent>) {
        match self.text_size {
            Some((width, height)) => {
                if 0 <= width && width <= TEXT_SIZE_LIMIT && 0 <= height && height
                    <= TEXT_SIZE_LIMIT {
                    Some(
                        Extent {
                            main: width + 2 * TEXT_ITEM_PADDING,
                            cross: height + 2 * TEXT_ITEM_PADDING,
                        },
                    )
                } else {
                    None
                }
            },
            None => None,
        }
    }
}

/// How a node is drawn: as the root, as a leaf where it has no children,
/// and else as a branch.
pub open spec fn style_of(is_root: bool, children: nat) -> NodeLocationStyle {
    if is_root {
        NodeLocationStyle::RootNode
    } else if children == 0 {
        NodeLocationStyle::LeafNode
    } else {
        NodeLocationStyle::BranchNode
    }
}

impl Tree<CapabilityData> {
    /// The children, each with the style of every node set.
    pub open spec fn child_styled(self) -> Seq<Tree<CapabilityData>>
        decreases self, 0int,
    {
        Seq::new(
            self.children.len(),
            |i: int|
                if 0 <= i < self.children.len() {
                    self.children[i].styled(false)
                } else {
                    self
                },
        )
    }

    /// This tree with the style of every node set, of those that are not
    /// visible too: as that of a root at the root where `is_root` holds, and
    /// else by `style_of`.
    pub open spec fn styled(self, is_root: bool) -> Tree<CapabilityData>
        decreases self, 1int,
    {
        Tree {
            data: self.data.drawn_as(style_of(is_root, self.children.len())),
            collapsed: self.collapsed,
            children: self.child_styled(),
        }
    }

    /// The children, each with its visible nodes where the boxes put them.
    pub open spec fn child_located(
        self,
        boxes: Seq<BoxModel>,
        from: int,
        direction: TreeLayoutDirection,
    ) -> Seq<Tree<CapabilityData>>
        decreases self, 0int,
    {
        Seq::new(
            self.children.len(),
            |i: int|
                if 0 <= i < self.children.len() {
                    self.children[i].located(
                        boxes,
                        from + 1 + total(self.child_counts().take(i)),
                        direction,
                    )
                } else {
                    self
                },
        )
    }

    /// This tree with its visible nodes where the boxes put them: the
    /// boxes from index `from` on are those of the visible nodes, each node
    /// before its children and the children in their order.
    pub open spec fn located(self, boxes: Seq<BoxModel>, from: int, direction: TreeLayoutDirection)
        -> Tree<CapabilityData>
        decreases self, 1int,
    {
        Tree {
            data: self.data.moved_to(location_of(boxes[from], direction)),
            collapsed: self.collapsed,
            children: if self.collapsed {
                self.children
            } else {
                self.child_located(boxes, from, direction)
            },
        }
    }

    /// The children, each with the sizes of its visible nodes noted.
    pub open spec fn child_with_sizes(
        self,
        sizes: Seq<Result<(Coord, Coord), TextSizeError>>,
        from: int,
    ) -> Seq<Tree<CapabilityData>>
        decreases self, 0int,
    {
        Seq::new(
            self.children.len(),
            |i: int|
                if 0 <= i < self.children.len() {
                    self.children[i].with_sizes(sizes, from + 1 + total(self.child_counts().take(i)))
                } else {
                    self
                },
        )
    }

    /// This tree with the sizes of the texts of its visible nodes noted:
    /// the answers from index `from` on are those for the visible nodes, each
    /// node before its children and the children in their order. A node for
    /// which there is no answer, or one that gives no size, has no size.
    pub open spec fn with_sizes(
        self,
        sizes: Seq<Result<(Coord, Coord), TextSizeError>>,
        from: int,
    ) -> Tree<CapabilityData>
        decreases self, 1int,
    {
        Tree {
            data: self.data.sized(
                if 0 <= from < sizes.len() {
                    noted(sizes[from])
                } else {
                    None
                },
            ),
            collapsed: self.collapsed,
            children: if self.collapsed {
                self.children
            } else {
                self.child_with_sizes(sizes, from)
            },
        }
    }

    /// The children of a tree after the sizes have been noted, child by
    /// child.
    pub proof fn sizing_unfold(self, sizes: Seq<Result<(Coord, Coord), TextSizeError>>, from: int)
        ensures
            self.child_with_sizes(sizes, from).len() == self.children.len(),
            forall|i: int|
                0 <= i < self.children.len() ==> #[trigger] self.child_with_sizes(sizes, from)[i]
                    == self.children[i].with_sizes(
                    sizes,
                    from + 1 + total(self.child_counts().take(i)),
                ),
    {
    }

    /// For each child, whether the child of `other` at its place is that
    /// child with other sizes of texts.
    pub open spec fn child_resized(self, other: Tree<CapabilityData>) -> Seq<bool>
        decreases self, 0int,
    {
        Seq::new(
            self.children.len(),
            |i: int|
                if 0 <= i < self.children.len() {
                    self.children[i].resized(other.children[i])
                } else {
                    true
                },
        )
    }

    /// Whether `other` is this tree with other sizes of the texts of its
    /// visible nodes, and nothing else changed.
    pub open spec fn resized(self, other: Tree<CapabilityData>) -> bool
        decreases self, 1int,
    {
        &&& other.data == self.data.sized(other.data.text_size)
        &&& other.collapsed == self.collapsed
        &&& other.children.len() == self.children.len()
        &&& if self.collapsed {
            other.children == self.children
        } else {
            crate::tree_layout::all_hold(self.child_resized(other))
        }
    }

    /// Whether `after` and `r` are what the layout makes of this tree,
    /// which holds the sizes of its texts, on the side `direction`: where
    /// every visible node has a usable size and the layout is within
    /// `LAYOUT_LIMIT`, the boxes of the visible nodes, and the tree with each
    /// visible node where its box is and every node styled; else the error,
    /// and the tree as it is.
    pub open spec fn laid_out(
        self,
        direction: TreeLayoutDirection,
        after: Tree<CapabilityData>,
        r: Result<Layout, LayoutError>,
    ) -> bool {
        match r {
            Ok(layout) => self.measured() && self.fits(LAYER_SPACING as int, ITEM_SPACING as int)
                && models(layout.boxes@) == self.arranged(
                LAYER_SPACING as int,
                ITEM_SPACING as int,
                direction,
            ) && layout.bounds@ == self.bounds(LAYER_SPACING as int, ITEM_SPACING as int, direction)
                && after == self.located(models(layout.boxes@), 0, direction).styled(true),
            Err(LayoutError::SizingUnavailable) => !self.measured() && after == self,
            Err(LayoutError::TooLarge) => self.measured() && !self.fits(
                LAYER_SPACING as int,
                ITEM_SPACING as int,
            ) && after == self,
        }
    }

    /// Whether `after` is what `layout` makes of this tree on the side
    /// `direction` for some answers that the sizer may give, one for each
    /// visible node, and `error` the error with which it ends, if any.
    pub open spec fn remade<S: TextSizer>(
        self,
        sizer: &S,
        direction: TreeLayoutDirection,
        after: Tree<CapabilityData>,
        error: Option<LayoutError>,
    ) -> bool {
        exists|sizes: Seq<Result<(Coord, Coord), TextSizeError>>, r: Result<Layout, LayoutError>|
            measured_by(sizer, self.visible(), sizes) && #[trigger] self.with_sizes(
                sizes,
                0,
            ).laid_out(direction, after, r) && error == match r {
                Ok(_) => None,
                Err(e) => Some(e),
            }
    }

    /// A tree with sizes noted is that tree with other sizes of the texts
    /// of its visible nodes, and nothing else changed.
    pub proof fn with_sizes_resized(
        self,
        sizes: Seq<Result<(Coord, Coord), TextSizeError>>,
        from: int,
    )
        ensures
            self.resized(self.with_sizes(sizes, from)),
        decreases self,
    {
        let other = self.with_sizes(sizes, from);
        self.sizing_unfold(sizes, from);
        self.placing_unfold(Seq::empty(), 0, TreeLayoutDirection::Right, other);
        if !self.collapsed {
            assert forall|i: int| 0 <= i < self.children.len() implies self.child_resized(
                other,
            )[i] by {
                self.children[i].with_sizes_resized(
                    sizes,
                    from + 1 + total(self.child_counts().take(i)),
                );
            }
        }
        assert(other.data == self.data.sized(other.data.text_size));
    }

    /// The children of a tree after the styling and the placing, child by
    /// child.
    pub proof fn placing_unfold(
        self,
        boxes: Seq<BoxModel>,
        from: int,
        direction: TreeLayoutDirection,
        other: Tree<CapabilityData>,
    )
        ensures
            self.child_styled().len() == self.children.len(),
            self.child_located(boxes, from, direction).len() == self.children.len(),
            self.child_resized(other).len() == self.children.len(),
            forall|i: int|
                0 <= i < self.children.len() ==> #[trigger] self.child_styled()[i]
                    == self.children[i].styled(false),
            forall|i: int|
                0 <= i < self.children.len() ==> #[trigger] self.child_located(
                    boxes,
                    from,
                    direction,
                )[i] == self.children[i].located(
                    boxes,
                    from + 1 + total(self.child_counts().take(i)),
                    direction,
                ),
            forall|i: int|
                0 <= i < self.children.len() ==> #[trigger] self.child_resized(other)[i]
                    == self.children[i].resized(other.children[i]),
    {
    }
}

/// Sets the style of every node below a root, and of the node itself as
/// one that is not the root.
fn set_node_loc_style_internal(dtnode: &mut DTNode<CapabilityData>)
    ensures
        final(dtnode)@ == old(dtnode)@.styled(false),
    decreases old(dtnode)@, 1int,
{
    let ghost before = dtnode@;
    proof {
        dtnode.view_unfold();
        before.placing_unfold(Seq::empty(), 0, TreeLayoutDirection::Right, before);
    }
    if dtnode.children.len() == 0 {
        dtnode.data.node_loc_style = NodeLocationStyle::LeafNode;
    } else {
        dtnode.data.node_loc_style = NodeLocationStyle::BranchNode;
    }
    style_children(dtnode, Ghost(before));
    proof {
        dtnode.view_unfold();
        assert(dtnode@.children =~= before.child_styled());
    }
}

/// Sets the style of every node below `dtnode`.
fn style_children(dtnode: &mut DTNode<CapabilityData>, Ghost(before): Ghost<Tree<CapabilityData>>)
    requires
        before.children.len() == old(dtnode).children.len(),
        forall|j: int|
            0 <= j < old(dtnode).children.len() ==> #[trigger] old(dtnode).children[j]@
                == before.children[j],
    ensures
        final(dtnode).data == old(dtnode).data,
        final(dtnode).collapsed == old(dtnode).collapsed,
        final(dtnode).children.len() == old(dtnode).children.len(),
        forall|j: int|
            0 <= j < old(dtnode).children.len() ==> #[trigger] final(dtnode).children[j]@
                == before.children[j].styled(false),
    decreases before, 0int,
{
    let n = dtnode.children.len();
    let mut i: usize = 0;
    while i < n
        invariant
            n == dtnode.children.len(),
            i <= n,
            before.children.len() == n,
            dtnode.data == old(dtnode).data,
            dtnode.collapsed == old(dtnode).collapsed,
            forall|j: int|
                0 <= j < i ==> #[trigger] dtnode.children[j]@ == before.children[j].styled(false),
            forall|j: int| i <= j < n ==> #[trigger] dtnode.children[j]@ == before.children[j],
            forall|j: int| i <= j < n ==> #[trigger] dtnode.children[j] == old(dtnode).children[j],
        decreases n - i,
    {
        let child: &mut Box<DTNode<CapabilityData>> = &mut dtnode.children[i];
        set_node_loc_style_internal(child);
        i = i + 1;
    }
}

/// Sets the style of every node of the tree: of `dtnode` as the root.
fn set_node_loc_style(dtnode: &mut DTNode<CapabilityData>)
    ensures
        final(dtnode)@ == old(dtnode)@.styled(true),
{
    let ghost before = dtnode@;
    proof {
        dtnode.view_unfold();
        before.placing_unfold(Seq::empty(), 0, TreeLayoutDirection::Right, before);
    }
    dtnode.data.node_loc_style = NodeLocationStyle::RootNode;
    style_children(dtnode, Ghost(before));
    proof {
        dtnode.view_unfold();
        assert(dtnode@.children =~= before.child_styled());
    }
}

/// Notes the sizes of the texts of the visible nodes: the answers from
/// index `from` on are those for the visible nodes of `node`, each node
/// before its children and the children in their order. Gives back the index
/// of the answer after them.
fn note_sizes(
    node: &mut DTNode<CapabilityData>,
    sizes: &Vec<Result<(Coord, Coord), TextSizeError>>,
    from: usize,
) -> (next: usize)
    requires
        from + old(node)@.visible().len() <= usize::MAX,
    ensures
        final(node)@ == old(node)@.with_sizes(sizes@, from as int),
        next == from + old(node)@.visible().len(),
    decreases old(node)@,
{
    let ghost before = node@;
    let ghost counts = before.child_counts();
    proof {
        node.view_unfold();
        before.visible_count();
        before.sizing_unfold(sizes@, from as int);
        total_all(counts);
    }
    let size = if from < sizes.len() {
        match sizes[from] {
            Ok(size) => Some(size),
            Err(_) => None,
        }
    } else {
        None
    };
    node.data.text_size = size;
    let mut next: usize = from + 1;
    if !node.collapsed {
        let n = node.children.len();
        let mut i: usize = 0;
        while i < n
            invariant
                n == node.children.len(),
                i <= n,
                before == old(node)@,
                before.children.len() == n,
                counts == before.child_counts(),
                counts.len() == n,
                forall|j: int| 0 <= j < n ==> #[trigger] counts[j] >= 1,
                node.data == old(node).data.sized(size),
                node.collapsed == old(node).collapsed,
                next == from + 1 + total(counts.take(i as int)),
                from + 1 + total(counts) <= usize::MAX,
                forall|j: int|
                    0 <= j < i ==> #[trigger] node.children[j]@ == before.children[j].with_sizes(
                        sizes@,
                        from + 1 + total(counts.take(j)),
                    ),
                forall|j: int| i <= j < n ==> #[trigger] node.children[j]@ == before.children[j],
                forall|j: int| i <= j < n ==> #[trigger] node.children[j] == old(node).children[j],
            decreases n - i,
        {
            proof {
                total_step(counts, i as int);
                total_grows(counts, i as int + 1, n as int);
                total_all(counts);
                assert(counts[i as int] == before.children[i as int].visible().len());
            }
            let child: &mut Box<DTNode<CapabilityData>> = &mut node.children[i];
            next = note_sizes(child, sizes, next);
            i = i + 1;
        }
        proof {
            node.view_unfold();
            assert(node@.children =~= before.child_with_sizes(sizes@, from as int));
        }
    } else {
        proof {
            node.view_unfold();
            assert(node@.children =~= before.children);
        }
    }
    next
}

/// Puts the visible nodes where the boxes say: the boxes from index `from`
/// on are those of the visible nodes of `node`, each node before its children
/// and the children in their order. Gives back the index of the box after
/// them.
fn populate_locations(
    node: &mut DTNode<CapabilityData>,
    boxes: &Vec<NodeBox>,
    from: usize,
    direction: TreeLayoutDirection,
) -> (next: usize)
    requires
        from + old(node)@.visible().len() <= boxes.len(),
        forall|k: int| 0 <= k < boxes@.len() ==> box_in_range(#[trigger] boxes@[k]),
    ensures
        final(node)@ == old(node)@.located(models(boxes@), from as int, direction),
        next == from + old(node)@.visible().len(),
    decreases old(node)@,
{
    let ghost before = node@;
    let ghost counts = before.child_counts();
    proof {
        node.view_unfold();
        before.visible_count();
        before.placing_unfold(models(boxes@), from as int, direction, before);
        total_all(counts);
    }
    let b = boxes[from];
    assert(box_in_range(b));
    let across = match direction {
        TreeLayoutDirection::Right => b.main,
        TreeLayoutDirection::Left => b.main + b.extent.main,
    };
    node.data.location = (across, b.cross + half(b.extent.cross));
    let mut next: usize = from + 1;
    if !node.collapsed {
        let n = node.children.len();
        let mut i: usize = 0;
        while i < n
            invariant
                n == node.children.len(),
                i <= n,
                before == old(node)@,
                before.children.len() == n,
                counts == before.child_counts(),
                counts.len() == n,
                forall|j: int| 0 <= j < n ==> #[trigger] counts[j] >= 1,
                node.data == old(node).data.moved_to(location_of(models(boxes@)[from as int], direction)),
                node.collapsed == old(node).collapsed,
                next == from + 1 + total(counts.take(i as int)),
                from + 1 + total(counts) <= boxes.len(),
                forall|k: int| 0 <= k < boxes@.len() ==> box_in_range(#[trigger] boxes@[k]),
                forall|j: int|
                    0 <= j < i ==> #[trigger] node.children[j]@ == before.children[j].located(
                        models(boxes@),
                        from + 1 + total(counts.take(j)),
                        direction,
                    ),
                forall|j: int| i <= j < n ==> #[trigger] node.children[j]@ == before.children[j],
                forall|j: int| i <= j < n ==> #[trigger] node.children[j] == old(node).children[j],
            decreases n - i,
        {
            proof {
                total_step(counts, i as int);
                total_grows(counts, i as int + 1, n as int);
                total_all(counts);
                assert(counts[i as int] == before.children[i as int].visible().len());
            }
            let child: &mut Box<DTNode<CapabilityData>> = &mut node.children[i];
            next = populate_locations(child, boxes, next, direction);
            i = i + 1;
        }
        proof {
            node.view_unfold();
            assert(node@.children =~= before.child_located(models(boxes@), from as int, direction));
        }
    } else {
        proof {
            node.view_unfold();
            assert(node@.children =~= before.children);
        }
    }
    next
}

/// A tree of capabilities, with the side on which it is laid out and the
/// way in which its nodes are collapsed.
#[derive(Debug)]
pub struct CapabilityNodeTree {
    pub tree: DTNode<CapabilityData>,
    pub layout_direction: TreeLayoutDirection,
    pub tree_collapse_policy: TreeCollapsePolicy,
}

impl CapabilityNodeTree {
    /// A tree of one node, the root, which carries the identifier `ROOT`.
    pub fn new(layout_direction: TreeLayoutDirection, tree_collapse_policy: TreeCollapsePolicy)
        -> (r: Self)
        ensures
            r.layout_direction == layout_direction,
            r.tree_collapse_policy == tree_collapse_policy,
            r.tree@.children.len() == 0,
            !r.tree@.collapsed,
            r.tree@.data.id@ == "ROOT"@,
            r.tree@.data.parent_id@ == ""@,
            r.tree@.data.text@ == ""@,
            r.tree@.data.used_by_set == (UsedBySet {
                consumer: crate::used_by::UsedBy::Mixed,
                sbb: crate::used_by::UsedBy::Mixed,
                commercial: crate::used_by::UsedBy::Mixed,
            }),
            r.tree@.data.core_surround == CoreOrSurround::Mixed,
            r.tree@.data.description@ == ""@,
            r.tree@.data.notes@ == ""@,
            r.tree@.data.text_size.is_none(),
    {
        let data = CapabilityData::new_new(
            "ROOT",
            "",
            "",
            UsedBySet::all_mixed(),
            "",
            CoreOrSurround::Mixed,
            "",
        );
        let tree = DTNode::new(data);
        CapabilityNodeTree { tree, layout_direction, tree_collapse_policy }
    }

    /// Builds the tree on from its root by the steps of `items`; see
    /// `DTNode::grow_tree`.
    pub fn grow_tree(&mut self, items: Vec<DTNodeBuild<CapabilityData>>) -> (r: Result<
        (),
        InvalidGrowth,
    >)
        ensures
            r.is_ok() == old(self).tree@.grown(items@).is_some(),
            r.is_ok() ==> old(self).tree@.grown(items@) == Some(final(self).tree@),
            r.is_err() ==> final(self).tree@ == old(self).tree@,
            final(self).layout_direction == old(self).layout_direction,
            final(self).tree_collapse_policy == old(self).tree_collapse_policy,
    {
        self.tree.grow_tree(items)
    }

    /// The capability of the first node that carries `id`, each node
    /// coming before its children and the children in their order.
    pub fn find_data_by_id(&self, id: &str) -> (found: Option<&CapabilityData>)
        ensures
            match self.tree@.find_path(id@) {
                Some(path) => found == Some(&self.tree@.at(path).data),
                None => found.is_none(),
            },
    {
        self.tree.find_data_by_id(id)
    }

    /// The first node that carries `id`, to be changed in place.
    pub fn find_node_by_id_mut(&mut self, id: &str) -> (found: Option<
        &mut DTNode<CapabilityData>,
    >)
        ensures
            final(self).layout_direction == old(self).layout_direction,
            final(self).tree_collapse_policy == old(self).tree_collapse_policy,
            match found {
                Some(node) => old(self).tree@.find_path(id@).is_some() && node@ == old(self).tree@.at(old(self).tree@.find_path(id@).unwrap()) && final(self).tree@ == old(self).tree@.replace_at(old(self).tree@.find_path(id@).unwrap(), final(node)@),
                None => old(self).tree@.find_path(id@).is_none() && final(self).tree@ == old(self).tree@,
            },
    {
        self.tree.find_node_by_id_mut(id)
    }

    /// Adds a node for the capability below the first node that carries
    /// the identifier of its parent, and says whether there is such a node.
    /// Where there is none the tree stays as it is.
    pub fn add_node(&mut self, data: CapabilityData) -> (added: bool)
        ensures
            added == old(self).tree@.has_id(data.parent_id@),
            final(self).tree@ == old(self).tree@.with_child_under(
                data.parent_id@,
                Tree::leaf(data),
            ),
            final(self).layout_direction == old(self).layout_direction,
            final(self).tree_collapse_policy == old(self).tree_collapse_policy,
    {
        let parent_id = data.parent_id.clone();
        self.tree.add_child_under(&parent_id, DTNode::new(data))
    }

    /// Collapses or expands the first node that carries `node_id`, and
    /// says whether the tree must be laid out again; see
    /// `DTNode::toggle_collapse`.
    pub fn toggle_collapse(&mut self, node_id: &str) -> (changed: bool)
        ensures
            changed == old(self).tree@.can_toggle(node_id@),
            final(self).tree@ == old(self).tree@.toggled(node_id@),
            final(self).layout_direction == old(self).layout_direction,
            final(self).tree_collapse_policy == old(self).tree_collapse_policy,
            !changed ==> *final(self) == *old(self),
    {
        self.tree.toggle_collapse(node_id)
    }

    /// Lays out the tree from the sizes that its visible nodes hold, puts
    /// each visible node where the layout has its box, and sets the style of
    /// every node. Where the tree cannot be laid out it stays as it is.
    pub fn layout_measured(&mut self) -> (r: Result<Layout, LayoutError>)
        ensures
            final(self).layout_direction == old(self).layout_direction,
            final(self).tree_collapse_policy == old(self).tree_collapse_policy,
            old(self).tree@.laid_out(old(self).layout_direction, final(self).tree@, r),
    {
        let layout = match layout_tree(
            &self.tree,
            LAYER_SPACING,
            ITEM_SPACING,
            self.layout_direction,
        ) {
            Ok(layout) => layout,
            Err(e) => {
                return Err(e);
            },
        };
        proof {
            let t = self.tree@;
            let spacing = LAYER_SPACING as int;
            let gap = ITEM_SPACING as int;
            crate::layout_laws::layout_counts_visible_nodes(t, spacing, gap, self.layout_direction);
            assert forall|k: int| 0 <= k < layout.boxes@.len() implies box_in_range(
                #[trigger] layout.boxes@[k],
            ) by {
                assert(models(layout.boxes@)[k] == layout.boxes@[k]@);
                crate::layout_laws::layout_within_bounds(t, spacing, gap, self.layout_direction, k);
                t.band_facts(gap);
                t.height_facts();
                t.level_ends((t.height() - 1) as nat, spacing);
                crate::layout_laws::box_sides(t, spacing, gap, self.layout_direction, k);
            }
        }
        populate_locations(&mut self.tree, &layout.boxes, 0, self.layout_direction);
        set_node_loc_style(&mut self.tree);
        Ok(layout)
    }

    /// Asks `sizer` for the size of the text of each visible node, in the
    /// font and at the size in which the nodes are drawn: the answers, each
    /// node before its children and the children in their order. A hidden
    /// node is not asked for.
    pub fn measure<S: TextSizer>(&self, sizer: &S) -> (sizes: Vec<
        Result<(Coord, Coord), TextSizeError>,
    >)
        ensures
            measured_by(sizer, self.tree@.visible(), sizes@),
    {
        let nodes = self.tree.visible_data();
        let ghost seen = self.tree@.visible();
        let mut sizes: Vec<Result<(Coord, Coord), TextSizeError>> = Vec::new();
        let mut k: usize = 0;
        assert(pointees(nodes@).len() == nodes@.len());
        while k < nodes.len()
            invariant
                k <= nodes.len(),
                sizes@.len() == k,
                seen == pointees(nodes@),
                forall|j: int|
                    0 <= j < k ==> may_answer(
                        sizer,
                        seen[j].text@,
                        NODE_FONT,
                        NODE_FONT_SIZE,
                        #[trigger] sizes@[j],
                    ),
            decreases nodes.len() - k,
        {
            let text = nodes[k].text.as_str();
            let size = sizer.text_size(text, NODE_FONT, NODE_FONT_SIZE);
            assert(seen[k as int] == *nodes@[k as int]);
            assert(sizer.answers(text, NODE_FONT, NODE_FONT_SIZE, size));
            sizes.push(size);
            k = k + 1;
        }
        sizes
    }

    /// Notes for each visible node the size that `sizes` gives for its
    /// text, and lays out the tree from these sizes; see `layout_measured`.
    /// The answers are those for the visible nodes, each node before its
    /// children and the children in their order. A text without an answer, or
    /// with one that gives no size, has none, so that the tree is not laid
    /// out.
    pub fn layout_sized(&mut self, sizes: &Vec<Result<(Coord, Coord), TextSizeError>>) -> (r:
        Result<Layout, LayoutError>)
        ensures
            final(self).layout_direction == old(self).layout_direction,
            final(self).tree_collapse_policy == old(self).tree_collapse_policy,
            old(self).tree@.with_sizes(sizes@, 0).laid_out(
                old(self).layout_direction,
                final(self).tree@,
                r,
            ),
    {
        // the visible nodes can be counted, so the indices of their answers can
        let _ = self.tree.visible_count();
        note_sizes(&mut self.tree, sizes, 0);
        self.layout_measured()
    }

    /// Measures the texts of the visible nodes with `sizer`, and lays out
    /// the tree from what it gives: `measure`, then `layout_sized`. A text
    /// for which the sizer gives no size has none, so that the tree is not
    /// laid out.
    pub fn layout<S: TextSizer>(&mut self, sizer: &S) -> (r: Result<Layout, LayoutError>)
        ensures
            final(self).layout_direction == old(self).layout_direction,
            final(self).tree_collapse_policy == old(self).tree_collapse_policy,
            exists|sizes: Seq<Result<(Coord, Coord), TextSizeError>>|
                measured_by(sizer, old(self).tree@.visible(), sizes) && (#[trigger] old(
                    self,
                ).tree@.with_sizes(sizes, 0)).laid_out(
                    old(self).layout_direction,
                    final(self).tree@,
                    r,
                ),
    {
        let sizes = self.measure(sizer);
        self.layout_sized(&sizes)
    }
}

/// The smallest rectangle that holds the boxes of all the capabilities,
/// and `None` where there is no capability or one of them has no box.
pub open spec fn covering(nodes: Seq<CapabilityData>, direction: TreeLayoutDirection) -> Option<
    Rect,
>
    decreases nodes.len(),
{
    if nodes.len() == 0 {
        None
    } else if nodes.len() == 1 {
        nodes[0].bbox(direction)
    } else {
        match (covering(nodes.drop_last(), direction), nodes.last().bbox(direction)) {
            (Some(held), Some(last)) => Some(held.spec_cover(last)),
            _ => None,
        }
    }
}

impl CapabilityNodeTree {
    /// The smallest rectangle that holds the boxes of all the visible
    /// nodes, and `None` where one of them has no box.
    pub fn get_bbox(&self) -> (r: Option<Rect>)
        ensures
            r == covering(self.tree@.visible(), self.layout_direction),
            r.is_some() ==> r.unwrap().wf(),
    {
        let nodes = self.tree.visible_data();
        let ghost seen = self.tree@.visible();
        proof {
            self.tree@.visible_unfold();
            assert(nodes@.len() == seen.len());
            assert(seen.take(1).len() == 1);
            assert(seen.take(1)[0] == seen[0]);
        }
        assert(*nodes@[0] == seen[0]) by {
            assert(pointees(nodes@)[0] == *nodes@[0]);
        }
        let mut held = match nodes[0].get_bbox(self.layout_direction) {
            Some(first) => first,
            None => {
                proof {
                    not_covered(seen, self.layout_direction, 0);
                }
                return None;
            },
        };
        let mut i: usize = 1;
        while i < nodes.len()
            invariant
                1 <= i <= nodes.len(),
                seen == self.tree@.visible(),
                nodes@.len() == seen.len(),
                pointees(nodes@) == seen,
                held.wf(),
                covering(seen.take(i as int), self.layout_direction) == Some(held),
            decreases nodes.len() - i,
        {
            proof {
                assert(pointees(nodes@)[i as int] == *nodes@[i as int]);
                assert(seen.take(i as int + 1).drop_last() =~= seen.take(i as int));
                assert(seen.take(i as int + 1).last() == seen[i as int]);
            }
            match nodes[i].get_bbox(self.layout_direction) {
                Some(next) => {
                    held = held.cover(&next);
                },
                None => {
                    proof {
                        assert(seen[i as int].bbox(self.layout_direction).is_none());
                        not_covered(seen, self.layout_direction, i as int);
                    }
                    return None;
                },
            }
            i = i + 1;
        }
        assert(seen.take(seen.len() as int) =~= seen);
        Some(held)
    }
}

/// Where one of the capabilities has no box, nothing holds them all.
proof fn not_covered(nodes: Seq<CapabilityData>, direction: TreeLayoutDirection, k: int)
    requires
        0 <= k < nodes.len(),
        nodes[k].bbox(direction).is_none(),
    ensures
        covering(nodes, direction).is_none(),
    decreases nodes.len(),
{
    if nodes.len() > 1 && k < nodes.len() - 1 {
        assert(nodes.drop_last()[k] == nodes[k]);
        not_covered(nodes.drop_last(), direction, k);
    }
}

/// The capability of a row of the capabilities table, not measured, at
/// the origin, and taken for a branch.
pub open spec fn data_of_row(row: CapabilitiesRow) -> CapabilityData {
    CapabilityData {
        id: row.id,
        parent_id: row.parent_id,
        text: row.name,
        used_by_set: UsedBySet {
            consumer: row.used_by_consumer,
            sbb: row.used_by_sbb,
            commercial: row.used_by_commercial,
        },
        description: row.description,
        core_surround: row.core_surround,
        notes: row.notes,
        text_size: None,
        location: (0, 0),
        node_loc_style: NodeLocationStyle::BranchNode,
    }
}

/// The tree after the capability of a row has been added below its parent,
/// and `None` where the tree has no node for the parent.
pub open spec fn with_row(t: Tree<CapabilityData>, row: CapabilitiesRow) -> Option<
    Tree<CapabilityData>,
> {
    if t.has_id(row.parent_id@) {
        Some(t.with_child_under(row.parent_id@, Tree::leaf(data_of_row(row))))
    } else {
        None
    }
}

/// The two trees after the capabilities of the rows have been added, each
/// below its parent: those of the core to the first tree, those of the
/// surround systems to the second, and the others to both. The row of the
/// root is passed over. `None` where a tree to which a capability belongs
/// has no node for its parent.
pub open spec fn trees_with_rows(
    rows: Seq<CapabilitiesRow>,
    core: Tree<CapabilityData>,
    surround: Tree<CapabilityData>,
) -> Option<(Tree<CapabilityData>, Tree<CapabilityData>)>
    decreases rows.len(),
{
    if rows.len() == 0 {
        Some((core, surround))
    } else {
        let row = rows[0];
        if row.id@ == "ROOT"@ {
            trees_with_rows(rows.skip(1), core, surround)
        } else {
            let in_core = row.core_surround != CoreOrSurround::Surround;
            let in_surround = row.core_surround != CoreOrSurround::Core;
            let next_core = if in_core {
                with_row(core, row)
            } else {
                Some(core)
            };
            let next_surround = if in_surround {
                with_row(surround, row)
            } else {
                Some(surround)
            };
            match (next_core, next_surround) {
                (Some(c), Some(s)) => trees_with_rows(rows.skip(1), c, s),
                _ => None,
            }
        }
    }
}

/// The capability of a row of the capabilities table.
fn capability_of_row(row: &CapabilitiesRow) -> (data: CapabilityData)
    ensures
        data == data_of_row(*row),
{
    CapabilityData {
        id: row.id.clone(),
        parent_id: row.parent_id.clone(),
        text: row.name.clone(),
        used_by_set: UsedBySet::from_fields(
            row.used_by_consumer,
            row.used_by_sbb,
            row.used_by_commercial,
        ),
        description: row.description.clone(),
        core_surround: row.core_surround,
        notes: row.notes.clone(),
        text_size: None,
        location: (0, 0),
        node_loc_style: NodeLocationStyle::BranchNode,
    }
}

/// The tree of the core, which grows to the left, and the tree of the
/// surround systems, which grows to the right, with the capabilities of the
/// rows: see `trees_with_rows`. `None` where a capability has no parent in a
/// tree to which it belongs.
pub fn trees_from_capabilities(capabilities: &Vec<CapabilitiesRow>) -> (trees: Option<
    (CapabilityNodeTree, CapabilityNodeTree),
>)
    ensures
        exists|core: Tree<CapabilityData>, surround: Tree<CapabilityData>|
            #![trigger trees_with_rows(capabilities@, core, surround)]
            {
                &&& is_root_tree(core)
                &&& is_root_tree(surround)
                &&& match trees {
                    Some(trees) => trees_with_rows(capabilities@, core, surround) == Some(
                        (trees.0.tree@, trees.1.tree@),
                    ),
                    None => trees_with_rows(capabilities@, core, surround).is_none(),
                }
            },
        match trees {
            Some(trees) => trees.0.layout_direction == TreeLayoutDirection::Left
                && trees.1.layout_direction == TreeLayoutDirection::Right
                && trees.0.tree_collapse_policy == TreeCollapsePolicy::JavaScriptReplace
                && trees.1.tree_collapse_policy == TreeCollapsePolicy::JavaScriptReplace,
            None => true,
        },
{
    let mut core_tree = CapabilityNodeTree::new(
        TreeLayoutDirection::Left,
        TreeCollapsePolicy::JavaScriptReplace,
    );
    let mut surround_tree = CapabilityNodeTree::new(
        TreeLayoutDirection::Right,
        TreeCollapsePolicy::JavaScriptReplace,
    );
    let ghost core = core_tree.tree@;
    let ghost surround = surround_tree.tree@;
    let ghost rows = capabilities@;
    let mut i: usize = 0;
    assert(rows.skip(0) =~= rows);
    while i < capabilities.len()
        invariant
            i <= capabilities.len(),
            rows == capabilities@,
            is_root_tree(core),
            is_root_tree(surround),
            core_tree.layout_direction == TreeLayoutDirection::Left,
            surround_tree.layout_direction == TreeLayoutDirection::Right,
            core_tree.tree_collapse_policy == TreeCollapsePolicy::JavaScriptReplace,
            surround_tree.tree_collapse_policy == TreeCollapsePolicy::JavaScriptReplace,
            trees_with_rows(rows, core, surround) == trees_with_rows(
                rows.skip(i as int),
                core_tree.tree@,
                surround_tree.tree@,
            ),
        decreases capabilities.len() - i,
    {
        let row = &capabilities[i];
        proof {
            assert(rows.skip(i as int)[0] == *row);
            assert(rows.skip(i as int).skip(1) =~= rows.skip(i as int + 1));
        }
        if !same_text(row.id.as_str(), "ROOT") {
            let in_core = !matches!(row.core_surround, CoreOrSurround::Surround);
            let in_surround = !matches!(row.core_surround, CoreOrSurround::Core);
            let ghost core_before = core_tree.tree@;
            let ghost surround_before = surround_tree.tree@;
            let mut added = true;
            if in_core {
                added = core_tree.add_node(capability_of_row(row));
            }
            if added && in_surround {
                added = surround_tree.add_node(capability_of_row(row));
            }
            if !added {
                proof {
                    assert(trees_with_rows(
                        rows.skip(i as int),
                        core_before,
                        surround_before,
                    ).is_none());
                    assert(is_root_tree(core) && is_root_tree(surround));
                }
                return None;
            }
        }
        i = i + 1;
    }
    proof {
        assert(rows.skip(rows.len() as int) =~= Seq::empty());
        assert(is_root_tree(core) && is_root_tree(surround));
    }
    Some((core_tree, surround_tree))
}

/// The two trees of the capabilities of the data; see
/// `trees_from_capabilities`.
pub fn read_trees_from_capdb(capdb: &CapabilitiesDB) -> (trees: Option<
    (CapabilityNodeTree, CapabilityNodeTree),
>)
    ensures
        exists|core: Tree<CapabilityData>, surround: Tree<CapabilityData>|
            #![trigger trees_with_rows(capdb.capabilities@, core, surround)]
            {
                &&& is_root_tree(core)
                &&& is_root_tree(surround)
                &&& match trees {
                    Some(trees) => trees_with_rows(capdb.capabilities@, core, surround) == Some(
                        (trees.0.tree@, trees.1.tree@),
                    ),
                    None => trees_with_rows(capdb.capabilities@, core, surround).is_none(),
                }
            },
        match trees {
            Some(trees) => trees.0.layout_direction == TreeLayoutDirection::Left
                && trees.1.layout_direction == TreeLayoutDirection::Right
                && trees.0.tree_collapse_policy == TreeCollapsePolicy::JavaScriptReplace
                && trees.1.tree_collapse_policy == TreeCollapsePolicy::JavaScriptReplace,
            None => true,
        },
{
    trees_from_capabilities(&capdb.capabilities)
}

/// What is wrong with a row of a table of capabilities.
#[derive(Debug, PartialEq, Eq, Structural, Clone, Copy)]
pub enum RowError {
    /// The row has too few fields.
    MissingColumn,
    /// The level is not a whole number that is not negative, or is more than
    /// `i32::MAX`.
    BadLevel,
    /// The placement is not one of the words for the core and the surround.
    BadPlacement,
    /// A use is not one of the words for a use.
    BadUsage,
    /// A capability has no parent in a tree to which it belongs.
    UnknownParent,
    /// The row names no capability.
    NoName,
    /// There are more capabilities than can be numbered.
    TooMany,
}

/// The texts of the fields of a record.
pub open spec fn fields_of(record: Seq<String>) -> Seq<Seq<char>> {
    Seq::new(record.len(), |i: int| record[i]@)
}

/// What is wrong with a record of the table of capabilities, where
/// something is: it has fewer than eleven fields, or its level, its placement
/// or one of its three uses cannot be read, in this order.
pub open spec fn record_error(fields: Seq<Seq<char>>) -> Option<RowError> {
    if fields.len() < 11 {
        Some(RowError::MissingColumn)
    } else if crate::text::number_of(fields[3], i32::MAX as nat).is_none() {
        Some(RowError::BadLevel)
    } else if core_or_surround_of(fields[6]).is_none() {
        Some(RowError::BadPlacement)
    } else if crate::used_by::used_by_of(fields[8]).is_none() || crate::used_by::used_by_of(
        fields[9],
    ).is_none() || crate::used_by::used_by_of(fields[10]).is_none() {
        Some(RowError::BadUsage)
    } else {
        None
    }
}

/// Whether the row is what the record says: its identifier, that of its
/// parent, its name, its level, its description, its placement, its notes and
/// its three uses, in the order of the fields; the fifth field is not read.
pub open spec fn row_says(row: CapabilitiesRow, fields: Seq<Seq<char>>) -> bool {
    &&& row.id@ == fields[0]
    &&& row.parent_id@ == fields[1]
    &&& row.name@ == fields[2]
    &&& Some(row.level as nat) == crate::text::number_of(fields[3], i32::MAX as nat)
    &&& row.description@ == fields[5]
    &&& Some(row.core_surround) == core_or_surround_of(fields[6])
    &&& row.notes@ == fields[7]
    &&& Some(row.used_by_consumer) == crate::used_by::used_by_of(fields[8])
    &&& Some(row.used_by_sbb) == crate::used_by::used_by_of(fields[9])
    &&& Some(row.used_by_commercial) == crate::used_by::used_by_of(fields[10])
    &&& row.ssr_id.is_none()
}

/// Reads a record of the table of capabilities.
pub fn capability_row_from_record(record: &Vec<String>) -> (r: Result<CapabilitiesRow, RowError>)
    ensures
        match r {
            Ok(row) => record_error(fields_of(record@)).is_none() && row_says(
                row,
                fields_of(record@),
            ),
            Err(e) => record_error(fields_of(record@)) == Some(e),
        },
{
    if record.len() < 11 {
        return Err(RowError::MissingColumn);
    }
    let ghost fields = fields_of(record@);
    assert(fields[3] == record@[3]@ && fields[6] == record@[6]@ && fields[8] == record@[8]@
        && fields[9] == record@[9]@ && fields[10] == record@[10]@);
    let level = match crate::text::parse_number(record[3].as_str()) {
        Some(level) => level,
        None => {
            proof {
                level_limits(fields[3]);
            }
            return Err(RowError::BadLevel);
        },
    };
    proof {
        level_limits(fields[3]);
    }
    if level > i32::MAX as u64 {
        return Err(RowError::BadLevel);
    }
    let core_surround = match CoreOrSurround::from_text(record[6].as_str()) {
        Some(x) => x,
        None => {
            return Err(RowError::BadPlacement);
        },
    };
    let used_by_consumer = match UsedBy::from_text(record[8].as_str()) {
        Some(x) => x,
        None => {
            return Err(RowError::BadUsage);
        },
    };
    let used_by_sbb = match UsedBy::from_text(record[9].as_str()) {
        Some(x) => x,
        None => {
            return Err(RowError::BadUsage);
        },
    };
    let used_by_commercial = match UsedBy::from_text(record[10].as_str()) {
        Some(x) => x,
        None => {
            return Err(RowError::BadUsage);
        },
    };
    Ok(
        CapabilitiesRow {
            id: record[0].clone(),
            parent_id: record[1].clone(),
            name: record[2].clone(),
            level: level as i32,
            description: record[5].clone(),
            core_surround,
            notes: record[7].clone(),
            used_by_consumer,
            used_by_sbb,
            used_by_commercial,
            ssr_id: None,
        },
    )
}

/// A number within a smaller limit is the same number within a larger
/// one.
proof fn level_limits(s: Seq<char>)
    ensures
        match crate::text::number_of(s, u64::MAX as nat) {
            Some(n) => crate::text::number_of(s, i32::MAX as nat) == if n <= i32::MAX {
                Some(n)
            } else {
                None
            },
            None => crate::text::number_of(s, i32::MAX as nat).is_none(),
        },
{
}

/// The texts of the fields of the records.
pub open spec fn records_of(records: Seq<Vec<String>>) -> Seq<Seq<Seq<char>>> {
    Seq::new(records.len(), |i: int| fields_of(records[i]@))
}

/// The first thing that is wrong with one of the records, where something
/// is.
pub open spec fn first_record_error(records: Seq<Seq<Seq<char>>>) -> Option<RowError>
    decreases records.len(),
{
    if records.len() == 0 {
        None
    } else {
        match first_record_error(records.drop_last()) {
            Some(e) => Some(e),
            None => record_error(records.last()),
        }
    }
}

/// The two trees of the capabilities that the records of a table give:
/// each record is read by `capability_row_from_record`, and the rows are put
/// into the trees by `trees_from_capabilities`.
pub fn read_csv_from_db_rows(records: &Vec<Vec<String>>) -> (r: Result<
    (CapabilityNodeTree, CapabilityNodeTree),
    RowError,
>)
    ensures
        match r {
            Ok(trees) => first_record_error(records_of(records@)).is_none() && exists|
                rows: Seq<CapabilitiesRow>,
                core: Tree<CapabilityData>,
                surround: Tree<CapabilityData>,
            |
                #![trigger trees_with_rows(rows, core, surround)]
                {
                    &&& rows.len() == records@.len()
                    &&& forall|i: int|
                        0 <= i < rows.len() ==> row_says(#[trigger] rows[i], fields_of(records@[i]@))
                    &&& is_root_tree(core)
                    &&& is_root_tree(surround)
                    &&& trees_with_rows(rows, core, surround) == Some(
                        (trees.0.tree@, trees.1.tree@),
                    )
                } && trees.0.layout_direction == TreeLayoutDirection::Left
                && trees.1.layout_direction == TreeLayoutDirection::Right,
            Err(e) => match first_record_error(records_of(records@)) {
                Some(first) => e == first,
                None => e == RowError::UnknownParent,
            },
        },
{
    let mut rows: Vec<CapabilitiesRow> = Vec::new();
    let mut i: usize = 0;
    let ghost all = records_of(records@);
    assert(all.take(0) =~= Seq::empty());
    while i < records.len()
        invariant
            i <= records.len(),
            all == records_of(records@),
            rows@.len() == i,
            first_record_error(all.take(i as int)).is_none(),
            forall|k: int| 0 <= k < i ==> row_says(#[trigger] rows@[k], fields_of(records@[k]@)),
        decreases records.len() - i,
    {
        proof {
            assert(all.take(i as int + 1).drop_last() =~= all.take(i as int));
            assert(all.take(i as int + 1).last() == fields_of(records@[i as int]@));
        }
        match capability_row_from_record(&records[i]) {
            Ok(row) => {
                rows.push(row);
            },
            Err(e) => {
                proof {
                    record_errors_stay(all, i as int + 1);
                }
                return Err(e);
            },
        }
        i = i + 1;
    }
    assert(all.take(records.len() as int) =~= all);
    match trees_from_capabilities(&rows) {
        Some(trees) => Ok(trees),
        None => Err(RowError::UnknownParent),
    }
}

/// The first thing that is wrong with some of the records is the first
/// that is wrong with all.
proof fn record_errors_stay(records: Seq<Seq<Seq<char>>>, k: int)
    requires
        0 <= k <= records.len(),
        first_record_error(records.take(k)).is_some(),
    ensures
        first_record_error(records) == first_record_error(records.take(k)),
    decreases records.len() - k,
{
    if k < records.len() {
        assert(records.take(k + 1).drop_last() =~= records.take(k));
        record_errors_stay(records, k + 1);
    } else {
        assert(records.take(k) =~= records);
    }
}

/// Whether the tree is one node that carries the identifier `ROOT`: the
/// tree that `CapabilityNodeTree::new` makes.
pub open spec fn is_root_tree(t: Tree<CapabilityData>) -> bool {
    &&& t.children.len() == 0
    &&& !t.collapsed
    &&& t.data.id@ == "ROOT"@
    &&& t.data.parent_id@ == ""@
    &&& t.data.text@ == ""@
    &&& t.data.used_by_set == (UsedBySet {
        consumer: UsedBy::Mixed,
        sbb: UsedBy::Mixed,
        commercial: UsedBy::Mixed,
    })
    &&& t.data.core_surround == CoreOrSurround::Mixed
    &&& t.data.description@ == ""@
    &&& t.data.notes@ == ""@
    &&& t.data.text_size.is_none()
}

/// What a capability says, as texts.
pub struct DataModel {
    pub id: Seq<char>,
    pub parent_id: Seq<char>,
    pub text: Seq<char>,
    pub used_by_set: UsedBySet,
    pub description: Seq<char>,
    pub core_surround: CoreOrSurround,
    pub notes: Seq<char>,
    pub text_size: Option<(Coord, Coord)>,
    pub location: (Coord, Coord),
    pub node_loc_style: NodeLocationStyle,
}

/// What a step of building a tree of capabilities says.
pub enum StepModel {
    Add(DataModel),
    Start(bool),
    End,
}

impl CapabilityData {
    /// What the capability says.
    pub open spec fn model(self) -> DataModel {
        DataModel {
            id: self.id@,
            parent_id: self.parent_id@,
            text: self.text@,
            used_by_set: self.used_by_set,
            description: self.description@,
            core_surround: self.core_surround,
            notes: self.notes@,
            text_size: self.text_size,
            location: self.location,
            node_loc_style: self.node_loc_style,
        }
    }
}

/// What the capability says that `new_generating_id` makes as number
/// `number`.
pub open spec fn generated(number: nat, text: Seq<char>, used_by_set: UsedBySet) -> DataModel {
    DataModel {
        id: "XX"@ + decimal(number),
        parent_id: "XXX"@,
        text,
        used_by_set,
        description: ""@,
        core_surround: CoreOrSurround::Blank,
        notes: ""@,
        text_size: None,
        location: (0, 0),
        node_loc_style: NodeLocationStyle::BranchNode,
    }
}

/// What the step says.
pub open spec fn step_model(step: DTNodeBuild<CapabilityData>) -> StepModel {
    match step {
        DTNodeBuild::AddData(data) => StepModel::Add(data.model()),
        DTNodeBuild::StartChildren(collapsed) => StepModel::Start(collapsed),
        DTNodeBuild::EndChildren => StepModel::End,
    }
}

/// What the steps say.
pub open spec fn step_models(steps: Seq<DTNodeBuild<CapabilityData>>) -> Seq<StepModel> {
    Seq::new(steps.len(), |i: int| step_model(steps[i]))
}

/// The steps of one tree as far as the rows have been read: the steps,
/// the number of the next capability, and the names of the branch nodes of
/// the row before.
pub struct TreeFeed {
    pub steps: Seq<StepModel>,
    pub next_id: nat,
    pub prev: Seq<Seq<char>>,
}

/// How many of the branch nodes of the row before stay open for a row
/// with the branch nodes `nodes`: one more than the last place, up to `d`, at
/// which the two rows have the same name.
pub open spec fn kept_depth(prev: Seq<Seq<char>>, nodes: Seq<Seq<char>>, d: int) -> int
    decreases d + 1,
{
    if d < 0 {
        0
    } else if d < nodes.len() && prev[d] == nodes[d] {
        d + 1
    } else {
        kept_depth(prev, nodes, d - 1)
    }
}

/// Whether one of the fold paths has `len` names, and they are the names
/// of `nodes`.
pub open spec fn folded(paths: Seq<Seq<Seq<char>>>, nodes: Seq<Seq<char>>, len: int) -> bool {
    exists|i: int| 0 <= i < paths.len() && folds(#[trigger] paths[i], nodes, len)
}

/// `n` steps back to the parent.
pub open spec fn ends(n: nat) -> Seq<StepModel> {
    Seq::new(n, |i: int| StepModel::End)
}

/// The steps that open the branch nodes of `nodes` from index `from` on:
/// each is added and then gone into, collapsed where a fold path says so.
pub open spec fn opened(
    nodes: Seq<Seq<char>>,
    from: int,
    next_id: nat,
    paths: Seq<Seq<Seq<char>>>,
) -> Seq<StepModel>
    decreases nodes.len() - from,
{
    if from < 0 || from >= nodes.len() {
        Seq::empty()
    } else {
        seq![
            StepModel::Add(
                generated(
                    next_id,
                    nodes[from],
                    UsedBySet {
                        consumer: UsedBy::Mixed,
                        sbb: UsedBy::Mixed,
                        commercial: UsedBy::Mixed,
                    },
                ),
            ),
            StepModel::Start(folded(paths, nodes, from + 1)),
        ] + opened(nodes, from + 1, next_id + 1, paths)
    }
}

/// The steps of a tree after a row with the names `names` and the uses
/// `used_by_set`: the branch nodes of the row before that the row does not
/// share are closed, those that it has in addition are opened, and its last
/// name is added as a leaf.
pub open spec fn fed(
    feed: TreeFeed,
    names: Seq<Seq<char>>,
    used_by_set: UsedBySet,
    paths: Seq<Seq<Seq<char>>>,
) -> Result<TreeFeed, RowError> {
    if names.len() == 0 {
        Err(RowError::NoName)
    } else {
        let nodes = names.drop_last();
        let depth = kept_depth(feed.prev, nodes, feed.prev.len() - 1);
        if !(forall|k: int| 0 <= k < depth ==> feed.prev[k] == nodes[k]) {
            Err(RowError::UnknownParent)
        } else if feed.next_id + nodes.len() - depth >= usize::MAX {
            Err(RowError::TooMany)
        } else {
            Ok(
                TreeFeed {
                    steps: feed.steps + ends((feed.prev.len() - depth) as nat) + opened(
                        nodes,
                        depth,
                        feed.next_id,
                        paths,
                    ) + seq![
                        StepModel::Add(
                            generated(
                                (feed.next_id + nodes.len() - depth) as nat,
                                names.last(),
                                used_by_set,
                            ),
                        ),
                    ],
                    next_id: (feed.next_id + nodes.len() - depth + 1) as nat,
                    prev: nodes,
                },
            )
        }
    }
}

/// The steps of the two trees after a record: it has at least twelve
/// fields; the last three are the uses, the eighth is the placement, and the
/// first five, up to the first that is empty, are the names. A capability of
/// the core goes to the first tree, one of the surround to the second, and
/// one that may be either to both.
pub open spec fn fed_record(
    feeds: (TreeFeed, TreeFeed),
    fields: Seq<Seq<char>>,
    paths: Seq<Seq<Seq<char>>>,
) -> Result<(TreeFeed, TreeFeed), RowError> {
    if fields.len() < 12 {
        Err(RowError::MissingColumn)
    } else {
        match (
            crate::used_by::used_by_of(fields[9]),
            crate::used_by::used_by_of(fields[10]),
            crate::used_by::used_by_of(fields[11]),
        ) {
            (Some(consumer), Some(sbb), Some(commercial)) => {
                let used = UsedBySet { consumer, sbb, commercial };
                let names = leading_names(fields.take(5));
                let place = fields[7];
                let in_core = place == "Core"@ || place == "Not Sure"@ || place == ""@;
                let in_surround = place == "Surround"@ || place == "Not Sure"@ || place == ""@;
                if !in_core && !in_surround {
                    Err(RowError::BadPlacement)
                } else {
                    let core = if in_core {
                        fed(feeds.0, names, used, paths)
                    } else {
                        Ok(feeds.0)
                    };
                    match core {
                        Ok(core) => {
                            let surround = if in_surround {
                                fed(feeds.1, names, used, paths)
                            } else {
                                Ok(feeds.1)
                            };
                            match surround {
                                Ok(surround) => Ok((core, surround)),
                                Err(e) => Err(e),
                            }
                        },
                        Err(e) => Err(e),
                    }
                }
            },
            _ => Err(RowError::BadUsage),
        }
    }
}

/// The steps of the two trees after the records.
pub open spec fn fed_records(
    records: Seq<Seq<Seq<char>>>,
    paths: Seq<Seq<Seq<char>>>,
) -> Result<(TreeFeed, TreeFeed), RowError>
    decreases records.len(),
{
    if records.len() == 0 {
        Ok(
            (
                TreeFeed { steps: Seq::empty(), next_id: 1, prev: Seq::empty() },
                TreeFeed { steps: Seq::empty(), next_id: 1, prev: Seq::empty() },
            ),
        )
    } else {
        match fed_records(records.drop_last(), paths) {
            Ok(feeds) => fed_record(feeds, records.last(), paths),
            Err(e) => Err(e),
        }
    }
}

/// The steps of one tree, as the reading of the rows holds them.
pub struct FieldsTrackedPerTree {
    pub commands: Vec<DTNodeBuild<CapabilityData>>,
    pub id_source: usize,
    pub prev_node_names: Vec<String>,
}

impl FieldsTrackedPerTree {
    /// What has been read.
    pub open spec fn feed(self) -> TreeFeed {
        TreeFeed {
            steps: step_models(self.commands@),
            next_id: self.id_source as nat,
            prev: texts(self.prev_node_names@),
        }
    }

    /// Nothing read yet; the first capability is number 1.
    pub fn new() -> (r: Self)
        ensures
            r.feed() == (TreeFeed { steps: Seq::empty(), next_id: 1, prev: Seq::empty() }),
    {
        let r = FieldsTrackedPerTree {
            commands: Vec::new(),
            id_source: 1,
            prev_node_names: Vec::new(),
        };
        assert(step_models(r.commands@) =~= Seq::empty());
        assert(texts(r.prev_node_names@) =~= Seq::empty());
        r
    }

    /// Takes in a row with the names `names`, of which there is one at
    /// least, and the uses `used_by_set`. After an error the steps are not to
    /// be used.
    pub fn feed_row(
        &mut self,
        names: Vec<String>,
        used_by_set: UsedBySet,
        fold_info: &FoldInfo,
    ) -> (r: Result<(), RowError>)
        ensures
            match r {
                Ok(()) => fed(old(self).feed(), texts(names@), used_by_set, fold_info.paths())
                    == Ok::<TreeFeed, RowError>(final(self).feed()),
                Err(e) => fed(old(self).feed(), texts(names@), used_by_set, fold_info.paths())
                    == Err::<TreeFeed, RowError>(e),
            },
    {
        let ghost before = self.feed();
        let ghost all = texts(names@);
        let ghost paths = fold_info.paths();
        let mut node_names = names;
        let item = match node_names.pop() {
            Some(item) => item,
            None => {
                return Err(RowError::NoName);
            },
        };
        let ghost nodes = texts(node_names@);
        assert(nodes =~= all.drop_last());
        assert(item@ == all.last());
        assert(all =~= texts(node_names@).push(item@));
        let ghost prev = before.prev;
        // how many of the open branch nodes stay open
        let mut depth: usize = 0;
        let mut d: usize = self.prev_node_names.len();
        let mut found: bool = false;
        while d > 0 && !found
            invariant
                d <= self.prev_node_names.len(),
                prev == texts(self.prev_node_names@),
                nodes == texts(node_names@),
                !found ==> depth == 0 && kept_depth(prev, nodes, prev.len() - 1) == kept_depth(
                    prev,
                    nodes,
                    d - 1,
                ),
                found ==> depth == kept_depth(prev, nodes, prev.len() - 1) && depth
                    <= self.prev_node_names.len() && depth <= node_names.len(),
            decreases d + if found { 0int } else { 1int },
        {
            let at = d - 1;
            proof {
                assert(prev[at as int] == self.prev_node_names@[at as int]@);
                if at < node_names.len() {
                    assert(nodes[at as int] == node_names@[at as int]@);
                }
            }
            if at < node_names.len() && same_text(
                self.prev_node_names[at].as_str(),
                node_names[at].as_str(),
            ) {
                depth = at + 1;
                found = true;
            } else {
                d = d - 1;
            }
        }
        assert(kept_depth(prev, nodes, -1) == 0);
        assert(depth == kept_depth(prev, nodes, prev.len() - 1));
        // the node_names above must be the same
        let mut k: usize = 0;
        while k < depth
            invariant
                k <= depth,
                depth <= self.prev_node_names.len(),
                depth <= node_names.len(),
                prev == texts(self.prev_node_names@),
                nodes == texts(node_names@),
                forall|j: int| 0 <= j < k ==> prev[j] == nodes[j],
                depth == kept_depth(prev, nodes, prev.len() - 1),
                prev == before.prev,
                before == old(self).feed(),
                all == texts(names@),
                paths == fold_info.paths(),
                all == texts(node_names@).push(item@),
                all.len() > 0,
                nodes == all.drop_last(),
            decreases depth - k,
        {
            proof {
                assert(prev[k as int] == self.prev_node_names@[k as int]@);
                assert(nodes[k as int] == node_names@[k as int]@);
            }
            if !same_text(self.prev_node_names[k].as_str(), node_names[k].as_str()) {
                assert(before.prev[k as int] != nodes[k as int]);
                assert(!(forall|j: int| 0 <= j < depth ==> before.prev[j] == nodes[j]));
                assert(fed(before, all, used_by_set, paths) == Err::<TreeFeed, RowError>(
                    RowError::UnknownParent,
                ));
                return Err(RowError::UnknownParent);
            }
            k = k + 1;
        }
        let more = node_names.len() - depth;
        if more >= usize::MAX - self.id_source {
            return Err(RowError::TooMany);
        }
        let ghost held = step_models(self.commands@);
        let closing = self.prev_node_names.len() - depth;
        let mut c: usize = 0;
        assert(held + ends(0) =~= held);
        while c < closing
            invariant
                c <= closing,
                self.id_source == old(self).id_source,
                self.prev_node_names == old(self).prev_node_names,
                step_models(self.commands@) == held + ends(c as nat),
            decreases closing - c,
        {
            let ghost so_far = step_models(self.commands@);
            self.commands.push(DTNodeBuild::EndChildren);
            assert(step_models(self.commands@) =~= so_far.push(StepModel::End));
            assert(held + ends((c + 1) as nat) =~= (held + ends(c as nat)).push(StepModel::End));
            c = c + 1;
        }
        let ghost closed = step_models(self.commands@);
        let ghost first_id = self.id_source as nat;
        let mut at: usize = depth;
        assert(closed + opened(nodes, depth as int, first_id, paths) =~= closed + opened(
            nodes,
            at as int,
            self.id_source as nat,
            paths,
        ));
        while at < node_names.len()
            invariant
                depth <= at <= node_names.len(),
                nodes == texts(node_names@),
                paths == fold_info.paths(),
                self.prev_node_names == old(self).prev_node_names,
                self.id_source == first_id + (at - depth),
                first_id + (node_names.len() - depth) < usize::MAX,
                step_models(self.commands@) + opened(
                    nodes,
                    at as int,
                    self.id_source as nat,
                    paths,
                ) == closed + opened(nodes, depth as int, first_id, paths),
            decreases node_names.len() - at,
        {
            let collapsed = fold_info.is_fold_path(&node_names, at + 1);
            let ghost so_far = step_models(self.commands@);
            let ghost number = self.id_source as nat;
            let data = CapabilityData::new_generating_id(
                node_names[at].as_str(),
                UsedBySet::all_mixed(),
                &mut self.id_source,
            );
            assert(data.model() == generated(
                number,
                nodes[at as int],
                UsedBySet {
                    consumer: UsedBy::Mixed,
                    sbb: UsedBy::Mixed,
                    commercial: UsedBy::Mixed,
                },
            ));
            self.commands.push(DTNodeBuild::AddData(data));
            self.commands.push(DTNodeBuild::StartChildren(collapsed));
            assert(collapsed == folded(paths, nodes, at as int + 1));
            assert(step_models(self.commands@) =~= so_far + seq![
                StepModel::Add(data.model()),
                StepModel::Start(collapsed),
            ]);
            assert(so_far + opened(nodes, at as int, number, paths) =~= step_models(
                self.commands@,
            ) + opened(nodes, at as int + 1, number + 1, paths));
            at = at + 1;
        }
        let ghost so_far = step_models(self.commands@);
        let ghost number = self.id_source as nat;
        let data = CapabilityData::new_generating_id(item.as_str(), used_by_set, &mut self.id_source);
        assert(data.model() == generated(number, all.last(), used_by_set));
        self.commands.push(DTNodeBuild::AddData(data));
        assert(step_models(self.commands@) =~= so_far + seq![StepModel::Add(data.model())]);
        self.prev_node_names = node_names;
        assert(so_far + opened(nodes, node_names.len() as int, number, paths) =~= so_far);
        Ok(())
    }
}

/// The names of a record: its first five fields, up to the first that is
/// empty.
fn names_of_record(record: &Vec<String>) -> (names: Vec<String>)
    requires
        record@.len() >= 5,
    ensures
        texts(names@) == leading_names(fields_of(record@).take(5)),
{
    let ghost first = fields_of(record@).take(5);
    let mut names: Vec<String> = Vec::new();
    let mut k: usize = 0;
    let mut open: bool = true;
    assert(first.skip(0) =~= first);
    assert(texts(names@) =~= Seq::empty());
    while open && k < 5
        invariant
            k <= 5,
            record@.len() >= 5,
            first == fields_of(record@).take(5),
            open ==> leading_names(first) == texts(names@) + leading_names(first.skip(k as int)),
            !open ==> leading_names(first) == texts(names@),
        decreases 5 - k + if open { 1int } else { 0int },
    {
        assert(first.skip(k as int)[0] == record@[k as int]@);
        assert(first.skip(k as int).skip(1) =~= first.skip(k as int + 1));
        if record[k].as_str().is_empty() {
            open = false;
            assert(texts(names@) + Seq::<Seq<char>>::empty() =~= texts(names@));
        } else {
            let ghost before = texts(names@);
            names.push(record[k].clone());
            assert(texts(names@) =~= before + seq![record@[k as int]@]);
            assert(before + (seq![record@[k as int]@] + leading_names(first.skip(k as int + 1)))
                =~= texts(names@) + leading_names(first.skip(k as int + 1)));
            k = k + 1;
        }
    }
    assert(leading_names(first) =~= texts(names@)) by {
        if open {
            assert(first.skip(5) =~= Seq::empty());
        }
    }
    names
}

/// The steps that build the two trees of the capabilities of a table in
/// which each record holds the names of a capability and of the branch nodes
/// above it; see `fed_record`. The records of the capabilities below one
/// branch node follow each other.
pub fn commands_from_bokor_rows(records: &Vec<Vec<String>>, fold_info: &FoldInfo) -> (r: Result<
    (FieldsTrackedPerTree, FieldsTrackedPerTree),
    RowError,
>)
    ensures
        match r {
            Ok(fields) => fed_records(records_of(records@), fold_info.paths()) == Ok::<
                (TreeFeed, TreeFeed),
                RowError,
            >((fields.0.feed(), fields.1.feed())),
            Err(e) => fed_records(records_of(records@), fold_info.paths()) == Err::<
                (TreeFeed, TreeFeed),
                RowError,
            >(e),
        },
{
    let mut fields_core = FieldsTrackedPerTree::new();
    let mut fields_surround = FieldsTrackedPerTree::new();
    let ghost all = records_of(records@);
    let ghost paths = fold_info.paths();
    let mut i: usize = 0;
    assert(all.take(0) =~= Seq::empty());
    while i < records.len()
        invariant
            i <= records.len(),
            all == records_of(records@),
            paths == fold_info.paths(),
            fed_records(all.take(i as int), paths) == Ok::<(TreeFeed, TreeFeed), RowError>(
                (fields_core.feed(), fields_surround.feed()),
            ),
        decreases records.len() - i,
    {
        let record = &records[i];
        let ghost fields = fields_of(record@);
        proof {
            assert(all.take(i as int + 1).drop_last() =~= all.take(i as int));
            assert(all.take(i as int + 1).last() == fields);
        }
        if record.len() < 12 {
            proof {
                feeding_fails(all, paths, i as int + 1);
            }
            return Err(RowError::MissingColumn);
        }
        assert(fields[7] == record@[7]@ && fields[9] == record@[9]@ && fields[10] == record@[10]@
            && fields[11] == record@[11]@);
        let used = match (
            UsedBy::from_text(record[9].as_str()),
            UsedBy::from_text(record[10].as_str()),
            UsedBy::from_text(record[11].as_str()),
        ) {
            (Some(consumer), Some(sbb), Some(commercial)) => UsedBySet::from_fields(
                consumer,
                sbb,
                commercial,
            ),
            _ => {
                proof {
                    feeding_fails(all, paths, i as int + 1);
                }
                return Err(RowError::BadUsage);
            },
        };
        let place = record[7].as_str();
        let either = same_text(place, "Not Sure") || same_text(place, "");
        let in_core = either || same_text(place, "Core");
        let in_surround = either || same_text(place, "Surround");
        if !in_core && !in_surround {
            proof {
                feeding_fails(all, paths, i as int + 1);
            }
            return Err(RowError::BadPlacement);
        }
        if in_core {
            match fields_core.feed_row(names_of_record(record), used, fold_info) {
                Ok(()) => {},
                Err(e) => {
                    proof {
                        feeding_fails(all, paths, i as int + 1);
                    }
                    return Err(e);
                },
            }
        }
        if in_surround {
            match fields_surround.feed_row(names_of_record(record), used, fold_info) {
                Ok(()) => {},
                Err(e) => {
                    proof {
                        feeding_fails(all, paths, i as int + 1);
                    }
                    return Err(e);
                },
            }
        }
        i = i + 1;
    }
    assert(all.take(records.len() as int) =~= all);
    Ok((fields_core, fields_surround))
}

/// Where some of the records cannot be read, all of them cannot.
proof fn feeding_fails(records: Seq<Seq<Seq<char>>>, paths: Seq<Seq<Seq<char>>>, k: int)
    requires
        0 <= k <= records.len(),
        fed_records(records.take(k), paths).is_err(),
    ensures
        fed_records(records, paths) == fed_records(records.take(k), paths),
    decreases records.len() - k,
{
    if k < records.len() {
        assert(records.take(k + 1).drop_last() =~= records.take(k));
        feeding_fails(records, paths, k + 1);
    } else {
        assert(records.take(k) =~= records);
    }
}

/// How often one can go down from the current node, and how often back
/// up, after steps that say `steps`, when these numbers are `state` before
/// them; `None` where a step cannot be taken.
pub open spec fn flow(state: (int, int), steps: Seq<StepModel>) -> Option<(int, int)>
    decreases steps.len(),
{
    if steps.len() == 0 {
        Some(state)
    } else {
        match steps[0] {
            StepModel::Add(_) => flow((1, state.1), steps.skip(1)),
            StepModel::Start(_) => if state.0 > 0 {
                flow((state.0 - 1, state.1 + 1), steps.skip(1))
            } else {
                None
            },
            StepModel::End => if state.1 > 0 {
                flow((state.0 + 1, state.1 - 1), steps.skip(1))
            } else {
                None
            },
        }
    }
}

/// Steps can be taken exactly when what they say can.
proof fn balanced_is_flow(below: int, above: int, steps: Seq<DTNodeBuild<CapabilityData>>)
    ensures
        balanced(below, above, steps) == flow((below, above), step_models(steps)).is_some(),
    decreases steps.len(),
{
    let models = step_models(steps);
    if steps.len() > 0 {
        assert(models[0] == step_model(steps[0]));
        assert(models.skip(1) =~= step_models(steps.skip(1)));
        match steps[0] {
            DTNodeBuild::AddData(_) => {
                balanced_is_flow(1, above, steps.skip(1));
            },
            DTNodeBuild::StartChildren(_) => {
                balanced_is_flow(below - 1, above + 1, steps.skip(1));
            },
            DTNodeBuild::EndChildren => {
                balanced_is_flow(below + 1, above - 1, steps.skip(1));
            },
        }
    }
}

/// Steps after steps are taken from where the first of them end.
proof fn flow_on(state: (int, int), first: Seq<StepModel>, then: Seq<StepModel>)
    ensures
        flow(state, first + then) == match flow(state, first) {
            Some(middle) => flow(middle, then),
            None => None,
        },
    decreases first.len(),
{
    if first.len() == 0 {
        assert(first + then =~= then);
    } else {
        assert((first + then)[0] == first[0]);
        assert((first + then).skip(1) =~= first.skip(1) + then);
        match first[0] {
            StepModel::Add(_) => {
                flow_on((1, state.1), first.skip(1), then);
            },
            StepModel::Start(_) => {
                if state.0 > 0 {
                    flow_on((state.0 - 1, state.1 + 1), first.skip(1), then);
                }
            },
            StepModel::End => {
                if state.1 > 0 {
                    flow_on((state.0 + 1, state.1 - 1), first.skip(1), then);
                }
            },
        }
    }
}

/// As many steps back up can be taken as one is below.
proof fn flow_of_ends(state: (int, int), n: nat)
    requires
        n <= state.1,
        0 <= state.0,
    ensures
        flow(state, ends(n)) == Some((state.0 + n, state.1 - n)),
    decreases n,
{
    if n > 0 {
        assert(ends(n).skip(1) =~= ends((n - 1) as nat));
        flow_of_ends((state.0 + 1, state.1 - 1), (n - 1) as nat);
    }
}

/// The steps that open branch nodes can be taken.
proof fn flow_of_opened(
    state: (int, int),
    nodes: Seq<Seq<char>>,
    from: int,
    next_id: nat,
    paths: Seq<Seq<Seq<char>>>,
)
    requires
        0 <= from <= nodes.len(),
        0 <= state.0,
    ensures
        flow(state, opened(nodes, from, next_id, paths)) == if from < nodes.len() {
            Some((0int, state.1 + nodes.len() - from))
        } else {
            Some(state)
        },
    decreases nodes.len() - from,
{
    if from < nodes.len() {
        let steps = opened(nodes, from, next_id, paths);
        let rest = opened(nodes, from + 1, next_id + 1, paths);
        assert(steps.len() >= 2);
        assert(steps[0] is Add);
        assert(steps[1] is Start);
        assert(steps.skip(1).skip(1) =~= rest);
        assert(steps.skip(1)[0] == steps[1]);
        assert(flow(state, steps) == flow((1, state.1), steps.skip(1)));
        assert(flow((1, state.1), steps.skip(1)) == flow((0, state.1 + 1), rest));
        flow_of_opened((0, state.1 + 1), nodes, from + 1, next_id + 1, paths);
    }
}

/// Whether the steps that have been read can be taken from a root alone,
/// and end as deep as the row before has branch nodes.
pub open spec fn flows(feed: TreeFeed) -> bool {
    match flow((0, 0), feed.steps) {
        Some(end) => 0 <= end.0 && end.1 == feed.prev.len(),
        None => false,
    }
}

/// The steps of a row can be taken after those of the rows before it.
proof fn fed_flows(
    feed: TreeFeed,
    names: Seq<Seq<char>>,
    used_by_set: UsedBySet,
    paths: Seq<Seq<Seq<char>>>,
)
    requires
        flows(feed),
        fed(feed, names, used_by_set, paths).is_ok(),
    ensures
        flows(fed(feed, names, used_by_set, paths).unwrap()),
{
    let nodes = names.drop_last();
    let depth = kept_depth(feed.prev, nodes, feed.prev.len() - 1);
    kept_depth_bounds(feed.prev, nodes, feed.prev.len() - 1);
    let start = flow((0, 0), feed.steps).unwrap();
    let closing = ends((feed.prev.len() - depth) as nat);
    let opening = opened(nodes, depth, feed.next_id, paths);
    let leaf = seq![
        StepModel::Add(
            generated((feed.next_id + nodes.len() - depth) as nat, names.last(), used_by_set),
        ),
    ];
    flow_on((0, 0), feed.steps, closing);
    flow_of_ends(start, (feed.prev.len() - depth) as nat);
    let closed = (start.0 + feed.prev.len() - depth, depth);
    assert(flow((0, 0), feed.steps + closing) == Some(closed));
    flow_on((0, 0), feed.steps + closing, opening);
    flow_of_opened(closed, nodes, depth, feed.next_id, paths);
    let open = if depth < nodes.len() {
        (0int, nodes.len() as int)
    } else {
        closed
    };
    assert(flow((0, 0), feed.steps + closing + opening) == Some(open));
    flow_on((0, 0), feed.steps + closing + opening, leaf);
    assert(leaf.skip(1) =~= Seq::empty());
    assert(flow(open, leaf) == flow((1, open.1), leaf.skip(1)));
    assert(flow((0, 0), feed.steps + closing + opening + leaf) == Some((1int, open.1)));
    assert(fed(feed, names, used_by_set, paths).unwrap().steps == feed.steps + closing + opening
        + leaf);
}

/// The branch nodes that stay open are among those of both rows.
proof fn kept_depth_bounds(prev: Seq<Seq<char>>, nodes: Seq<Seq<char>>, d: int)
    requires
        -1 <= d < prev.len(),
    ensures
        0 <= kept_depth(prev, nodes, d) <= d + 1,
        kept_depth(prev, nodes, d) <= nodes.len(),
    decreases d + 1,
{
    if d >= 0 && !(d < nodes.len() && prev[d] == nodes[d]) {
        kept_depth_bounds(prev, nodes, d - 1);
    }
}

/// The steps that records give can be taken from a root alone.
proof fn fed_records_flow(records: Seq<Seq<Seq<char>>>, paths: Seq<Seq<Seq<char>>>)
    requires
        fed_records(records, paths).is_ok(),
    ensures
        flows(fed_records(records, paths).unwrap().0),
        flows(fed_records(records, paths).unwrap().1),
    decreases records.len(),
{
    if records.len() > 0 {
        fed_records_flow(records.drop_last(), paths);
        let feeds = fed_records(records.drop_last(), paths).unwrap();
        let fields = records.last();
        let used = UsedBySet {
            consumer: crate::used_by::used_by_of(fields[9]).unwrap(),
            sbb: crate::used_by::used_by_of(fields[10]).unwrap(),
            commercial: crate::used_by::used_by_of(fields[11]).unwrap(),
        };
        let names = leading_names(fields.take(5));
        let place = fields[7];
        if place == "Core"@ || place == "Not Sure"@ || place == ""@ {
            fed_flows(feeds.0, names, used, paths);
        }
        if place == "Surround"@ || place == "Not Sure"@ || place == ""@ {
            fed_flows(feeds.1, names, used, paths);
        }
    }
}

/// The tree of the core, which grows to the left, and the tree of the
/// surround capabilities, which grows to the right, that the records of a
/// table build: see `commands_from_bokor_rows`.
pub fn read_csv_from_bokor_rows(records: &Vec<Vec<String>>, fold_info: &FoldInfo) -> (r: Result<
    (CapabilityNodeTree, CapabilityNodeTree),
    RowError,
>)
    ensures
        match r {
            Ok(trees) => match fed_records(records_of(records@), fold_info.paths()) {
                Ok(feeds) => built_by(trees.0.tree@, feeds.0.steps) && built_by(
                    trees.1.tree@,
                    feeds.1.steps,
                ) && trees.0.layout_direction == TreeLayoutDirection::Left
                    && trees.1.layout_direction == TreeLayoutDirection::Right,
                Err(_) => false,
            },
            Err(e) => fed_records(records_of(records@), fold_info.paths()) == Err::<
                (TreeFeed, TreeFeed),
                RowError,
            >(e),
        },
{
    let fields = match commands_from_bokor_rows(records, fold_info) {
        Ok(fields) => fields,
        Err(e) => {
            return Err(e);
        },
    };
    let mut core_tree = CapabilityNodeTree::new(
        TreeLayoutDirection::Left,
        TreeCollapsePolicy::JavaScriptReplace,
    );
    let mut surround_tree = CapabilityNodeTree::new(
        TreeLayoutDirection::Right,
        TreeCollapsePolicy::JavaScriptReplace,
    );
    let ghost core = core_tree.tree@;
    let ghost surround = surround_tree.tree@;
    let ghost core_steps = fields.0.commands@;
    let ghost surround_steps = fields.1.commands@;
    proof {
        fed_records_flow(records_of(records@), fold_info.paths());
        balanced_is_flow(0, 0, core_steps);
        balanced_is_flow(0, 0, surround_steps);
        grow_is_balanced(core, 0, core_steps);
        grow_is_balanced(surround, 0, surround_steps);
        assert(core.spine_len() == 0);
        assert(surround.spine_len() == 0);
    }
    let grown_core = core_tree.grow_tree(fields.0.commands);
    let grown_surround = surround_tree.grow_tree(fields.1.commands);
    proof {
        assert(grown_core.is_ok() && grown_surround.is_ok());
        assert(is_root_tree(core) && core.grown(core_steps) == Some(core_tree.tree@));
        assert(is_root_tree(surround) && surround.grown(surround_steps) == Some(
            surround_tree.tree@,
        ));
    }
    Ok((core_tree, surround_tree))
}

/// Whether the tree is built from a root alone by steps that say `steps`.
pub open spec fn built_by(tree: Tree<CapabilityData>, steps: Seq<StepModel>) -> bool {
    exists|root: Tree<CapabilityData>, built: Seq<DTNodeBuild<CapabilityData>>|
        #![trigger root.grown(built)]
        is_root_tree(root) && step_models(built) == steps && root.grown(built) == Some(tree)
}

/// How a node is drawn: its box, where its text begins and where the
/// baseline of the text lies, the class of its tags, and, where it has one,
/// the dot that collapses and expands it: where the middle of the dot lies,
/// and its colour.
#[derive(Debug, Clone, Copy)]
pub struct NodeShape {
    pub bbox: Rect,
    pub text_left: Coord,
    pub text_baseline: Coord,
    pub class: &'static str,
    pub control: Option<(Coord, Coord, &'static str)>,
}

/// The class of the tags of a node: that of a leaf for a branch node that
/// is collapsed.
pub open spec fn class_of(style: NodeLocationStyle, collapsed: bool) -> &'static str {
    match style {
        NodeLocationStyle::RootNode => "root",
        NodeLocationStyle::BranchNode => if collapsed {
            "leaf"
        } else {
            "branch"
        },
        NodeLocationStyle::LeafNode => "leaf",
    }
}

/// The ends and the control points of the curve between the box of a node
/// and the box of one of its children: from the middle of the side of the
/// parent that faces the children to the middle of the side of the child that
/// faces the parent; each control point lies `offset` from its end, towards
/// the other box.
pub open spec fn connector_of(
    parent: Rect,
    child: Rect,
    direction: TreeLayoutDirection,
    offset: Coord,
) -> ((int, int), (int, int), (int, int), (int, int)) {
    let parent_y = parent.top + parent.height / 2;
    let child_y = child.top + child.height / 2;
    match direction {
        TreeLayoutDirection::Right => (
            (parent.spec_right(), parent_y),
            (parent.spec_right() + offset, parent_y),
            (child.left - offset, child_y),
            (child.left as int, child_y),
        ),
        TreeLayoutDirection::Left => (
            (parent.left as int, parent_y),
            (parent.left - offset, parent_y),
            (child.spec_right() + offset, child_y),
            (child.spec_right(), child_y),
        ),
    }
}

/// The curve between the box of a node and the box of one of its
/// children; see `connector_of`.
pub fn connector(parent: &Rect, child: &Rect, direction: TreeLayoutDirection, offset: Coord) -> (r:
    ((Coord, Coord), (Coord, Coord), (Coord, Coord), (Coord, Coord)))
    requires
        parent.wf(),
        child.wf(),
        0 <= offset <= crate::geometry::EDGE_LIMIT,
    ensures
        ((r.0.0 as int, r.0.1 as int), (r.1.0 as int, r.1.1 as int), (r.2.0 as int, r.2.1 as int), (
            r.3.0 as int,
            r.3.1 as int,
        )) == connector_of(*parent, *child, direction, offset),
{
    let parent_y = parent.center_y();
    let child_y = child.center_y();
    match direction {
        TreeLayoutDirection::Right => (
            (parent.right(), parent_y),
            (parent.right() + offset, parent_y),
            (child.left() - offset, child_y),
            (child.left(), child_y),
        ),
        TreeLayoutDirection::Left => (
            (parent.left(), parent_y),
            (parent.left() - offset, parent_y),
            (child.right() + offset, child_y),
            (child.right(), child_y),
        ),
    }
}

impl CapabilityData {
    /// How the node is drawn, where it has a box. The text begins the
    /// padding inside the box, and its baseline lies `BASELINE_RISE` above
    /// the padding at the bottom. A branch node has a dot where the policy
    /// asks for one: at the far side of a box of its width beyond the node's
    /// location, black where the node is collapsed and white where it is not.
    pub open spec fn shape_of(
        self,
        collapsed: bool,
        direction: TreeLayoutDirection,
        policy: TreeCollapsePolicy,
    ) -> Option<NodeShape> {
        match self.bbox(direction) {
            Some(bbox) => Some(
                NodeShape {
                    bbox,
                    text_left: (bbox.left + TEXT_ITEM_PADDING) as Coord,
                    text_baseline: (bbox.spec_bottom() - TEXT_ITEM_PADDING - BASELINE_RISE) as Coord,
                    class: class_of(self.node_loc_style, collapsed),
                    control: if self.node_loc_style == NodeLocationStyle::BranchNode && policy
                        == TreeCollapsePolicy::JavaScriptReplace {
                        Some(
                            (
                                match direction {
                                    TreeLayoutDirection::Right => bbox.spec_right() as Coord,
                                    TreeLayoutDirection::Left => bbox.left,
                                },
                                (bbox.top + bbox.height / 2) as Coord,
                                if collapsed {
                                    "#000000"
                                } else {
                                    "#FFFFFF"
                                },
                            ),
                        )
                    } else {
                        None
                    },
                },
            ),
            None => None,
        }
    }

    /// How the node is drawn, and `None` where it has no box.
    pub fn shape(&self, collapsed: bool, direction: TreeLayoutDirection, policy: TreeCollapsePolicy)
        -> (r: Option<NodeShape>)
        ensures
            r == self.shape_of(collapsed, direction, policy),
    {
        let bbox = match self.get_bbox(direction) {
            Some(bbox) => bbox,
            None => {
                return None;
            },
        };
        let class = match self.node_loc_style {
            NodeLocationStyle::RootNode => "root",
            NodeLocationStyle::BranchNode => if collapsed {
                "leaf"
            } else {
                "branch"
            },
            NodeLocationStyle::LeafNode => "leaf",
        };
        let wants_control = matches!(self.node_loc_style, NodeLocationStyle::BranchNode)
            && matches!(policy, TreeCollapsePolicy::JavaScriptReplace);
        let control = if wants_control {
            Some(
                (
                    match direction {
                        TreeLayoutDirection::Right => bbox.right(),
                        TreeLayoutDirection::Left => bbox.left(),
                    },
                    bbox.center_y(),
                    if collapsed {
                        "#000000"
                    } else {
                        "#FFFFFF"
                    },
                ),
            )
        } else {
            None
        };
        Some(
            NodeShape {
                bbox,
                text_left: bbox.left() + TEXT_ITEM_PADDING,
                text_baseline: bbox.bottom() - TEXT_ITEM_PADDING - BASELINE_RISE,
                class,
                control,
            },
        )
    }
}

/// The path of a curve with these ends and control points, as the `d` of
/// an SVG path.
pub open spec fn curve_path(c: ((int, int), (int, int), (int, int), (int, int))) -> Seq<char> {
    "M "@ + signed_decimal(c.0.0) + " "@ + signed_decimal(c.0.1) + " C "@ + signed_decimal(c.1.0)
        + " "@ + signed_decimal(c.1.1) + ", "@ + signed_decimal(c.2.0) + " "@ + signed_decimal(
        c.2.1,
    ) + ", "@ + signed_decimal(c.3.0) + " "@ + signed_decimal(c.3.1)
}

/// The text of the style sheet that goes with a tree.
pub const LEAF_STYLE: &'static str =
    "\n          text.leaf {\n            pointer-events: none;\n          }\n        ";

impl CapabilityData {
    /// The attributes of the box of the node.
    pub open spec fn box_pairs(self, shape: NodeShape) -> Seq<(Seq<char>, Seq<char>)> {
        seq![
            ("x"@, signed_decimal(shape.bbox.left as int)),
            ("y"@, signed_decimal(shape.bbox.top as int)),
            ("width"@, signed_decimal(shape.bbox.width as int)),
            ("height"@, signed_decimal(shape.bbox.height as int)),
            ("rx"@, signed_decimal(NODE_ITEM_ROUND_CORNER as int)),
            ("fill"@, color_strs(self.used_by_set).0@),
            ("stroke"@, "black"@),
            ("stroke-width"@, "1"@),
            ("onclick"@, "show_node_data('"@ + self.id@ + "')"@),
            ("class"@, shape.class@),
        ]
    }

    /// The attributes of the text of the node.
    pub open spec fn text_pairs(self, shape: NodeShape) -> Seq<(Seq<char>, Seq<char>)> {
        seq![
            ("x"@, signed_decimal(shape.text_left as int)),
            ("y"@, signed_decimal(shape.text_baseline as int)),
            ("font-family"@, "Arial"@),
            ("fill"@, color_strs(self.used_by_set).1@),
            ("style"@, "font-style: normal; font-size: 12.4px; pointer-events: none"@),
            ("class"@, shape.class@),
        ]
    }

    /// The attributes of the dot that collapses and expands the node.
    pub open spec fn control_pairs(self, control: (Coord, Coord, &'static str)) -> Seq<
        (Seq<char>, Seq<char>),
    > {
        seq![
            ("cx"@, signed_decimal(control.0 as int)),
            ("cy"@, signed_decimal(control.1 as int)),
            ("r"@, signed_decimal(COLLAPSE_DOT_RADIUS as int)),
            ("fill"@, control.2@),
            ("stroke"@, "#000000"@),
            ("stroke-width"@, "1.0"@),
            ("onclick"@, "toggle_then_draw('"@ + self.id@ + "')"@),
        ]
    }

    /// The tags of the node alone, which has the shape `shape`: nothing
    /// for a root, and else its box, its text and, where it has one, its dot.
    #[verifier::opaque]
    pub open spec fn tags(self, shape: NodeShape, indent: Seq<char>, depth: nat) -> Seq<char> {
        if self.node_loc_style == NodeLocationStyle::RootNode {
            Seq::empty()
        } else {
            single_tag_text(indent, depth, "rect"@, self.box_pairs(shape)) + text_tag_text(
                indent,
                depth,
                "text"@,
                self.text_pairs(shape),
                self.text@,
            ) + match shape.control {
                Some(control) => single_tag_text(
                    indent,
                    depth,
                    "circle"@,
                    self.control_pairs(control),
                ),
                None => Seq::empty(),
            }
        }
    }

    /// Writes the tags of the node alone; nothing where it has no box.
    pub fn draw<W: TagWriter>(
        &self,
        collapsed: bool,
        direction: TreeLayoutDirection,
        policy: TreeCollapsePolicy,
        tag_writer: &mut W,
    ) -> (r: Result<(), TagWriterError>)
        ensures
            final(tag_writer).depth() == old(tag_writer).depth(),
            final(tag_writer).indent() == old(tag_writer).indent(),
            match self.shape_of(collapsed, direction, policy) {
                Some(shape) => r.is_ok() && final(tag_writer).written() == old(tag_writer).written() + self.tags(shape, old(tag_writer).indent(), old(tag_writer).depth()),
                None => r == Err::<(), TagWriterError>(TagWriterError::Unplaced) && final(tag_writer).written() == old(tag_writer).written(),
            },
    {
        let shape = match self.shape(collapsed, direction, policy) {
            Some(shape) => shape,
            None => {
                return Err(TagWriterError::Unplaced);
            },
        };
        let ghost before = tag_writer.written();
        let ghost indent = tag_writer.indent();
        let ghost depth = tag_writer.depth();
        proof {
            reveal(CapabilityData::tags);
        }
        if matches!(self.node_loc_style, NodeLocationStyle::RootNode) {
            assert(before + self.tags(shape, indent, depth) =~= before);
            return Ok(());
        }
        let colors = get_color_strs(&self.used_by_set);
        let mut onclick = "show_node_data('".to_owned();
        onclick.append(self.id.as_str());
        onclick.append("')");
        let frame = Attributes::new().with_text(
            "x",
            signed_decimal_text(shape.bbox.left()).as_str(),
        ).with_text("y", signed_decimal_text(shape.bbox.top()).as_str()).with_text(
            "width",
            signed_decimal_text(shape.bbox.width()).as_str(),
        ).with_text("height", signed_decimal_text(shape.bbox.height()).as_str()).with_text(
            "rx",
            signed_decimal_text(NODE_ITEM_ROUND_CORNER).as_str(),
        ).with_text("fill", colors.0).with_text("stroke", "black").with_text(
            "stroke-width",
            "1",
        ).with_text("onclick", onclick.as_str()).with_text("class", shape.class);
        assert(frame.pairs() =~= self.box_pairs(shape));
        let _ = tag_writer.single_tag("rect", frame);
        let name = Attributes::new().with_text(
            "x",
            signed_decimal_text(shape.text_left).as_str(),
        ).with_text("y", signed_decimal_text(shape.text_baseline).as_str()).with_text(
            "font-family",
            "Arial",
        ).with_text("fill", colors.1).with_text(
            "style",
            "font-style: normal; font-size: 12.4px; pointer-events: none",
        ).with_text("class", shape.class);
        assert(name.pairs() =~= self.text_pairs(shape));
        let _ = tag_writer.tag_with_text("text", name, self.text.as_str());
        match shape.control {
            Some(control) => {
                let mut toggle = "toggle_then_draw('".to_owned();
                toggle.append(self.id.as_str());
                toggle.append("')");
                let dot = Attributes::new().with_text(
                    "cx",
                    signed_decimal_text(control.0).as_str(),
                ).with_text("cy", signed_decimal_text(control.1).as_str()).with_text(
                    "r",
                    signed_decimal_text(COLLAPSE_DOT_RADIUS).as_str(),
                ).with_text("fill", control.2).with_text("stroke", "#000000").with_text(
                    "stroke-width",
                    "1.0",
                ).with_text("onclick", toggle.as_str());
                assert(dot.pairs() =~= self.control_pairs(control));
                let _ = tag_writer.single_tag("circle", dot);
            },
            None => {},
        }
        assert(tag_writer.written() =~= before + self.tags(shape, indent, depth));
        Ok(())
    }
}

impl Tree<CapabilityData> {
    /// For each child, whether all that is visible of it has a box.
    pub open spec fn child_placed(self, direction: TreeLayoutDirection) -> Seq<bool>
        decreases self, 0int,
    {
        Seq::new(
            self.children.len(),
            |i: int|
                if 0 <= i < self.children.len() {
                    self.children[i].placed(direction)
                } else {
                    true
                },
        )
    }

    /// Whether every visible node has a box.
    pub open spec fn placed(self, direction: TreeLayoutDirection) -> bool
        decreases self, 1int,
    {
        self.data.bbox(direction).is_some() && (self.collapsed || crate::tree_layout::all_hold(
            self.child_placed(direction),
        ))
    }

    /// The curves from the root to its children from child `from` on.
    pub open spec fn curves(
        self,
        from: int,
        indent: Seq<char>,
        depth: nat,
        direction: TreeLayoutDirection,
    ) -> Seq<char>
        decreases self.children.len() - from,
    {
        if from < 0 || from >= self.children.len() {
            Seq::empty()
        } else {
            single_tag_text(
                indent,
                depth,
                "path"@,
                curve_pairs(
                    self.data.bbox(direction).unwrap(),
                    self.children[from].data.bbox(direction).unwrap(),
                    direction,
                ),
            ) + self.curves(from + 1, indent, depth, direction)
        }
    }

    /// The tags of each child.
    pub open spec fn child_tags(
        self,
        indent: Seq<char>,
        depth: nat,
        direction: TreeLayoutDirection,
        policy: TreeCollapsePolicy,
    ) -> Seq<Seq<char>>
        decreases self, 0int,
    {
        Seq::new(
            self.children.len(),
            |i: int|
                if 0 <= i < self.children.len() {
                    self.children[i].tags(indent, depth, direction, policy)
                } else {
                    Seq::empty()
                },
        )
    }

    /// The tags of the tree: unless the root is collapsed, the curves to
    /// its children and then the tags of the children, in their order; and
    /// then the tags of the root itself.
    pub open spec fn tags(
        self,
        indent: Seq<char>,
        depth: nat,
        direction: TreeLayoutDirection,
        policy: TreeCollapsePolicy,
    ) -> Seq<char>
        decreases self, 1int,
    {
        (if self.collapsed {
            Seq::empty()
        } else {
            self.curves(0, indent, depth, direction) + crate::seqs::joined(
                self.child_tags(indent, depth, direction, policy),
            )
        }) + self.data.tags(
            self.data.shape_of(self.collapsed, direction, policy).unwrap(),
            indent,
            depth,
        )
    }

    /// What the children of a tree contribute to its drawing, child by
    /// child.
    pub proof fn drawing_unfold(
        self,
        indent: Seq<char>,
        depth: nat,
        direction: TreeLayoutDirection,
        policy: TreeCollapsePolicy,
    )
        ensures
            self.child_placed(direction).len() == self.children.len(),
            self.child_tags(indent, depth, direction, policy).len() == self.children.len(),
            forall|i: int|
                0 <= i < self.children.len() ==> #[trigger] self.child_placed(direction)[i]
                    == self.children[i].placed(direction),
            forall|i: int|
                0 <= i < self.children.len() ==> #[trigger] self.child_tags(
                    indent,
                    depth,
                    direction,
                    policy,
                )[i] == self.children[i].tags(indent, depth, direction, policy),
    {
    }
}

/// Whether every visible node of the tree has a box.
pub fn is_placed(node: &DTNode<CapabilityData>, direction: TreeLayoutDirection) -> (r: bool)
    ensures
        r == node@.placed(direction),
    decreases node,
{
    proof {
        node.view_unfold();
        node@.drawing_unfold(Seq::empty(), 0, direction, TreeCollapsePolicy::Nothing);
    }
    if node.data.get_bbox(direction).is_none() {
        return false;
    }
    if node.collapsed {
        return true;
    }
    let mut i: usize = 0;
    while i < node.children.len()
        invariant
            i <= node.children.len(),
            !node.collapsed,
            node.data.bbox(direction).is_some(),
            node@.children.len() == node.children.len(),
            node@.child_placed(direction).len() == node.children.len(),
            forall|j: int|
                0 <= j < node.children.len() ==> #[trigger] node@.children[j] == node.children[j]@,
            forall|j: int|
                0 <= j < node.children.len() ==> #[trigger] node@.child_placed(direction)[j]
                    == node@.children[j].placed(direction),
            forall|j: int| 0 <= j < i ==> node@.child_placed(direction)[j],
        decreases node.children.len() - i,
    {
        if !is_placed(&node.children[i], direction) {
            assert(node@.children[i as int] == node.children[i as int]@);
            assert(!node@.child_placed(direction)[i as int]);
            assert(!crate::tree_layout::all_hold(node@.child_placed(direction)));
            return false;
        }
        i = i + 1;
    }
    assert(crate::tree_layout::all_hold(node@.child_placed(direction)));
    true
}

/// The attributes of the curve between the box of a node and the box of
/// one of its children.
pub open spec fn curve_pairs(parent: Rect, child: Rect, direction: TreeLayoutDirection) -> Seq<
    (Seq<char>, Seq<char>),
> {
    seq![
        ("d"@, curve_path(connector_of(parent, child, direction, LINE_CTRL_OFFSET))),
        ("fill"@, "none"@),
        ("stroke"@, "black"@),
    ]
}

/// Writes the curve between the box of a node and the box of one of its
/// children.
fn draw_curve<W: TagWriter>(
    parent: &Rect,
    child: &Rect,
    direction: TreeLayoutDirection,
    tag_writer: &mut W,
)
    requires
        parent.wf(),
        child.wf(),
    ensures
        final(tag_writer).depth() == old(tag_writer).depth(),
        final(tag_writer).indent() == old(tag_writer).indent(),
        final(tag_writer).written() == old(tag_writer).written() + single_tag_text(
            old(tag_writer).indent(),
            old(tag_writer).depth(),
            "path"@,
            curve_pairs(*parent, *child, direction),
        ),
{
    let c = connector(parent, child, direction, LINE_CTRL_OFFSET);
    let mut path = "M ".to_owned();
    path.append(signed_decimal_text(c.0.0).as_str());
    path.append(" ");
    path.append(signed_decimal_text(c.0.1).as_str());
    path.append(" C ");
    path.append(signed_decimal_text(c.1.0).as_str());
    path.append(" ");
    path.append(signed_decimal_text(c.1.1).as_str());
    path.append(", ");
    path.append(signed_decimal_text(c.2.0).as_str());
    path.append(" ");
    path.append(signed_decimal_text(c.2.1).as_str());
    path.append(", ");
    path.append(signed_decimal_text(c.3.0).as_str());
    path.append(" ");
    path.append(signed_decimal_text(c.3.1).as_str());
    let curve = Attributes::new().with_text("d", path.as_str()).with_text("fill", "none").with_text(
        "stroke",
        "black",
    );
    assert(curve.pairs() =~= curve_pairs(*parent, *child, direction));
    let _ = tag_writer.single_tag("path", curve);
}

/// Writes the curves from a node to its children.
fn draw_curves<W: TagWriter>(
    node: &DTNode<CapabilityData>,
    direction: TreeLayoutDirection,
    tag_writer: &mut W,
)
    requires
        node@.placed(direction),
        !node.collapsed,
    ensures
        final(tag_writer).depth() == old(tag_writer).depth(),
        final(tag_writer).indent() == old(tag_writer).indent(),
        final(tag_writer).written() == old(tag_writer).written() + node@.curves(
            0,
            old(tag_writer).indent(),
            old(tag_writer).depth(),
            direction,
        ),
{
    let ghost before = tag_writer.written();
    let ghost indent = tag_writer.indent();
    let ghost depth = tag_writer.depth();
    let ghost tree = node@;
    proof {
        node.view_unfold();
        tree.drawing_unfold(indent, depth, direction, TreeCollapsePolicy::Nothing);
    }
    let parent_bbox = match node.data.get_bbox(direction) {
        Some(bbox) => bbox,
        None => Rect::new_ltwh(0, 0, 0, 0),
    };
    let n = node.children.len();
    let mut i: usize = 0;
    let ghost all = tree.curves(0, indent, depth, direction);
    while i < n
        invariant
            i <= n,
            n == node.children.len(),
            tree == node@,
            tree.placed(direction),
            !tree.collapsed,
            parent_bbox.wf(),
            Some(parent_bbox) == tree.data.bbox(direction),
            tree.children.len() == n,
            tree.child_placed(direction).len() == n,
            forall|j: int| 0 <= j < n ==> #[trigger] tree.children[j] == node.children[j]@,
            forall|j: int|
                0 <= j < n ==> #[trigger] tree.child_placed(direction)[j]
                    == tree.children[j].placed(direction),
            tag_writer.depth() == depth,
            tag_writer.indent() == indent,
            all == tree.curves(0, indent, depth, direction),
            tag_writer.written() + tree.curves(i as int, indent, depth, direction) == before + all,
        decreases n - i,
    {
        proof {
            assert(tree.child_placed(direction)[i as int]);
            assert(tree.children[i as int] == node.children[i as int]@);
            node.children[i as int].view_unfold();
        }
        let child_bbox = match node.children[i].data.get_bbox(direction) {
            Some(bbox) => bbox,
            None => Rect::new_ltwh(0, 0, 0, 0),
        };
        let ghost so_far = tag_writer.written();
        draw_curve(&parent_bbox, &child_bbox, direction, tag_writer);
        assert(so_far + tree.curves(i as int, indent, depth, direction) =~= tag_writer.written()
            + tree.curves(i as int + 1, indent, depth, direction));
        i = i + 1;
    }
    assert(tag_writer.written() + tree.curves(n as int, indent, depth, direction)
        =~= tag_writer.written());
}

/// Writes the tags of the children of a node.
fn draw_children<W: TagWriter>(
    node: &DTNode<CapabilityData>,
    direction: TreeLayoutDirection,
    policy: TreeCollapsePolicy,
    tag_writer: &mut W,
)
    requires
        node@.placed(direction),
        !node.collapsed,
    ensures
        final(tag_writer).depth() == old(tag_writer).depth(),
        final(tag_writer).indent() == old(tag_writer).indent(),
        final(tag_writer).written() == old(tag_writer).written() + crate::seqs::joined(
            node@.child_tags(
                old(tag_writer).indent(),
                old(tag_writer).depth(),
                direction,
                policy,
            ),
        ),
    decreases node, 0int,
{
    let ghost before = tag_writer.written();
    let ghost indent = tag_writer.indent();
    let ghost depth = tag_writer.depth();
    let ghost tree = node@;
    let ghost parts = tree.child_tags(indent, depth, direction, policy);
    proof {
        node.view_unfold();
        tree.drawing_unfold(indent, depth, direction, policy);
        crate::seqs::joined_all(parts);
        assert(before + crate::seqs::joined(parts.take(0)) =~= before);
    }
    let n = node.children.len();
    let mut i: usize = 0;
    while i < n
        invariant
            i <= n,
            n == node.children.len(),
            tree == node@,
            tree.placed(direction),
            !tree.collapsed,
            tree.children.len() == n,
            tree.child_placed(direction).len() == n,
            parts == tree.child_tags(indent, depth, direction, policy),
            parts.len() == n,
            forall|j: int| 0 <= j < n ==> #[trigger] tree.children[j] == node.children[j]@,
            forall|j: int|
                0 <= j < n ==> #[trigger] tree.child_placed(direction)[j]
                    == tree.children[j].placed(direction),
            forall|j: int|
                0 <= j < n ==> #[trigger] parts[j] == tree.children[j].tags(
                    indent,
                    depth,
                    direction,
                    policy,
                ),
            tag_writer.depth() == depth,
            tag_writer.indent() == indent,
            tag_writer.written() == before + crate::seqs::joined(parts.take(i as int)),
        decreases n - i,
    {
        proof {
            crate::seqs::joined_step(parts, i as int);
            assert(tree.child_placed(direction)[i as int]);
            assert(tree.children[i as int] == node.children[i as int]@);
        }
        draw_placed(&node.children[i], direction, policy, tag_writer);
        assert(tag_writer.written() =~= before + crate::seqs::joined(parts.take(i as int + 1)));
        i = i + 1;
    }
}

/// Writes the tags of a tree whose visible nodes have boxes.
#[verifier::rlimit(50)]
fn draw_placed<W: TagWriter>(
    node: &DTNode<CapabilityData>,
    direction: TreeLayoutDirection,
    policy: TreeCollapsePolicy,
    tag_writer: &mut W,
)
    requires
        node@.placed(direction),
    ensures
        final(tag_writer).depth() == old(tag_writer).depth(),
        final(tag_writer).indent() == old(tag_writer).indent(),
        final(tag_writer).written() == old(tag_writer).written() + node@.tags(
            old(tag_writer).indent(),
            old(tag_writer).depth(),
            direction,
            policy,
        ),
    decreases node, 1int,
{
    let ghost before = tag_writer.written();
    let ghost indent = tag_writer.indent();
    let ghost depth = tag_writer.depth();
    let ghost tree = node@;
    proof {
        node.view_unfold();
    }
    let ghost front = if tree.collapsed {
        Seq::<char>::empty()
    } else {
        tree.curves(0, indent, depth, direction) + crate::seqs::joined(
            tree.child_tags(indent, depth, direction, policy),
        )
    };
    if !node.collapsed {
        draw_curves(node, direction, tag_writer);
        draw_children(node, direction, policy, tag_writer);
        assert(tag_writer.written() =~= before + front);
    } else {
        assert(tag_writer.written() =~= before + front);
    }
    let ghost drawn = tag_writer.written();
    let ghost shape = tree.data.shape_of(tree.collapsed, direction, policy).unwrap();
    let ghost own = tree.data.tags(shape, indent, depth);
    let _ = node.data.draw(node.collapsed, direction, policy, tag_writer);
    assert(tag_writer.written() == drawn + own);
    assert(tree.tags(indent, depth, direction, policy) == front + own);
    assert(before + front + own =~= before + (front + own));
}

impl CapabilityNodeTree {
    /// The tags of the tree: a group with the style sheet for leaves and
    /// the tags of the nodes.
    pub open spec fn tags(&self, indent: Seq<char>, depth: nat) -> Seq<char> {
        begin_tag_text(indent, depth, "g"@, Seq::empty()) + text_tag_text(
            indent,
            depth + 1,
            "style"@,
            Seq::empty(),
            LEAF_STYLE@,
        ) + self.tree@.tags(indent, depth + 1, self.layout_direction, self.tree_collapse_policy)
            + end_tag_text(indent, depth, "g"@)
    }

    /// Writes the tags of the tree; nothing where a visible node has no
    /// box.
    pub fn draw<W: TagWriter>(&self, tag_writer: &mut W) -> (r: Result<(), TagWriterError>)
        requires
            old(tag_writer).depth() < usize::MAX,
        ensures
            final(tag_writer).depth() == old(tag_writer).depth(),
            final(tag_writer).indent() == old(tag_writer).indent(),
            self.tree@.placed(self.layout_direction) ==> r.is_ok() && final(tag_writer).written()
                == old(tag_writer).written() + self.tags(
                old(tag_writer).indent(),
                old(tag_writer).depth(),
            ),
            !self.tree@.placed(self.layout_direction) ==> r == Err::<(), TagWriterError>(
                TagWriterError::Unplaced,
            ) && final(tag_writer).written() == old(tag_writer).written(),
    {
        if !is_placed(&self.tree, self.layout_direction) {
            return Err(TagWriterError::Unplaced);
        }
        let ghost before = tag_writer.written();
        let ghost indent = tag_writer.indent();
        let ghost depth = tag_writer.depth();
        let group = Attributes::new();
        assert(group.pairs() =~= Seq::empty());
        let _ = tag_writer.begin_tag("g", group);
        let ghost begun = tag_writer.written();
        assert(begun == before + begin_tag_text(indent, depth, "g"@, Seq::empty()));
        let plain = Attributes::new();
        assert(plain.pairs() =~= Seq::empty());
        let _ = tag_writer.tag_with_text("style", plain, LEAF_STYLE);
        let ghost styled = tag_writer.written();
        assert(styled == begun + text_tag_text(
            indent,
            depth + 1,
            "style"@,
            Seq::empty(),
            LEAF_STYLE@,
        ));
        draw_placed(&self.tree, self.layout_direction, self.tree_collapse_policy, tag_writer);
        let ghost drawn = tag_writer.written();
        assert(drawn == styled + self.tree@.tags(
            indent,
            depth + 1,
            self.layout_direction,
            self.tree_collapse_policy,
        ));
        let _ = tag_writer.end_tag("g");
        assert(tag_writer.written() == drawn + end_tag_text(indent, depth, "g"@));
        assert(tag_writer.written() =~= before + self.tags(indent, depth));
        Ok(())
    }
}

impl Renderable for CapabilityNodeTree {
    open spec fn drawing(&self, indent: Seq<char>, depth: nat) -> Option<Seq<char>> {
        if self.tree@.placed(self.layout_direction) {
            Some(self.tags(indent, depth))
        } else {
            None
        }
    }

    fn render<W: TagWriter>(&self, tag_writer: &mut W) -> (r: Result<(), TagWriterError>) {
        self.draw(tag_writer)
    }
}

} // verus!
