use vstd::prelude::*;
use crate::capability_db::{named, related_systems, CapabilitiesDB, RelatedError};
use crate::capability_tree::{
    covering, is_root_tree, measured_by, read_trees_from_capdb, trees_with_rows, CapabilityData,
    CapabilityNodeTree,
};
use crate::connecting_lines::{ConnectingLines, Line};
use crate::data_tree::{pointees, Tree, TreeLayoutDirection};
use crate::geometry::{is_edge, Coord, Point, Rect, EDGE_LIMIT};
use crate::seqs::{total, total_all, total_step};
use crate::surrounds::{
    asked_in_turn, listed, rows_of, shown_rows, SurroundItem, SurroundItems,
};
use crate::text::same_text;
use crate::text_size::{TextSizeError, TextSizer};
use crate::tree_layout::LayoutError;
use crate::used_by::{color_strs, UsedBySet};

verus! {

/// The room between a text and the edge of its box.
pub const TEXT_ITEM_PADDING: Coord = 2;

/// How far above the bottom of its room the baseline of a text lies.
pub const BASELINE_RISE: Coord = 2;

/// The radius of the corners of a node's box.
pub const NODE_ITEM_ROUND_CORNER: Coord = 3;

/// The radius of the dot between the two trees.
pub const CENTER_DOT_RADIUS: Coord = 40;

/// The radius of the dot that collapses and expands a node.
pub const COLLAPSE_DOT_RADIUS: Coord = 3;

/// The radius of the dots at the ends of a connecting line.
pub const CONNECT_DOT_RADIUS: Coord = 2;

/// The least room between the boxes of two siblings.
pub const ITEM_SPACING: Coord = 8;

/// The least room between two levels of a tree.
pub const LAYER_SPACING: Coord = 16;

/// The room between the tree of surround capabilities and the surround
/// systems.
pub const SPACING_TO_SURROUNDS: Coord = 48;

/// The margin of the drawing.
pub const SVG_MARGIN: Coord = 4;

/// The room between the key and the trees.
pub const TRIFOIL_MARGIN: Coord = 80;

/// The two trees of capabilities, the list of surround systems beside
/// them, and the lines between the two.
#[derive(Debug)]
pub struct TwoTreeViewDocument {
    pub capdb: CapabilitiesDB,
    pub core_tree: CapabilityNodeTree,
    pub surround_tree: CapabilityNodeTree,
    pub surrounds: SurroundItems,
    pub connecting_lines: ConnectingLines,
}

/// Why the document could not be made or brought up to date.
#[derive(Debug, PartialEq, Eq, Structural, Clone, Copy)]
pub enum DocumentError {
    /// A capability has no parent in a tree to which it belongs.
    UnknownParent,
    /// The size of the name of a surround system could not be found.
    Sizing,
    /// A tree could not be laid out.
    Layout(LayoutError),
    /// The surround systems of a capability could not be found.
    Related(RelatedError),
    /// A node or a tree that a line starts at has no box, or the list of
    /// surround systems would lie beyond `EDGE_LIMIT`.
    NoBox,
    /// The name is not the name of a way to fold the trees.
    UnknownFold,
}

/// A line to be drawn: where it starts, at a capability, the surround
/// system at which it ends, as its place in the list, and the lines of
/// business that use the system.
#[derive(Debug, Clone, Copy)]
pub struct Connection {
    pub start: Point,
    pub surround: usize,
    pub used_by: UsedBySet,
}

/// Where a line starts at a capability: at the middle of the right edge of
/// its box. `None` where it has no box.
pub open spec fn anchor_of(node: CapabilityData) -> Option<Point> {
    match node.bbox(TreeLayoutDirection::Right) {
        Some(r) => Some((r.spec_right() as Coord, (r.top + r.height / 2) as Coord)),
        None => None,
    }
}

/// The place in the list of the first surround system with the name
/// `name`, and the length of the list where there is none.
pub open spec fn item_index(items: Seq<SurroundItem>, name: Seq<char>) -> int
    decreases items.len(),
{
    if items.len() == 0 {
        0
    } else if items[0].data.name@ == name {
        0
    } else {
        1 + item_index(items.skip(1), name)
    }
}

/// Of the systems, those that are in the list, each as its place in the
/// list with its use.
pub open spec fn targets(items: Seq<SurroundItem>, systems: Seq<(Seq<char>, UsedBySet)>) -> Seq<
    (int, UsedBySet),
>
    decreases systems.len(),
{
    if systems.len() == 0 {
        Seq::empty()
    } else {
        let rest = targets(items, systems.drop_last());
        let i = item_index(items, systems.last().0);
        if i < items.len() {
            rest.push((i, systems.last().1))
        } else {
            rest
        }
    }
}

/// The lines from `start` to those of the systems that are in the list.
pub open spec fn links_to(
    items: Seq<SurroundItem>,
    start: Point,
    systems: Seq<(Seq<char>, UsedBySet)>,
) -> Seq<Connection> {
    Seq::new(
        targets(items, systems).len(),
        |i: int|
            Connection {
                start,
                surround: targets(items, systems)[i].0 as usize,
                used_by: targets(items, systems)[i].1,
            },
    )
}

/// The lines from the capabilities `leaves` to the surround systems that
/// are to provide them, in the order of the capabilities. A capability whose
/// systems are not in the list has no line, and needs no box.
pub open spec fn connections(
    capdb: CapabilitiesDB,
    items: Seq<SurroundItem>,
    leaves: Seq<CapabilityData>,
) -> Result<Seq<Connection>, DocumentError>
    decreases leaves.len(),
{
    if leaves.len() == 0 {
        Ok(Seq::empty())
    } else {
        match connections(capdb, items, leaves.drop_last()) {
            Ok(before) => match related_systems(capdb, leaves.last().id@) {
                Ok(systems) => if targets(items, systems).len() == 0 {
                    Ok(before)
                } else {
                    match anchor_of(leaves.last()) {
                        Some(start) => Ok(before + links_to(items, start, systems)),
                        None => Err(DocumentError::NoBox),
                    }
                },
                Err(e) => Err(DocumentError::Related(e)),
            },
            Err(e) => Err(e),
        }
    }
}

/// For each line, how far down it starts if it ends at the system `s`, and
/// zero if it does not.
pub open spec fn heights_at(lines: Seq<Connection>, s: int) -> Seq<int> {
    Seq::new(
        lines.len(),
        |i: int|
            if lines[i].surround == s {
                lines[i].start.1 as int
            } else {
                0
            },
    )
}

/// For each line, one if it ends at the system `s`, and zero if it does
/// not.
pub open spec fn marks_at(lines: Seq<Connection>, s: int) -> Seq<int> {
    Seq::new(
        lines.len(),
        |i: int|
            if lines[i].surround == s {
                1int
            } else {
                0int
            },
    )
}

/// Where the system `s` would like to lie: level with the mean of the
/// starts of its lines, rounded down; `None` where it has no line.
pub open spec fn wanted_y(lines: Seq<Connection>, s: int) -> Option<int> {
    if total(marks_at(lines, s)) > 0 {
        Some(total(heights_at(lines, s)) / total(marks_at(lines, s)))
    } else {
        None
    }
}

/// The lines as they are drawn when the list of systems stands at `x`:
/// each ends level with where its system would like to lie.
pub open spec fn drawn_lines(lines: Seq<Connection>, x: Coord) -> Seq<Line> {
    Seq::new(
        lines.len(),
        |i: int|
            Line {
                start: lines[i].start,
                end: (x, wanted_y(lines, lines[i].surround as int).unwrap() as Coord),
                color: color_strs(lines[i].used_by).0,
            },
    )
}

/// What the index of the first item with a name is.
pub proof fn item_index_facts(items: Seq<SurroundItem>, name: Seq<char>)
    ensures
        0 <= item_index(items, name) <= items.len(),
        item_index(items, name) < items.len() ==> items[item_index(items, name)].data.name@
            == name,
        forall|j: int| 0 <= j < item_index(items, name) ==> (#[trigger] items[j]).data.name@ != name,
    decreases items.len(),
{
    if items.len() > 0 && items[0].data.name@ != name {
        item_index_facts(items.skip(1), name);
        assert forall|j: int| 0 <= j < item_index(items, name) implies (#[trigger] items[j]).data.name@
            != name by {
            if j > 0 {
                assert(items.skip(1)[j - 1] == items[j]);
            }
        }
    }
}

/// The place of a surround system in the list, by its name.
fn find_item(items: &Vec<SurroundItem>, name: &str) -> (found: Option<usize>)
    ensures
        match found {
            Some(i) => i < items@.len() && i == item_index(items@, name@),
            None => item_index(items@, name@) == items@.len(),
        },
{
    let mut i: usize = 0;
    proof {
        item_index_facts(items@, name@);
    }
    while i < items.len()
        invariant
            i <= items.len(),
            forall|j: int| 0 <= j < i ==> (#[trigger] items@[j]).data.name@ != name@,
        decreases items.len() - i,
    {
        if same_text(items[i].data.name.as_str(), name) {
            proof {
                item_index_facts(items@, name@);
                let k = item_index(items@, name@);
                if k < i {
                    assert(items@[k].data.name@ != name@);
                }
                if i < k {
                    assert(items@[i as int].data.name@ != name@);
                }
            }
            return Some(i);
        }
        i = i + 1;
    }
    proof {
        item_index_facts(items@, name@);
        let k = item_index(items@, name@);
        if k < items@.len() {
            assert(items@[k].data.name@ != name@);
        }
    }
    None
}

/// The floor of `a / b`.
fn floor_div(a: i128, b: i128) -> (q: i128)
    requires
        b > 0,
        -0x4000_0000_0000_0000_0000_0000_0000_0000 < a < 0x4000_0000_0000_0000_0000_0000_0000_0000,
    ensures
        q == a / b,
{
    if a >= 0 {
        a / b
    } else {
        let m: i128 = -(a + 1);
        let q: i128 = m / b;
        assert((-(m as int) - 1) / (b as int) == -((m as int) / (b as int)) - 1) by (nonlinear_arith)
            requires
                b > 0,
                m >= 0,
        ;
        -q - 1
    }
}

/// The lines from the capabilities to the surround systems of the list
/// that are to provide them.
pub fn find_connections(
    capdb: &CapabilitiesDB,
    items: &Vec<SurroundItem>,
    leaves: &Vec<&CapabilityData>,
) -> (r: Result<Vec<Connection>, DocumentError>)
    ensures
        match r {
            Ok(lines) => connections(*capdb, items@, pointees(leaves@)) == Ok::<
                Seq<Connection>,
                DocumentError,
            >(lines@),
            Err(e) => connections(*capdb, items@, pointees(leaves@)) == Err::<
                Seq<Connection>,
                DocumentError,
            >(e),
        },
        r.is_ok() ==> forall|i: int|
            0 <= i < r.unwrap()@.len() ==> is_edge((#[trigger] r.unwrap()@[i]).start.1 as int)
                && r.unwrap()@[i].surround < items@.len(),
{
    let ghost nodes = pointees(leaves@);
    let mut lines: Vec<Connection> = Vec::new();
    let mut i: usize = 0;
    assert(nodes.take(0) =~= Seq::empty());
    while i < leaves.len()
        invariant
            i <= leaves.len(),
            nodes == pointees(leaves@),
            connections(*capdb, items@, nodes.take(i as int)) == Ok::<
                Seq<Connection>,
                DocumentError,
            >(lines@),
            forall|k: int|
                0 <= k < lines@.len() ==> is_edge((#[trigger] lines@[k]).start.1 as int)
                    && lines@[k].surround < items@.len(),
        decreases leaves.len() - i,
    {
        let leaf = leaves[i];
        proof {
            assert(nodes.take(i as int + 1).drop_last() =~= nodes.take(i as int));
            assert(nodes.take(i as int + 1).last() == *leaf);
        }
        let systems = match capdb.get_related_surrounds(leaf.id.as_str()) {
            Ok(systems) => systems,
            Err(e) => {
                proof {
                    connections_fail(*capdb, items@, nodes, i as int + 1);
                }
                return Err(DocumentError::Related(e));
            },
        };
        let ghost wanted = named(systems@);
        let mut found: Vec<(usize, UsedBySet)> = Vec::new();
        let mut k: usize = 0;
        assert(wanted.take(0) =~= Seq::empty());
        while k < systems.len()
            invariant
                k <= systems.len(),
                wanted == named(systems@),
                found@.len() == targets(items@, wanted.take(k as int)).len(),
                forall|j: int|
                    0 <= j < found@.len() ==> (#[trigger] found@[j]).0 < items@.len() && (
                    found@[j].0 as int,
                    found@[j].1,
                ) == targets(items@, wanted.take(k as int))[j],
            decreases systems.len() - k,
        {
            proof {
                assert(wanted.take(k as int + 1).drop_last() =~= wanted.take(k as int));
                assert(wanted.take(k as int + 1).last() == wanted[k as int]);
            }
            match find_item(items, systems[k].0.as_str()) {
                Some(place) => {
                    found.push((place, systems[k].1));
                },
                None => {},
            }
            k = k + 1;
        }
        assert(wanted.take(systems.len() as int) =~= wanted);
        if found.len() > 0 {
            let start = match leaf.get_bbox(TreeLayoutDirection::Right) {
                Some(r) => (r.right(), r.center_y()),
                None => {
                    proof {
                        connections_fail(*capdb, items@, nodes, i as int + 1);
                    }
                    return Err(DocumentError::NoBox);
                },
            };
            let ghost before = lines@;
            let mut k: usize = 0;
            while k < found.len()
                invariant
                    k <= found.len(),
                    is_edge(start.1 as int),
                    lines@.len() == before.len() + k,
                    forall|j: int| 0 <= j < before.len() ==> #[trigger] lines@[j] == before[j],
                    forall|j: int|
                        0 <= j < before.len() ==> is_edge((#[trigger] before[j]).start.1 as int)
                            && before[j].surround < items@.len(),
                    found@.len() == targets(items@, wanted).len(),
                    forall|j: int|
                        0 <= j < found@.len() ==> (#[trigger] found@[j]).0 < items@.len() && (
                        found@[j].0 as int,
                        found@[j].1,
                    ) == targets(items@, wanted)[j],
                    forall|j: int|
                        0 <= j < k ==> #[trigger] lines@[before.len() + j] == (Connection {
                            start,
                            surround: found@[j].0,
                            used_by: found@[j].1,
                        }),
                decreases found.len() - k,
            {
                lines.push(Connection { start, surround: found[k].0, used_by: found[k].1 });
                k = k + 1;
            }
            assert(lines@ =~= before + links_to(items@, start, wanted)) by {
                assert forall|j: int| 0 <= j < found@.len() implies lines@[before.len() + j]
                    == links_to(items@, start, wanted)[j] by {
                    assert((found@[j].0 as int, found@[j].1) == targets(items@, wanted)[j]);
                }
            }
            assert forall|j: int| 0 <= j < lines@.len() implies is_edge(
                (#[trigger] lines@[j]).start.1 as int,
            ) && lines@[j].surround < items@.len() by {
                if j >= before.len() {
                    assert(lines@[before.len() + (j - before.len())] == lines@[j]);
                    assert(found@[j - before.len()].0 < items@.len());
                }
            }
        }
        i = i + 1;
    }
    assert(nodes.take(leaves.len() as int) =~= nodes);
    Ok(lines)
}

/// Where the lines of some of the capabilities are not found, those of
/// all are not found.
proof fn connections_fail(
    capdb: CapabilitiesDB,
    items: Seq<SurroundItem>,
    leaves: Seq<CapabilityData>,
    k: int,
)
    requires
        0 < k <= leaves.len(),
        connections(capdb, items, leaves.take(k)).is_err(),
    ensures
        connections(capdb, items, leaves) == connections(capdb, items, leaves.take(k)),
    decreases leaves.len() - k,
{
    if k < leaves.len() {
        assert(leaves.take(k + 1).drop_last() =~= leaves.take(k));
        connections_fail(capdb, items, leaves, k + 1);
    } else {
        assert(leaves.take(k) =~= leaves);
    }
}

/// Where each surround system of a list of `n` would like to lie, by the
/// lines that end at it.
pub fn wanted_positions(lines: &Vec<Connection>, n: usize) -> (wanted: Vec<Option<Coord>>)
    requires
        forall|i: int| 0 <= i < lines@.len() ==> is_edge((#[trigger] lines@[i]).start.1 as int),
    ensures
        wanted@.len() == n,
        forall|s: int|
            0 <= s < n ==> match #[trigger] wanted@[s] {
                Some(y) => wanted_y(lines@, s) == Some(y as int) && is_edge(y as int),
                None => wanted_y(lines@, s).is_none(),
            },
{
    let mut wanted: Vec<Option<Coord>> = Vec::new();
    let mut s: usize = 0;
    while s < n
        invariant
            s <= n,
            wanted@.len() == s,
            forall|i: int| 0 <= i < lines@.len() ==> is_edge((#[trigger] lines@[i]).start.1 as int),
            forall|t: int|
                0 <= t < s ==> match #[trigger] wanted@[t] {
                    Some(y) => wanted_y(lines@, t) == Some(y as int) && is_edge(y as int),
                    None => wanted_y(lines@, t).is_none(),
                },
        decreases n - s,
    {
        let ghost heights = heights_at(lines@, s as int);
        let ghost marks = marks_at(lines@, s as int);
        let mut sum: i128 = 0;
        let mut count: i128 = 0;
        let mut i: usize = 0;
        proof {
            total_all(heights);
            total_all(marks);
        }
        while i < lines.len()
            invariant
                i <= lines.len(),
                heights == heights_at(lines@, s as int),
                marks == marks_at(lines@, s as int),
                forall|j: int|
                    0 <= j < lines@.len() ==> is_edge((#[trigger] lines@[j]).start.1 as int),
                sum == total(heights.take(i as int)),
                count == total(marks.take(i as int)),
                0 <= count <= i,
                -0x2000_0000_0000_0000 * count <= sum <= 0x2000_0000_0000_0000 * count,
            decreases lines.len() - i,
        {
            proof {
                total_step(heights, i as int);
                total_step(marks, i as int);
                assert(is_edge(lines@[i as int].start.1 as int));
            }
            if lines[i].surround == s {
                sum = sum + lines[i].start.1 as i128;
                count = count + 1;
            }
            i = i + 1;
        }
        if count > 0 {
            let mean = floor_div(sum, count);
            assert(-0x2000_0000_0000_0000 <= sum as int / count as int <= 0x2000_0000_0000_0000)
                by (nonlinear_arith)
                requires
                    count > 0,
                    -0x2000_0000_0000_0000 * count <= sum <= 0x2000_0000_0000_0000 * count,
            ;
            wanted.push(Some(mean as Coord));
        } else {
            wanted.push(None);
        }
        s = s + 1;
    }
    wanted
}

/// The items of the list, each told where it would like to lie by the
/// lines that end at it; an item without a line is as it was.
pub open spec fn repositioned(items: Seq<SurroundItem>, lines: Seq<Connection>) -> Seq<
    SurroundItem,
> {
    Seq::new(
        items.len(),
        |s: int|
            match wanted_y(lines, s) {
                Some(y) => SurroundItem { desired_y: Some(y as Coord), ..items[s] },
                None => items[s],
            },
    )
}

impl TwoTreeViewDocument {
    /// The lines from the visible leaves of the tree of surround
    /// capabilities to the surround systems of the list.
    pub open spec fn links(self) -> Result<Seq<Connection>, DocumentError> {
        connections(self.capdb, self.surrounds.items@, self.surround_tree.tree@.fringe())
    }

    /// Where the list of surround systems stands across: beyond the right
    /// edge of the tree of surround capabilities. `None` where the tree has
    /// no box.
    pub open spec fn surround_x(self) -> Option<Coord> {
        match covering(self.surround_tree.tree@.visible(), self.surround_tree.layout_direction) {
            Some(b) => Some((b.spec_right() + SPACING_TO_SURROUNDS) as Coord),
            None => None,
        }
    }

    /// Why the lines cannot be made, where they cannot.
    pub open spec fn lines_error(self) -> Option<DocumentError> {
        match self.links() {
            Err(e) => Some(e),
            Ok(_) => if self.surround_x().is_none() {
                Some(DocumentError::NoBox)
            } else {
                None
            },
        }
    }

    /// Makes the lines anew, moves the list of surround systems beside
    /// the tree of surround capabilities, and tells each system where it
    /// would like to lie: level with the mean of the capabilities that it is
    /// to provide. The tree must have been laid out. Where the lines cannot
    /// be made the document stays as it is.
    pub fn regenerate_connecting_lines(&mut self) -> (r: Result<(), DocumentError>)
        ensures
            final(self).capdb == old(self).capdb,
            final(self).core_tree == old(self).core_tree,
            final(self).surround_tree == old(self).surround_tree,
            match r {
                Ok(()) => old(self).lines_error().is_none() && final(self).connecting_lines.lines@
                    == drawn_lines(old(self).links().unwrap(), old(self).surround_x().unwrap())
                    && final(self).surrounds.x_position == old(self).surround_x().unwrap()
                    && final(self).surrounds.items@ == repositioned(
                    old(self).surrounds.items@,
                    old(self).links().unwrap(),
                ),
                Err(e) => old(self).lines_error() == Some(e) && final(self).surrounds == old(self).surrounds && final(self).connecting_lines == old(self).connecting_lines,
            },
    {
        let leaves = self.surround_tree.tree.visible_leaves();
        let lines = match find_connections(&self.capdb, &self.surrounds.items, &leaves) {
            Ok(lines) => lines,
            Err(e) => {
                return Err(e);
            },
        };
        let bbox = match self.surround_tree.get_bbox() {
            Some(bbox) => bbox,
            None => {
                return Err(DocumentError::NoBox);
            },
        };
        let x = bbox.right() + SPACING_TO_SURROUNDS;
        let n = self.surrounds.items.len();
        let wanted = wanted_positions(&lines, n);
        let ghost links = lines@;
        let ghost items = self.surrounds.items@;
        self.connecting_lines.clear();
        let mut i: usize = 0;
        while i < lines.len()
            invariant
                i <= lines.len(),
                links == lines@,
                wanted@.len() == n,
                n == items.len(),
                forall|k: int|
                    0 <= k < links.len() ==> (#[trigger] links[k]).surround < n,
                forall|s: int|
                    0 <= s < n ==> match #[trigger] wanted@[s] {
                        Some(y) => wanted_y(links, s) == Some(y as int) && is_edge(y as int),
                        None => wanted_y(links, s).is_none(),
                    },
                self.connecting_lines.lines@ == drawn_lines(links, x).take(i as int),
                self.capdb == old(self).capdb,
                self.core_tree == old(self).core_tree,
                self.surround_tree == old(self).surround_tree,
                self.surrounds == old(self).surrounds,
            decreases lines.len() - i,
        {
            let line = lines[i];
            proof {
                mark_counts(links, i as int);
            }
            let y = match wanted[line.surround] {
                Some(y) => y,
                None => 0,
            };
            self.connecting_lines.add_line(line.start, (x, y), &line.used_by);
            assert(self.connecting_lines.lines@ =~= drawn_lines(links, x).take(i as int + 1));
            i = i + 1;
        }
        assert(drawn_lines(links, x).take(lines.len() as int) =~= drawn_lines(links, x));
        self.surrounds.set_x_position(x);
        let mut s: usize = 0;
        while s < n
            invariant
                s <= n,
                n == items.len(),
                n == self.surrounds.items.len(),
                wanted@.len() == n,
                forall|t: int|
                    0 <= t < n ==> match #[trigger] wanted@[t] {
                        Some(y) => wanted_y(links, t) == Some(y as int) && is_edge(y as int),
                        None => wanted_y(links, t).is_none(),
                    },
                self.surrounds.x_position == x,
                forall|t: int|
                    0 <= t < s ==> #[trigger] self.surrounds.items@[t] == repositioned(
                        items,
                        links,
                    )[t],
                forall|t: int| s <= t < n ==> #[trigger] self.surrounds.items@[t] == items[t],
                self.connecting_lines.lines@ == drawn_lines(links, x),
                self.capdb == old(self).capdb,
                self.core_tree == old(self).core_tree,
                self.surround_tree == old(self).surround_tree,
            decreases n - s,
        {
            match wanted[s] {
                Some(y) => {
                    let item: &mut SurroundItem = &mut self.surrounds.items[s];
                    item.reposition(y);
                },
                None => {},
            }
            s = s + 1;
        }
        assert(self.surrounds.items@ =~= repositioned(items, links));
        Ok(())
    }

    /// The capability with the identifier `id`, in the tree of the core or
    /// else in that of the surround capabilities.
    pub fn get_node_data(&self, id: &str) -> (found: Option<&CapabilityData>)
        ensures
            match self.core_tree.tree@.find_path(id@) {
                Some(path) => found == Some(&self.core_tree.tree@.at(path).data),
                None => match self.surround_tree.tree@.find_path(id@) {
                    Some(path) => found == Some(&self.surround_tree.tree@.at(path).data),
                    None => found.is_none(),
                },
            },
    {
        match self.core_tree.find_data_by_id(id) {
            Some(data) => Some(data),
            None => self.surround_tree.find_data_by_id(id),
        }
    }

    /// Where the key is drawn when its box, about the origin, is
    /// `trifoil_bbox`: above the tree that reaches higher, on the side of the
    /// other. `None` where a tree has no box.
    pub fn trifoil_position(&self, trifoil_bbox: &Rect) -> (r: Option<Point>)
        requires
            trifoil_bbox.wf(),
        ensures
            match (
                covering(self.core_tree.tree@.visible(), self.core_tree.layout_direction),
                covering(self.surround_tree.tree@.visible(), self.surround_tree.layout_direction),
            ) {
                (Some(core), Some(surround)) => r == Some(
                    (
                        if core.top <= surround.top {
                            (-trifoil_bbox.left + TRIFOIL_MARGIN) as Coord
                        } else {
                            (trifoil_bbox.left - TRIFOIL_MARGIN) as Coord
                        },
                        (if core.top >= surround.top {
                            core.top
                        } else {
                            surround.top
                        } - trifoil_bbox.spec_bottom() - TRIFOIL_MARGIN) as Coord,
                    ),
                ),
                _ => r.is_none(),
            },
    {
        let left_top = match self.core_tree.get_bbox() {
            Some(b) => b.top(),
            None => {
                return None;
            },
        };
        let right_top = match self.surround_tree.get_bbox() {
            Some(b) => b.top(),
            None => {
                return None;
            },
        };
        let best_top = if left_top >= right_top {
            left_top
        } else {
            right_top
        };
        let y_position = best_top - trifoil_bbox.bottom() - TRIFOIL_MARGIN;
        let x_position = if left_top <= right_top {
            -trifoil_bbox.left() + TRIFOIL_MARGIN
        } else {
            trifoil_bbox.left() - TRIFOIL_MARGIN
        };
        Some((x_position, y_position))
    }
}

impl TwoTreeViewDocument {
    /// The document `after` with the lines and the list of surround systems
    /// of this one: this document with the trees of `after`, where nothing
    /// else differs.
    pub open spec fn with_trees_of(self, after: TwoTreeViewDocument) -> TwoTreeViewDocument {
        TwoTreeViewDocument {
            surrounds: self.surrounds,
            connecting_lines: self.connecting_lines,
            ..after
        }
    }

    /// Whether the lines and the list of surround systems of `after` are
    /// those of this document brought up to date with the tree of surround
    /// capabilities of `after`.
    pub open spec fn lines_renewed(self, after: TwoTreeViewDocument) -> bool {
        let base = self.with_trees_of(after);
        &&& base.lines_error().is_none()
        &&& after.connecting_lines.lines@ == drawn_lines(
            base.links().unwrap(),
            base.surround_x().unwrap(),
        )
        &&& after.surrounds.x_position == base.surround_x().unwrap()
        &&& after.surrounds.items@ == repositioned(self.surrounds.items@, base.links().unwrap())
    }

    /// Whether `after` and `r` are what `update_layout` makes of this
    /// document once its trees are `core` and `surround`, where the layout of
    /// the tree of the core, if it is laid out, ends with `core_error`, and
    /// that of the tree of surround capabilities with `surround_error`. A
    /// tree is laid out where it is named and nothing has failed before it;
    /// the lines and the list are brought up to date where the tree of
    /// surround capabilities has been laid out.
    pub open spec fn updated_with<S: TextSizer>(
        self,
        sizer: &S,
        core: Tree<CapabilityData>,
        surround: Tree<CapabilityData>,
        lay_core: bool,
        lay_surround: bool,
        after: TwoTreeViewDocument,
        r: Result<(), DocumentError>,
        core_error: Option<LayoutError>,
        surround_error: Option<LayoutError>,
    ) -> bool {
        let kept = after.surrounds == self.surrounds && after.connecting_lines
            == self.connecting_lines;
        &&& after.capdb == self.capdb
        &&& after.core_tree.layout_direction == self.core_tree.layout_direction
        &&& after.surround_tree.layout_direction == self.surround_tree.layout_direction
        &&& if lay_core {
            core.remade(sizer, self.core_tree.layout_direction, after.core_tree.tree@, core_error)
        } else {
            core_error.is_none() && after.core_tree.tree@ == core
        }
        &&& if lay_surround && core_error.is_none() {
            surround.remade(
                sizer,
                self.surround_tree.layout_direction,
                after.surround_tree.tree@,
                surround_error,
            )
        } else {
            surround_error.is_none() && after.surround_tree.tree@ == surround
        }
        &&& match (core_error, surround_error) {
            (Some(e), _) => r == Err::<(), DocumentError>(DocumentError::Layout(e)) && kept,
            (None, Some(e)) => r == Err::<(), DocumentError>(DocumentError::Layout(e)) && kept,
            (None, None) => if lay_surround {
                match self.with_trees_of(after).lines_error() {
                    Some(e) => r == Err::<(), DocumentError>(e) && kept,
                    None => r.is_ok() && self.lines_renewed(after),
                }
            } else {
                r.is_ok() && kept
            },
        }
    }

    /// Whether `after` and `r` are what `update_layout` makes of this
    /// document once its trees are `core` and `surround`, for some answers of
    /// the sizer: `lay_core` and `lay_surround` say which trees are to be laid
    /// out.
    pub open spec fn updated<S: TextSizer>(
        self,
        sizer: &S,
        core: Tree<CapabilityData>,
        surround: Tree<CapabilityData>,
        lay_core: bool,
        lay_surround: bool,
        after: TwoTreeViewDocument,
        r: Result<(), DocumentError>,
    ) -> bool {
        exists|core_error: Option<LayoutError>, surround_error: Option<LayoutError>|
            #[trigger] self.updated_with(
                sizer,
                core,
                surround,
                lay_core,
                lay_surround,
                after,
                r,
                core_error,
                surround_error,
            )
    }

    /// Lays out the trees that are named, the tree of the core first, and
    /// brings the lines and the list of surround systems up to date with the
    /// tree of surround capabilities where that one is laid out. A part that
    /// is not named stays as it is. The first step that fails ends the call:
    /// what was done before it stays done.
    pub fn update_layout<S: TextSizer>(
        &mut self,
        should_layout_core_tree: bool,
        should_layout_surround_tree: bool,
        sizer: &S,
    ) -> (r: Result<(), DocumentError>)
        ensures
            old(self).updated(
                sizer,
                old(self).core_tree.tree@,
                old(self).surround_tree.tree@,
                should_layout_core_tree,
                should_layout_surround_tree,
                *final(self),
                r,
            ),
            rows_of(final(self).surrounds.items@) == rows_of(old(self).surrounds.items@),
            !should_layout_core_tree ==> final(self).core_tree == old(self).core_tree,
            !should_layout_surround_tree ==> final(self).surround_tree == old(self).surround_tree
                && final(self).surrounds == old(self).surrounds && final(self).connecting_lines
                == old(self).connecting_lines,
            !should_layout_core_tree && !should_layout_surround_tree ==> r.is_ok() && *final(self)
                == *old(self),
            r != Err::<(), DocumentError>(DocumentError::UnknownFold),
            r != Err::<(), DocumentError>(DocumentError::UnknownParent),
            r != Err::<(), DocumentError>(DocumentError::Sizing),
    {
        let ghost core = self.core_tree.tree@;
        let ghost surround = self.surround_tree.tree@;
        if should_layout_core_tree {
            let ghost direction = self.core_tree.layout_direction;
            let laid = self.core_tree.layout(sizer);
            proof {
                let sizes = choose|sizes: Seq<Result<(Coord, Coord), TextSizeError>>|
                    measured_by(sizer, core.visible(), sizes) && (#[trigger] core.with_sizes(
                        sizes,
                        0,
                    )).laid_out(direction, self.core_tree.tree@, laid);
                assert(core.with_sizes(sizes, 0).laid_out(direction, self.core_tree.tree@, laid));
            }
            match laid {
                Ok(_) => {},
                Err(e) => {
                    assert(old(self).updated_with(
                        sizer,
                        core,
                        surround,
                        should_layout_core_tree,
                        should_layout_surround_tree,
                        *self,
                        Err(DocumentError::Layout(e)),
                        Some(e),
                        None,
                    ));
                    return Err(DocumentError::Layout(e));
                },
            }
        }
        if should_layout_surround_tree {
            let ghost direction = self.surround_tree.layout_direction;
            let laid = self.surround_tree.layout(sizer);
            proof {
                let sizes = choose|sizes: Seq<Result<(Coord, Coord), TextSizeError>>|
                    measured_by(sizer, surround.visible(), sizes) && (#[trigger] surround.with_sizes(
                        sizes,
                        0,
                    )).laid_out(direction, self.surround_tree.tree@, laid);
                assert(surround.with_sizes(sizes, 0).laid_out(
                    direction,
                    self.surround_tree.tree@,
                    laid,
                ));
            }
            match laid {
                Ok(_) => {},
                Err(e) => {
                    assert(old(self).updated_with(
                        sizer,
                        core,
                        surround,
                        should_layout_core_tree,
                        should_layout_surround_tree,
                        *self,
                        Err(DocumentError::Layout(e)),
                        None,
                        Some(e),
                    ));
                    return Err(DocumentError::Layout(e));
                },
            }
            let ghost items = self.surrounds.items@;
            let ghost held = *self;
            proof {
                lines_fail_in_two_ways(
                    self.capdb,
                    self.surrounds.items@,
                    self.surround_tree.tree@.fringe(),
                );
            }
            let lines = self.regenerate_connecting_lines();
            assert(old(self).with_trees_of(*self) == held);
            assert(old(self).updated_with(
                sizer,
                core,
                surround,
                should_layout_core_tree,
                should_layout_surround_tree,
                *self,
                lines,
                None,
                None,
            ));
            match lines {
                Ok(()) => {},
                Err(e) => {
                    return Err(e);
                },
            }
            assert(rows_of(self.surrounds.items@) =~= rows_of(items));
            assert(old(self).updated_with(
                sizer,
                core,
                surround,
                should_layout_core_tree,
                should_layout_surround_tree,
                *self,
                Ok(()),
                None,
                None,
            ));
            return Ok(());
        }
        assert(old(self).updated_with(
            sizer,
            core,
            surround,
            should_layout_core_tree,
            should_layout_surround_tree,
            *self,
            Ok(()),
            None,
            None,
        ));
        Ok(())
    }

    /// Collapses or expands the node with the identifier `node_id` in the
    /// tree in which it is found, and lays out again the tree that changed.
    /// The root and the leaves are left as they are. Where no tree changes,
    /// as with an identifier that no node carries, nothing is done, and that
    /// is no error.
    pub fn toggle_collapse<S: TextSizer>(&mut self, node_id: &str, sizer: &S) -> (r: Result<
        (),
        DocumentError,
    >)
        ensures
            old(self).updated(
                sizer,
                old(self).core_tree.tree@.toggled(node_id@),
                old(self).surround_tree.tree@.toggled(node_id@),
                old(self).core_tree.tree@.can_toggle(node_id@),
                old(self).surround_tree.tree@.can_toggle(node_id@),
                *final(self),
                r,
            ),
            !old(self).core_tree.tree@.can_toggle(node_id@) ==> final(self).core_tree == old(
                self,
            ).core_tree,
            !old(self).surround_tree.tree@.can_toggle(node_id@) ==> final(self).surround_tree
                == old(self).surround_tree && final(self).surrounds == old(self).surrounds
                && final(self).connecting_lines == old(self).connecting_lines,
            !old(self).core_tree.tree@.can_toggle(node_id@) && !old(
                self,
            ).surround_tree.tree@.can_toggle(node_id@) ==> r.is_ok() && *final(self) == *old(self),
    {
        let should_layout_core_tree = self.core_tree.toggle_collapse(node_id);
        let should_layout_surround_tree = self.surround_tree.toggle_collapse(node_id);
        let ghost held = *self;
        let r = self.update_layout(should_layout_core_tree, should_layout_surround_tree, sizer);
        proof {
            let (core_error, surround_error) = choose|
                core_error: Option<LayoutError>,
                surround_error: Option<LayoutError>,
            |
                #[trigger] held.updated_with(
                    sizer,
                    held.core_tree.tree@,
                    held.surround_tree.tree@,
                    should_layout_core_tree,
                    should_layout_surround_tree,
                    *self,
                    r,
                    core_error,
                    surround_error,
                );
            assert(old(self).with_trees_of(*self) == held.with_trees_of(*self));
            assert(old(self).updated_with(
                sizer,
                held.core_tree.tree@,
                held.surround_tree.tree@,
                should_layout_core_tree,
                should_layout_surround_tree,
                *self,
                r,
                core_error,
                surround_error,
            ));
        }
        r
    }

    /// Folds both trees in the way that has the name `named_fold` and lays
    /// them out: `LEVEL_2` shows two levels below each root, `ALL_OPEN` shows
    /// every node. With another name nothing is done, and that is the one
    /// case in which the name is said to be unknown.
    pub fn refold<S: TextSizer>(&mut self, named_fold: &str, sizer: &S) -> (r: Result<
        (),
        DocumentError,
    >)
        ensures
            r == Err::<(), DocumentError>(DocumentError::UnknownFold) <==> named_fold@
                != "LEVEL_2"@ && named_fold@ != "ALL_OPEN"@,
            named_fold@ != "LEVEL_2"@ && named_fold@ != "ALL_OPEN"@ ==> *final(self) == *old(self),
            named_fold@ == "LEVEL_2"@ ==> old(self).updated(
                sizer,
                old(self).core_tree.tree@.folded_at(2),
                old(self).surround_tree.tree@.folded_at(2),
                true,
                true,
                *final(self),
                r,
            ),
            named_fold@ == "ALL_OPEN"@ ==> old(self).updated(
                sizer,
                old(self).core_tree.tree@.expanded(),
                old(self).surround_tree.tree@.expanded(),
                true,
                true,
                *final(self),
                r,
            ),
    {
        if same_text(named_fold, "LEVEL_2") {
            self.core_tree.tree.fold_at(2);
            self.surround_tree.tree.fold_at(2);
        } else if same_text(named_fold, "ALL_OPEN") {
            self.core_tree.tree.expand_all();
            self.surround_tree.tree.expand_all();
        } else {
            return Err(DocumentError::UnknownFold);
        }
        proof {
            reveal_strlit("LEVEL_2");
            reveal_strlit("ALL_OPEN");
            assert("LEVEL_2"@.len() == 7);
            assert("ALL_OPEN"@.len() == 8);
        }
        let ghost held = *self;
        let r = self.update_layout(true, true, sizer);
        proof {
            let (core_error, surround_error) = choose|
                core_error: Option<LayoutError>,
                surround_error: Option<LayoutError>,
            |
                #[trigger] held.updated_with(
                    sizer,
                    held.core_tree.tree@,
                    held.surround_tree.tree@,
                    true,
                    true,
                    *self,
                    r,
                    core_error,
                    surround_error,
                );
            assert(old(self).with_trees_of(*self) == held.with_trees_of(*self));
            assert(old(self).updated_with(
                sizer,
                held.core_tree.tree@,
                held.surround_tree.tree@,
                true,
                true,
                *self,
                r,
                core_error,
                surround_error,
            ));
        }
        r
    }

    /// Whether `r` is what `new` makes of the data once the trees `trees`
    /// have been read from it and the list `list` has been made of its
    /// surround systems: the document that `update_layout` makes of the trees,
    /// of the list and of no lines, or the error with which it ends.
    pub open spec fn begun<S: TextSizer>(
        capdb: CapabilitiesDB,
        sizer: &S,
        trees: (Tree<CapabilityData>, Tree<CapabilityData>),
        list: SurroundItems,
        r: Result<TwoTreeViewDocument, DocumentError>,
    ) -> bool {
        exists|
            start: TwoTreeViewDocument,
            after: TwoTreeViewDocument,
            done: Result<(), DocumentError>,
        |
            {
                &&& start.capdb == capdb
                &&& start.core_tree.tree@ == trees.0
                &&& start.core_tree.layout_direction == TreeLayoutDirection::Left
                &&& start.surround_tree.tree@ == trees.1
                &&& start.surround_tree.layout_direction == TreeLayoutDirection::Right
                &&& start.connecting_lines.lines@.len() == 0
                &&& start.surrounds == list
                &&& #[trigger] start.updated(sizer, trees.0, trees.1, true, true, after, done)
                &&& r == match done {
                    Ok(()) => Ok::<TwoTreeViewDocument, DocumentError>(after),
                    Err(e) => Err::<TwoTreeViewDocument, DocumentError>(e),
                }
            }
    }

    /// Whether `r` is what `new` makes of the data once the trees `trees`
    /// have been read from it, for some answers that the sizer may give: where
    /// the name of a surround system has no size the error that says so; else
    /// what is made of the trees and of the list of the surround systems, see
    /// `begun`.
    pub open spec fn opened<S: TextSizer>(
        capdb: CapabilitiesDB,
        sizer: &S,
        trees: (Tree<CapabilityData>, Tree<CapabilityData>),
        r: Result<TwoTreeViewDocument, DocumentError>,
    ) -> bool {
        exists|sizes: Seq<Result<Point, TextSizeError>>, listing: Result<SurroundItems, TextSizeError>|
            asked_in_turn(sizer, shown_rows(capdb.surrounds@), sizes) && #[trigger] listed(
                capdb.surrounds@,
                sizes,
                listing,
            ) && match listing {
                Ok(list) => Self::begun(capdb, sizer, trees, list, r),
                Err(_) => r == Err::<TwoTreeViewDocument, DocumentError>(DocumentError::Sizing),
            }
    }

    /// The document of the data: the two trees of its capabilities and
    /// the list of its surround systems, measured with `sizer` and laid out.
    pub fn new<S: TextSizer>(capdb: CapabilitiesDB, sizer: &S) -> (r: Result<Self, DocumentError>)
        ensures
            exists|root: Tree<CapabilityData>, other: Tree<CapabilityData>|
                #![trigger trees_with_rows(capdb.capabilities@, root, other)]
                {
                    &&& is_root_tree(root)
                    &&& is_root_tree(other)
                    &&& match trees_with_rows(capdb.capabilities@, root, other) {
                        Some(trees) => Self::opened(capdb, sizer, trees, r),
                        None => r == Err::<Self, DocumentError>(DocumentError::UnknownParent),
                    }
                },
            match r {
                Ok(doc) => doc.capdb == capdb && doc.core_tree.layout_direction
                    == TreeLayoutDirection::Left && doc.surround_tree.layout_direction
                    == TreeLayoutDirection::Right && rows_of(doc.surrounds.items@) == shown_rows(
                    capdb.surrounds@,
                ),
                Err(_) => true,
            },
    {
        let (core_tree, surround_tree) = match read_trees_from_capdb(&capdb) {
            Some(trees) => trees,
            None => {
                return Err(DocumentError::UnknownParent);
            },
        };
        let ghost built = (core_tree.tree@, surround_tree.tree@);
        proof {
            let (root, other) = choose|root: Tree<CapabilityData>, other: Tree<CapabilityData>|
                #![trigger trees_with_rows(capdb.capabilities@, root, other)]
                is_root_tree(root) && is_root_tree(other) && trees_with_rows(
                    capdb.capabilities@,
                    root,
                    other,
                ) == Some(built);
            assert(trees_with_rows(capdb.capabilities@, root, other) == Some(built));
        }
        let listing = SurroundItems::new(&capdb, sizer);
        let ghost sizes = choose|sizes: Seq<Result<Point, TextSizeError>>|
            asked_in_turn(sizer, shown_rows(capdb.surrounds@), sizes) && #[trigger] listed(
                capdb.surrounds@,
                sizes,
                listing,
            );
        let surrounds = match listing {
            Ok(surrounds) => surrounds,
            Err(_) => {
                assert(listed(capdb.surrounds@, sizes, listing));
                return Err(DocumentError::Sizing);
            },
        };
        let ghost list = surrounds;
        let mut doc = TwoTreeViewDocument {
            capdb,
            core_tree,
            surround_tree,
            surrounds,
            connecting_lines: ConnectingLines::default(),
        };
        let ghost start = doc;
        let updated = doc.update_layout(true, true, sizer);
        let r = match updated {
            Ok(()) => Ok(doc),
            Err(e) => Err(e),
        };
        proof {
            assert(start.updated(sizer, built.0, built.1, true, true, doc, updated));
            assert(Self::begun(capdb, sizer, built, list, r));
            assert(listed(capdb.surrounds@, sizes, Ok::<SurroundItems, TextSizeError>(list)));
            assert(Self::opened(capdb, sizer, built, r));
        }
        r
    }
}

/// The lines fail to be made in two ways only: the surround systems of a
/// capability cannot be found, or a capability has no box.
pub proof fn lines_fail_in_two_ways(
    capdb: CapabilitiesDB,
    items: Seq<SurroundItem>,
    leaves: Seq<CapabilityData>,
)
    ensures
        match connections(capdb, items, leaves) {
            Ok(_) => true,
            Err(DocumentError::Related(_)) => true,
            Err(e) => e == DocumentError::NoBox,
        },
    decreases leaves.len(),
{
    if leaves.len() > 0 {
        lines_fail_in_two_ways(capdb, items, leaves.drop_last());
    }
}

/// A system at which a line ends has a line.
proof fn mark_counts(lines: Seq<Connection>, i: int)
    requires
        0 <= i < lines.len(),
    ensures
        total(marks_at(lines, lines[i].surround as int)) > 0,
{
    let marks = marks_at(lines, lines[i].surround as int);
    crate::seqs::total_covers(marks, i);
}

} // verus!
