use vstd::prelude::*;
use vstd::string::StringExecFns;
use crate::document::CONNECT_DOT_RADIUS;
use crate::geometry::{is_edge, Coord, Point, Rect, EDGE_LIMIT};
use crate::svg_writer::{single_tag_text, Attributes, Renderable, TagWriter, TagWriterError};
use crate::text::{signed_decimal, signed_decimal_text};
use crate::used_by::{color_strs, get_color_strs, UsedBySet};

verus! {

/// How far from an end of a line its control point lies, across.
pub const LINE_CTRL_OFFSET: Coord = 10;

/// A line from a capability to the surround system that is to provide it.
#[derive(Debug, Clone, Copy)]
pub struct Line {
    pub start: Point,
    pub end: Point,
    pub color: &'static str,
}

/// The lines between the capabilities and the surround systems.
#[derive(Debug)]
pub struct ConnectingLines {
    pub lines: Vec<Line>,
}

impl Default for ConnectingLines {
    fn default() -> (r: ConnectingLines)
        ensures
            r.lines@.len() == 0,
    {
        ConnectingLines { lines: Vec::new() }
    }
}

/// The smallest rectangle that holds the boxes of the lines, and `None`
/// where one of them has no box. The boxes are taken two at a time from the
/// first on.
pub open spec fn lines_cover(lines: Seq<Line>) -> Option<Rect>
    decreases lines.len(),
{
    if lines.len() == 0 {
        None
    } else if lines.len() == 1 {
        lines[0].bbox()
    } else {
        match (lines_cover(lines.drop_last()), lines.last().bbox()) {
            (Some(held), Some(last)) => Some(held.spec_cover(last)),
            _ => None,
        }
    }
}

/// The path of a curve from `left` to `right` that leaves and arrives
/// level: its control points lie `LINE_CTRL_OFFSET` inwards of its ends.
pub open spec fn line_path(left: Point, right: Point) -> Seq<char> {
    "M "@ + signed_decimal(left.0 as int) + " "@ + signed_decimal(left.1 as int) + " C "@
        + signed_decimal(left.0 + LINE_CTRL_OFFSET) + " "@ + signed_decimal(left.1 as int) + ", "@
        + signed_decimal(right.0 - LINE_CTRL_OFFSET) + " "@ + signed_decimal(right.1 as int)
        + ", "@ + signed_decimal(right.0 as int) + " "@ + signed_decimal(right.1 as int)
}

/// The path of the curve from `left` to `right`, as the `d` of an SVG
/// path.
pub fn make_line_path(left: Point, right: Point) -> (path: String)
    requires
        is_edge(left.0 as int),
        is_edge(right.0 as int),
    ensures
        path@ == line_path(left, right),
{
    let left_ctrl_x = left.0 + LINE_CTRL_OFFSET;
    let right_ctrl_x = right.0 - LINE_CTRL_OFFSET;
    let mut path = "M ".to_owned();
    path.append(signed_decimal_text(left.0).as_str());
    path.append(" ");
    path.append(signed_decimal_text(left.1).as_str());
    path.append(" C ");
    path.append(signed_decimal_text(left_ctrl_x).as_str());
    path.append(" ");
    path.append(signed_decimal_text(left.1).as_str());
    path.append(", ");
    path.append(signed_decimal_text(right_ctrl_x).as_str());
    path.append(" ");
    path.append(signed_decimal_text(right.1).as_str());
    path.append(", ");
    path.append(signed_decimal_text(right.0).as_str());
    path.append(" ");
    path.append(signed_decimal_text(right.1).as_str());
    path
}

impl Line {
    /// The box of a line that runs from left to right: between its ends.
    /// `None` where the line does not run from left to right, or an end lies
    /// beyond `EDGE_LIMIT`.
    pub open spec fn bbox(self) -> Option<Rect> {
        if self.start.0 < self.end.0 && is_edge(self.start.0 as int) && is_edge(
            self.start.1 as int,
        ) && is_edge(self.end.0 as int) && is_edge(self.end.1 as int) {
            if self.end.1 >= self.start.1 {
                Some(
                    Rect {
                        left: self.start.0,
                        top: self.start.1,
                        width: (self.end.0 - self.start.0) as Coord,
                        height: (self.end.1 - self.start.1) as Coord,
                    },
                )
            } else {
                Some(
                    Rect {
                        left: self.start.0,
                        top: self.end.1,
                        width: (self.end.0 - self.start.0) as Coord,
                        height: (self.start.1 - self.end.1) as Coord,
                    },
                )
            }
        } else {
            None
        }
    }

    /// The box of the line, and `None` where it has none.
    pub fn get_bbox(&self) -> (r: Option<Rect>)
        ensures
            r == self.bbox(),
            r.is_some() ==> r.unwrap().wf(),
    {
        if !(self.start.0 < self.end.0) || self.start.0 < -EDGE_LIMIT || self.start.1
            < -EDGE_LIMIT || self.start.1 > EDGE_LIMIT || self.end.0 > EDGE_LIMIT || self.end.1
            < -EDGE_LIMIT || self.end.1 > EDGE_LIMIT {
            return None;
        }
        if self.end.1 >= self.start.1 {
            Some(Rect::new_ltrb(self.start.0, self.start.1, self.end.0, self.end.1))
        } else {
            Some(Rect::new_ltrb(self.start.0, self.end.1, self.end.0, self.start.1))
        }
    }
}

impl ConnectingLines {
    /// Takes all the lines away.
    pub fn clear(&mut self)
        ensures
            final(self).lines@.len() == 0,
    {
        self.lines.clear();
    }

    /// Adds a line from a capability at `capability_pos` to a surround
    /// system at `surround_pos`, in the colour of the lines of business that
    /// use the system.
    pub fn add_line(&mut self, capability_pos: Point, surround_pos: Point, used_by_set: &UsedBySet)
        ensures
            final(self).lines@ == old(self).lines@.push(
                Line {
                    start: capability_pos,
                    end: surround_pos,
                    color: color_strs(*used_by_set).0,
                },
            ),
    {
        let color = get_color_strs(used_by_set).0;
        self.lines.push(Line { start: capability_pos, end: surround_pos, color });
    }

    /// The smallest rectangle that holds all the lines; an empty rectangle
    /// at the origin where there is no line, and `None` where a line has no
    /// box.
    pub fn get_bbox(&self) -> (r: Option<Rect>)
        ensures
            r == if self.lines@.len() == 0 {
                Some(Rect { left: 0, top: 0, width: 0, height: 0 })
            } else {
                lines_cover(self.lines@)
            },
            r.is_some() ==> r.unwrap().wf(),
    {
        if self.lines.len() == 0 {
            return Some(Rect::new_ltwh(0, 0, 0, 0));
        }
        let ghost lines = self.lines@;
        assert(lines.take(1).len() == 1 && lines.take(1)[0] == lines[0]);
        let mut held = match self.lines[0].get_bbox() {
            Some(first) => first,
            None => {
                proof {
                    no_cover(lines, 0);
                }
                return None;
            },
        };
        let mut i: usize = 1;
        while i < self.lines.len()
            invariant
                1 <= i <= self.lines.len(),
                lines == self.lines@,
                held.wf(),
                lines_cover(lines.take(i as int)) == Some(held),
            decreases self.lines.len() - i,
        {
            proof {
                assert(lines.take(i as int + 1).drop_last() =~= lines.take(i as int));
                assert(lines.take(i as int + 1).last() == lines[i as int]);
            }
            match self.lines[i].get_bbox() {
                Some(next) => {
                    held = held.cover(&next);
                },
                None => {
                    proof {
                        no_cover(lines, i as int);
                    }
                    return None;
                },
            }
            i = i + 1;
        }
        assert(lines.take(lines.len() as int) =~= lines);
        Some(held)
    }
}

/// Where one of the lines has no box, nothing holds them all.
proof fn no_cover(lines: Seq<Line>, k: int)
    requires
        0 <= k < lines.len(),
        lines[k].bbox().is_none(),
    ensures
        lines_cover(lines).is_none(),
    decreases lines.len(),
{
    if lines.len() > 1 && k < lines.len() - 1 {
        assert(lines.drop_last()[k] == lines[k]);
        no_cover(lines.drop_last(), k);
    }
}

/// The attributes of the dot at an end of a line.
pub open spec fn dot_pairs(at: Point) -> Seq<(Seq<char>, Seq<char>)> {
    seq![
        ("cx"@, signed_decimal(at.0 as int)),
        ("cy"@, signed_decimal(at.1 as int)),
        ("r"@, signed_decimal(CONNECT_DOT_RADIUS as int)),
        ("fill"@, "#FFFFFF"@),
        ("stroke"@, "#000000"@),
        ("stroke-width"@, "1.0"@),
    ]
}

/// The tags of the lines, one line after the other.
pub open spec fn lines_text(lines: Seq<Line>, indent: Seq<char>, depth: nat) -> Seq<char>
    decreases lines.len(),
{
    if lines.len() == 0 {
        Seq::empty()
    } else {
        lines_text(lines.drop_last(), indent, depth) + lines.last().tags(indent, depth)
    }
}

/// Writes the dot at an end of a line.
fn draw_dot<W: TagWriter>(at: Point, tag_writer: &mut W)
    ensures
        final(tag_writer).depth() == old(tag_writer).depth(),
        final(tag_writer).indent() == old(tag_writer).indent(),
        final(tag_writer).written() == old(tag_writer).written() + single_tag_text(
            old(tag_writer).indent(),
            old(tag_writer).depth(),
            "circle"@,
            dot_pairs(at),
        ),
{
    let attributes = Attributes::new().with_text(
        "cx",
        signed_decimal_text(at.0).as_str(),
    ).with_text("cy", signed_decimal_text(at.1).as_str()).with_text(
        "r",
        signed_decimal_text(CONNECT_DOT_RADIUS).as_str(),
    ).with_text("fill", "#FFFFFF").with_text("stroke", "#000000").with_text("stroke-width", "1.0");
    assert(attributes.pairs() =~= dot_pairs(at));
    let _ = tag_writer.single_tag("circle", attributes);
}

impl Line {
    /// Whether the line can be drawn: its ends lie within `EDGE_LIMIT`
    /// across.
    pub open spec fn drawable(self) -> bool {
        is_edge(self.start.0 as int) && is_edge(self.end.0 as int)
    }

    /// The tags of the line: a curve in the colour of the line, and a dot
    /// at each end.
    #[verifier::opaque]
    pub open spec fn tags(self, indent: Seq<char>, depth: nat) -> Seq<char> {
        single_tag_text(
            indent,
            depth,
            "path"@,
            seq![
                ("d"@, line_path(self.start, self.end)),
                ("fill"@, "none"@),
                ("stroke"@, self.color@),
                ("stroke-width"@, "2.0"@),
            ],
        ) + single_tag_text(indent, depth, "circle"@, dot_pairs(self.start)) + single_tag_text(
            indent,
            depth,
            "circle"@,
            dot_pairs(self.end),
        )
    }

    /// Writes the tags of the line; nothing where it cannot be drawn.
    pub fn draw<W: TagWriter>(&self, tag_writer: &mut W) -> (r: Result<(), TagWriterError>)
        ensures
            final(tag_writer).depth() == old(tag_writer).depth(),
            final(tag_writer).indent() == old(tag_writer).indent(),
            self.drawable() ==> r.is_ok() && final(tag_writer).written() == old(tag_writer).written() + self.tags(old(tag_writer).indent(), old(tag_writer).depth()),
            !self.drawable() ==> r == Err::<(), TagWriterError>(TagWriterError::Unplaced) && final(tag_writer).written() == old(tag_writer).written(),
    {
        if self.start.0 < -EDGE_LIMIT || self.start.0 > EDGE_LIMIT || self.end.0 < -EDGE_LIMIT
            || self.end.0 > EDGE_LIMIT {
            return Err(TagWriterError::Unplaced);
        }
        let ghost before = tag_writer.written();
        let ghost indent = tag_writer.indent();
        let ghost depth = tag_writer.depth();
        proof {
            reveal(Line::tags);
        }
        let attributes = Attributes::new().with_text(
            "d",
            make_line_path(self.start, self.end).as_str(),
        ).with_text("fill", "none").with_text("stroke", self.color).with_text(
            "stroke-width",
            "2.0",
        );
        assert(attributes.pairs() =~= seq![
            ("d"@, line_path(self.start, self.end)),
            ("fill"@, "none"@),
            ("stroke"@, self.color@),
            ("stroke-width"@, "2.0"@),
        ]);
        let _ = tag_writer.single_tag("path", attributes);
        draw_dot(self.start, tag_writer);
        draw_dot(self.end, tag_writer);
        assert(tag_writer.written() =~= before + self.tags(indent, depth));
        Ok(())
    }
}

impl ConnectingLines {
    /// Whether every line can be drawn.
    pub open spec fn drawable(&self) -> bool {
        forall|i: int| 0 <= i < self.lines@.len() ==> (#[trigger] self.lines@[i]).drawable()
    }

    /// Writes the tags of the lines, one line after the other; nothing
    /// where one of them cannot be drawn.
    pub fn draw<W: TagWriter>(&self, tag_writer: &mut W) -> (r: Result<(), TagWriterError>)
        ensures
            final(tag_writer).depth() == old(tag_writer).depth(),
            final(tag_writer).indent() == old(tag_writer).indent(),
            self.drawable() ==> r.is_ok() && final(tag_writer).written() == old(tag_writer).written() + lines_text(
                self.lines@,
                old(tag_writer).indent(),
                old(tag_writer).depth(),
            ),
            !self.drawable() ==> r == Err::<(), TagWriterError>(TagWriterError::Unplaced) && final(tag_writer).written() == old(tag_writer).written(),
    {
        let mut i: usize = 0;
        while i < self.lines.len()
            invariant
                i <= self.lines.len(),
                forall|j: int| 0 <= j < i ==> (#[trigger] self.lines@[j]).drawable(),
            decreases self.lines.len() - i,
        {
            let line = &self.lines[i];
            if line.start.0 < -EDGE_LIMIT || line.start.0 > EDGE_LIMIT || line.end.0 < -EDGE_LIMIT
                || line.end.0 > EDGE_LIMIT {
                assert(!self.lines@[i as int].drawable());
                return Err(TagWriterError::Unplaced);
            }
            i = i + 1;
        }
        let ghost before = tag_writer.written();
        let ghost indent = tag_writer.indent();
        let ghost depth = tag_writer.depth();
        let ghost lines = self.lines@;
        let mut i: usize = 0;
        assert(lines.take(0) =~= Seq::empty());
        assert(before + lines_text(lines.take(0), indent, depth) =~= before);
        while i < self.lines.len()
            invariant
                i <= self.lines.len(),
                lines == self.lines@,
                self.drawable(),
                tag_writer.depth() == depth,
                tag_writer.indent() == indent,
                tag_writer.written() == before + lines_text(lines.take(i as int), indent, depth),
            decreases self.lines.len() - i,
        {
            proof {
                assert(lines.take(i as int + 1).drop_last() =~= lines.take(i as int));
                assert(lines.take(i as int + 1).last() == lines[i as int]);
                assert(lines[i as int].drawable());
            }
            let _ = self.lines[i].draw(tag_writer);
            assert(tag_writer.written() =~= before + lines_text(
                lines.take(i as int + 1),
                indent,
                depth,
            ));
            i = i + 1;
        }
        assert(lines.take(lines.len() as int) =~= lines);
        Ok(())
    }
}

impl Renderable for Line {
    open spec fn drawing(&self, indent: Seq<char>, depth: nat) -> Option<Seq<char>> {
        if self.drawable() {
            Some(self.tags(indent, depth))
        } else {
            None
        }
    }

    fn render<W: TagWriter>(&self, tag_writer: &mut W) -> (r: Result<(), TagWriterError>) {
        self.draw(tag_writer)
    }
}

impl Renderable for ConnectingLines {
    open spec fn drawing(&self, indent: Seq<char>, depth: nat) -> Option<Seq<char>> {
        if self.drawable() {
            Some(lines_text(self.lines@, indent, depth))
        } else {
            None
        }
    }

    fn render<W: TagWriter>(&self, tag_writer: &mut W) -> (r: Result<(), TagWriterError>) {
        self.draw(tag_writer)
    }
}

} // verus!
