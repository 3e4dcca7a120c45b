use vstd::prelude::*;
use crate::document::CENTER_DOT_RADIUS;
use crate::geometry::Rect;
use crate::svg_writer::{single_tag_text, Attributes, Renderable, TagWriter, TagWriterError};
use crate::text::{signed_decimal, signed_decimal_text};

verus! {

/// The dot at the origin, between the two trees.
#[derive(Debug, Clone, Copy)]
pub struct CenterDot;

impl CenterDot {
    /// The box of the dot: about the origin, as wide and as high as the
    /// dot.
    pub fn get_bbox(&self) -> (r: Rect)
        ensures
            r == (Rect {
                left: (-CENTER_DOT_RADIUS) as i64,
                top: (-CENTER_DOT_RADIUS) as i64,
                width: (2 * CENTER_DOT_RADIUS) as i64,
                height: (2 * CENTER_DOT_RADIUS) as i64,
            }),
            r.wf(),
    {
        Rect::new_cwh((0, 0), 2 * CENTER_DOT_RADIUS, 2 * CENTER_DOT_RADIUS)
    }

    /// Writes the dot as a circle about the origin.
    pub fn draw<W: TagWriter>(&self, tag_writer: &mut W) -> (r: Result<(), TagWriterError>)
        ensures
            r.is_ok(),
            final(tag_writer).depth() == old(tag_writer).depth(),
            final(tag_writer).indent() == old(tag_writer).indent(),
            final(tag_writer).written() == old(tag_writer).written() + single_tag_text(
                old(tag_writer).indent(),
                old(tag_writer).depth(),
                "circle"@,
                seq![
                    ("cx"@, "0"@),
                    ("cy"@, "0"@),
                    ("r"@, signed_decimal(CENTER_DOT_RADIUS as int)),
                ],
            ),
    {
        let radius = signed_decimal_text(CENTER_DOT_RADIUS);
        let attributes = Attributes::new().with_text("cx", "0").with_text("cy", "0").with_text(
            "r",
            radius.as_str(),
        );
        assert(attributes.pairs() =~= seq![
            ("cx"@, "0"@),
            ("cy"@, "0"@),
            ("r"@, signed_decimal(CENTER_DOT_RADIUS as int)),
        ]);
        tag_writer.single_tag("circle", attributes)
    }
}

impl Renderable for CenterDot {
    open spec fn drawing(&self, indent: Seq<char>, depth: nat) -> Option<Seq<char>> {
        Some(
            single_tag_text(
                indent,
                depth,
                "circle"@,
                seq![
                    ("cx"@, "0"@),
                    ("cy"@, "0"@),
                    ("r"@, signed_decimal(CENTER_DOT_RADIUS as int)),
                ],
            ),
        )
    }

    fn render<W: TagWriter>(&self, tag_writer: &mut W) -> (r: Result<(), TagWriterError>) {
        self.draw(tag_writer)
    }
}

} // verus!
