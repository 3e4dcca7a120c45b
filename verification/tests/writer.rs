use prog_draw::capability_html::{as_y_n, capability_as_html, style, surround_as_html};
use prog_draw::capability_db::SurroundRow;
use prog_draw::capability_tree::{CapabilityData, CoreOrSurround};
use prog_draw::center_dot::CenterDot;
use prog_draw::connecting_lines::{make_line_path, ConnectingLines, Line};
use prog_draw::geometry::{half, Rect};
use prog_draw::surrounds::SurroundItem;
use prog_draw::svg_writer::{
    xml_escape_body_text, Attributes, Renderable, TagWriter, TagWriterError, TagWriterImpl,
};
use prog_draw::text::{chars_of, decimal_text, signed_decimal_text, text_of};
use prog_draw::used_by::{UsedBy, UsedBySet};

#[test]
fn numbers_as_text() {
    assert_eq!(decimal_text(0), "0");
    assert_eq!(decimal_text(7), "7");
    assert_eq!(decimal_text(10), "10");
    assert_eq!(decimal_text(1234567890), "1234567890");
    assert_eq!(decimal_text(u64::MAX), "18446744073709551615");
    assert_eq!(signed_decimal_text(0), "0");
    assert_eq!(signed_decimal_text(-1), "-1");
    assert_eq!(signed_decimal_text(305), "305");
    assert_eq!(signed_decimal_text(i64::MIN), "-9223372036854775808");
    assert_eq!(signed_decimal_text(i64::MAX), "9223372036854775807");
}

#[test]
fn characters_and_texts() {
    assert_eq!(chars_of("aé<"), vec!['a', 'é', '<']);
    assert_eq!(chars_of(""), Vec::<char>::new());
    assert_eq!(text_of(&vec!['a', 'b', 'c', 'd'], 1, 3), "bc");
    assert_eq!(text_of(&vec!['a'], 1, 1), "");
}

#[test]
fn halves_round_down() {
    assert_eq!(half(7), 3);
    assert_eq!(half(8), 4);
    assert_eq!(half(0), 0);
    assert_eq!(half(-1), -1);
    assert_eq!(half(-2), -1);
    assert_eq!(half(-7), -4);
    assert_eq!(half(i64::MIN), i64::MIN / 2);
    assert_eq!(half(i64::MAX), i64::MAX / 2);
}

#[test]
fn rectangles() {
    let r = Rect::new_ltwh(1, 2, 10, 20);
    assert_eq!((r.left(), r.top(), r.right(), r.bottom(), r.width(), r.height()), (1, 2, 11, 22, 10, 20));
    assert_eq!(r.center(), (6, 12));
    assert_eq!(r.center_y(), 12);
    assert_eq!(Rect::new_cwh((0, 0), 10, 7), Rect::new_ltwh(-5, -3, 10, 7));
    assert_eq!(Rect::new_ltrb(-1, -2, 3, 4), Rect::new_ltwh(-1, -2, 4, 6));
    let other = Rect::new_ltwh(-4, 5, 6, 30);
    assert_eq!(r.cover(&other), Rect::new_ltrb(-4, 2, 11, 35));
    assert_eq!(other.cover(&r), Rect::new_ltrb(-4, 2, 11, 35));
    assert_eq!(r.translated(5, -5), Rect::new_ltwh(6, -3, 10, 20));
    let mut moved = r;
    moved.translate(-1, 1);
    assert_eq!(moved, Rect::new_ltwh(0, 3, 10, 20));
    assert_eq!(CenterDot.get_bbox(), Rect::new_ltwh(-40, -40, 80, 80));
    assert!(r.is_wf());
    assert!(Rect::new_ltwh(-(1 << 61), 0, 1 << 62, 1 << 61).is_wf());
    assert!(!Rect::new_ltwh(-(1 << 61) - 1, 0, 1, 1).is_wf());
    assert!(!Rect::new_ltwh(0, 1, 0, 1 << 61).is_wf());
    assert!(!Rect::new_ltwh(i64::MAX, i64::MAX, i64::MAX, i64::MAX).is_wf());
}

#[test]
fn escape_body_text() {
    assert_eq!(xml_escape_body_text("a < b && c > d"), "a &lt; b &amp;&amp; c > d");
    assert_eq!(xml_escape_body_text("&lt;"), "&amp;lt;");
    assert_eq!(xml_escape_body_text(""), "");
    assert_eq!(xml_escape_body_text("plain é"), "plain é");
}

#[test]
fn attributes_are_written_in_order() {
    let attributes = Attributes::new().with_field("x", 5).with_field("name", "a\"b").with_text("k", "v");
    let mut out = String::from("<t");
    attributes.write(&mut out);
    assert_eq!(out, "<t x=\"5\" name=\"a\"b\" k=\"v\"");
    let mut none = String::new();
    Attributes::new().write(&mut none);
    assert_eq!(none, "");
}

#[test]
fn tags_are_nested() {
    let mut writer = TagWriterImpl::new();
    writer.begin_tag("svg", Attributes::new().with_text("viewBox", "0 0 1 1")).unwrap();
    writer.begin_tag("g", Attributes::new()).unwrap();
    writer.single_tag("rect", Attributes::new().with_field("x", 1).with_field("y", -2)).unwrap();
    writer.tag_with_text("text", Attributes::new().with_text("class", "leaf"), "a < b & c").unwrap();
    writer.text("x<y").unwrap();
    writer.raw_svg("<raw/>\n").unwrap();
    assert_eq!(writer.close(), Err(TagWriterError::NotEnoughEndTags));
    writer.end_tag("g").unwrap();
    writer.end_tag("svg").unwrap();
    assert_eq!(writer.close(), Ok(()));
    assert_eq!(writer.end_tag("svg"), Err(TagWriterError::NotEnoughBeginTags));
    assert_eq!(writer.indent_level, 0);
    assert_eq!(
        writer.into_string(),
        "<svg viewBox=\"0 0 1 1\">\n  <g>\n    <rect x=\"1\" y=\"-2\"/>\n    <text class=\"leaf\">a &lt; b &amp; c</text>\nx&lt;y<raw/>\n  </g>\n</svg>\n"
    );
    assert_eq!(TagWriterError::NotEnoughEndTags.message(), "Not enough end tags.");
    assert_eq!(TagWriterError::NotEnoughBeginTags.message(), "Not enough begin tags.");
}

#[test]
fn center_dot_is_a_circle() {
    let mut writer = TagWriterImpl::new();
    writer.begin_tag("g", Attributes::new()).unwrap();
    CenterDot.render(&mut writer).unwrap();
    assert_eq!(writer.into_string(), "<g>\n  <circle cx=\"0\" cy=\"0\" r=\"40\"/>\n");
}

#[test]
fn line_paths() {
    assert_eq!(make_line_path((1, 2), (30, -4)), "M 1 2 C 11 2, 20 -4, 30 -4");
    assert_eq!(make_line_path((-5, 0), (5, 0)), "M -5 0 C 5 0, -5 0, 5 0");
}

#[test]
fn connecting_lines_and_their_boxes() {
    let mut lines = ConnectingLines::default();
    assert_eq!(lines.get_bbox(), Some(Rect::new_ltwh(0, 0, 0, 0)));
    let yes = UsedBySet::from_fields(UsedBy::Yes, UsedBy::Yes, UsedBy::Yes);
    lines.add_line((0, 10), (20, 4), &yes);
    lines.add_line((5, 0), (20, 30), &UsedBySet::all_mixed());
    assert_eq!(lines.lines[0].color, "#804000");
    assert_eq!(lines.lines[1].color, "#E8E8E8");
    assert_eq!(lines.lines[0].get_bbox(), Some(Rect::new_ltrb(0, 4, 20, 10)));
    assert_eq!(lines.lines[1].get_bbox(), Some(Rect::new_ltrb(5, 0, 20, 30)));
    assert_eq!(lines.get_bbox(), Some(Rect::new_ltrb(0, 0, 20, 30)));
    let backwards = Line { start: (3, 0), end: (3, 5), color: "#000000" };
    assert_eq!(backwards.get_bbox(), None);
    lines.lines.push(backwards);
    assert_eq!(lines.get_bbox(), None);
    lines.clear();
    assert!(lines.lines.is_empty());
}

#[test]
fn pop_ups_encode_their_texts() {
    assert_eq!(as_y_n(true), "Yes");
    assert_eq!(as_y_n(false), "No");
    let mut data = CapabilityData::new_new(
        "id",
        "parent",
        "a < b",
        UsedBySet::from_fields(UsedBy::Yes, UsedBy::Maybe, UsedBy::Blank),
        "this & that",
        CoreOrSurround::NotSure,
        "x > y",
    );
    data.text_size = Some((1, 1));
    let page = capability_as_html(&data);
    assert!(page.contains("<div class=\"name\">a &lt; b</div>"));
    assert!(page.contains("<div>this &amp; that</div>"));
    assert!(page.contains("<div>x &gt; y</div>"));
    assert!(page.contains("<label>Core/Surround: </label>Not Sure</div>"));
    assert!(page.contains("<div><label>Consumer</label></div>\n                                <div>Yes</div>"));
    assert!(page.contains("<div><label>SBB</label></div>\n                                <div>Maybe</div>"));
    assert!(page.contains("<div><label>Commercial</label></div>\n                                <div></div>"));
    assert!(page.starts_with("\n            <div class=\"modal-shade\" id=\"capability_modal\""));
    assert!(page.ends_with("</div>\n        "));
    let row = SurroundRow {
        id: "S".to_string(),
        name: "R&D <new>".to_string(),
        is_core: false,
        is_new_system: true,
        is_current: false,
        is_destination: true,
        consumer_current: false,
        sbb_current: false,
        commercial_current: false,
        consumer_destination: true,
        sbb_destination: false,
        commercial_destination: true,
        app_on_mainframe: String::new(),
        links: String::new(),
    };
    let item = SurroundItem::new(&row, (10, 6));
    let page = surround_as_html(&item);
    assert!(page.contains("<div class=\"name\">R&amp;D &lt;new&gt;</div>"));
    assert!(page.contains("<div>New system needs to be created</div>"));
    assert!(page.contains("<div><label>Consumer</label></div>\n                                <div>Yes</div>"));
    assert!(page.contains("<div><label>SBB</label></div>\n                                <div>No</div>"));
    assert!(style().contains(".modal-shade {"));
    assert!(style().contains("grid-template-columns: max-content max-content;"));
}

#[test]
fn halves_as_text() {
    use_halves();
}

fn use_halves() {
    let halves_text = prog_draw::text::halves_text;
    assert_eq!(halves_text(0), "0");
    assert_eq!(halves_text(10), "5");
    assert_eq!(halves_text(11), "5.5");
    assert_eq!(halves_text(1), "0.5");
    assert_eq!(halves_text(-1), "-0.5");
    assert_eq!(halves_text(-5), "-2.5");
    assert_eq!(halves_text(-6), "-3");
    assert_eq!(halves_text(i64::MIN), "-4611686018427387904");
    assert_eq!(halves_text(i64::MAX), "4611686018427387903.5");
}

#[test]
fn lines_are_drawn() {
    let mut lines = ConnectingLines::default();
    lines.add_line((134, 5), (182, 14), &UsedBySet::from_fields(UsedBy::No, UsedBy::Yes, UsedBy::No));
    let mut writer = TagWriterImpl::new();
    writer.begin_tag("g", Attributes::new()).unwrap();
    lines.draw(&mut writer).unwrap();
    assert_eq!(
        writer.into_string(),
        "<g>\n  <path d=\"M 134 5 C 144 5, 172 14, 182 14\" fill=\"none\" stroke=\"#8080FF\" stroke-width=\"2.0\"/>\n  <circle cx=\"134\" cy=\"5\" r=\"2\" fill=\"#FFFFFF\" stroke=\"#000000\" stroke-width=\"1.0\"/>\n  <circle cx=\"182\" cy=\"14\" r=\"2\" fill=\"#FFFFFF\" stroke=\"#000000\" stroke-width=\"1.0\"/>\n"
    );
    lines.lines.push(Line { start: (i64::MAX, 0), end: (0, 0), color: "#000000" });
    let mut writer = TagWriterImpl::new();
    assert_eq!(lines.draw(&mut writer), Err(TagWriterError::Unplaced));
    assert_eq!(writer.into_string(), "");
    assert_eq!(TagWriterError::Unplaced.message(), "Not placed yet.");
}

#[test]
fn surround_items_are_drawn() {
    let row = SurroundRow {
        id: "S".to_string(),
        name: "R&D".to_string(),
        is_core: false,
        is_new_system: true,
        is_current: false,
        is_destination: true,
        consumer_current: false,
        sbb_current: false,
        commercial_current: false,
        consumer_destination: true,
        sbb_destination: true,
        commercial_destination: true,
        app_on_mainframe: String::new(),
        links: String::new(),
    };
    let mut item = SurroundItem::new(&row, (30, 6));
    let mut writer = TagWriterImpl::new();
    assert_eq!(item.draw(&mut writer), Err(TagWriterError::Unplaced));
    item.actual_y = Some(20);
    item.draw(&mut writer).unwrap();
    assert_eq!(
        writer.into_string(),
        "<rect x=\"-2.5\" y=\"12.5\" width=\"39\" height=\"15\" rx=\"5.5\" fill=\"#FFFFFF\" stroke=\"black\" stroke-width=\"1\"/>\n<rect x=\"0\" y=\"15\" width=\"34\" height=\"10\" rx=\"3\" fill=\"#804000\" stroke=\"black\" stroke-width=\"1\" onclick=\"show_surround_data('S')\" class=\"surround\"/>\n<text x=\"2\" y=\"21\" font-family=\"Arial\" fill=\"#FFFFFF\" style=\"font-style: normal; font-size: 12.4px; pointer-events: none\" class=\"surround\">R&amp;D</text>\n"
    );
    let mut plain = SurroundItem::new(&row, (30, 6));
    plain.data.is_new_system = false;
    plain.actual_y = Some(-3);
    let list = prog_draw::surrounds::SurroundItems { items: vec![plain], x_position: 182 };
    let mut writer = TagWriterImpl::new();
    list.draw(&mut writer).unwrap();
    assert_eq!(
        writer.into_string(),
        "<g transform=\"translate(182, 0.0)\">\n  <rect x=\"0\" y=\"-8\" width=\"34\" height=\"10\" rx=\"3\" fill=\"#804000\" stroke=\"black\" stroke-width=\"1\" onclick=\"show_surround_data('S')\" class=\"surround\"/>\n  <text x=\"2\" y=\"-2\" font-family=\"Arial\" fill=\"#FFFFFF\" style=\"font-style: normal; font-size: 12.4px; pointer-events: none\" class=\"surround\">R&amp;D</text>\n</g>\n"
    );
}

#[test]
fn things_are_rendered_as_they_are_drawn() {
    let line = Line { start: (1, 2), end: (30, -4), color: "#FF6163" };
    let mut drawn = TagWriterImpl::new();
    line.draw(&mut drawn).unwrap();
    let mut rendered = TagWriterImpl::new();
    line.render(&mut rendered).unwrap();
    assert_eq!(rendered.output, drawn.output);
    assert_eq!(
        rendered.output,
        "<path d=\"M 1 2 C 11 2, 20 -4, 30 -4\" fill=\"none\" stroke=\"#FF6163\" stroke-width=\"2.0\"/>\n<circle cx=\"1\" cy=\"2\" r=\"2\" fill=\"#FFFFFF\" stroke=\"#000000\" stroke-width=\"1.0\"/>\n<circle cx=\"30\" cy=\"-4\" r=\"2\" fill=\"#FFFFFF\" stroke=\"#000000\" stroke-width=\"1.0\"/>\n"
    );
    let far = Line { start: (i64::MIN, 0), end: (0, 0), color: "#000000" };
    let mut writer = TagWriterImpl::new();
    assert_eq!(far.render(&mut writer), Err(TagWriterError::Unplaced));
    assert_eq!(writer.output, "");

    let mut lines = ConnectingLines::default();
    lines.add_line((1, 2), (30, -4), &UsedBySet::from_fields(UsedBy::No, UsedBy::No, UsedBy::Yes));
    let mut writer = TagWriterImpl::new();
    lines.render(&mut writer).unwrap();
    assert_eq!(writer.output, rendered.output);
    lines.lines.push(far);
    let mut writer = TagWriterImpl::new();
    assert_eq!(lines.render(&mut writer), Err(TagWriterError::Unplaced));
    assert_eq!(writer.output, "");

    let row = SurroundRow {
        id: "S".to_string(),
        name: "Sys".to_string(),
        is_core: false,
        is_new_system: false,
        is_current: false,
        is_destination: true,
        consumer_current: false,
        sbb_current: false,
        commercial_current: false,
        consumer_destination: false,
        sbb_destination: false,
        commercial_destination: false,
        app_on_mainframe: String::new(),
        links: String::new(),
    };
    let mut item = SurroundItem::new(&row, (30, 6));
    let mut writer = TagWriterImpl::new();
    assert_eq!(item.render(&mut writer), Err(TagWriterError::Unplaced));
    item.actual_y = Some(5);
    item.render(&mut writer).unwrap();
    let one = "<rect x=\"0\" y=\"0\" width=\"34\" height=\"10\" rx=\"3\" fill=\"#FFFFFF\" stroke=\"black\" stroke-width=\"1\" onclick=\"show_surround_data('S')\" class=\"surround\"/>\n<text x=\"2\" y=\"6\" font-family=\"Arial\" fill=\"#000000\" style=\"font-style: normal; font-size: 12.4px; pointer-events: none\" class=\"surround\">Sys</text>\n";
    assert_eq!(writer.output, one);
    let list = prog_draw::surrounds::SurroundItems { items: vec![item], x_position: -7 };
    let mut writer = TagWriterImpl::new();
    list.render(&mut writer).unwrap();
    let indented: String = one.lines().map(|l| format!("  {}\n", l)).collect();
    assert_eq!(writer.output, format!("<g transform=\"translate(-7, 0.0)\">\n{}</g>\n", indented));
    let unplaced = prog_draw::surrounds::SurroundItems {
        items: vec![SurroundItem::new(&row, (30, 6))],
        x_position: 0,
    };
    let mut writer = TagWriterImpl::new();
    assert_eq!(unplaced.render(&mut writer), Err(TagWriterError::Unplaced));
    assert_eq!(writer.output, "");
}
