use prog_draw::capability_tree::{
    CapabilityData, CapabilityNodeTree, CoreOrSurround, NodeLocationStyle, TreeCollapsePolicy,
};
use prog_draw::data_tree::DTNodeBuild::{AddData, EndChildren, StartChildren};
use prog_draw::data_tree::{DTNode, TreeLayoutDirection};
use prog_draw::geometry::Rect;
use prog_draw::text_size::{AlwaysFailTextSizer, TextSizeError, TextSizer};
use prog_draw::tree_layout::{layout_tree, Extent, LayoutError, NodeBox, LAYOUT_LIMIT};
use prog_draw::used_by::UsedBySet;

fn cap(id: &str, size: Option<(i64, i64)>) -> CapabilityData {
    let mut data =
        CapabilityData::new_new(id, "", id, UsedBySet::all_blank(), "", CoreOrSurround::Blank, "");
    data.text_size = size;
    data
}

/// root (14 x 10) with the children a (24 x 10), which has the child a0 (8 x 6),
/// and b (12 x 20): sizes of the boxes, which are 4 more than the texts.
fn sample() -> DTNode<CapabilityData> {
    let mut root = DTNode::new(cap("ROOT", Some((10, 6))));
    root.grow_tree(vec![
        AddData(cap("a", Some((20, 6)))),
        StartChildren(false),
        AddData(cap("a0", Some((4, 2)))),
        EndChildren,
        AddData(cap("b", Some((8, 16)))),
    ])
    .unwrap();
    root
}

fn node_box(main: i64, cross: i64, width: i64, height: i64) -> NodeBox {
    NodeBox { main, cross, extent: Extent { main: width, cross: height } }
}

#[test]
fn single_node_layout_is_its_box() {
    let root = DTNode::new(cap("only", Some((10, 6))));
    let layout = layout_tree(&root, 16, 8, TreeLayoutDirection::Right).unwrap();
    assert_eq!(layout.boxes, vec![node_box(0, 0, 14, 10)]);
    assert_eq!(layout.bounds, node_box(0, 0, 14, 10));
    let layout = layout_tree(&root, 16, 8, TreeLayoutDirection::Left).unwrap();
    assert_eq!(layout.boxes, vec![node_box(-14, 0, 14, 10)]);
    assert_eq!(layout.bounds, node_box(-14, 0, 14, 10));
}

#[test]
fn layout_to_the_right() {
    let root = sample();
    let layout = layout_tree(&root, 16, 8, TreeLayoutDirection::Right).unwrap();
    assert_eq!(
        layout.boxes,
        vec![
            node_box(0, 14, 14, 10),
            node_box(30, 0, 24, 10),
            node_box(70, 2, 8, 6),
            node_box(30, 18, 12, 20),
        ]
    );
    assert_eq!(layout.bounds, node_box(0, 0, 78, 38));
}

#[test]
fn layout_to_the_left_is_mirrored() {
    let root = sample();
    let layout = layout_tree(&root, 16, 8, TreeLayoutDirection::Left).unwrap();
    assert_eq!(
        layout.boxes,
        vec![
            node_box(-14, 14, 14, 10),
            node_box(-54, 0, 24, 10),
            node_box(-78, 2, 8, 6),
            node_box(-42, 18, 12, 20),
        ]
    );
    assert_eq!(layout.bounds, node_box(-78, 0, 78, 38));
}

#[test]
fn layout_has_one_box_for_each_visible_node() {
    let mut root = sample();
    assert_eq!(layout_tree(&root, 16, 8, TreeLayoutDirection::Right).unwrap().boxes.len(), 4);
    root.children[0].collapsed = true;
    let layout = layout_tree(&root, 16, 8, TreeLayoutDirection::Right).unwrap();
    assert_eq!(layout.boxes.len(), root.visible_count());
    assert_eq!(
        layout.boxes,
        vec![node_box(0, 14, 14, 10), node_box(30, 0, 24, 10), node_box(30, 18, 12, 20)]
    );
    assert_eq!(layout.bounds, node_box(0, 0, 54, 38));
    root.collapsed = true;
    let layout = layout_tree(&root, 16, 8, TreeLayoutDirection::Right).unwrap();
    assert_eq!(layout.boxes, vec![node_box(0, 0, 14, 10)]);
}

#[test]
fn a_wide_parent_has_its_children_in_the_middle() {
    let mut root = DTNode::new(cap("ROOT", Some((10, 96))));
    root.grow_tree(vec![AddData(cap("a", Some((10, 6)))), AddData(cap("b", Some((10, 7))))]).unwrap();
    let layout = layout_tree(&root, 5, 3, TreeLayoutDirection::Right).unwrap();
    // band of the root: 100; the children need 10 + 3 + 11 = 24, and begin at (100 - 24) / 2
    assert_eq!(
        layout.boxes,
        vec![node_box(0, 0, 14, 100), node_box(19, 38, 14, 10), node_box(19, 51, 14, 11)]
    );
}

#[test]
fn siblings_are_apart() {
    let mut root = DTNode::new(cap("ROOT", Some((1, 1))));
    root.grow_tree(vec![
        AddData(cap("a", Some((5, 3)))),
        StartChildren(false),
        AddData(cap("a0", Some((5, 30)))),
        AddData(cap("a1", Some((5, 1)))),
        EndChildren,
        AddData(cap("b", Some((5, 50)))),
        StartChildren(false),
        AddData(cap("b0", Some((50, 2)))),
        EndChildren,
        AddData(cap("c", Some((5, 1)))),
    ])
    .unwrap();
    let gap = 7;
    let boxes = layout_tree(&root, 11, gap, TreeLayoutDirection::Right).unwrap().boxes;
    // in the order of the visible nodes: ROOT a a0 a1 b b0 c
    let subtrees = [1..4, 4..6, 6..7];
    for i in 0..subtrees.len() {
        for j in (i + 1)..subtrees.len() {
            for x in subtrees[i].clone() {
                for y in subtrees[j].clone() {
                    assert!(boxes[x].cross + boxes[x].extent.cross + gap <= boxes[y].cross);
                }
            }
        }
    }
    // the children of a: a0 and a1
    assert!(boxes[2].cross + boxes[2].extent.cross + gap <= boxes[3].cross);
    // each level begins where the thickest box of the level before it ends, and the spacing
    assert_eq!(boxes[1].main, 5 + 11);
    assert_eq!(boxes[4].main, 5 + 11);
    assert_eq!(boxes[6].main, 5 + 11);
    assert_eq!(boxes[2].main, 16 + 9 + 11);
    assert_eq!(boxes[5].main, 16 + 9 + 11);
}

#[test]
fn collapse_and_expand_gives_the_layout_back() {
    let mut root = sample();
    let before = layout_tree(&root, 16, 8, TreeLayoutDirection::Left).unwrap();
    assert!(root.toggle_collapse("a"));
    let folded = layout_tree(&root, 16, 8, TreeLayoutDirection::Left).unwrap();
    assert_eq!(folded.boxes.len(), 3);
    assert!(root.toggle_collapse("a"));
    let after = layout_tree(&root, 16, 8, TreeLayoutDirection::Left).unwrap();
    assert_eq!(before.boxes, after.boxes);
    assert_eq!(before.bounds, after.bounds);
}

#[test]
fn layout_needs_sizes() {
    let mut root = sample();
    root.children[1].data.text_size = None;
    assert_eq!(
        layout_tree(&root, 16, 8, TreeLayoutDirection::Right).unwrap_err(),
        LayoutError::SizingUnavailable
    );
    root.children[1].data.text_size = Some((-1, 5));
    assert_eq!(
        layout_tree(&root, 16, 8, TreeLayoutDirection::Right).unwrap_err(),
        LayoutError::SizingUnavailable
    );
    // what is not visible needs no size
    root.children[1].data.text_size = Some((1, 5));
    root.children[0].children[0].data.text_size = None;
    root.children[0].collapsed = true;
    assert!(layout_tree(&root, 16, 8, TreeLayoutDirection::Right).is_ok());
    assert!(root.is_measured());
    root.children[0].collapsed = false;
    assert!(!root.is_measured());
}

#[test]
fn layout_can_be_too_large() {
    let big = (LAYOUT_LIMIT / 2) as i64;
    let mut root = DTNode::new(cap("ROOT", Some((1, 1))));
    root.grow_tree(vec![
        AddData(cap("a", Some((1, big)))),
        AddData(cap("b", Some((1, big)))),
        AddData(cap("c", Some((1, big)))),
    ])
    .unwrap();
    assert_eq!(
        layout_tree(&root, 16, 8, TreeLayoutDirection::Right).unwrap_err(),
        LayoutError::TooLarge
    );
    let mut deep = DTNode::new(cap("ROOT", Some((big, 1))));
    deep.grow_tree(vec![
        AddData(cap("a", Some((big, 1)))),
        StartChildren(false),
        AddData(cap("a0", Some((big, 1)))),
    ])
    .unwrap();
    assert_eq!(
        layout_tree(&deep, 16, 8, TreeLayoutDirection::Right).unwrap_err(),
        LayoutError::TooLarge
    );
    // a spacing that is large is too large only where it is used
    assert!(layout_tree(&DTNode::new(cap("x", Some((1, 1)))), i64::MAX, i64::MAX, TreeLayoutDirection::Right).is_ok());
    assert_eq!(
        layout_tree(&deep, i64::MAX, 0, TreeLayoutDirection::Right).unwrap_err(),
        LayoutError::TooLarge
    );
}

#[test]
fn band_and_layers() {
    let root = sample();
    assert_eq!(root.band_of(8), Some(38));
    assert_eq!(root.children[0].band_of(8), Some(10));
    assert_eq!(root.layer_at(0), Some(14));
    assert_eq!(root.layer_at(1), Some(24));
    assert_eq!(root.layer_at(2), Some(8));
    assert_eq!(root.layer_at(3), None);
}

struct FixedSizer;

impl TextSizer for FixedSizer {
    fn answers(&self, text: &str, font_family: &str, font_size: i64, answer: Result<(i64, i64), TextSizeError>) -> bool {
        answer == self.text_size(text, font_family, font_size)
    }

    fn text_size(&self, text: &str, _font_family: &str, _font_size: i64) -> Result<(i64, i64), TextSizeError> {
        if text == "?" {
            Err(TextSizeError)
        } else {
            Ok((10 * text.len() as i64, 6))
        }
    }
}

fn capability_tree(direction: TreeLayoutDirection) -> CapabilityNodeTree {
    let mut tree = CapabilityNodeTree::new(direction, TreeCollapsePolicy::JavaScriptReplace);
    let mut root = cap("ROOT", None);
    root.text = "r".to_string();
    tree.tree = DTNode::new(root);
    tree.grow_tree(vec![
        AddData(cap("aa", None)),
        StartChildren(false),
        AddData(cap("a", None)),
        EndChildren,
        AddData(cap("b", None)),
    ])
    .unwrap();
    tree
}

#[test]
fn capability_tree_layout_places_and_styles_the_nodes() {
    let mut tree = capability_tree(TreeLayoutDirection::Right);
    // boxes: ROOT 14 x 10, aa 24 x 10, a 14 x 10, b 14 x 10; spacing 16 and 8
    let layout = tree.layout(&FixedSizer).unwrap();
    assert_eq!(
        layout.boxes,
        vec![
            node_box(0, 9, 14, 10),
            node_box(30, 0, 24, 10),
            node_box(70, 0, 14, 10),
            node_box(30, 18, 14, 10),
        ]
    );
    assert_eq!(layout.bounds, node_box(0, 0, 84, 28));
    assert_eq!(tree.tree.data.location, (0, 14));
    assert_eq!(tree.tree.children[0].data.location, (30, 5));
    assert_eq!(tree.tree.children[0].children[0].data.location, (70, 5));
    assert_eq!(tree.tree.children[1].data.location, (30, 23));
    assert_eq!(tree.tree.data.node_loc_style, NodeLocationStyle::RootNode);
    assert_eq!(tree.tree.children[0].data.node_loc_style, NodeLocationStyle::BranchNode);
    assert_eq!(tree.tree.children[0].children[0].data.node_loc_style, NodeLocationStyle::LeafNode);
    assert_eq!(tree.tree.children[1].data.node_loc_style, NodeLocationStyle::LeafNode);
    assert_eq!(tree.tree.children[1].data.text_size, Some((10, 6)));
    assert_eq!(
        tree.tree.children[0].data.get_bbox(TreeLayoutDirection::Right),
        Some(Rect::new_ltwh(30, 0, 24, 10))
    );
    assert_eq!(tree.get_bbox(), Some(Rect::new_ltwh(0, 0, 84, 28)));
}

#[test]
fn capability_tree_layout_to_the_left() {
    let mut tree = capability_tree(TreeLayoutDirection::Left);
    tree.layout(&FixedSizer).unwrap();
    assert_eq!(tree.tree.data.location, (0, 14));
    assert_eq!(tree.tree.children[0].data.location, (-30, 5));
    assert_eq!(tree.tree.children[0].children[0].data.location, (-70, 5));
    assert_eq!(
        tree.tree.children[0].data.get_bbox(TreeLayoutDirection::Left),
        Some(Rect::new_ltwh(-54, 0, 24, 10))
    );
    assert_eq!(tree.get_bbox(), Some(Rect::new_ltwh(-84, 0, 84, 28)));
}

#[test]
fn capability_tree_layout_without_sizes_fails() {
    let mut tree = capability_tree(TreeLayoutDirection::Right);
    assert_eq!(tree.layout(&AlwaysFailTextSizer).unwrap_err(), LayoutError::SizingUnavailable);
    assert_eq!(tree.tree.data.location, (0, 0));
    tree.tree.children[1].data.text = "?".to_string();
    assert_eq!(tree.layout(&FixedSizer).unwrap_err(), LayoutError::SizingUnavailable);
    assert_eq!(tree.layout_measured().unwrap_err(), LayoutError::SizingUnavailable);
    assert_eq!(tree.get_bbox(), None);
}

#[test]
fn capability_tree_toggle_and_layout_again() {
    let mut tree = capability_tree(TreeLayoutDirection::Right);
    tree.layout(&FixedSizer).unwrap();
    let before: Vec<(i64, i64)> = tree.tree.visible_data().iter().map(|x| x.location).collect();
    assert!(tree.toggle_collapse("aa"));
    let folded = tree.layout(&FixedSizer).unwrap();
    assert_eq!(folded.boxes.len(), 3);
    assert!(!tree.toggle_collapse("b"));
    assert!(!tree.toggle_collapse("ROOT"));
    assert!(tree.toggle_collapse("aa"));
    tree.layout(&FixedSizer).unwrap();
    let after: Vec<(i64, i64)> = tree.tree.visible_data().iter().map(|x| x.location).collect();
    assert_eq!(before, after);
}

#[test]
fn capability_tree_add_and_find() {
    let mut tree = CapabilityNodeTree::new(TreeLayoutDirection::Right, TreeCollapsePolicy::Nothing);
    assert_eq!(tree.tree.data.id, "ROOT");
    let mut child = cap("c1", None);
    child.parent_id = "ROOT".to_string();
    assert!(tree.add_node(child));
    let mut grandchild = cap("c2", None);
    grandchild.parent_id = "c1".to_string();
    assert!(tree.add_node(grandchild));
    let mut orphan = cap("c3", None);
    orphan.parent_id = "nobody".to_string();
    assert!(!tree.add_node(orphan));
    assert_eq!(tree.tree.len(), 3);
    assert_eq!(tree.find_data_by_id("c2").unwrap().parent_id, "c1");
    assert!(tree.find_data_by_id("c3").is_none());
    assert_eq!(tree.find_node_by_id_mut("c1").unwrap().children.len(), 1);
}

#[test]
fn generated_ids_count_up() {
    let mut source: usize = 9;
    let first = CapabilityData::new_generating_id("one", UsedBySet::all_mixed(), &mut source);
    let second = CapabilityData::new_generating_id("two", UsedBySet::all_mixed(), &mut source);
    assert_eq!(first.id, "XX9");
    assert_eq!(second.id, "XX10");
    assert_eq!(first.parent_id, "XXX");
    assert_eq!(second.text, "two");
    assert_eq!(source, 11);
}

#[test]
fn shapes_of_nodes() {
    let mut tree = capability_tree(TreeLayoutDirection::Left);
    tree.layout(&FixedSizer).unwrap();
    let branch = &tree.tree.children[0];
    let shape = branch
        .data
        .shape(false, TreeLayoutDirection::Left, TreeCollapsePolicy::JavaScriptReplace)
        .unwrap();
    assert_eq!(shape.bbox, Rect::new_ltwh(-54, 0, 24, 10));
    assert_eq!((shape.text_left, shape.text_baseline), (-52, 6));
    assert_eq!(shape.class, "branch");
    assert_eq!(shape.control, Some((-54, 5, "#FFFFFF")));
    let shape = branch
        .data
        .shape(true, TreeLayoutDirection::Left, TreeCollapsePolicy::JavaScriptReplace)
        .unwrap();
    assert_eq!(shape.class, "leaf");
    assert_eq!(shape.control, Some((-54, 5, "#000000")));
    let shape = branch.data.shape(true, TreeLayoutDirection::Left, TreeCollapsePolicy::Nothing).unwrap();
    assert_eq!(shape.control, None);
    let leaf = &tree.tree.children[1];
    let shape = leaf
        .data
        .shape(false, TreeLayoutDirection::Left, TreeCollapsePolicy::JavaScriptReplace)
        .unwrap();
    assert_eq!(shape.class, "leaf");
    assert_eq!(shape.control, None);
    let root = tree.tree.data.shape(false, TreeLayoutDirection::Left, TreeCollapsePolicy::Nothing).unwrap();
    assert_eq!(root.class, "root");
    assert!(cap("x", None).shape(false, TreeLayoutDirection::Right, TreeCollapsePolicy::Nothing).is_none());
    let right = cap("x", Some((10, 6)));
    let shape = right.shape(false, TreeLayoutDirection::Right, TreeCollapsePolicy::JavaScriptReplace).unwrap();
    assert_eq!(shape.bbox, Rect::new_ltwh(0, -5, 14, 10));
    assert_eq!((shape.text_left, shape.text_baseline), (2, 1));
    assert_eq!(shape.control, Some((14, 0, "#FFFFFF")));
}

#[test]
fn connectors_between_boxes() {
    use_connector();
}

fn use_connector() {
    let parent = Rect::new_ltwh(0, 0, 14, 10);
    let child = Rect::new_ltwh(30, 20, 24, 11);
    assert_eq!(
        prog_draw::capability_tree::connector(&parent, &child, TreeLayoutDirection::Right, 10),
        ((14, 5), (24, 5), (20, 25), (30, 25))
    );
    let left_child = Rect::new_ltwh(-54, 20, 24, 11);
    let left_parent = Rect::new_ltwh(-14, 0, 14, 10);
    assert_eq!(
        prog_draw::capability_tree::connector(&left_parent, &left_child, TreeLayoutDirection::Left, 10),
        ((-14, 5), (-24, 5), (-20, 25), (-30, 25))
    );
}

#[test]
fn a_tree_is_drawn() {
    let mut tree = capability_tree(TreeLayoutDirection::Right);
    let mut writer = prog_draw::svg_writer::TagWriterImpl::new();
    assert_eq!(tree.draw(&mut writer), Err(prog_draw::svg_writer::TagWriterError::Unplaced));
    assert_eq!(writer.output, "");
    tree.layout(&FixedSizer).unwrap();
    assert!(prog_draw::capability_tree::is_placed(&tree.tree, TreeLayoutDirection::Right));
    tree.toggle_collapse("aa");
    tree.layout(&FixedSizer).unwrap();
    tree.draw(&mut writer).unwrap();
    let style = "font-style: normal; font-size: 12.4px; pointer-events: none";
    let expected = format!(
        "<g>\n  <style>\n          text.leaf {{\n            pointer-events: none;\n          }}\n        </style>\n  \
<path d=\"M 14 14 C 24 14, 20 5, 30 5\" fill=\"none\" stroke=\"black\"/>\n  \
<path d=\"M 14 14 C 24 14, 20 23, 30 23\" fill=\"none\" stroke=\"black\"/>\n  \
<rect x=\"30\" y=\"0\" width=\"24\" height=\"10\" rx=\"3\" fill=\"#E8E8E8\" stroke=\"black\" stroke-width=\"1\" onclick=\"show_node_data('aa')\" class=\"leaf\"/>\n  \
<text x=\"32\" y=\"6\" font-family=\"Arial\" fill=\"#000000\" style=\"{style}\" class=\"leaf\">aa</text>\n  \
<circle cx=\"54\" cy=\"5\" r=\"3\" fill=\"#000000\" stroke=\"#000000\" stroke-width=\"1.0\" onclick=\"toggle_then_draw('aa')\"/>\n  \
<rect x=\"30\" y=\"18\" width=\"14\" height=\"10\" rx=\"3\" fill=\"#E8E8E8\" stroke=\"black\" stroke-width=\"1\" onclick=\"show_node_data('b')\" class=\"leaf\"/>\n  \
<text x=\"32\" y=\"24\" font-family=\"Arial\" fill=\"#000000\" style=\"{style}\" class=\"leaf\">b</text>\n\
</g>\n",
        style = style
    );
    assert_eq!(writer.output, expected);
}

#[test]
fn a_tree_is_rendered_as_it_is_drawn() {
    let mut tree = capability_tree(TreeLayoutDirection::Left);
    let mut writer = prog_draw::svg_writer::TagWriterImpl::new();
    assert_eq!(
        prog_draw::svg_writer::Renderable::render(&tree, &mut writer),
        Err(prog_draw::svg_writer::TagWriterError::Unplaced)
    );
    assert_eq!(writer.output, "");
    tree.layout(&FixedSizer).unwrap();
    let mut drawn = prog_draw::svg_writer::TagWriterImpl::new();
    tree.draw(&mut drawn).unwrap();
    prog_draw::svg_writer::Renderable::render(&tree, &mut writer).unwrap();
    assert_eq!(writer.output, drawn.output);
    assert!(writer.output.starts_with("<g>\n  <style>"));
    assert!(writer.output.contains("<path d=\"M -14 14 C -24 14, -20 5, -30 5\" fill=\"none\" stroke=\"black\"/>"));
    assert!(writer.output.ends_with("</g>\n"));
    assert_eq!(writer.indent_level, 0);
}

/// Notes what it is asked, and answers as `FixedSizer` does.
struct Recording(std::cell::RefCell<Vec<(String, String, i64)>>);

impl TextSizer for Recording {
    fn answers(&self, text: &str, font_family: &str, font_size: i64, answer: Result<(i64, i64), TextSizeError>) -> bool {
        FixedSizer.answers(text, font_family, font_size, answer)
    }

    fn text_size(&self, text: &str, font_family: &str, font_size: i64) -> Result<(i64, i64), TextSizeError> {
        self.0.borrow_mut().push((text.to_string(), font_family.to_string(), font_size));
        FixedSizer.text_size(text, font_family, font_size)
    }
}

#[test]
fn the_sizer_is_asked_for_each_visible_node() {
    let mut tree = capability_tree(TreeLayoutDirection::Right);
    let asked = Recording(std::cell::RefCell::new(Vec::new()));
    let sizes = tree.measure(&asked);
    assert_eq!(sizes, vec![Ok((10, 6)), Ok((20, 6)), Ok((10, 6)), Ok((10, 6))]);
    let texts: Vec<String> = asked.0.borrow().iter().map(|x| x.0.clone()).collect();
    assert_eq!(texts, vec!["r", "aa", "a", "b"]);
    assert!(asked.0.borrow().iter().all(|x| x.1 == prog_draw::capability_tree::NODE_FONT
        && x.2 == prog_draw::capability_tree::NODE_FONT_SIZE));
    // measuring changes nothing
    assert_eq!(tree.tree.data.text_size, None);
    // a hidden node is not asked for
    assert!(tree.toggle_collapse("aa"));
    asked.0.borrow_mut().clear();
    assert_eq!(tree.measure(&asked), vec![Ok((10, 6)), Ok((20, 6)), Ok((10, 6))]);
    let texts: Vec<String> = asked.0.borrow().iter().map(|x| x.0.clone()).collect();
    assert_eq!(texts, vec!["r", "aa", "b"]);
    // a text without a size has an answer too
    tree.tree.children[1].data.text = "?".to_string();
    assert_eq!(tree.measure(&FixedSizer), vec![Ok((10, 6)), Ok((20, 6)), Err(TextSizeError)]);
}

#[test]
fn layout_from_given_sizes() {
    let mut tree = capability_tree(TreeLayoutDirection::Right);
    let mut twin = capability_tree(TreeLayoutDirection::Right);
    let sizes = vec![Ok((10, 6)), Ok((20, 6)), Ok((10, 6)), Ok((10, 6))];
    let from_sizes = tree.layout_sized(&sizes).unwrap();
    let from_sizer = twin.layout(&FixedSizer).unwrap();
    assert_eq!(from_sizes.boxes, from_sizer.boxes);
    assert_eq!(from_sizes.bounds, from_sizer.bounds);
    assert_eq!(tree.tree.children[0].children[0].data.location, (70, 5));
    // the answers go to the visible nodes in their order
    let other = vec![Ok((1, 2)), Ok((3, 4)), Ok((5, 6)), Ok((7, 8))];
    tree.layout_sized(&other).unwrap();
    assert_eq!(tree.tree.data.text_size, Some((1, 2)));
    assert_eq!(tree.tree.children[0].data.text_size, Some((3, 4)));
    assert_eq!(tree.tree.children[0].children[0].data.text_size, Some((5, 6)));
    assert_eq!(tree.tree.children[1].data.text_size, Some((7, 8)));
    // a hidden node keeps the size that it has
    assert!(tree.toggle_collapse("aa"));
    tree.layout_sized(&vec![Ok((9, 9)), Ok((9, 9)), Ok((9, 9))]).unwrap();
    assert_eq!(tree.tree.children[0].children[0].data.text_size, Some((5, 6)));
    assert_eq!(tree.tree.children[1].data.text_size, Some((9, 9)));
}

#[test]
fn layout_from_sizes_that_are_missing() {
    let mut tree = capability_tree(TreeLayoutDirection::Right);
    let few = vec![Ok((10, 6)), Ok((20, 6))];
    assert_eq!(tree.layout_sized(&few).unwrap_err(), LayoutError::SizingUnavailable);
    assert_eq!(tree.tree.children[0].data.text_size, Some((20, 6)));
    assert_eq!(tree.tree.children[0].children[0].data.text_size, None);
    assert_eq!(tree.tree.children[1].data.text_size, None);
    let failed = vec![Ok((10, 6)), Err(TextSizeError), Ok((10, 6)), Ok((10, 6))];
    assert_eq!(tree.layout_sized(&failed).unwrap_err(), LayoutError::SizingUnavailable);
    assert_eq!(tree.tree.children[0].data.text_size, None);
    assert_eq!(tree.tree.children[1].data.text_size, Some((10, 6)));
    assert_eq!(tree.layout_sized(&Vec::new()).unwrap_err(), LayoutError::SizingUnavailable);
    let wide = vec![Ok((1 << 60, 6)), Ok((1 << 60, 6)), Ok((1 << 60, 6)), Ok((10, 6))];
    assert_eq!(tree.layout_sized(&wide).unwrap_err(), LayoutError::TooLarge);
    // more answers than nodes: those that are left over are not read
    let many = vec![Ok((10, 6)), Ok((20, 6)), Ok((10, 6)), Ok((10, 6)), Err(TextSizeError)];
    assert!(tree.layout_sized(&many).is_ok());
}
