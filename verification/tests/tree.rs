use prog_draw::capability_tree::{CapabilityData, CoreOrSurround};
use prog_draw::data_tree::{DTNode, DTNodeBuild, InvalidGrowth};
use prog_draw::data_tree::DTNodeBuild::{AddData, EndChildren, StartChildren};
use prog_draw::used_by::UsedBySet;

fn cap(id: &str) -> CapabilityData {
    CapabilityData::new_new(id, "", id, UsedBySet::all_blank(), "", CoreOrSurround::Blank, "")
}

fn names(tree: &DTNode<&'static str>) -> Vec<&'static str> {
    tree.visible_data().into_iter().map(|x| *x).collect()
}

fn sample() -> DTNode<&'static str> {
    let mut root = DTNode::new("root");
    root.grow_tree(vec![
        AddData("a"),
        StartChildren(false),
        AddData("a0"),
        StartChildren(true),
        AddData("a00"),
        AddData("a01"),
        EndChildren,
        AddData("a1"),
        EndChildren,
        AddData("b"),
        StartChildren(false),
        AddData("b0"),
    ])
    .unwrap();
    root
}

fn ids(tree: &DTNode<CapabilityData>) -> Vec<String> {
    tree.visible_data().into_iter().map(|x| x.id.clone()).collect()
}

fn id_tree() -> DTNode<CapabilityData> {
    let mut root = DTNode::new(cap("ROOT"));
    root.grow_tree(vec![
        AddData(cap("a")),
        StartChildren(false),
        AddData(cap("a0")),
        StartChildren(false),
        AddData(cap("a00")),
        EndChildren,
        AddData(cap("a1")),
        EndChildren,
        AddData(cap("b")),
    ])
    .unwrap();
    root
}

#[test]
fn new_node_is_a_leaf() {
    let node = DTNode::new(5);
    assert_eq!(node.data, 5);
    assert!(!node.collapsed);
    assert!(node.children.is_empty());
    assert_eq!(node.len(), 1);
    assert_eq!(node.visible_count(), 1);
}

#[test]
fn add_children_in_order() {
    let mut node = DTNode::new(1);
    node.add_child_data(2);
    let mut sub = DTNode::new(3);
    sub.add_child_data(4);
    node.add_child_node(sub);
    assert_eq!(node.len(), 4);
    assert_eq!(node.children[0].data, 2);
    assert_eq!(node.children[1].data, 3);
    assert_eq!(node.children[1].children[0].data, 4);
}

#[test]
fn grow_tree_builds_the_tree() {
    let root = sample();
    assert_eq!(root.len(), 8);
    assert_eq!(root.children.len(), 2);
    assert_eq!(root.children[0].data, "a");
    assert_eq!(root.children[0].children.len(), 2);
    assert_eq!(root.children[0].children[0].data, "a0");
    assert!(root.children[0].children[0].collapsed);
    assert_eq!(root.children[0].children[0].children.len(), 2);
    assert_eq!(root.children[0].children[1].data, "a1");
    assert_eq!(root.children[1].data, "b");
    assert_eq!(root.children[1].children[0].data, "b0");
}

#[test]
fn grow_tree_may_end_below_the_root() {
    let mut root = DTNode::new(0);
    assert!(root.grow_tree(vec![AddData(1), StartChildren(false), AddData(2)]).is_ok());
    assert_eq!(root.len(), 3);
}

#[test]
fn grow_tree_with_unmatched_end_adds_nothing() {
    let mut root = DTNode::new(0);
    let r = root.grow_tree(vec![AddData(1), AddData(2), EndChildren, AddData(3)]);
    assert_eq!(r, Err(InvalidGrowth));
    assert_eq!(root.len(), 1);
    assert!(root.children.is_empty());

    let mut root = sample();
    let r = root.grow_tree(vec![
        AddData("c"),
        StartChildren(false),
        AddData("c0"),
        EndChildren,
        EndChildren,
    ]);
    assert_eq!(r, Err(InvalidGrowth));
    assert_eq!(root.len(), 8);
    assert_eq!(root.children.len(), 2);
}

#[test]
fn grow_tree_cannot_go_below_a_node_without_children() {
    let mut root = DTNode::new(0);
    let r = root.grow_tree(vec![StartChildren(false), AddData(1)]);
    assert_eq!(r, Err(InvalidGrowth));
    assert_eq!(root.len(), 1);
    let r = root.grow_tree(vec![AddData(1), StartChildren(false), StartChildren(false)]);
    assert_eq!(r, Err(InvalidGrowth));
    assert_eq!(root.len(), 1);
}

#[test]
fn grow_tree_goes_on_below_the_last_child() {
    let mut root = DTNode::new(0);
    root.grow_tree(vec![AddData(1), AddData(2)]).unwrap();
    // the last child is there already: go down into it
    root.grow_tree(vec![StartChildren(true), AddData(3), EndChildren, StartChildren(false), AddData(4)])
        .unwrap();
    assert_eq!(root.children[1].children.len(), 2);
    assert!(!root.children[1].collapsed);
    assert_eq!(root.children[0].children.len(), 0);
}

#[test]
fn grow_tree_with_no_steps() {
    let mut root = DTNode::new(0);
    let none: Vec<DTNodeBuild<i32>> = Vec::new();
    assert!(root.grow_tree(none).is_ok());
    assert_eq!(root.len(), 1);
}

#[test]
fn visible_data_stops_at_collapsed_nodes() {
    let mut root = sample();
    assert_eq!(names(&root), vec!["root", "a", "a0", "a1", "b", "b0"]);
    assert_eq!(root.visible_count(), 6);
    root.children[0].collapsed = true;
    assert_eq!(names(&root), vec!["root", "a", "b", "b0"]);
    root.collapsed = true;
    assert_eq!(names(&root), vec!["root"]);
    assert_eq!(root.len(), 8);
}

#[test]
fn visible_leaves_are_the_nodes_that_show_no_children() {
    let mut root = sample();
    let leaves: Vec<&str> = root.visible_leaves().into_iter().map(|x| *x).collect();
    assert_eq!(leaves, vec!["a0", "a1", "b0"]);
    root.children[1].collapsed = true;
    let leaves: Vec<&str> = root.visible_leaves().into_iter().map(|x| *x).collect();
    assert_eq!(leaves, vec!["a0", "a1", "b"]);
}

#[test]
fn expand_all_and_fold_at() {
    let mut root = sample();
    root.expand_all();
    assert_eq!(names(&root), vec!["root", "a", "a0", "a00", "a01", "a1", "b", "b0"]);
    root.fold_at(1);
    assert_eq!(names(&root), vec!["root", "a", "b"]);
    assert!(root.children[0].collapsed && root.children[1].collapsed);
    assert!(!root.children[0].children[0].collapsed);
    root.fold_at(2);
    assert_eq!(names(&root), vec!["root", "a", "a0", "a1", "b", "b0"]);
    assert!(root.children[0].children[0].collapsed);
    assert!(root.children[0].children[1].collapsed);
    root.fold_at(0);
    assert_eq!(names(&root), vec!["root"]);
}

#[test]
fn find_the_first_node_with_an_id() {
    let root = id_tree();
    assert_eq!(root.find_path(&"ROOT".to_string()), Some(vec![]));
    assert_eq!(root.find_path(&"a00".to_string()), Some(vec![0, 0, 0]));
    assert_eq!(root.find_path(&"a1".to_string()), Some(vec![0, 1]));
    assert_eq!(root.find_path(&"b".to_string()), Some(vec![1]));
    assert_eq!(root.find_path(&"zz".to_string()), None);
    assert_eq!(root.find_data_by_id("a00").unwrap().text, "a00");
    assert!(root.find_data_by_id("none").is_none());
    assert_eq!(root.node_at(&vec![0, 1]).data.id, "a1");
}

#[test]
fn find_takes_the_first_of_equal_ids() {
    let mut root = DTNode::new(cap("ROOT"));
    let mut first = cap("x");
    first.text = "first".to_string();
    let mut second = cap("x");
    second.text = "second".to_string();
    root.grow_tree(vec![AddData(cap("a")), StartChildren(false), AddData(first), EndChildren, AddData(second)])
        .unwrap();
    assert_eq!(root.find_data_by_id("x").unwrap().text, "first");
}

#[test]
fn toggle_collapse_flips_branches_only() {
    let mut root = id_tree();
    assert!(!root.toggle_collapse("ROOT"));
    assert!(!root.collapsed);
    assert!(!root.toggle_collapse("b"));
    assert!(!root.toggle_collapse("a00"));
    assert!(!root.toggle_collapse("missing"));
    assert_eq!(ids(&root), vec!["ROOT", "a", "a0", "a00", "a1", "b"]);
    assert!(root.toggle_collapse("a"));
    assert!(root.children[0].collapsed);
    assert_eq!(ids(&root), vec!["ROOT", "a", "b"]);
    assert!(root.toggle_collapse("a0"));
    assert!(root.children[0].children[0].collapsed);
    assert!(root.toggle_collapse("a"));
    assert_eq!(ids(&root), vec!["ROOT", "a", "a0", "a1", "b"]);
    assert!(root.toggle_collapse("a0"));
    assert_eq!(ids(&root), vec!["ROOT", "a", "a0", "a00", "a1", "b"]);
}

#[test]
fn add_child_under_a_node() {
    let mut root = id_tree();
    assert!(root.add_child_under(&"a1".to_string(), DTNode::new(cap("a10"))));
    assert_eq!(root.children[0].children[1].children[0].data.id, "a10");
    assert!(!root.add_child_under(&"nowhere".to_string(), DTNode::new(cap("lost"))));
    assert_eq!(root.len(), 7);
}

#[test]
fn change_a_node_in_place() {
    let mut root = id_tree();
    root.find_node_by_id_mut("a0").unwrap().data.text = "changed".to_string();
    assert_eq!(root.children[0].children[0].data.text, "changed");
    assert!(root.find_node_by_id_mut("none").is_none());
    root.node_at_mut(&vec![1], 0).collapsed = true;
    assert!(root.children[1].collapsed);
}
