use prog_draw::capability_db::{
    CapabilitiesDB, CapabilitiesRow, RelatedError, SurroundList, SurroundRow, SurroundSheetRow,
};
use prog_draw::capability_html::show_overlay;
use prog_draw::capability_tree::CoreOrSurround;
use prog_draw::document::{
    find_connections, wanted_positions, Connection, DocumentError, TwoTreeViewDocument,
};
use prog_draw::geometry::Rect;
use prog_draw::spaced_layout::Spaceable;
use prog_draw::surrounds::{SurroundItem, SurroundItems};
use prog_draw::text_size::{AlwaysFailTextSizer, TextSizeError, TextSizer};
use prog_draw::tree_layout::LayoutError;
use prog_draw::used_by::{UsedBy, UsedBySet};

struct TenWide;

impl TextSizer for TenWide {
    fn answers(&self, text: &str, _f: &str, _s: i64, answer: Result<(i64, i64), TextSizeError>) -> bool {
        answer == Ok((10 * text.len() as i64, 6))
    }

    fn text_size(&self, text: &str, _font_family: &str, _font_size: i64) -> Result<(i64, i64), TextSizeError> {
        Ok((10 * text.len() as i64, 6))
    }
}

fn s(text: &str) -> String {
    text.to_string()
}

fn names(list: &[&str]) -> SurroundList {
    SurroundList { names: list.iter().map(|x| x.to_string()).collect() }
}

fn capability(id: &str, parent: &str, name: &str, place: CoreOrSurround, ssr: Option<&str>) -> CapabilitiesRow {
    CapabilitiesRow {
        id: s(id),
        parent_id: s(parent),
        name: s(name),
        level: 1,
        description: s(""),
        core_surround: place,
        notes: s(""),
        used_by_consumer: UsedBy::Yes,
        used_by_sbb: UsedBy::Yes,
        used_by_commercial: UsedBy::Yes,
        ssr_id: ssr.map(|x| x.to_string()),
    }
}

fn sheet_row(id: &str, consumer: &[&str], sbb: &[&str], commercial: &[&str]) -> SurroundSheetRow {
    SurroundSheetRow {
        id: s(id),
        functionality: s(""),
        description: s(""),
        notes: s(""),
        core_surround: names(&[]),
        consumer_current: names(&[]),
        sbb_current: names(&[]),
        commercial_current: names(&[]),
        consumer_destination: names(consumer),
        sbb_destination: names(sbb),
        commercial_destination: names(commercial),
    }
}

fn surround(id: &str, name: &str, is_destination: bool) -> SurroundRow {
    SurroundRow {
        id: s(id),
        name: s(name),
        is_core: false,
        is_new_system: false,
        is_current: true,
        is_destination,
        consumer_current: false,
        sbb_current: false,
        commercial_current: false,
        consumer_destination: true,
        sbb_destination: false,
        commercial_destination: true,
        app_on_mainframe: s(""),
        links: s(""),
    }
}

fn db() -> CapabilitiesDB {
    CapabilitiesDB {
        capabilities: vec![
            capability("ROOT", "", "", CoreOrSurround::Mixed, None),
            capability("C1", "ROOT", "core", CoreOrSurround::Core, Some("CORE")),
            capability("S1", "ROOT", "sur", CoreOrSurround::Surround, Some("^")),
            capability("S1a", "S1", "leafa", CoreOrSurround::Surround, Some("R1")),
            capability("S1b", "S1", "leafb", CoreOrSurround::Surround, Some("R2")),
            capability("M1", "ROOT", "both", CoreOrSurround::NotSure, None),
        ],
        surround_sheet_rows: vec![
            sheet_row("R1", &["Alpha", "N/A"], &["Alpha", "Beta"], &[]),
            sheet_row("R2", &["Beta"], &[], &["Destination Core", "Gamma", "Unlisted"]),
        ],
        surrounds: vec![
            surround("A", "Alpha", true),
            surround("B", "Beta", true),
            surround("DC", "Destination Core", true),
            surround("D", "Delta", false),
            surround("G", "Gamma", true),
            surround("O", "Omega", true),
        ],
    }
}

fn set(consumer: bool, sbb: bool, commercial: bool) -> UsedBySet {
    let pick = |b: bool| if b { UsedBy::Yes } else { UsedBy::No };
    UsedBySet::from_fields(pick(consumer), pick(sbb), pick(commercial))
}

fn line_ends(doc: &TwoTreeViewDocument) -> Vec<((i64, i64), (i64, i64), &'static str)> {
    doc.connecting_lines.lines.iter().map(|x| (x.start, x.end, x.color)).collect()
}

#[test]
fn new_document_is_laid_out() {
    let doc = TwoTreeViewDocument::new(db(), &TenWide).unwrap();
    let surround: Vec<(&str, (i64, i64))> =
        doc.surround_tree.tree.visible_data().iter().map(|x| (x.id.as_str(), x.location)).collect();
    assert_eq!(
        surround,
        vec![("ROOT", (0, 23)), ("S1", (20, 14)), ("S1a", (80, 5)), ("S1b", (80, 23)), ("M1", (20, 41))]
    );
    let core: Vec<(&str, (i64, i64))> =
        doc.core_tree.tree.visible_data().iter().map(|x| (x.id.as_str(), x.location)).collect();
    assert_eq!(core, vec![("ROOT", (0, 14)), ("C1", (-20, 5)), ("M1", (-20, 23))]);
    assert_eq!(doc.surround_tree.get_bbox(), Some(Rect::new_ltwh(0, 0, 134, 46)));
    assert_eq!(doc.core_tree.get_bbox(), Some(Rect::new_ltwh(-64, 0, 64, 28)));
    assert_eq!(
        line_ends(&doc),
        vec![
            ((134, 5), (182, 5), "#80FF80"),
            ((134, 5), (182, 14), "#8080FF"),
            ((134, 23), (182, 14), "#FFFF7F"),
            ((134, 23), (182, 23), "#FF6163"),
        ]
    );
    assert_eq!(doc.surrounds.x_position, 182);
    let wanted: Vec<(&str, Option<i64>)> =
        doc.surrounds.items.iter().map(|x| (x.id(), x.desired_y)).collect();
    assert_eq!(wanted, vec![("A", Some(5)), ("B", Some(14)), ("G", Some(23)), ("O", None)]);
}

#[test]
fn distribute_space_places_the_surround_systems() {
    let mut doc = TwoTreeViewDocument::new(db(), &TenWide).unwrap();
    assert!(doc.surrounds.items.iter().all(|x| x.get_actual_y().is_none()));
    assert!(doc.surrounds.distribute_space());
    let placed: Vec<Option<i64>> = doc.surrounds.items.iter().map(|x| x.get_actual_y()).collect();
    assert_eq!(placed, vec![Some(-4), Some(14), Some(32), Some(50)]);
    assert_eq!(doc.surrounds.items[0].get_bbox(), Some(Rect::new_ltwh(0, -9, 54, 10)));
    assert_eq!(doc.surrounds.items[3].get_bbox(), Some(Rect::new_ltwh(0, 45, 54, 10)));
    assert_eq!(doc.surrounds.get_bbox(), Some(Rect::new_ltwh(182, -9, 54, 64)));
    assert_eq!(doc.surrounds.get_by_name("Gamma").unwrap().id(), "G");
    assert!(doc.surrounds.get_by_name("Delta").is_none());
    // again, with the item that had no wish where it was put: it stays the lowest
    assert!(doc.surrounds.distribute_space());
    let placed: Vec<Option<i64>> = doc.surrounds.items.iter().map(|x| x.get_actual_y()).collect();
    assert_eq!(placed, vec![Some(-4), Some(14), Some(32), Some(68)]);
    doc.surrounds.reset_positions(7);
    assert_eq!(doc.surrounds.x_position, 7);
    assert!(doc.surrounds.items.iter().all(|x| x.desired_y.is_none() && x.actual_y.is_none()));
    assert!(doc.surrounds.distribute_space());
    let placed: Vec<Option<i64>> = doc.surrounds.items.iter().map(|x| x.get_actual_y()).collect();
    assert_eq!(placed, vec![Some(9), Some(27), Some(45), Some(63)]);
}

#[test]
fn distribute_space_needs_sizes_in_range() {
    let mut doc = TwoTreeViewDocument::new(db(), &TenWide).unwrap();
    assert_eq!(doc.surrounds.get_bbox(), None);
    doc.surrounds.items[1].text_size = (10, -1);
    assert!(!doc.surrounds.distribute_space());
    assert!(doc.surrounds.items.iter().all(|x| x.get_actual_y().is_none()));
    doc.surrounds.items[1].text_size = (10, 6);
    doc.surrounds.get_by_id_mut("B").unwrap().reposition(i64::MAX);
    assert!(!doc.surrounds.distribute_space());
    assert!(doc.surrounds.items.iter().all(|x| x.get_actual_y().is_none()));
    assert!(doc.surrounds.get_by_id_mut("nobody").is_none());
    doc.surrounds.set_x_position(3);
    assert_eq!(doc.surrounds.x_position, 3);
}

#[test]
fn surround_items_are_spaceable() {
    let row = surround("A", "Alpha", true);
    let mut item = SurroundItem::new(&row, (50, 6));
    assert_eq!(item.used_by_set, set(true, false, true));
    assert_eq!(item.get_actual_y(), None);
    assert_eq!(item.get_bbox(), None);
    item.reposition(12);
    assert_eq!(item.get_desired_loc(), 12);
    assert_eq!(item.get_extent(), 18);
    item.set_position(61);
    assert_eq!(item.get_actual_y(), Some(30));
    assert_eq!(item.get_bbox(), Some(Rect::new_ltwh(0, 25, 54, 10)));
    let list = SurroundItems::new(&db(), &TenWide).unwrap();
    let shown: Vec<&str> = list.items.iter().map(|x| x.data.name.as_str()).collect();
    assert_eq!(shown, vec!["Alpha", "Beta", "Gamma", "Omega"]);
    assert_eq!(list.items[1].text_size, (40, 6));
    assert_eq!(list.x_position, 0);
    assert!(SurroundItems::new(&db(), &AlwaysFailTextSizer).is_err());
}

#[test]
fn toggle_collapse_lays_out_again() {
    let mut doc = TwoTreeViewDocument::new(db(), &TenWide).unwrap();
    doc.toggle_collapse("S1", &TenWide).unwrap();
    let surround: Vec<(&str, (i64, i64))> =
        doc.surround_tree.tree.visible_data().iter().map(|x| (x.id.as_str(), x.location)).collect();
    assert_eq!(surround, vec![("ROOT", (0, 14)), ("S1", (20, 5)), ("M1", (20, 23))]);
    assert_eq!(
        line_ends(&doc),
        vec![
            ((54, 5), (112, 5), "#80FF80"),
            ((54, 5), (112, 5), "#8080FF"),
            ((54, 5), (112, 5), "#FFFF7F"),
            ((54, 5), (112, 5), "#FF6163"),
        ]
    );
    assert_eq!(doc.surrounds.x_position, 112);
    // the root, a leaf, and a node that is not there: nothing changes
    let before = line_ends(&doc);
    doc.toggle_collapse("ROOT", &TenWide).unwrap();
    doc.toggle_collapse("C1", &TenWide).unwrap();
    doc.toggle_collapse("none", &AlwaysFailTextSizer).unwrap();
    assert_eq!(line_ends(&doc), before);
    // and back
    doc.toggle_collapse("S1", &TenWide).unwrap();
    let fresh = TwoTreeViewDocument::new(db(), &TenWide).unwrap();
    assert_eq!(line_ends(&doc), line_ends(&fresh));
    let here: Vec<(i64, i64)> = doc.surround_tree.tree.visible_data().iter().map(|x| x.location).collect();
    let there: Vec<(i64, i64)> = fresh.surround_tree.tree.visible_data().iter().map(|x| x.location).collect();
    assert_eq!(here, there);
}

#[test]
fn refold_by_name() {
    let mut doc = TwoTreeViewDocument::new(db(), &TenWide).unwrap();
    doc.toggle_collapse("S1", &TenWide).unwrap();
    doc.refold("ALL_OPEN", &TenWide).unwrap();
    assert_eq!(doc.surround_tree.tree.visible_count(), 5);
    doc.refold("LEVEL_2", &TenWide).unwrap();
    assert_eq!(doc.surround_tree.tree.visible_count(), 5);
    assert!(doc.surround_tree.tree.children[0].children[0].collapsed);
    assert!(!doc.surround_tree.tree.children[0].collapsed);
    assert_eq!(doc.refold("LEVEL_3", &TenWide), Err(DocumentError::UnknownFold));
    assert_eq!(doc.refold("", &TenWide), Err(DocumentError::UnknownFold));
    // an unknown name leaves the trees as they are
    assert!(doc.surround_tree.tree.children[0].children[0].collapsed);
    assert_eq!(doc.surround_tree.tree.visible_count(), 5);
    // a known name is never said to be unknown, whatever the sizer does
    assert_eq!(
        doc.refold("ALL_OPEN", &AlwaysFailTextSizer),
        Err(DocumentError::Layout(LayoutError::SizingUnavailable))
    );
}

#[test]
fn document_errors() {
    assert_eq!(
        TwoTreeViewDocument::new(db(), &AlwaysFailTextSizer).unwrap_err(),
        DocumentError::Sizing
    );
    let mut lost = db();
    lost.capabilities.push(capability("lost", "nobody", "x", CoreOrSurround::Core, None));
    assert_eq!(TwoTreeViewDocument::new(lost, &TenWide).unwrap_err(), DocumentError::UnknownParent);
    let mut no_row = db();
    no_row.capabilities[4].ssr_id = Some(s("R7"));
    assert_eq!(
        TwoTreeViewDocument::new(no_row, &TenWide).unwrap_err(),
        DocumentError::Related(RelatedError::UnknownSurroundSheetRow)
    );
    struct Huge;
    impl TextSizer for Huge {
        fn answers(&self, _t: &str, _f: &str, _s: i64, answer: Result<(i64, i64), TextSizeError>) -> bool {
            answer == Ok((1 << 60, 6))
        }

        fn text_size(&self, _t: &str, _f: &str, _s: i64) -> Result<(i64, i64), TextSizeError> {
            Ok((1 << 60, 6))
        }
    }
    let mut none = db();
    none.surrounds.clear();
    assert_eq!(
        TwoTreeViewDocument::new(none, &Huge).unwrap_err(),
        DocumentError::Layout(LayoutError::TooLarge)
    );
    let mut doc = TwoTreeViewDocument::new(db(), &TenWide).unwrap();
    doc.surround_tree.tree.children[0].children[0].data.text_size = None;
    assert_eq!(doc.regenerate_connecting_lines(), Err(DocumentError::NoBox));
    assert_eq!(
        doc.update_layout(false, true, &AlwaysFailTextSizer),
        Err(DocumentError::Layout(LayoutError::SizingUnavailable))
    );
    assert_eq!(doc.update_layout(false, false, &AlwaysFailTextSizer), Ok(()));
}

#[test]
fn connections_and_wanted_positions() {
    let doc = TwoTreeViewDocument::new(db(), &TenWide).unwrap();
    let leaves = doc.surround_tree.tree.visible_leaves();
    let found = find_connections(&doc.capdb, &doc.surrounds.items, &leaves).unwrap();
    let plain: Vec<((i64, i64), usize, UsedBySet)> =
        found.iter().map(|x| (x.start, x.surround, x.used_by)).collect();
    assert_eq!(
        plain,
        vec![
            ((134, 5), 0, set(true, true, false)),
            ((134, 5), 1, set(false, true, false)),
            ((134, 23), 1, set(true, false, false)),
            ((134, 23), 2, set(false, false, true)),
        ]
    );
    assert_eq!(wanted_positions(&found, 4), vec![Some(5), Some(14), Some(23), None]);
    let lines = vec![
        Connection { start: (0, -3), surround: 0, used_by: set(true, true, true) },
        Connection { start: (0, -4), surround: 0, used_by: set(true, true, true) },
        Connection { start: (0, 8), surround: 2, used_by: set(true, true, true) },
    ];
    // the mean of -3 and -4 is rounded down
    assert_eq!(wanted_positions(&lines, 3), vec![Some(-4), None, Some(8)]);
    assert_eq!(wanted_positions(&vec![], 2), vec![None, None]);
}

#[test]
fn node_data_and_pop_ups() {
    let doc = TwoTreeViewDocument::new(db(), &TenWide).unwrap();
    assert_eq!(doc.get_node_data("C1").unwrap().text, "core");
    assert_eq!(doc.get_node_data("S1b").unwrap().text, "leafb");
    // in both trees: the one of the core is taken
    assert_eq!(doc.get_node_data("M1").unwrap().location, (-20, 23));
    assert!(doc.get_node_data("none").is_none());
    assert!(show_overlay(&doc, "capability", "S1a").unwrap().contains("<div class=\"name\">leafa</div>"));
    assert!(show_overlay(&doc, "surround", "G").unwrap().contains("<div class=\"name\">Gamma</div>"));
    assert!(show_overlay(&doc, "capability", "G").is_none());
    assert!(show_overlay(&doc, "surround", "S1a").is_none());
    assert!(show_overlay(&doc, "other", "S1a").is_none());
}

#[test]
fn place_of_the_key() {
    let mut doc = TwoTreeViewDocument::new(db(), &TenWide).unwrap();
    let key = Rect::new_ltwh(-75, -72, 150, 140);
    assert_eq!(doc.trifoil_position(&key), Some((155, -148)));
    // the tree of the core reaches less high than the other: the key goes to its side
    doc.core_tree.tree.data.location = (0, 100);
    doc.core_tree.tree.children[0].data.location = (-20, 100);
    doc.core_tree.tree.children[1].data.location = (-20, 100);
    assert_eq!(doc.trifoil_position(&key), Some((-155, 95 - 68 - 80)));
    doc.core_tree.tree.data.text_size = None;
    assert_eq!(doc.trifoil_position(&key), None);
}

#[test]
fn surround_list_from_sizes() {
    let sizes = vec![Ok((50, 6)), Ok((40, 7)), Ok((51, 8)), Ok((52, 9)), Err(TextSizeError)];
    let list = SurroundItems::from_sizes(&db(), &sizes).unwrap();
    let made: Vec<(&str, (i64, i64))> =
        list.items.iter().map(|x| (x.data.name.as_str(), x.text_size)).collect();
    assert_eq!(
        made,
        vec![("Alpha", (50, 6)), ("Beta", (40, 7)), ("Gamma", (51, 8)), ("Omega", (52, 9))]
    );
    assert_eq!(list.x_position, 0);
    assert!(list.items.iter().all(|x| x.desired_y.is_none() && x.actual_y.is_none()));
    assert_eq!(list.items[0].used_by_set, set(true, false, true));
    // too few sizes, and a size that is an error
    assert!(SurroundItems::from_sizes(&db(), &sizes[..3].to_vec()).is_err());
    let bad = vec![Ok((50, 6)), Err(TextSizeError), Ok((51, 8)), Ok((52, 9))];
    assert!(SurroundItems::from_sizes(&db(), &bad).is_err());
    assert!(SurroundItems::from_sizes(&db(), &vec![]).is_err());
}

#[test]
fn surround_list_without_systems_needs_no_sizer() {
    let mut none = db();
    none.surrounds.retain(|x| !x.is_destination || x.name == "Destination Core");
    assert_eq!(none.surrounds.len(), 2);
    let list = SurroundItems::new(&none, &AlwaysFailTextSizer).unwrap();
    assert!(list.items.is_empty());
    assert_eq!(list.x_position, 0);
    assert!(SurroundItems::from_sizes(&none, &vec![]).unwrap().items.is_empty());
    none.surrounds.clear();
    assert!(SurroundItems::new(&none, &AlwaysFailTextSizer).unwrap().items.is_empty());
}

#[test]
fn the_sizer_is_asked_up_to_its_first_failure() {
    struct Counting(std::cell::Cell<usize>);
    impl TextSizer for Counting {
        fn answers(&self, text: &str, _f: &str, _s: i64, answer: Result<(i64, i64), TextSizeError>) -> bool {
            answer == if text == "Beta" { Err(TextSizeError) } else { Ok((1, 1)) }
        }

        fn text_size(&self, text: &str, _f: &str, _s: i64) -> Result<(i64, i64), TextSizeError> {
            self.0.set(self.0.get() + 1);
            if text == "Beta" {
                Err(TextSizeError)
            } else {
                Ok((1, 1))
            }
        }
    }
    let sizer = Counting(std::cell::Cell::new(0));
    assert!(SurroundItems::new(&db(), &sizer).is_err());
    assert_eq!(sizer.0.get(), 2);
    assert!(AlwaysFailTextSizer.text_size("a", "Arial", 14).is_err());
}

#[test]
fn compacted_boxes_stay_apart() {
    // names 5 and 6 high: boxes 9 and 10 high, rooms of 17 and 18
    let sizes = vec![Ok((50, 5)), Ok((40, 6)), Ok((51, 5)), Ok((52, 8))];
    let mut list = SurroundItems::from_sizes(&db(), &sizes).unwrap();
    list.items[0].reposition(0);
    list.items[1].reposition(0);
    list.items[2].reposition(1);
    assert!(list.distribute_space());
    // one span about 0.5, 52 wide: centres at -17, 0.5 and 18
    let placed: Vec<Option<i64>> = list.items.iter().map(|x| x.get_actual_y()).collect();
    assert_eq!(&placed[..3], &[Some(-17), Some(0), Some(18)]);
    let boxes: Vec<Rect> = list.items.iter().map(|x| x.get_bbox().unwrap()).collect();
    assert_eq!(boxes[0], Rect::new_ltwh(0, -21, 54, 9));
    assert_eq!(boxes[1], Rect::new_ltwh(0, -5, 44, 10));
    assert_eq!(boxes[2], Rect::new_ltwh(0, 14, 55, 9));
    for a in 0..3 {
        for b in 0..3 {
            if a != b {
                assert!(boxes[a].bottom() + 7 <= boxes[b].top() || boxes[b].bottom() + 7 <= boxes[a].top());
            }
        }
    }
}
