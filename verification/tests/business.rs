use prog_draw::capability_db::{
    yes_no, CapabilitiesDB, CapabilitiesRow, RelatedError, SurroundList, SurroundRow,
    SurroundSheetRow,
};
use prog_draw::capability_tree::{read_trees_from_capdb, CoreOrSurround, TreeCollapsePolicy};
use prog_draw::data_tree::TreeLayoutDirection;
use prog_draw::fold_up::FoldInfo;
use prog_draw::lob_usage::LobUsage;
use prog_draw::used_by::{UsedBy, UsedBySet};

fn s(text: &str) -> String {
    text.to_string()
}

fn names(list: &[&str]) -> SurroundList {
    SurroundList { names: list.iter().map(|x| x.to_string()).collect() }
}

fn capability(id: &str, parent: &str, place: CoreOrSurround, ssr: Option<&str>) -> CapabilitiesRow {
    CapabilitiesRow {
        id: s(id),
        parent_id: s(parent),
        name: format!("name of {}", id),
        level: 1,
        description: s("d"),
        core_surround: place,
        notes: s("n"),
        used_by_consumer: UsedBy::Yes,
        used_by_sbb: UsedBy::No,
        used_by_commercial: UsedBy::Maybe,
        ssr_id: ssr.map(|x| x.to_string()),
    }
}

fn sheet_row(id: &str, consumer: &[&str], sbb: &[&str], commercial: &[&str]) -> SurroundSheetRow {
    SurroundSheetRow {
        id: s(id),
        functionality: s(""),
        description: s(""),
        notes: s(""),
        core_surround: names(&[]),
        consumer_current: names(&[]),
        sbb_current: names(&[]),
        commercial_current: names(&[]),
        consumer_destination: names(consumer),
        sbb_destination: names(sbb),
        commercial_destination: names(commercial),
    }
}

fn surround(id: &str, name: &str, is_destination: bool) -> SurroundRow {
    SurroundRow {
        id: s(id),
        name: s(name),
        is_core: false,
        is_new_system: false,
        is_current: true,
        is_destination,
        consumer_current: false,
        sbb_current: false,
        commercial_current: false,
        consumer_destination: true,
        sbb_destination: false,
        commercial_destination: true,
        app_on_mainframe: s(""),
        links: s(""),
    }
}

fn db() -> CapabilitiesDB {
    CapabilitiesDB {
        capabilities: vec![
            capability("ROOT", "", CoreOrSurround::Mixed, None),
            capability("C1", "ROOT", CoreOrSurround::Core, Some("CORE")),
            capability("S1", "ROOT", CoreOrSurround::Surround, Some("^")),
            capability("S1a", "S1", CoreOrSurround::Surround, Some("R1")),
            capability("S1b", "S1", CoreOrSurround::Surround, Some("^")),
            capability("S1b1", "S1b", CoreOrSurround::Surround, Some("R2")),
            capability("S1b2", "S1b", CoreOrSurround::Surround, Some("*")),
            capability("S2", "ROOT", CoreOrSurround::Surround, Some("R2")),
            capability("S2a", "S2", CoreOrSurround::Surround, Some("*")),
            capability("S2a1", "S2a", CoreOrSurround::Surround, Some("*")),
            capability("M1", "ROOT", CoreOrSurround::NotSure, None),
            capability("M2", "ROOT", CoreOrSurround::Blank, Some("")),
            capability("X1", "ROOT", CoreOrSurround::Surround, Some("R9")),
            capability("X2", "nowhere", CoreOrSurround::Surround, Some("*")),
            capability("X3", "ROOT", CoreOrSurround::Mixed, Some("*")),
        ],
        surround_sheet_rows: vec![
            sheet_row("R1", &["Alpha", "N/A"], &["Alpha", "Beta"], &[]),
            sheet_row("R2", &["Beta"], &[], &["Destination Core", "Gamma"]),
        ],
        surrounds: vec![
            surround("A", "Alpha", true),
            surround("B", "Beta", true),
            surround("DC", "Destination Core", true),
            surround("D", "Delta", false),
            surround("G", "Gamma", true),
        ],
    }
}

fn set(consumer: bool, sbb: bool, commercial: bool) -> UsedBySet {
    let pick = |b: bool| if b { UsedBy::Yes } else { UsedBy::No };
    UsedBySet::from_fields(pick(consumer), pick(sbb), pick(commercial))
}

#[test]
fn used_by_words() {
    assert_eq!(UsedBy::from_text("Yes"), Some(UsedBy::Yes));
    assert_eq!(UsedBy::from_text("No"), Some(UsedBy::No));
    assert_eq!(UsedBy::from_text("Maybe"), Some(UsedBy::Maybe));
    assert_eq!(UsedBy::from_text(""), Some(UsedBy::Blank));
    assert_eq!(UsedBy::from_text("Mixed"), Some(UsedBy::Mixed));
    assert_eq!(UsedBy::from_text("yes"), None);
    assert_eq!(UsedBy::from_text("Yes "), None);
    for x in [UsedBy::Yes, UsedBy::No, UsedBy::Maybe, UsedBy::Blank, UsedBy::Mixed] {
        assert_eq!(UsedBy::from_text(x.as_text()), Some(x));
    }
    assert_eq!(UsedBy::default(), UsedBy::Blank);
    assert_eq!(UsedBySet::default(), UsedBySet::all_blank());
    assert_eq!(UsedBySet::all_mixed().sbb, UsedBy::Mixed);
}

#[test]
fn core_or_surround_words() {
    assert_eq!(CoreOrSurround::from_text("Core"), Some(CoreOrSurround::Core));
    assert_eq!(CoreOrSurround::from_text("Surround"), Some(CoreOrSurround::Surround));
    assert_eq!(CoreOrSurround::from_text("Not Sure"), Some(CoreOrSurround::NotSure));
    assert_eq!(CoreOrSurround::from_text(""), Some(CoreOrSurround::Blank));
    assert_eq!(CoreOrSurround::from_text("Mixed"), Some(CoreOrSurround::Mixed));
    assert_eq!(CoreOrSurround::from_text("NotSure"), None);
    assert_eq!(CoreOrSurround::NotSure.as_text(), "Not Sure");
    assert_eq!(CoreOrSurround::default(), CoreOrSurround::Blank);
    assert_eq!(TreeCollapsePolicy::default(), TreeCollapsePolicy::Nothing);
}

#[test]
fn colors_of_used_by_sets() {
    let get_color_strs = prog_draw::used_by::get_color_strs;
    assert_eq!(get_color_strs(&set(true, true, true)), ("#804000", "#FFFFFF"));
    assert_eq!(get_color_strs(&set(true, true, false)), ("#80FF80", "#000000"));
    assert_eq!(get_color_strs(&set(true, false, true)), ("#FFC77F", "#000000"));
    assert_eq!(get_color_strs(&set(true, false, false)), ("#FFFF7F", "#000000"));
    assert_eq!(get_color_strs(&set(false, true, true)), ("#F58CFF", "#000000"));
    assert_eq!(get_color_strs(&set(false, true, false)), ("#8080FF", "#000000"));
    assert_eq!(get_color_strs(&set(false, false, true)), ("#FF6163", "#000000"));
    assert_eq!(get_color_strs(&set(false, false, false)), ("#FFFFFF", "#000000"));
    assert_eq!(get_color_strs(&UsedBySet::all_mixed()), ("#E8E8E8", "#000000"));
    assert_eq!(get_color_strs(&UsedBySet::all_blank()), ("#E8E8E8", "#000000"));
    let maybe = UsedBySet::from_fields(UsedBy::Yes, UsedBy::Maybe, UsedBy::Yes);
    assert_eq!(get_color_strs(&maybe), ("#E8E8E8", "#000000"));
}

#[test]
fn colors_of_lob_usage() {
    let get_color_strs = prog_draw::lob_usage::get_color_strs;
    assert_eq!(get_color_strs(None), ("#E8E8E8", "#000000"));
    assert_eq!(get_color_strs(Some(LobUsage::new([true, true, true]))), ("#804000", "#FFFFFF"));
    assert_eq!(get_color_strs(Some(LobUsage::new([false, true, true]))), ("#F58CFF", "#000000"));
    assert_eq!(get_color_strs(Some(LobUsage::new([true, false, true]))), ("#FFC77F", "#000000"));
    assert_eq!(get_color_strs(Some(LobUsage::new([false, false, true]))), ("#FF6163", "#000000"));
    assert_eq!(get_color_strs(Some(LobUsage::new([true, true, false]))), ("#80FF80", "#000000"));
    assert_eq!(get_color_strs(Some(LobUsage::new([false, true, false]))), ("#7F7FFF", "#000000"));
    assert_eq!(get_color_strs(Some(LobUsage::new([true, false, false]))), ("#FFFF7F", "#000000"));
    assert_eq!(get_color_strs(Some(LobUsage::new([false, false, false]))), ("#FFFFFF", "#000000"));
    let mut usage = LobUsage::new([true, false, false]);
    usage.merge(LobUsage::new([false, false, true]));
    assert_eq!(usage, LobUsage::new([true, false, true]));
}

#[test]
fn fold_paths() {
    let rows = vec![
        vec![s("a"), s("b"), s(""), s("c")],
        vec![s(""), s("x")],
        vec![s("a")],
        vec![],
        vec![s("p"), s("q"), s("r")],
    ];
    let info = FoldInfo::from_rows(&rows);
    assert_eq!(info.fold_paths, vec![vec![s("a"), s("b")], vec![s("a")], vec![s("p"), s("q"), s("r")]]);
    let path = vec![s("a"), s("b"), s("z")];
    assert!(info.is_fold_path(&path, 1));
    assert!(info.is_fold_path(&path, 2));
    assert!(!info.is_fold_path(&path, 3));
    assert!(!info.is_fold_path(&vec![s("b"), s("a")], 2));
    // a path that is shorter than the fold path is compared as far as it goes
    assert!(info.is_fold_path(&vec![s("p")], 3));
    assert!(!info.is_fold_path(&vec![s("q")], 3));
    assert!(!FoldInfo { fold_paths: vec![] }.is_fold_path(&path, 0));
}

#[test]
fn capabilities_by_id() {
    let db = db();
    assert_eq!(db.get_capability_by_id("S1a").unwrap().parent_id, "S1");
    assert!(db.get_capability_by_id("none").is_none());
    assert_eq!(db.find_capability("C1"), Some(1));
    assert_eq!(db.get_child_capability_ids_by_id("S1"), vec![s("S1a"), s("S1b")]);
    assert_eq!(db.get_child_capability_ids_by_id("S1a"), Vec::<String>::new());
    assert_eq!(db.get_ssr_by_id("R2").unwrap().consumer_destination.names, vec![s("Beta")]);
    assert!(db.get_ssr_by_id("R3").is_none());
}

#[test]
fn related_surrounds() {
    let db = db();
    let r1 = vec![(s("Alpha"), set(true, true, false)), (s("Beta"), set(false, true, false))];
    let r2 = vec![(s("Beta"), set(true, false, false)), (s("Gamma"), set(false, false, true))];
    assert_eq!(db.get_related_surrounds("S1a"), Ok(r1.clone()));
    assert_eq!(db.get_related_surrounds("S2"), Ok(r2.clone()));
    // none named
    assert_eq!(db.get_related_surrounds("C1"), Ok(vec![]));
    assert_eq!(db.get_related_surrounds("M1"), Ok(vec![]));
    assert_eq!(db.get_related_surrounds("M2"), Ok(vec![]));
    // from the nearest ancestor that names one
    assert_eq!(db.get_related_surrounds("S2a"), Ok(r2.clone()));
    assert_eq!(db.get_related_surrounds("S2a1"), Ok(r2.clone()));
    // from what is below: S1b has S1b1 (R2) and S1b2, which takes it from above
    assert_eq!(db.get_related_surrounds("S1b"), Err(RelatedError::BadDescendant));
    assert_eq!(db.get_related_surrounds("S1"), Err(RelatedError::BadDescendant));
    assert_eq!(db.get_related_surrounds("S1b2"), Err(RelatedError::NoAncestorValue));
    assert_eq!(db.get_related_surrounds("X3"), Err(RelatedError::NoAncestorValue));
    assert_eq!(db.get_related_surrounds("nobody"), Err(RelatedError::UnknownCapability));
    assert_eq!(db.get_related_surrounds("X2"), Err(RelatedError::UnknownCapability));
    assert_eq!(db.get_related_surrounds("X1"), Err(RelatedError::UnknownSurroundSheetRow));
}

#[test]
fn related_surrounds_from_below() {
    let mut db = db();
    db.capabilities[6].ssr_id = Some(s("R1"));
    let both = vec![
        (s("Beta"), set(true, false, false)),
        (s("Gamma"), set(false, false, true)),
        (s("Alpha"), set(true, true, false)),
        (s("Beta"), set(false, true, false)),
    ];
    assert_eq!(db.get_related_surrounds("S1b"), Ok(both.clone()));
    let mut all = vec![(s("Alpha"), set(true, true, false)), (s("Beta"), set(false, true, false))];
    all.extend(both);
    assert_eq!(db.get_related_surrounds("S1"), Ok(all));
}

#[test]
fn related_surrounds_of_nested_data_end() {
    let mut db = db();
    // a capability that is its own parent
    db.capabilities.push(capability("L", "L", CoreOrSurround::Surround, Some("*")));
    assert_eq!(db.get_related_surrounds("L"), Err(RelatedError::TooDeep));
    db.capabilities.push(capability("K", "K", CoreOrSurround::Surround, Some("^")));
    assert_eq!(db.get_related_surrounds("K"), Err(RelatedError::TooDeep));
}

#[test]
fn surround_lists_from_cells() {
    assert_eq!(SurroundList::from_text("Alpha").names, vec![s("Alpha")]);
    assert_eq!(
        SurroundList::from_text("Alpha\nNew Surround - Beta\nGamma").names,
        vec![s("Alpha"), s("Beta"), s("Gamma")]
    );
    assert_eq!(SurroundList::from_text("").names, vec![s("")]);
    assert_eq!(SurroundList::from_text("a\n").names, vec![s("a"), s("")]);
    assert_eq!(SurroundList::from_text("New Surround - ").names, vec![s("")]);
    assert_eq!(SurroundList::from_text("New Surround -x").names, vec![s("New Surround -x")]);
    assert_eq!(SurroundList::from_text("xNew Surround - y").names, vec![s("xNew Surround - y")]);
    assert_eq!(SurroundList::default().names, Vec::<String>::new());
    assert_eq!(yes_no("Yes"), Some(true));
    assert_eq!(yes_no("No"), Some(false));
    assert_eq!(yes_no("no"), None);
    assert_eq!(yes_no(""), None);
}

#[test]
fn trees_from_the_data() {
    let mut db = db();
    db.capabilities.truncate(7);
    db.capabilities.push(capability("M1", "ROOT", CoreOrSurround::NotSure, None));
    let (core, surround) = read_trees_from_capdb(&db).unwrap();
    assert_eq!(core.layout_direction, TreeLayoutDirection::Left);
    assert_eq!(surround.layout_direction, TreeLayoutDirection::Right);
    let core_ids: Vec<&str> = core.tree.visible_data().iter().map(|x| x.id.as_str()).collect();
    let surround_ids: Vec<&str> = surround.tree.visible_data().iter().map(|x| x.id.as_str()).collect();
    assert_eq!(core_ids, vec!["ROOT", "C1", "M1"]);
    assert_eq!(surround_ids, vec!["ROOT", "S1", "S1a", "S1b", "S1b1", "S1b2", "M1"]);
    let found = surround.find_data_by_id("S1a").unwrap();
    assert_eq!(found.text, "name of S1a");
    assert_eq!(found.used_by_set, UsedBySet::from_fields(UsedBy::Yes, UsedBy::No, UsedBy::Maybe));
    assert_eq!(found.core_surround, CoreOrSurround::Surround);
    // a capability whose parent is not in its tree
    db.capabilities.push(capability("lost", "C1", CoreOrSurround::Surround, None));
    assert!(read_trees_from_capdb(&db).is_none());
}
