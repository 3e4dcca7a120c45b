use prog_draw::capability_tree::{
    capability_row_from_record, commands_from_bokor_rows, read_csv_from_bokor_rows,
    read_csv_from_db_rows, CoreOrSurround, RowError,
};
use prog_draw::data_tree::DTNodeBuild;
use prog_draw::fold_up::FoldInfo;
use prog_draw::linked_y_list::LinkedYList;
use prog_draw::text::parse_number;
use prog_draw::used_by::{UsedBy, UsedBySet};

fn record(fields: &[&str]) -> Vec<String> {
    fields.iter().map(|x| x.to_string()).collect()
}

fn db_record(id: &str, parent: &str, place: &str) -> Vec<String> {
    record(&[id, parent, "name", "2", "skipped", "about", place, "note", "Yes", "", "No"])
}

fn bokor(names: &[&str], place: &str, uses: [&str; 3]) -> Vec<String> {
    let mut fields: Vec<String> = Vec::new();
    for k in 0..5 {
        fields.push(if k < names.len() { names[k].to_string() } else { String::new() });
    }
    fields.push("x".to_string());
    fields.push("x".to_string());
    fields.push(place.to_string());
    fields.push("x".to_string());
    for use_ in uses {
        fields.push(use_.to_string());
    }
    fields
}

fn shape(steps: &Vec<DTNodeBuild<prog_draw::capability_tree::CapabilityData>>) -> Vec<String> {
    steps
        .iter()
        .map(|step| match step {
            DTNodeBuild::AddData(data) => format!("+{}:{}", data.id, data.text),
            DTNodeBuild::StartChildren(collapsed) => format!("({}", if *collapsed { "c" } else { "" }),
            DTNodeBuild::EndChildren => ")".to_string(),
        })
        .collect()
}

#[test]
fn numbers_are_parsed() {
    assert_eq!(parse_number("0"), Some(0));
    assert_eq!(parse_number("007"), Some(7));
    assert_eq!(parse_number("+12"), Some(12));
    assert_eq!(parse_number("18446744073709551615"), Some(u64::MAX));
    assert_eq!(parse_number("18446744073709551616"), None);
    assert_eq!(parse_number("99999999999999999999999"), None);
    assert_eq!(parse_number(""), None);
    assert_eq!(parse_number("+"), None);
    assert_eq!(parse_number("-1"), None);
    assert_eq!(parse_number("1 "), None);
    assert_eq!(parse_number("++1"), None);
    assert_eq!(parse_number("1+"), None);
    assert_eq!(parse_number("1a"), None);
}

#[test]
fn db_records_are_read() {
    let row = capability_row_from_record(&db_record("c", "p", "Not Sure")).unwrap();
    assert_eq!(row.id, "c");
    assert_eq!(row.parent_id, "p");
    assert_eq!(row.name, "name");
    assert_eq!(row.level, 2);
    assert_eq!(row.description, "about");
    assert_eq!(row.core_surround, CoreOrSurround::NotSure);
    assert_eq!(row.notes, "note");
    assert_eq!(
        (row.used_by_consumer, row.used_by_sbb, row.used_by_commercial),
        (UsedBy::Yes, UsedBy::Blank, UsedBy::No)
    );
    assert_eq!(row.ssr_id, None);
    let short = record(&["a", "b", "c", "1", "", "", "Core", "", "Yes", "Yes"]);
    assert_eq!(capability_row_from_record(&short).unwrap_err(), RowError::MissingColumn);
    let mut bad = db_record("c", "p", "Core");
    bad[3] = "two".to_string();
    assert_eq!(capability_row_from_record(&bad).unwrap_err(), RowError::BadLevel);
    bad[3] = "2147483648".to_string();
    assert_eq!(capability_row_from_record(&bad).unwrap_err(), RowError::BadLevel);
    bad[3] = "2147483647".to_string();
    assert_eq!(capability_row_from_record(&bad).unwrap().level, i32::MAX);
    assert_eq!(
        capability_row_from_record(&db_record("c", "p", "core")).unwrap_err(),
        RowError::BadPlacement
    );
    let mut bad = db_record("c", "p", "Core");
    bad[10] = "Never".to_string();
    assert_eq!(capability_row_from_record(&bad).unwrap_err(), RowError::BadUsage);
}

#[test]
fn trees_from_db_records() {
    let records = vec![
        db_record("ROOT", "", "Mixed"),
        db_record("a", "ROOT", "Core"),
        db_record("b", "ROOT", "Surround"),
        db_record("a1", "a", "Core"),
        db_record("m", "ROOT", ""),
        db_record("b1", "b", "Surround"),
    ];
    let (core, surround) = read_csv_from_db_rows(&records).unwrap();
    let ids = |t: &prog_draw::capability_tree::CapabilityNodeTree| -> Vec<String> {
        t.tree.visible_data().iter().map(|x| x.id.clone()).collect()
    };
    assert_eq!(ids(&core), vec!["ROOT", "a", "a1", "m"]);
    assert_eq!(ids(&surround), vec!["ROOT", "b", "b1", "m"]);
    let mut lost = records.clone();
    lost.push(db_record("z", "b", "Core"));
    assert_eq!(read_csv_from_db_rows(&lost).unwrap_err(), RowError::UnknownParent);
    let mut bad = records.clone();
    bad.push(record(&["only"]));
    bad.push(db_record("z", "b", "Core"));
    assert_eq!(read_csv_from_db_rows(&bad).unwrap_err(), RowError::MissingColumn);
}

#[test]
fn commands_from_rows_of_names() {
    let fold = FoldInfo::from_rows(&vec![record(&["A", "A2"]), record(&["B"])]);
    let records = vec![
        bokor(&["A", "A1", "x"], "Core", ["Yes", "No", "Maybe"]),
        bokor(&["A", "A1", "y"], "Not Sure", ["Yes", "Yes", "Yes"]),
        bokor(&["A", "A2", "z"], "Surround", ["No", "No", ""]),
        bokor(&["B", "w"], "", ["Mixed", "No", "No"]),
        bokor(&["v"], "Core", ["No", "No", "No"]),
    ];
    let (core, surround) = commands_from_bokor_rows(&records, &fold).unwrap();
    assert_eq!(
        shape(&core.commands),
        vec![
            "+XX1:A", "(", "+XX2:A1", "(", "+XX3:x", "+XX4:y", ")", ")", "+XX5:B", "(c", "+XX6:w",
            ")", "+XX7:v"
        ]
    );
    assert_eq!(
        shape(&surround.commands),
        vec![
            "+XX1:A", "(", "+XX2:A1", "(", "+XX3:y", ")", "+XX4:A2", "(c", "+XX5:z", ")", ")",
            "+XX6:B", "(c", "+XX7:w"
        ]
    );
    assert_eq!(core.id_source, 8);
    assert_eq!(surround.prev_node_names, vec!["B".to_string()]);
    match &core.commands[4] {
        DTNodeBuild::AddData(data) => {
            assert_eq!(data.used_by_set, UsedBySet::from_fields(UsedBy::Yes, UsedBy::No, UsedBy::Maybe));
            assert_eq!(data.parent_id, "XXX");
        }
        _ => panic!("the fifth step adds a leaf"),
    }
    match &core.commands[0] {
        DTNodeBuild::AddData(data) => assert_eq!(data.used_by_set, UsedBySet::all_mixed()),
        _ => panic!("the first step adds a branch node"),
    }
    let (core, surround) = read_csv_from_bokor_rows(&records, &fold).unwrap();
    let texts = |t: &prog_draw::capability_tree::CapabilityNodeTree| -> Vec<String> {
        t.tree.visible_data().iter().map(|x| x.text.clone()).collect()
    };
    assert_eq!(texts(&core), vec!["", "A", "A1", "x", "y", "B", "v"]);
    assert_eq!(texts(&surround), vec!["", "A", "A1", "y", "A2", "B"]);
    assert_eq!(core.tree.len(), 8);
    assert_eq!(surround.tree.len(), 8);
}

#[test]
fn rows_of_names_that_cannot_be_read() {
    let fold = FoldInfo { fold_paths: vec![] };
    let ok = bokor(&["A", "x"], "Core", ["Yes", "No", "No"]);
    let short = record(&["A", "x", "", "", "", "", "", "Core", "", "Yes", "No"]);
    assert_eq!(commands_from_bokor_rows(&vec![ok.clone(), short], &fold).err(), Some(RowError::MissingColumn));
    let bad_use = bokor(&["A", "x"], "Core", ["Yes", "Nope", "No"]);
    assert_eq!(commands_from_bokor_rows(&vec![bad_use], &fold).err(), Some(RowError::BadUsage));
    let bad_place = bokor(&["A", "x"], "Mixed", ["Yes", "No", "No"]);
    assert_eq!(commands_from_bokor_rows(&vec![bad_place], &fold).err(), Some(RowError::BadPlacement));
    let nameless = bokor(&[], "Core", ["Yes", "No", "No"]);
    assert_eq!(commands_from_bokor_rows(&vec![ok.clone(), nameless], &fold).err(), Some(RowError::NoName));
    // the second name is shared, but the first is not
    let first = bokor(&["A", "B", "x"], "Core", ["Yes", "No", "No"]);
    let second = bokor(&["C", "B", "y"], "Core", ["Yes", "No", "No"]);
    assert_eq!(
        commands_from_bokor_rows(&vec![first, second], &fold).err(),
        Some(RowError::UnknownParent)
    );
    assert!(commands_from_bokor_rows(&vec![], &fold).is_ok());
    assert_eq!(read_csv_from_bokor_rows(&vec![], &fold).unwrap().0.tree.len(), 1);
}

#[test]
fn linked_y_list() {
    let list = LinkedYList::new(0, 10);
    assert_eq!((list.index, list.bottom()), (0, 10));
    let list = list.update(1, 5);
    assert_eq!((list.index, list.bottom()), (1, 5));
    let list = list.update(2, 3);
    // 7 covers the entries that reach to 3 and 5, not the one that reaches to 10
    let list = list.update(3, 7);
    assert_eq!((list.index, list.bottom()), (3, 7));
    let rest = list.pop().unwrap();
    assert_eq!((rest.index, rest.bottom()), (0, 10));
    assert!(rest.pop().is_none());
    let list = LinkedYList::new(0, 10).update(1, 10);
    assert_eq!(list.index, 1);
    assert!(list.pop().is_none());
}

#[test]
fn capabilities_that_cannot_be_numbered() {
    let fold = FoldInfo { fold_paths: vec![] };
    let used = UsedBySet::all_blank();
    let mut fields = prog_draw::capability_tree::FieldsTrackedPerTree {
        commands: vec![],
        id_source: usize::MAX - 1,
        prev_node_names: vec![],
    };
    assert_eq!(fields.feed_row(record(&["A", "x"]), used, &fold), Err(RowError::TooMany));
    let mut fields = prog_draw::capability_tree::FieldsTrackedPerTree {
        commands: vec![],
        id_source: usize::MAX - 1,
        prev_node_names: vec![],
    };
    assert_eq!(fields.feed_row(record(&["x"]), used, &fold), Ok(()));
    assert_eq!(fields.id_source, usize::MAX);
    assert_eq!(shape(&fields.commands), vec![format!("+XX{}:x", usize::MAX - 1)]);
    assert_eq!(fields.feed_row(record(&["y"]), used, &fold), Err(RowError::TooMany));
    assert_eq!(fields.feed_row(vec![], used, &fold), Err(RowError::NoName));
}
