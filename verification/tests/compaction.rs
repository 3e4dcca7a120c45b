use prog_draw::spaced_layout::{
    can_compact, compact, layout, try_compact, Spaceable, SpaceableItem, COORD_LIMIT,
};

struct Dummy {
    desired: f64,
    actual: f64,
}

impl Dummy {
    fn new(desired: &f64) -> Self {
        Dummy { desired: *desired, actual: f64::NAN }
    }
}

impl Spaceable for Dummy {
    fn ready(&self) -> bool {
        true
    }

    fn desired_loc(&self) -> i64 {
        self.desired as i64
    }

    fn extent(&self) -> i64 {
        10
    }

    fn told(&self, twice: i64) -> bool {
        self.actual == twice as f64 / 2.0
    }

    fn get_desired_loc(&self) -> i64 {
        self.desired as i64
    }

    fn get_extent(&self) -> i64 {
        10
    }

    fn set_position(&mut self, pos: i64) {
        self.actual = pos as f64 / 2.0
    }
}

fn run_test(input: Vec<f64>, expect: Vec<f64>) {
    let mut items: Vec<Dummy> = input.iter().map(|x| Dummy::new(x)).collect();
    assert!(layout(&mut items));
    let output: Vec<f64> = items.iter().map(|x| x.actual).collect();
    assert_eq!(output, expect);
}

fn item(desired: i64, extent: i64) -> SpaceableItem {
    SpaceableItem { desired, extent }
}

/// The centres that `compact` gives, which hands out their doubles.
fn centres(items: &Vec<SpaceableItem>) -> Vec<f64> {
    compact(items).iter().map(|twice| *twice as f64 / 2.0).collect()
}

#[test]
fn test_two_overlapping() {
    run_test(vec![4.0, -4.0], vec![5.0, -5.0]);
}

#[test]
fn compact_two_overlapping_items() {
    assert_eq!(compact(&vec![item(4, 10), item(-4, 10)]), vec![10, -10]);
    assert_eq!(centres(&vec![item(4, 10), item(-4, 10)]), vec![5.0, -5.0]);
}

#[test]
fn compact_nothing() {
    let none: Vec<SpaceableItem> = Vec::new();
    assert_eq!(compact(&none), Vec::<i64>::new());
    let mut dummies: Vec<Dummy> = Vec::new();
    assert!(layout(&mut dummies));
}

#[test]
fn compact_one_item_stays() {
    assert_eq!(compact(&vec![item(17, 10)]), vec![34]);
    assert_eq!(compact(&vec![item(-3, 7)]), vec![-6]);
    assert_eq!(compact(&vec![item(0, 0)]), vec![0]);
}

#[test]
fn compact_free_items_stay() {
    let items = vec![item(0, 10), item(100, 10), item(-50, 20), item(30, 4)];
    assert_eq!(centres(&items), vec![0.0, 100.0, -50.0, 30.0]);
}

#[test]
fn compact_touching_items_merge() {
    // [0, 10] both 10 wide touch at 5: they are one span, and stay.
    assert_eq!(centres(&vec![item(0, 10), item(10, 10)]), vec![0.0, 10.0]);
    // a third item that touches the span of the two moves them all
    let moved = centres(&vec![item(0, 10), item(10, 10), item(25, 20)]);
    assert_eq!(moved, vec![-2.5, 7.5, 22.5]);
}

#[test]
fn compact_all_overlapping_is_centred() {
    // desired 0, 1, 2 with extent 10: one span about 1, 30 wide
    assert_eq!(centres(&vec![item(0, 10), item(1, 10), item(2, 10)]), vec![-9.0, 1.0, 11.0]);
    // the order of the input does not matter, only the desired positions
    assert_eq!(centres(&vec![item(2, 10), item(0, 10), item(1, 10)]), vec![11.0, -9.0, 1.0]);
}

#[test]
fn compact_keeps_order_and_room() {
    let items = vec![item(5, 6), item(3, 4), item(4, 10), item(40, 2), item(3, 8), item(41, 2)];
    let places = compact(&items);
    assert_eq!(places.len(), items.len());
    for a in 0..items.len() {
        for b in 0..items.len() {
            let before = items[a].desired < items[b].desired
                || (items[a].desired == items[b].desired && a < b);
            if before {
                // the slots do not overlap: the centres are half of both extents apart
                assert!(places[b] - places[a] >= items[a].extent + items[b].extent);
            }
        }
    }
}

#[test]
fn compact_ties_go_by_index() {
    // equal desired positions: the earlier item lies first
    assert_eq!(centres(&vec![item(0, 10), item(0, 10)]), vec![-5.0, 5.0]);
    assert_eq!(centres(&vec![item(0, 4), item(0, 10), item(0, 6)]), vec![-8.0, -1.0, 7.0]);
}

#[test]
fn compact_keeps_centres_between_whole_units() {
    // span about 0.5, 3 wide: slots centred at -0.5 and 1
    assert_eq!(compact(&vec![item(0, 1), item(1, 2)]), vec![-1, 2]);
    // both want 0, with extents 1 and 2: centres at -1 and 0.5, 1.5 apart
    assert_eq!(compact(&vec![item(0, 1), item(0, 2)]), vec![-2, 1]);
    assert_eq!(centres(&vec![item(0, 1), item(0, 2)]), vec![-1.0, 0.5]);
}

#[test]
fn compact_leaves_no_two_items_overlapping() {
    let items = vec![item(0, 1), item(0, 2), item(1, 3), item(-2, 5), item(9, 1), item(9, 0)];
    let places = compact(&items);
    for a in 0..items.len() {
        for b in 0..items.len() {
            if a != b {
                assert!((places[a] - places[b]).abs() >= items[a].extent + items[b].extent);
            }
        }
    }
}

#[test]
fn compact_merges_first_pair_first() {
    // 0 and 1 overlap and merge into a span from -6 to 14, which the third item
    // touches: one span about 8.5, 26 wide, with slots centred at 0.5, 10.5, 18.5
    let places = centres(&vec![item(0, 10), item(8, 10), item(17, 6)]);
    assert_eq!(places, vec![0.5, 10.5, 18.5]);
}

#[test]
fn try_compact_refuses_what_cannot_be_compacted() {
    assert_eq!(try_compact(&vec![item(0, -1)]), None);
    assert_eq!(try_compact(&vec![item(COORD_LIMIT + 1, 1)]), None);
    assert_eq!(try_compact(&vec![item(-COORD_LIMIT - 1, 1)]), None);
    assert_eq!(try_compact(&vec![item(0, COORD_LIMIT), item(0, 1)]), None);
    assert!(!can_compact(&vec![item(0, COORD_LIMIT), item(0, 1)]));
    assert!(can_compact(&vec![item(COORD_LIMIT, COORD_LIMIT - 1), item(-COORD_LIMIT, 1)]));
    assert_eq!(try_compact(&vec![item(4, 10), item(-4, 10)]), Some(vec![10, -10]));
}

#[test]
fn compact_at_the_limit() {
    let places = compact(&vec![item(COORD_LIMIT, COORD_LIMIT - 2), item(COORD_LIMIT, 2)]);
    assert_eq!(places, vec![2 * COORD_LIMIT - 2, 3 * COORD_LIMIT - 2]);
}

#[test]
fn layout_leaves_items_that_cannot_be_compacted() {
    struct Wide(Option<i64>);
    impl Spaceable for Wide {
        fn ready(&self) -> bool {
            true
        }
        fn desired_loc(&self) -> i64 {
            0
        }
        fn extent(&self) -> i64 {
            -1
        }
        fn told(&self, twice: i64) -> bool {
            self.0 == Some(twice)
        }
        fn get_desired_loc(&self) -> i64 {
            0
        }
        fn get_extent(&self) -> i64 {
            -1
        }
        fn set_position(&mut self, pos: i64) {
            self.0 = Some(pos)
        }
    }
    let mut items = vec![Wide(None), Wide(None)];
    assert!(!layout(&mut items));
    assert_eq!(items[0].0, None);
    assert_eq!(items[1].0, None);
}
