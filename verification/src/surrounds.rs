use vstd::prelude::*;
use crate::capability_db::{CapabilitiesDB, SurroundRow};
use crate::capability_tree::{NODE_FONT, NODE_FONT_SIZE, TEXT_SIZE_LIMIT};
use vstd::string::StringExecFns;
use crate::document::{BASELINE_RISE, ITEM_SPACING, NODE_ITEM_ROUND_CORNER, TEXT_ITEM_PADDING};
use crate::svg_writer::{
    begin_tag_text, end_tag_text, single_tag_text, text_tag_text, Attributes, Renderable, TagWriter,
    TagWriterError,
};
use crate::text::{halves, halves_text, signed_decimal, signed_decimal_text};
use crate::used_by::{color_strs, get_color_strs};
use crate::geometry::{half, is_edge, Coord, Point, Rect, EDGE_LIMIT};
use crate::seqs::{total, total_all, total_grows, total_step};
use crate::spaced_layout::{
    compactable, doubled_centre, try_compact, Spaceable, SpaceableItem, COORD_LIMIT,
};
use crate::text::same_text;
use crate::text_size::{may_answer, TextSizeError, TextSizer};
use crate::used_by::{UsedBy, UsedBySet};

verus! {

/// A surround system in the list beside the tree of surround capabilities.
#[derive(Debug)]
pub struct SurroundItem {
    pub data: SurroundRow,
    /// The width and the height of the name.
    pub text_size: Point,
    pub used_by_set: UsedBySet,
    /// Where the middle of the item would like to lie, down the list.
    pub desired_y: Option<Coord>,
    /// Where the middle of the item lies.
    pub actual_y: Option<Coord>,
}

/// The list of the surround systems, and where it stands across.
#[derive(Debug)]
pub struct SurroundItems {
    pub items: Vec<SurroundItem>,
    pub x_position: Coord,
}

/// The use that stands for a line of business using a system or not.
pub open spec fn used_if(b: bool) -> UsedBy {
    if b {
        UsedBy::Yes
    } else {
        UsedBy::No
    }
}

/// Whether a row of the surrounds table is shown in the list: it is a
/// destination system, and not the destination core.
pub open spec fn is_shown(row: SurroundRow) -> bool {
    row.is_destination && row.name@ != "Destination Core"@
}

/// The rows that are shown in the list, in their order.
pub open spec fn shown_rows(rows: Seq<SurroundRow>) -> Seq<SurroundRow>
    decreases rows.len(),
{
    if rows.len() == 0 {
        Seq::empty()
    } else if is_shown(rows.last()) {
        shown_rows(rows.drop_last()).push(rows.last())
    } else {
        shown_rows(rows.drop_last())
    }
}

/// The rows of the items.
pub open spec fn rows_of(items: Seq<SurroundItem>) -> Seq<SurroundRow> {
    Seq::new(items.len(), |i: int| items[i].data)
}

/// A copy of a row.
fn copy_row(row: &SurroundRow) -> (copy: SurroundRow)
    ensures
        copy == *row,
{
    SurroundRow {
        id: row.id.clone(),
        name: row.name.clone(),
        is_core: row.is_core,
        is_new_system: row.is_new_system,
        is_current: row.is_current,
        is_destination: row.is_destination,
        consumer_current: row.consumer_current,
        sbb_current: row.sbb_current,
        commercial_current: row.commercial_current,
        consumer_destination: row.consumer_destination,
        sbb_destination: row.sbb_destination,
        commercial_destination: row.commercial_destination,
        app_on_mainframe: row.app_on_mainframe.clone(),
        links: row.links.clone(),
    }
}

impl SurroundItem {
    /// The item for a row, whose name has the size `text_size`. It has no
    /// position yet.
    pub fn new(data: &SurroundRow, text_size: Point) -> (item: Self)
        ensures
            item.data == *data,
            item.text_size == text_size,
            item.used_by_set == (UsedBySet {
                consumer: used_if(data.consumer_destination),
                sbb: used_if(data.sbb_destination),
                commercial: used_if(data.commercial_destination),
            }),
            item.desired_y.is_none(),
            item.actual_y.is_none(),
    {
        let used_by_set = UsedBySet::from_fields(
            if data.consumer_destination {
                UsedBy::Yes
            } else {
                UsedBy::No
            },
            if data.sbb_destination {
                UsedBy::Yes
            } else {
                UsedBy::No
            },
            if data.commercial_destination {
                UsedBy::Yes
            } else {
                UsedBy::No
            },
        );
        SurroundItem {
            data: copy_row(data),
            text_size,
            used_by_set,
            desired_y: None,
            actual_y: None,
        }
    }

    /// The identifier of the surround system.
    pub fn id(&self) -> (id: &str)
        ensures
            id@ == self.data.id@,
    {
        self.data.id.as_str()
    }

    /// Notes where the middle of the item would like to lie. Other items
    /// may be in its way.
    pub fn reposition(&mut self, y_loc: Coord)
        ensures
            *final(self) == (SurroundItem { desired_y: Some(y_loc), ..*old(self) }),
    {
        self.desired_y = Some(y_loc);
    }

    /// Where the middle of the item lies.
    pub fn get_actual_y(&self) -> (y: Option<Coord>)
        ensures
            y == self.actual_y,
    {
        self.actual_y
    }

    /// The height of the box of the item: that of its name, and the
    /// padding above and below.
    pub open spec fn box_height(self) -> int {
        self.text_size.1 + 2 * TEXT_ITEM_PADDING
    }

    /// The room that the item takes down the list: its box and the spacing
    /// between two items.
    pub open spec fn room(self) -> int {
        self.text_size.1 + 2 * TEXT_ITEM_PADDING + ITEM_SPACING
    }

    /// Whether the height of the name is one that a box can be made for.
    pub open spec fn measured(self) -> bool {
        0 <= self.text_size.0 <= TEXT_SIZE_LIMIT && 0 <= self.text_size.1 <= TEXT_SIZE_LIMIT
    }

    /// The box of the item, which begins at 0 across: about the name, with
    /// the padding on each side. `None` where the item has no position or
    /// the box would lie beyond `EDGE_LIMIT`.
    pub open spec fn bbox(self) -> Option<Rect> {
        match self.actual_y {
            Some(center) => {
                let height = self.text_size.1 + 2 * TEXT_ITEM_PADDING;
                let top = center - height / 2;
                if self.measured() && is_edge(top) && is_edge(top + height) {
                    Some(
                        Rect {
                            left: 0,
                            top: top as Coord,
                            width: (self.text_size.0 + 2 * TEXT_ITEM_PADDING) as Coord,
                            height: height as Coord,
                        },
                    )
                } else {
                    None
                }
            },
            None => None,
        }
    }

    /// The box of the item, and `None` where it has none.
    pub fn get_bbox(&self) -> (r: Option<Rect>)
        ensures
            r == self.bbox(),
            r.is_some() ==> r.unwrap().wf(),
    {
        match self.actual_y {
            Some(center) => {
                if self.text_size.0 < 0 || self.text_size.0 > TEXT_SIZE_LIMIT || self.text_size.1
                    < 0 || self.text_size.1 > TEXT_SIZE_LIMIT {
                    return None;
                }
                let height = self.text_size.1 + 2 * TEXT_ITEM_PADDING;
                let top: i128 = center as i128 - half(height) as i128;
                if top < -(EDGE_LIMIT as i128) || top + height as i128 > EDGE_LIMIT as i128 {
                    return None;
                }
                Some(
                    Rect::new_ltwh(
                        0,
                        top as Coord,
                        self.text_size.0 + 2 * TEXT_ITEM_PADDING,
                        height,
                    ),
                )
            },
            None => None,
        }
    }
}

impl Spaceable for SurroundItem {
    open spec fn ready(&self) -> bool {
        self.desired_y.is_some() && self.measured()
    }

    open spec fn desired_loc(&self) -> Coord {
        self.desired_y.unwrap()
    }

    open spec fn extent(&self) -> Coord {
        self.room() as Coord
    }

    open spec fn told(&self, twice: Coord) -> bool {
        self.actual_y == Some((twice / 2) as Coord)
    }

    fn get_desired_loc(&self) -> (r: Coord) {
        match self.desired_y {
            Some(y) => y,
            None => 0,
        }
    }

    fn get_extent(&self) -> (r: Coord) {
        self.text_size.1 + 2 * TEXT_ITEM_PADDING + ITEM_SPACING
    }

    fn set_position(&mut self, pos: Coord) {
        self.actual_y = Some(half(pos));
    }
}

/// What the compaction reads of the items that have a desired position, in
/// their order.
pub open spec fn wishes_of(items: Seq<SurroundItem>) -> Seq<SpaceableItem>
    decreases items.len(),
{
    if items.len() == 0 {
        Seq::empty()
    } else if items.last().desired_y.is_some() {
        wishes_of(items.drop_last()).push(
            SpaceableItem {
                desired: items.last().desired_y.unwrap(),
                extent: items.last().room() as Coord,
            },
        )
    } else {
        wishes_of(items.drop_last())
    }
}

/// Where the middle of item `k` lies once the items with a desired
/// position have been compacted: at the whole unit at or below the centre
/// that the compaction gives it. An item without a desired position stays
/// where it was.
pub open spec fn compacted_y(items: Seq<SurroundItem>, k: int) -> Option<int> {
    if items[k].desired_y.is_some() {
        Some(doubled_centre(wishes_of(items), wishes_of(items.take(k)).len() as int) / 2)
    } else {
        match items[k].actual_y {
            Some(y) => Some(y as int),
            None => None,
        }
    }
}

/// Among the first `n` items, the index of the one that lies lowest after
/// the compaction, and of the last of them where several lie as low.
pub open spec fn lowest_item(items: Seq<SurroundItem>, n: int) -> Option<int>
    decreases n,
{
    if n <= 0 {
        None
    } else {
        match (lowest_item(items, n - 1), compacted_y(items, n - 1)) {
            (None, Some(_)) => Some(n - 1),
            (Some(best), Some(y)) => if y >= compacted_y(items, best).unwrap() {
                Some(n - 1)
            } else {
                Some(best)
            },
            (best, None) => best,
        }
    }
}

/// Where the items without a desired position begin: below the item that
/// lies lowest after the compaction, and at 0 where no item has a position.
pub open spec fn stack_top(items: Seq<SurroundItem>) -> int {
    match lowest_item(items, items.len() as int) {
        Some(best) => compacted_y(items, best).unwrap() + items[best].room() / 2,
        None => 0,
    }
}

/// For each item its room if it has no desired position, and zero if it
/// has one.
pub open spec fn stacked_rooms(items: Seq<SurroundItem>) -> Seq<int> {
    Seq::new(
        items.len(),
        |k: int|
            if items[k].desired_y.is_none() {
                items[k].room()
            } else {
                0
            },
    )
}

/// Where the middle of item `k` lies after `distribute_space`: an item
/// with a desired position lies where the compaction puts it; the others lie
/// one below the other, in their order, from `stack_top` on.
pub open spec fn spread_y(items: Seq<SurroundItem>, k: int) -> int {
    if items[k].desired_y.is_some() {
        compacted_y(items, k).unwrap()
    } else {
        stack_top(items) + total(stacked_rooms(items).take(k)) + items[k].room() / 2
    }
}

/// Whether `distribute_space` can place the items: the names are measured,
/// the items with a desired position can be compacted, and the others then
/// lie within `EDGE_LIMIT`.
pub open spec fn spreadable(items: Seq<SurroundItem>) -> bool {
    &&& forall|k: int| 0 <= k < items.len() ==> (#[trigger] items[k]).measured()
    &&& compactable(wishes_of(items))
    &&& is_edge(stack_top(items))
    &&& is_edge(stack_top(items) + total(stacked_rooms(items)))
}

/// The item that is made for a row whose name has the size `text_size`:
/// it has no position yet.
pub open spec fn fresh_item(row: SurroundRow, text_size: Point) -> SurroundItem {
    SurroundItem {
        data: row,
        text_size,
        used_by_set: UsedBySet {
            consumer: used_if(row.consumer_destination),
            sbb: used_if(row.sbb_destination),
            commercial: used_if(row.commercial_destination),
        },
        desired_y: None,
        actual_y: None,
    }
}

/// Whether there is a size for each of `n` names: `sizes` holds `n` or
/// more, and none of the first `n` is an error.
pub open spec fn all_sized(n: nat, sizes: Seq<Result<Point, TextSizeError>>) -> bool {
    n <= sizes.len() && forall|k: int| 0 <= k < n ==> (#[trigger] sizes[k]).is_ok()
}

/// Whether `r` is the list that is made of the rows that are shown when
/// the names have the sizes `sizes`, in the order of the rows: the list of
/// the items without positions where there is a size for each name, and else
/// an error.
pub open spec fn listed(
    rows: Seq<SurroundRow>,
    sizes: Seq<Result<Point, TextSizeError>>,
    r: Result<SurroundItems, TextSizeError>,
) -> bool {
    &&& r.is_ok() == all_sized(shown_rows(rows).len(), sizes)
    &&& match r {
        Ok(list) => list.x_position == 0 && list.items@.len() == shown_rows(rows).len()
            && forall|k: int|
            0 <= k < list.items@.len() ==> #[trigger] list.items@[k] == fresh_item(
                shown_rows(rows)[k],
                sizes[k].unwrap(),
            ),
        Err(_) => true,
    }
}

/// Whether the answers are such as the sizer may give when it is asked for
/// the sizes of the names of the rows, one after the other, in the font and at
/// the size of the nodes, until it has found a size for each or finds none for
/// one of them.
pub open spec fn asked_in_turn<S: TextSizer>(
    sizer: &S,
    shown: Seq<SurroundRow>,
    sizes: Seq<Result<Point, TextSizeError>>,
) -> bool {
    &&& sizes.len() <= shown.len()
    &&& forall|k: int|
        0 <= k < sizes.len() ==> may_answer(
            sizer,
            shown[k].name@,
            NODE_FONT,
            NODE_FONT_SIZE,
            #[trigger] sizes[k],
        )
    &&& forall|k: int| 0 <= k < sizes.len() - 1 ==> (#[trigger] sizes[k]).is_ok()
    &&& sizes.len() < shown.len() ==> sizes.len() > 0 && sizes.last().is_err()
}

/// Of some of the rows no more are shown than of all of them, and those
/// that are shown of some are shown of all, at the same places.
pub proof fn shown_rows_grow(rows: Seq<SurroundRow>, i: int)
    requires
        0 <= i <= rows.len(),
    ensures
        shown_rows(rows.take(i)).len() <= shown_rows(rows).len(),
        forall|k: int|
            0 <= k < shown_rows(rows.take(i)).len() ==> #[trigger] shown_rows(rows.take(i))[k]
                == shown_rows(rows)[k],
    decreases rows.len() - i,
{
    if i < rows.len() {
        assert(rows.take(i + 1).drop_last() =~= rows.take(i));
        shown_rows_grow(rows, i + 1);
        let some = shown_rows(rows.take(i));
        let more = shown_rows(rows.take(i + 1));
        assert(more == if is_shown(rows.take(i + 1).last()) {
            some.push(rows.take(i + 1).last())
        } else {
            some
        });
        assert forall|k: int| 0 <= k < some.len() implies #[trigger] some[k] == shown_rows(
            rows,
        )[k] by {
            assert(some[k] == more[k]);
        }
    } else {
        assert(rows.take(i) =~= rows);
    }
}

impl SurroundItems {
    /// The list of the surround systems of the data that are shown, the
    /// name of the first with the first of `sizes`, and so on. The error
    /// where there are fewer sizes than systems that are shown, or the size of
    /// one of them is an error.
    pub fn from_sizes(capdb: &CapabilitiesDB, sizes: &Vec<Result<Point, TextSizeError>>) -> (r:
        Result<Self, TextSizeError>)
        ensures
            listed(capdb.surrounds@, sizes@, r),
    {
        let ghost rows = capdb.surrounds@;
        let ghost shown = shown_rows(rows);
        let mut items: Vec<SurroundItem> = Vec::new();
        let mut i: usize = 0;
        assert(rows.take(0) =~= Seq::empty());
        while i < capdb.surrounds.len()
            invariant
                i <= capdb.surrounds.len(),
                rows == capdb.surrounds@,
                shown == shown_rows(rows),
                items@.len() == shown_rows(rows.take(i as int)).len(),
                items@.len() <= shown.len(),
                items@.len() <= sizes@.len(),
                forall|k: int|
                    0 <= k < items@.len() ==> (#[trigger] sizes@[k]).is_ok() && items@[k]
                        == fresh_item(shown[k], sizes@[k].unwrap()),
            decreases capdb.surrounds.len() - i,
        {
            let row = &capdb.surrounds[i];
            proof {
                assert(rows.take(i as int + 1).drop_last() =~= rows.take(i as int));
                assert(rows.take(i as int + 1).last() == rows[i as int]);
                shown_rows_grow(rows, i as int + 1);
            }
            if row.is_destination && !same_text(row.name.as_str(), "Destination Core") {
                let k = items.len();
                proof {
                    let more = shown_rows(rows.take(i as int + 1));
                    assert(more == shown_rows(rows.take(i as int)).push(*row));
                    assert(more[k as int] == *row);
                    assert(more[k as int] == shown[k as int]);
                }
                if k >= sizes.len() {
                    return Err(TextSizeError);
                }
                let text_size = match sizes[k] {
                    Ok(text_size) => text_size,
                    Err(e) => {
                        return Err(e);
                    },
                };
                items.push(SurroundItem::new(row, text_size));
            }
            i = i + 1;
        }
        assert(rows.take(capdb.surrounds.len() as int) =~= rows);
        Ok(SurroundItems { items, x_position: 0 })
    }

    /// The list of the surround systems of the data that are shown, each
    /// with the size of its name as the sizer gives it: the sizer is asked
    /// for the names of the systems that are shown, in their order, up to the
    /// first for which it gives no size, and the list is made of what it
    /// gave by `from_sizes`. Where no system is shown the sizer is not asked,
    /// and the list is empty.
    pub fn new<S: TextSizer>(capdb: &CapabilitiesDB, sizer: &S) -> (r: Result<
        Self,
        TextSizeError,
    >)
        ensures
            shown_rows(capdb.surrounds@).len() == 0 ==> r.is_ok(),
            exists|sizes: Seq<Result<Point, TextSizeError>>|
                asked_in_turn(sizer, shown_rows(capdb.surrounds@), sizes) && #[trigger] listed(
                    capdb.surrounds@,
                    sizes,
                    r,
                ),
            match r {
                Ok(list) => rows_of(list.items@) == shown_rows(capdb.surrounds@) && list.x_position
                    == 0 && forall|k: int|
                    0 <= k < list.items@.len() ==> (#[trigger] list.items@[k]).desired_y.is_none()
                        && list.items@[k].actual_y.is_none(),
                Err(_) => true,
            },
    {
        let ghost rows = capdb.surrounds@;
        let ghost shown = shown_rows(rows);
        let mut sizes: Vec<Result<Point, TextSizeError>> = Vec::new();
        let mut failed: bool = false;
        let mut i: usize = 0;
        assert(rows.take(0) =~= Seq::empty());
        while i < capdb.surrounds.len() && !failed
            invariant
                i <= capdb.surrounds.len(),
                rows == capdb.surrounds@,
                shown == shown_rows(rows),
                sizes@.len() <= shown.len(),
                !failed ==> sizes@.len() == shown_rows(rows.take(i as int)).len() && forall|k: int|
                    0 <= k < sizes@.len() ==> (#[trigger] sizes@[k]).is_ok(),
                failed ==> sizes@.len() > 0 && sizes@.last().is_err() && forall|k: int|
                    0 <= k < sizes@.len() - 1 ==> (#[trigger] sizes@[k]).is_ok(),
                forall|k: int|
                    0 <= k < sizes@.len() ==> may_answer(
                        sizer,
                        shown[k].name@,
                        NODE_FONT,
                        NODE_FONT_SIZE,
                        #[trigger] sizes@[k],
                    ),
            decreases capdb.surrounds.len() - i + if failed { 0int } else { 1int },
        {
            let row = &capdb.surrounds[i];
            proof {
                assert(rows.take(i as int + 1).drop_last() =~= rows.take(i as int));
                assert(rows.take(i as int + 1).last() == rows[i as int]);
                shown_rows_grow(rows, i as int + 1);
            }
            if row.is_destination && !same_text(row.name.as_str(), "Destination Core") {
                let name = row.name.as_str();
                let size = sizer.text_size(name, NODE_FONT, NODE_FONT_SIZE);
                proof {
                    let more = shown_rows(rows.take(i as int + 1));
                    assert(more == shown_rows(rows.take(i as int)).push(*row));
                    assert(more[sizes@.len() as int] == *row);
                    assert(shown[sizes@.len() as int] == *row);
                    assert(sizer.answers(name, NODE_FONT, NODE_FONT_SIZE, size));
                }
                failed = size.is_err();
                sizes.push(size);
            }
            if !failed {
                i = i + 1;
            }
        }
        proof {
            if !failed {
                assert(rows.take(capdb.surrounds.len() as int) =~= rows);
            }
            assert(asked_in_turn(sizer, shown, sizes@));
        }
        let r = Self::from_sizes(capdb, &sizes);
        proof {
            if r.is_ok() {
                assert(rows_of(r.unwrap().items@) =~= shown_rows(rows));
            }
        }
        r
    }

    /// The first item whose surround system has the name `name`.
    pub fn get_by_name(&self, name: &str) -> (found: Option<&SurroundItem>)
        ensures
            match found {
                Some(item) => exists|i: int|
                    0 <= i < self.items@.len() && *item == #[trigger] self.items@[i]
                        && item.data.name@ == name@ && forall|j: int|
                        0 <= j < i ==> (#[trigger] self.items@[j]).data.name@ != name@,
                None => forall|j: int|
                    0 <= j < self.items@.len() ==> (#[trigger] self.items@[j]).data.name@ != name@,
            },
    {
        let mut i: usize = 0;
        while i < self.items.len()
            invariant
                i <= self.items.len(),
                forall|j: int| 0 <= j < i ==> (#[trigger] self.items@[j]).data.name@ != name@,
            decreases self.items.len() - i,
        {
            if same_text(self.items[i].data.name.as_str(), name) {
                return Some(&self.items[i]);
            }
            i = i + 1;
        }
        None
    }

    /// The position of the first item whose surround system has the
    /// identifier `id`.
    pub fn index_of_id(&self, id: &str) -> (found: Option<usize>)
        ensures
            match found {
                Some(i) => i < self.items@.len() && self.items@[i as int].data.id@ == id@
                    && forall|j: int| 0 <= j < i ==> (#[trigger] self.items@[j]).data.id@ != id@,
                None => forall|j: int|
                    0 <= j < self.items@.len() ==> (#[trigger] self.items@[j]).data.id@ != id@,
            },
    {
        let mut i: usize = 0;
        while i < self.items.len()
            invariant
                i <= self.items.len(),
                forall|j: int| 0 <= j < i ==> (#[trigger] self.items@[j]).data.id@ != id@,
            decreases self.items.len() - i,
        {
            if same_text(self.items[i].data.id.as_str(), id) {
                return Some(i);
            }
            i = i + 1;
        }
        None
    }

    /// The first item whose surround system has the identifier `id`, to be
    /// changed in place.
    pub fn get_by_id_mut(&mut self, id: &str) -> (found: Option<&mut SurroundItem>)
        ensures
            final(self).x_position == old(self).x_position,
            match found {
                Some(item) => exists|i: int|
                    0 <= i < old(self).items@.len() && *item == #[trigger] old(self).items@[i]
                        && item.data.id@ == id@ && final(self).items@ == old(self).items@.update(
                        i,
                        *final(item),
                    ) && forall|j: int|
                        0 <= j < i ==> (#[trigger] old(self).items@[j]).data.id@ != id@,
                None => final(self).items@ == old(self).items@ && forall|j: int|
                    0 <= j < old(self).items@.len() ==> (#[trigger] old(self).items@[j]).data.id@
                        != id@,
            },
    {
        match self.index_of_id(id) {
            Some(i) => Some(&mut self.items[i]),
            None => None,
        }
    }

    /// Moves the list across.
    pub fn set_x_position(&mut self, x_pos: Coord)
        ensures
            final(self).x_position == x_pos,
            final(self).items@ == old(self).items@,
    {
        self.x_position = x_pos;
    }

    /// Moves the list across, and forgets where its items lie and where
    /// they would like to lie.
    pub fn reset_positions(&mut self, x_pos: Coord)
        ensures
            final(self).x_position == x_pos,
            final(self).items@.len() == old(self).items@.len(),
            forall|k: int|
                0 <= k < old(self).items@.len() ==> #[trigger] final(self).items@[k]
                    == (SurroundItem { desired_y: None, actual_y: None, ..old(self).items@[k] }),
    {
        self.x_position = x_pos;
        let n = self.items.len();
        let mut k: usize = 0;
        while k < n
            invariant
                n == self.items.len(),
                n == old(self).items.len(),
                k <= n,
                self.x_position == x_pos,
                forall|j: int|
                    0 <= j < k ==> #[trigger] self.items@[j] == (SurroundItem {
                        desired_y: None,
                        actual_y: None,
                        ..old(self).items@[j]
                    }),
                forall|j: int| k <= j < n ==> #[trigger] self.items@[j] == old(self).items@[j],
            decreases n - k,
        {
            let item: &mut SurroundItem = &mut self.items[k];
            item.desired_y = None;
            item.actual_y = None;
            k = k + 1;
        }
    }
}

impl SurroundItems {
    /// Decides where the items lie, once some of them have been told where
    /// they would like to lie: those are compacted, and the middle of each
    /// lies at the whole unit at or below the centre that the compaction
    /// gives it, so that the boxes of no two of them overlap; the others are
    /// laid out one below the other, below the lowest item. Says whether it did so; where the items cannot be placed
    /// they stay as they are.
    pub fn distribute_space(&mut self) -> (done: bool)
        ensures
            done == spreadable(old(self).items@),
            final(self).x_position == old(self).x_position,
            final(self).items@.len() == old(self).items@.len(),
            !done ==> final(self).items@ == old(self).items@,
            done ==> forall|k: int|
                0 <= k < old(self).items@.len() ==> -2 * EDGE_LIMIT <= spread_y(
                    old(self).items@,
                    k,
                ) <= 2 * EDGE_LIMIT && #[trigger] final(self).items@[k] == (SurroundItem {
                    actual_y: Some(spread_y(old(self).items@, k) as Coord),
                    ..old(self).items@[k]
                }),
    {
        let n = self.items.len();
        let ghost items = self.items@;
        let mut plain: Vec<SpaceableItem> = Vec::new();
        let mut k: usize = 0;
        assert(items.take(0) =~= Seq::empty());
        while k < n
            invariant
                n == self.items.len(),
                k <= n,
                items == self.items@,
                plain@ == wishes_of(items.take(k as int)),
                forall|j: int| 0 <= j < k ==> (#[trigger] items[j]).measured(),
            decreases n - k,
        {
            let item = &self.items[k];
            proof {
                assert(items.take(k as int + 1).drop_last() =~= items.take(k as int));
                assert(items.take(k as int + 1).last() == items[k as int]);
            }
            if item.text_size.0 < 0 || item.text_size.0 > TEXT_SIZE_LIMIT || item.text_size.1 < 0
                || item.text_size.1 > TEXT_SIZE_LIMIT {
                return false;
            }
            match item.desired_y {
                Some(desired) => {
                    plain.push(
                        SpaceableItem {
                            desired,
                            extent: item.text_size.1 + 2 * TEXT_ITEM_PADDING + ITEM_SPACING,
                        },
                    );
                },
                None => {},
            }
            k = k + 1;
        }
        assert(items.take(n as int) =~= items);
        let positions = match try_compact(&plain) {
            Some(positions) => positions,
            None => {
                return false;
            },
        };
        let mut ys: Vec<Option<Coord>> = Vec::new();
        let mut rank: usize = 0;
        let mut best: Option<usize> = None;
        let mut k: usize = 0;
        assert(items.take(0) =~= Seq::empty());
        while k < n
            invariant
                n == self.items.len(),
                k <= n,
                items == self.items@,
                plain@ == wishes_of(items),
                positions@.len() == plain@.len(),
                forall|j: int|
                    0 <= j < plain@.len() ==> #[trigger] positions@[j] == doubled_centre(plain@, j)
                        && -3 * COORD_LIMIT <= positions@[j] <= 3 * COORD_LIMIT,
                forall|j: int| 0 <= j < n ==> (#[trigger] items[j]).measured(),
                forall|j: int|
                    0 <= j < k && (#[trigger] items[j]).desired_y.is_some() ==> -2 * EDGE_LIMIT
                        <= compacted_y(items, j).unwrap() <= 2 * EDGE_LIMIT,
                rank == wishes_of(items.take(k as int)).len(),
                rank <= plain.len(),
                ys@.len() == k,
                forall|j: int|
                    0 <= j < k ==> match #[trigger] ys@[j] {
                        Some(y) => compacted_y(items, j) == Some(y as int),
                        None => compacted_y(items, j).is_none(),
                    },
                match best {
                    Some(b) => b < k && lowest_item(items, k as int) == Some(b as int)
                        && ys@[b as int].is_some(),
                    None => lowest_item(items, k as int).is_none(),
                },
            decreases n - k,
        {
            let item = &self.items[k];
            proof {
                assert(items.take(k as int + 1).drop_last() =~= items.take(k as int));
                assert(items.take(k as int + 1).last() == items[k as int]);
                wishes_grow(items, k as int + 1);
            }
            let y = match item.desired_y {
                Some(_) => {
                    let y = half(positions[rank]);
                    assert(y == doubled_centre(plain@, rank as int) / 2);
                    rank = rank + 1;
                    Some(y)
                },
                None => item.actual_y,
            };
            assert(match y {
                Some(value) => compacted_y(items, k as int) == Some(value as int),
                None => compacted_y(items, k as int).is_none(),
            });
            let ghost held_best = lowest_item(items, k as int);
            assert(lowest_item(items, k as int + 1) == match (held_best, compacted_y(items, k as int)) {
                (None, Some(_)) => Some(k as int),
                (Some(b), Some(v)) => if v >= compacted_y(items, b).unwrap() {
                    Some(k as int)
                } else {
                    Some(b)
                },
                (b, None) => b,
            });
            match y {
                Some(value) => {
                    best = match best {
                        Some(b) => {
                            let held = match ys[b] {
                                Some(held) => held,
                                None => 0,
                            };
                            assert(compacted_y(items, b as int) == Some(held as int)) by {
                                assert(ys@[b as int].is_some());
                            }
                            if value >= held {
                                Some(k)
                            } else {
                                Some(b)
                            }
                        },
                        None => Some(k),
                    };
                },
                None => {},
            }
            ys.push(y);
            k = k + 1;
        }
        let top: i128 = match best {
            Some(b) => {
                let held = match ys[b] {
                    Some(held) => held,
                    None => 0,
                };
                assert(compacted_y(items, b as int) == Some(held as int)) by {
                    assert(ys@[b as int].is_some());
                }
                assert(items[b as int].measured());
                held as i128 + half(
                    self.items[b].text_size.1 + 2 * TEXT_ITEM_PADDING + ITEM_SPACING,
                ) as i128
            },
            None => 0,
        };
        assert(top == stack_top(items));
        if top < -(EDGE_LIMIT as i128) || top > EDGE_LIMIT as i128 {
            return false;
        }
        let ghost rooms = stacked_rooms(items);
        let mut taken: i128 = 0;
        let mut k: usize = 0;
        let mut places: Vec<Coord> = Vec::new();
        proof {
            total_all(rooms);
        }
        while k < n
            invariant
                n == self.items.len(),
                k <= n,
                items == self.items@,
                rooms == stacked_rooms(items),
                ys@.len() == n,
                forall|j: int|
                    0 <= j < n ==> match #[trigger] ys@[j] {
                        Some(y) => compacted_y(items, j) == Some(y as int),
                        None => compacted_y(items, j).is_none(),
                    },
                forall|j: int| 0 <= j < n ==> (#[trigger] items[j]).measured(),
                forall|j: int|
                    0 <= j < n && (#[trigger] items[j]).desired_y.is_some() ==> -2 * EDGE_LIMIT
                        <= compacted_y(items, j).unwrap() <= 2 * EDGE_LIMIT,
                top == stack_top(items),
                is_edge(top as int),
                taken == total(rooms.take(k as int)),
                0 <= taken,
                top + taken <= EDGE_LIMIT,
                places@.len() == k,
                forall|j: int|
                    0 <= j < k ==> #[trigger] places@[j] == spread_y(items, j) && -2 * EDGE_LIMIT
                        <= places@[j] <= 2 * EDGE_LIMIT,
            decreases n - k,
        {
            let item = &self.items[k];
            proof {
                total_step(rooms, k as int);
                assert(items[k as int].measured());
            }
            match item.desired_y {
                Some(_) => {
                    let y = match ys[k] {
                        Some(y) => y,
                        None => 0,
                    };
                    places.push(y);
                },
                None => {
                    let room = item.text_size.1 + 2 * TEXT_ITEM_PADDING + ITEM_SPACING;
                    if top + taken + room as i128 > EDGE_LIMIT as i128 {
                        proof {
                            total_grows(rooms, k as int + 1, n as int);
                            total_all(rooms);
                            rooms_not_negative(items);
                        }
                        return false;
                    }
                    places.push((top + taken + half(room) as i128) as Coord);
                    taken = taken + room as i128;
                },
            }
            proof {
                rooms_not_negative(items);
            }
            k = k + 1;
        }
        let mut k: usize = 0;
        while k < n
            invariant
                n == self.items.len(),
                n == items.len(),
                k <= n,
                items == old(self).items@,
                self.x_position == old(self).x_position,
                places@.len() == n,
                forall|j: int|
                    0 <= j < n ==> #[trigger] places@[j] == spread_y(items, j) && -2 * EDGE_LIMIT
                        <= places@[j] <= 2 * EDGE_LIMIT,
                forall|j: int|
                    0 <= j < k ==> #[trigger] self.items@[j] == (SurroundItem {
                        actual_y: Some(places@[j]),
                        ..items[j]
                    }),
                forall|j: int| k <= j < n ==> #[trigger] self.items@[j] == items[j],
            decreases n - k,
        {
            let item: &mut SurroundItem = &mut self.items[k];
            item.actual_y = Some(places[k]);
            k = k + 1;
        }
        true
    }
}

/// The wishes of one more item are those of the items before it and, where
/// it has a desired position, its own.
proof fn wishes_grow(items: Seq<SurroundItem>, k: int)
    requires
        0 < k <= items.len(),
    ensures
        wishes_of(items.take(k)).len() == wishes_of(items.take(k - 1)).len() + if items[k
            - 1].desired_y.is_some() {
            1int
        } else {
            0int
        },
        wishes_of(items.take(k)).len() <= wishes_of(items).len(),
    decreases items.len() - k,
{
    assert(items.take(k).drop_last() =~= items.take(k - 1));
    assert(items.take(k).last() == items[k - 1]);
    if k < items.len() {
        wishes_grow(items, k + 1);
    } else {
        assert(items.take(k) =~= items);
    }
}

/// An item with a desired position is one of those that are compacted:
/// its place among them is the number of such items before it.
pub proof fn wish_at(items: Seq<SurroundItem>, k: int)
    requires
        0 <= k < items.len(),
        items[k].desired_y.is_some(),
    ensures
        wishes_of(items.take(k)).len() < wishes_of(items).len(),
        wishes_of(items)[wishes_of(items.take(k)).len() as int] == (SpaceableItem {
            desired: items[k].desired_y.unwrap(),
            extent: items[k].room() as Coord,
        }),
    decreases items.len(),
{
    if k == items.len() - 1 {
        assert(items.take(k) =~= items.drop_last());
    } else {
        wish_at(items.drop_last(), k);
        assert(items.drop_last().take(k) =~= items.take(k));
    }
}

/// Of two items with a desired position the one that comes first in the
/// list comes first among those that are compacted.
pub proof fn wishes_in_order(items: Seq<SurroundItem>, a: int, b: int)
    requires
        0 <= a < b <= items.len(),
        items[a].desired_y.is_some(),
    ensures
        wishes_of(items.take(a)).len() < wishes_of(items.take(b)).len(),
    decreases b - a,
{
    wishes_grow(items, b);
    if a < b - 1 {
        wishes_in_order(items, a, b - 1);
    }
}

/// The boxes of two items that have been compacted do not overlap: though
/// the middle of each lies at the whole unit at or below the centre that the
/// compaction gives it, the spacing between two items keeps their boxes
/// apart, by one unit less than the spacing at least.
pub proof fn compacted_boxes_apart(items: Seq<SurroundItem>, a: int, b: int)
    requires
        forall|k: int| 0 <= k < items.len() ==> (#[trigger] items[k]).measured(),
        compactable(wishes_of(items)),
        0 <= a < items.len(),
        0 <= b < items.len(),
        a != b,
        items[a].desired_y.is_some(),
        items[b].desired_y.is_some(),
    ensures
        ({
            let top_a = spread_y(items, a) - items[a].box_height() / 2;
            let top_b = spread_y(items, b) - items[b].box_height() / 2;
            top_a + items[a].box_height() + ITEM_SPACING - 1 <= top_b || top_b
                + items[b].box_height() + ITEM_SPACING - 1 <= top_a
        }),
{
    let wishes = wishes_of(items);
    let rank_a = wishes_of(items.take(a)).len() as int;
    let rank_b = wishes_of(items.take(b)).len() as int;
    wish_at(items, a);
    wish_at(items, b);
    if a < b {
        wishes_in_order(items, a, b);
    } else {
        wishes_in_order(items, b, a);
    }
    assert(items[a].measured());
    assert(items[b].measured());
    crate::spacing_laws::compaction_keeps_apart(wishes, rank_a, rank_b);
}

/// No item takes less room than nothing once it is measured.
proof fn rooms_not_negative(items: Seq<SurroundItem>)
    requires
        forall|j: int| 0 <= j < items.len() ==> (#[trigger] items[j]).measured(),
    ensures
        forall|j: int| 0 <= j < items.len() ==> #[trigger] stacked_rooms(items)[j] >= 0,
{
    assert forall|j: int| 0 <= j < items.len() implies #[trigger] stacked_rooms(items)[j] >= 0 by {
        assert(items[j].measured());
    }
}

/// The attributes of the ring about the box `bbox` of a system that is
/// new: it lies two and a half units outside the box.
pub open spec fn ring_pairs(bbox: Rect) -> Seq<(Seq<char>, Seq<char>)> {
    seq![
        ("x"@, halves(2 * bbox.left - 5)),
        ("y"@, halves(2 * bbox.top - 5)),
        ("width"@, signed_decimal(bbox.width + 5)),
        ("height"@, signed_decimal(bbox.height + 5)),
        ("rx"@, halves(2 * NODE_ITEM_ROUND_CORNER + 5)),
        ("fill"@, "#FFFFFF"@),
        ("stroke"@, "black"@),
        ("stroke-width"@, "1"@),
    ]
}

impl SurroundItem {
    /// The attributes of the box of the item.
    pub open spec fn box_pairs(self, bbox: Rect) -> Seq<(Seq<char>, Seq<char>)> {
        seq![
            ("x"@, signed_decimal(bbox.left as int)),
            ("y"@, signed_decimal(bbox.top as int)),
            ("width"@, signed_decimal(bbox.width as int)),
            ("height"@, signed_decimal(bbox.height as int)),
            ("rx"@, signed_decimal(NODE_ITEM_ROUND_CORNER as int)),
            ("fill"@, color_strs(self.used_by_set).0@),
            ("stroke"@, "black"@),
            ("stroke-width"@, "1"@),
            ("onclick"@, "show_surround_data('"@ + self.data.id@ + "')"@),
            ("class"@, "surround"@),
        ]
    }

    /// The attributes of the name of the item.
    pub open spec fn name_pairs(self, bbox: Rect) -> Seq<(Seq<char>, Seq<char>)> {
        seq![
            ("x"@, signed_decimal(bbox.left + TEXT_ITEM_PADDING)),
            ("y"@, signed_decimal(bbox.spec_bottom() - TEXT_ITEM_PADDING - BASELINE_RISE)),
            ("font-family"@, "Arial"@),
            ("fill"@, color_strs(self.used_by_set).1@),
            ("style"@, "font-style: normal; font-size: 12.4px; pointer-events: none"@),
            ("class"@, "surround"@),
        ]
    }

    /// The tags of the item, which has the box `bbox`: a ring where the
    /// system is new, the box, and the name.
    #[verifier::opaque]
    pub open spec fn tags(self, bbox: Rect, indent: Seq<char>, depth: nat) -> Seq<char> {
        (if self.data.is_new_system {
            single_tag_text(indent, depth, "rect"@, ring_pairs(bbox))
        } else {
            Seq::empty()
        }) + single_tag_text(indent, depth, "rect"@, self.box_pairs(bbox)) + text_tag_text(
            indent,
            depth,
            "text"@,
            self.name_pairs(bbox),
            self.data.name@,
        )
    }

    /// Writes the tags of the item; nothing where it has no box.
    pub fn draw<W: TagWriter>(&self, tag_writer: &mut W) -> (r: Result<(), TagWriterError>)
        ensures
            final(tag_writer).depth() == old(tag_writer).depth(),
            final(tag_writer).indent() == old(tag_writer).indent(),
            match self.bbox() {
                Some(bbox) => r.is_ok() && final(tag_writer).written() == old(tag_writer).written()
                    + self.tags(bbox, old(tag_writer).indent(), old(tag_writer).depth()),
                None => r == Err::<(), TagWriterError>(TagWriterError::Unplaced) && final(tag_writer).written() == old(tag_writer).written(),
            },
    {
        let bbox = match self.get_bbox() {
            Some(bbox) => bbox,
            None => {
                return Err(TagWriterError::Unplaced);
            },
        };
        let ghost before = tag_writer.written();
        let ghost indent = tag_writer.indent();
        let ghost depth = tag_writer.depth();
        proof {
            reveal(SurroundItem::tags);
        }
        let colors = get_color_strs(&self.used_by_set);
        if self.data.is_new_system {
            let ring = Attributes::new().with_text(
                "x",
                halves_text(2 * bbox.left() - 5).as_str(),
            ).with_text("y", halves_text(2 * bbox.top() - 5).as_str()).with_text(
                "width",
                signed_decimal_text(bbox.width() + 5).as_str(),
            ).with_text("height", signed_decimal_text(bbox.height() + 5).as_str()).with_text(
                "rx",
                halves_text(2 * NODE_ITEM_ROUND_CORNER + 5).as_str(),
            ).with_text("fill", "#FFFFFF").with_text("stroke", "black").with_text(
                "stroke-width",
                "1",
            );
            assert(ring.pairs() =~= ring_pairs(bbox));
            let _ = tag_writer.single_tag("rect", ring);
        }
        let mut onclick = "show_surround_data('".to_owned();
        onclick.append(self.data.id.as_str());
        onclick.append("')");
        let frame = Attributes::new().with_text(
            "x",
            signed_decimal_text(bbox.left()).as_str(),
        ).with_text("y", signed_decimal_text(bbox.top()).as_str()).with_text(
            "width",
            signed_decimal_text(bbox.width()).as_str(),
        ).with_text("height", signed_decimal_text(bbox.height()).as_str()).with_text(
            "rx",
            signed_decimal_text(NODE_ITEM_ROUND_CORNER).as_str(),
        ).with_text("fill", colors.0).with_text("stroke", "black").with_text(
            "stroke-width",
            "1",
        ).with_text("onclick", onclick.as_str()).with_text("class", "surround");
        assert(frame.pairs() =~= self.box_pairs(bbox));
        let _ = tag_writer.single_tag("rect", frame);
        let name = Attributes::new().with_text(
            "x",
            signed_decimal_text(bbox.left() + TEXT_ITEM_PADDING).as_str(),
        ).with_text(
            "y",
            signed_decimal_text(bbox.bottom() - TEXT_ITEM_PADDING - BASELINE_RISE).as_str(),
        ).with_text("font-family", "Arial").with_text("fill", colors.1).with_text(
            "style",
            "font-style: normal; font-size: 12.4px; pointer-events: none",
        ).with_text("class", "surround");
        assert(name.pairs() =~= self.name_pairs(bbox));
        let _ = tag_writer.tag_with_text("text", name, self.data.name.as_str());
        assert(tag_writer.written() =~= before + self.tags(bbox, indent, depth));
        Ok(())
    }
}

/// The tags of the items, one item after the other.
pub open spec fn items_text(items: Seq<SurroundItem>, indent: Seq<char>, depth: nat) -> Seq<char>
    decreases items.len(),
{
    if items.len() == 0 {
        Seq::empty()
    } else {
        items_text(items.drop_last(), indent, depth) + items.last().tags(
            items.last().bbox().unwrap(),
            indent,
            depth,
        )
    }
}

impl SurroundItems {
    /// Whether every item has a box.
    pub open spec fn drawable(&self) -> bool {
        forall|i: int| 0 <= i < self.items@.len() ==> (#[trigger] self.items@[i]).bbox().is_some()
    }

    /// The tags of the list: a group that is moved across to where the
    /// list stands, with the tags of the items in it.
    pub open spec fn tags(&self, indent: Seq<char>, depth: nat) -> Seq<char> {
        begin_tag_text(
            indent,
            depth,
            "g"@,
            seq![
                ("transform"@, "translate("@ + signed_decimal(self.x_position as int) + ", 0.0)"@),
            ],
        ) + items_text(self.items@, indent, depth + 1) + end_tag_text(indent, depth, "g"@)
    }

    /// Writes the tags of the list; nothing where an item has no box.
    pub fn draw<W: TagWriter>(&self, tag_writer: &mut W) -> (r: Result<(), TagWriterError>)
        requires
            old(tag_writer).depth() < usize::MAX,
        ensures
            final(tag_writer).depth() == old(tag_writer).depth(),
            final(tag_writer).indent() == old(tag_writer).indent(),
            self.drawable() ==> r.is_ok() && final(tag_writer).written() == old(tag_writer).written() + self.tags(old(tag_writer).indent(), old(tag_writer).depth()),
            !self.drawable() ==> r == Err::<(), TagWriterError>(TagWriterError::Unplaced) && final(tag_writer).written() == old(tag_writer).written(),
    {
        let mut i: usize = 0;
        while i < self.items.len()
            invariant
                i <= self.items.len(),
                forall|j: int| 0 <= j < i ==> (#[trigger] self.items@[j]).bbox().is_some(),
            decreases self.items.len() - i,
        {
            if self.items[i].get_bbox().is_none() {
                return Err(TagWriterError::Unplaced);
            }
            i = i + 1;
        }
        let ghost before = tag_writer.written();
        let ghost indent = tag_writer.indent();
        let ghost depth = tag_writer.depth();
        let ghost items = self.items@;
        let mut transform = "translate(".to_owned();
        transform.append(signed_decimal_text(self.x_position).as_str());
        transform.append(", 0.0)");
        let group = Attributes::new().with_text("transform", transform.as_str());
        assert(group.pairs() =~= seq![
            ("transform"@, "translate("@ + signed_decimal(self.x_position as int) + ", 0.0)"@),
        ]);
        let _ = tag_writer.begin_tag("g", group);
        let ghost begun = tag_writer.written();
        let mut i: usize = 0;
        assert(items.take(0) =~= Seq::empty());
        assert(begun + items_text(items.take(0), indent, depth + 1) =~= begun);
        while i < self.items.len()
            invariant
                i <= self.items.len(),
                items == self.items@,
                self.drawable(),
                tag_writer.depth() == depth + 1,
                tag_writer.indent() == indent,
                tag_writer.written() == begun + items_text(items.take(i as int), indent, depth + 1),
            decreases self.items.len() - i,
        {
            proof {
                assert(items.take(i as int + 1).drop_last() =~= items.take(i as int));
                assert(items.take(i as int + 1).last() == items[i as int]);
                assert(items[i as int].bbox().is_some());
            }
            let _ = self.items[i].draw(tag_writer);
            assert(tag_writer.written() =~= begun + items_text(
                items.take(i as int + 1),
                indent,
                depth + 1,
            ));
            i = i + 1;
        }
        assert(items.take(items.len() as int) =~= items);
        let _ = tag_writer.end_tag("g");
        assert(tag_writer.written() =~= before + self.tags(indent, depth));
        Ok(())
    }
}

impl Renderable for SurroundItem {
    open spec fn drawing(&self, indent: Seq<char>, depth: nat) -> Option<Seq<char>> {
        match self.bbox() {
            Some(bbox) => Some(self.tags(bbox, indent, depth)),
            None => None,
        }
    }

    fn render<W: TagWriter>(&self, tag_writer: &mut W) -> (r: Result<(), TagWriterError>) {
        self.draw(tag_writer)
    }
}

impl Renderable for SurroundItems {
    open spec fn drawing(&self, indent: Seq<char>, depth: nat) -> Option<Seq<char>> {
        if self.drawable() {
            Some(self.tags(indent, depth))
        } else {
            None
        }
    }

    fn render<W: TagWriter>(&self, tag_writer: &mut W) -> (r: Result<(), TagWriterError>) {
        self.draw(tag_writer)
    }
}

/// The smallest rectangle that holds the boxes of all the items, and
/// `None` where there is no item or one of them has no box.
pub open spec fn items_cover(items: Seq<SurroundItem>) -> Option<Rect>
    decreases items.len(),
{
    if items.len() == 0 {
        None
    } else if items.len() == 1 {
        items[0].bbox()
    } else {
        match (items_cover(items.drop_last()), items.last().bbox()) {
            (Some(held), Some(last)) => Some(held.spec_cover(last)),
            _ => None,
        }
    }
}

/// Where one of the items has no box, nothing holds them all.
proof fn items_not_covered(items: Seq<SurroundItem>, k: int)
    requires
        0 <= k < items.len(),
        items[k].bbox().is_none(),
    ensures
        items_cover(items).is_none(),
    decreases items.len(),
{
    if items.len() > 1 && k < items.len() - 1 {
        assert(items.drop_last()[k] == items[k]);
        items_not_covered(items.drop_last(), k);
    }
}

impl SurroundItems {
    /// The box of the list: the smallest rectangle that holds the boxes of
    /// its items, moved across to where the list stands.
    pub open spec fn bbox(&self) -> Option<Rect> {
        match items_cover(self.items@) {
            Some(held) => if is_edge(held.left + self.x_position) && is_edge(
                held.spec_right() + self.x_position,
            ) {
                Some(Rect { left: (held.left + self.x_position) as Coord, ..held })
            } else {
                None
            },
            None => None,
        }
    }

    /// The box of the list, and `None` where it has no item, an item has
    /// no box, or the box would lie beyond `EDGE_LIMIT`.
    pub fn get_bbox(&self) -> (r: Option<Rect>)
        ensures
            r == self.bbox(),
            r.is_some() ==> r.unwrap().wf(),
    {
        if self.items.len() == 0 {
            return None;
        }
        let ghost items = self.items@;
        assert(items.take(1).len() == 1 && items.take(1)[0] == items[0]);
        let mut held = match self.items[0].get_bbox() {
            Some(first) => first,
            None => {
                proof {
                    items_not_covered(items, 0);
                }
                return None;
            },
        };
        let mut i: usize = 1;
        while i < self.items.len()
            invariant
                1 <= i <= self.items.len(),
                items == self.items@,
                held.wf(),
                items_cover(items.take(i as int)) == Some(held),
            decreases self.items.len() - i,
        {
            proof {
                assert(items.take(i as int + 1).drop_last() =~= items.take(i as int));
                assert(items.take(i as int + 1).last() == items[i as int]);
            }
            match self.items[i].get_bbox() {
                Some(next) => {
                    held = held.cover(&next);
                },
                None => {
                    proof {
                        items_not_covered(items, i as int);
                    }
                    return None;
                },
            }
            i = i + 1;
        }
        assert(items.take(items.len() as int) =~= items);
        let left: i128 = held.left() as i128 + self.x_position as i128;
        let right: i128 = held.right() as i128 + self.x_position as i128;
        if left < -(EDGE_LIMIT as i128) || left > EDGE_LIMIT as i128 || right < -(EDGE_LIMIT as i128)
            || right > EDGE_LIMIT as i128 {
            return None;
        }
        Some(Rect::new_ltwh(left as Coord, held.top(), held.width(), held.height()))
    }
}

} // verus!
