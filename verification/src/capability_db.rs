use vstd::prelude::*;
use crate::capability_tree::CoreOrSurround;
use crate::text::{chars_of, same_text, text_of};
use crate::used_by::{UsedBy, UsedBySet};

verus! {

/// A capability, as a row of the capabilities table.
#[derive(Debug)]
pub struct CapabilitiesRow {
    pub id: String,
    pub parent_id: String,
    pub name: String,
    pub level: i32,
    pub description: String,
    pub core_surround: CoreOrSurround,
    pub notes: String,
    pub used_by_consumer: UsedBy,
    pub used_by_sbb: UsedBy,
    pub used_by_commercial: UsedBy,
    pub ssr_id: Option<String>,
}

/// The names of the systems in one field of a row of the surround sheet.
#[derive(Debug)]
pub struct SurroundList {
    pub names: Vec<String>,
}

/// A row of the surround sheet: for a piece of functionality, the systems
/// that provide it to each line of business, now and at the destination.
#[derive(Debug)]
pub struct SurroundSheetRow {
    pub id: String,
    pub functionality: String,
    pub description: String,
    pub notes: String,
    pub core_surround: SurroundList,
    pub consumer_current: SurroundList,
    pub sbb_current: SurroundList,
    pub commercial_current: SurroundList,
    pub consumer_destination: SurroundList,
    pub sbb_destination: SurroundList,
    pub commercial_destination: SurroundList,
}

/// A surround system, as a row of the surrounds table.
#[derive(Debug)]
pub struct SurroundRow {
    pub id: String,
    pub name: String,
    pub is_core: bool,
    pub is_new_system: bool,
    pub is_current: bool,
    pub is_destination: bool,
    pub consumer_current: bool,
    pub sbb_current: bool,
    pub commercial_current: bool,
    pub consumer_destination: bool,
    pub sbb_destination: bool,
    pub commercial_destination: bool,
    pub app_on_mainframe: String,
    pub links: String,
}

/// All the data of the capabilities workbook.
#[derive(Debug)]
pub struct CapabilitiesDB {
    pub capabilities: Vec<CapabilitiesRow>,
    pub surround_sheet_rows: Vec<SurroundSheetRow>,
    pub surrounds: Vec<SurroundRow>,
}

impl Default for SurroundList {
    fn default() -> (r: SurroundList)
        ensures
            r.names@.len() == 0,
    {
        SurroundList { names: Vec::new() }
    }
}

/// The index of the first capability with the identifier `id`, and the
/// number of capabilities where there is none.
pub open spec fn capability_index(rows: Seq<CapabilitiesRow>, id: Seq<char>) -> int
    decreases rows.len(),
{
    if rows.len() == 0 {
        0
    } else if rows[0].id@ == id {
        0
    } else {
        1 + capability_index(rows.skip(1), id)
    }
}

/// The index of the first row of the surround sheet with the identifier
/// `id`, and the number of rows where there is none.
pub open spec fn ssr_index(rows: Seq<SurroundSheetRow>, id: Seq<char>) -> int
    decreases rows.len(),
{
    if rows.len() == 0 {
        0
    } else if rows[0].id@ == id {
        0
    } else {
        1 + ssr_index(rows.skip(1), id)
    }
}

/// The identifiers of the capabilities whose parent has the identifier
/// `id`, in the order of the rows.
pub open spec fn child_ids(rows: Seq<CapabilitiesRow>, id: Seq<char>) -> Seq<Seq<char>>
    decreases rows.len(),
{
    if rows.len() == 0 {
        Seq::empty()
    } else if rows.last().parent_id@ == id {
        child_ids(rows.drop_last(), id).push(rows.last().id@)
    } else {
        child_ids(rows.drop_last(), id)
    }
}

/// The texts of the strings.
pub open spec fn texts_of(names: Seq<String>) -> Seq<Seq<char>> {
    Seq::new(names.len(), |i: int| names[i]@)
}

/// What the index of the first capability with an identifier is.
pub proof fn capability_index_facts(rows: Seq<CapabilitiesRow>, id: Seq<char>)
    ensures
        0 <= capability_index(rows, id) <= rows.len(),
        capability_index(rows, id) < rows.len() ==> rows[capability_index(rows, id)].id@ == id,
        forall|j: int| 0 <= j < capability_index(rows, id) ==> (#[trigger] rows[j]).id@ != id,
    decreases rows.len(),
{
    if rows.len() > 0 && rows[0].id@ != id {
        capability_index_facts(rows.skip(1), id);
        assert forall|j: int| 0 <= j < capability_index(rows, id) implies (#[trigger] rows[j]).id@
            != id by {
            if j > 0 {
                assert(rows.skip(1)[j - 1] == rows[j]);
            }
        }
    }
}

/// What the index of the first row of the surround sheet with an
/// identifier is.
pub proof fn ssr_index_facts(rows: Seq<SurroundSheetRow>, id: Seq<char>)
    ensures
        0 <= ssr_index(rows, id) <= rows.len(),
        ssr_index(rows, id) < rows.len() ==> rows[ssr_index(rows, id)].id@ == id,
        forall|j: int| 0 <= j < ssr_index(rows, id) ==> (#[trigger] rows[j]).id@ != id,
    decreases rows.len(),
{
    if rows.len() > 0 && rows[0].id@ != id {
        ssr_index_facts(rows.skip(1), id);
        assert forall|j: int| 0 <= j < ssr_index(rows, id) implies (#[trigger] rows[j]).id@
            != id by {
            if j > 0 {
                assert(rows.skip(1)[j - 1] == rows[j]);
            }
        }
    }
}

/// The first index at which the identifier stands is the index.
pub proof fn capability_index_is(rows: Seq<CapabilitiesRow>, id: Seq<char>, i: int)
    requires
        0 <= i <= rows.len(),
        i < rows.len() ==> rows[i].id@ == id,
        forall|j: int| 0 <= j < i ==> (#[trigger] rows[j]).id@ != id,
    ensures
        capability_index(rows, id) == i,
{
    capability_index_facts(rows, id);
    let k = capability_index(rows, id);
    if k < i {
        assert(rows[k].id@ != id);
    }
    if i < k {
        assert(rows[i].id@ != id);
    }
}

/// The first index at which the identifier stands is the index.
pub proof fn ssr_index_is(rows: Seq<SurroundSheetRow>, id: Seq<char>, i: int)
    requires
        0 <= i <= rows.len(),
        i < rows.len() ==> rows[i].id@ == id,
        forall|j: int| 0 <= j < i ==> (#[trigger] rows[j]).id@ != id,
    ensures
        ssr_index(rows, id) == i,
{
    ssr_index_facts(rows, id);
    let k = ssr_index(rows, id);
    if k < i {
        assert(rows[k].id@ != id);
    }
    if i < k {
        assert(rows[i].id@ != id);
    }
}

impl CapabilitiesDB {
    /// The position of the first capability with the identifier `cap_id`,
    /// and `None` where there is none.
    pub fn find_capability(&self, cap_id: &str) -> (found: Option<usize>)
        ensures
            match found {
                Some(i) => i < self.capabilities@.len() && i == capability_index(
                    self.capabilities@,
                    cap_id@,
                ),
                None => capability_index(self.capabilities@, cap_id@) == self.capabilities@.len(),
            },
    {
        let mut i: usize = 0;
        while i < self.capabilities.len()
            invariant
                i <= self.capabilities.len(),
                forall|j: int| 0 <= j < i ==> (#[trigger] self.capabilities@[j]).id@ != cap_id@,
            decreases self.capabilities.len() - i,
        {
            if same_text(self.capabilities[i].id.as_str(), cap_id) {
                proof {
                    capability_index_is(self.capabilities@, cap_id@, i as int);
                }
                return Some(i);
            }
            i = i + 1;
        }
        proof {
            capability_index_is(self.capabilities@, cap_id@, i as int);
        }
        None
    }

    /// The first capability with the identifier `cap_id`, and `None` where
    /// there is none.
    pub fn get_capability_by_id(&self, cap_id: &str) -> (row: Option<&CapabilitiesRow>)
        ensures
            match row {
                Some(row) => capability_index(self.capabilities@, cap_id@)
                    < self.capabilities@.len() && *row == self.capabilities@[capability_index(
                    self.capabilities@,
                    cap_id@,
                )],
                None => capability_index(self.capabilities@, cap_id@) == self.capabilities@.len(),
            },
    {
        match self.find_capability(cap_id) {
            Some(i) => Some(&self.capabilities[i]),
            None => None,
        }
    }

    /// The identifiers of the capabilities whose parent is the capability
    /// with the identifier `cap_id`, in the order of the rows.
    pub fn get_child_capability_ids_by_id(&self, cap_id: &str) -> (ids: Vec<String>)
        ensures
            texts_of(ids@) == child_ids(self.capabilities@, cap_id@),
    {
        let mut ids: Vec<String> = Vec::new();
        let mut i: usize = 0;
        assert(self.capabilities@.take(0) =~= Seq::empty());
        assert(texts_of(ids@) =~= Seq::empty());
        while i < self.capabilities.len()
            invariant
                i <= self.capabilities.len(),
                texts_of(ids@) == child_ids(self.capabilities@.take(i as int), cap_id@),
            decreases self.capabilities.len() - i,
        {
            proof {
                let rows = self.capabilities@;
                assert(rows.take(i as int + 1).drop_last() =~= rows.take(i as int));
                assert(rows.take(i as int + 1).last() == rows[i as int]);
            }
            if same_text(self.capabilities[i].parent_id.as_str(), cap_id) {
                let ghost before = texts_of(ids@);
                ids.push(self.capabilities[i].id.clone());
                assert(texts_of(ids@) =~= before.push(self.capabilities@[i as int].id@));
            }
            i = i + 1;
        }
        assert(self.capabilities@.take(self.capabilities.len() as int) =~= self.capabilities@);
        ids
    }

    /// The first row of the surround sheet with the identifier `ssr_id`,
    /// and `None` where there is none.
    pub fn get_ssr_by_id(&self, ssr_id: &str) -> (row: Option<&SurroundSheetRow>)
        ensures
            match row {
                Some(row) => ssr_index(self.surround_sheet_rows@, ssr_id@)
                    < self.surround_sheet_rows@.len() && *row == self.surround_sheet_rows@[ssr_index(
                    self.surround_sheet_rows@,
                    ssr_id@,
                )],
                None => ssr_index(self.surround_sheet_rows@, ssr_id@)
                    == self.surround_sheet_rows@.len(),
            },
    {
        let mut i: usize = 0;
        while i < self.surround_sheet_rows.len()
            invariant
                i <= self.surround_sheet_rows.len(),
                forall|j: int|
                    0 <= j < i ==> (#[trigger] self.surround_sheet_rows@[j]).id@ != ssr_id@,
            decreases self.surround_sheet_rows.len() - i,
        {
            if same_text(self.surround_sheet_rows[i].id.as_str(), ssr_id) {
                proof {
                    ssr_index_is(self.surround_sheet_rows@, ssr_id@, i as int);
                }
                return Some(&self.surround_sheet_rows[i]);
            }
            i = i + 1;
        }
        proof {
            ssr_index_is(self.surround_sheet_rows@, ssr_id@, i as int);
        }
        None
    }
}

/// Why the surround systems of a capability were not found.
#[derive(Debug, PartialEq, Eq, Structural, Clone, Copy)]
pub enum RelatedError {
    /// No capability has the identifier that was asked for, or that a
    /// capability names as its parent.
    UnknownCapability,
    /// No row of the surround sheet has the identifier that a capability
    /// names.
    UnknownSurroundSheetRow,
    /// A capability takes the row of the surround sheet from its ancestors,
    /// and the nearest ancestor that does not do so names none.
    NoAncestorValue,
    /// A capability takes the rows of the surround sheet from what is below
    /// it, and a capability below it names none or takes it from above.
    BadDescendant,
    /// The capabilities are nested deeper than there are capabilities.
    TooDeep,
}

/// What a capability names as its row of the surround sheet.
pub open spec fn ssr_text(row: CapabilitiesRow) -> Option<Seq<char>> {
    match row.ssr_id {
        Some(s) => Some(s@),
        None => None,
    }
}

/// Whether a capability names no row of the surround sheet.
pub open spec fn names_none(t: Option<Seq<char>>) -> bool {
    t.is_none() || t == Some(""@)
}

/// The row of the surround sheet that capability `cap` takes from its
/// ancestors: that of the nearest ancestor that does not itself take it from
/// its ancestors. At most `fuel` ancestors are looked at.
pub open spec fn inherited_ssr(rows: Seq<CapabilitiesRow>, cap: int, fuel: nat) -> Result<
    Seq<char>,
    RelatedError,
>
    decreases fuel,
{
    if fuel == 0 {
        Err(RelatedError::TooDeep)
    } else {
        let parent = capability_index(rows, rows[cap].parent_id@);
        if parent >= rows.len() {
            Err(RelatedError::UnknownCapability)
        } else {
            let t = ssr_text(rows[parent]);
            if t == Some("*"@) {
                inherited_ssr(rows, parent, (fuel - 1) as nat)
            } else if names_none(t) || t == Some("CORE"@) || t == Some("^"@) {
                Err(RelatedError::NoAncestorValue)
            } else {
                Ok(t.unwrap())
            }
        }
    }
}

/// The rows of the surround sheet that capability `cap` and what is below
/// it name: its own where it names one, and else those of its children, in
/// the order of the rows. At most `fuel` levels are looked at.
pub open spec fn collected_ssrs(rows: Seq<CapabilitiesRow>, cap: int, fuel: nat) -> Result<
    Seq<Seq<char>>,
    RelatedError,
>
    decreases fuel, 0int, 0int,
{
    let t = ssr_text(rows[cap]);
    if names_none(t) || t == Some("*"@) {
        Err(RelatedError::BadDescendant)
    } else if t == Some("^"@) || t == Some("CORE"@) {
        if fuel == 0 {
            Err(RelatedError::TooDeep)
        } else {
            collected_below(rows, rows[cap].id@, 0, (fuel - 1) as nat)
        }
    } else {
        Ok(seq![t.unwrap()])
    }
}

/// The rows of the surround sheet that the children of the capability
/// `parent` name, taking the capabilities from row `from` on.
pub open spec fn collected_below(
    rows: Seq<CapabilitiesRow>,
    parent: Seq<char>,
    from: int,
    fuel: nat,
) -> Result<Seq<Seq<char>>, RelatedError>
    decreases fuel, 1int, rows.len() - from,
{
    if from < 0 || from >= rows.len() {
        Ok(Seq::empty())
    } else if rows[from].parent_id@ == parent {
        let child = capability_index(rows, rows[from].id@);
        if child >= rows.len() {
            Err(RelatedError::UnknownCapability)
        } else {
            match collected_ssrs(rows, child, fuel) {
                Ok(first) => match collected_below(rows, parent, from + 1, fuel) {
                    Ok(rest) => Ok(first + rest),
                    Err(e) => Err(e),
                },
                Err(e) => Err(e),
            }
        }
    } else {
        collected_below(rows, parent, from + 1, fuel)
    }
}

/// The rows of the surround sheet that belong to the capability with the
/// identifier `cap_id`.
pub open spec fn ssr_ids_of(rows: Seq<CapabilitiesRow>, cap_id: Seq<char>) -> Result<
    Seq<Seq<char>>,
    RelatedError,
> {
    let cap = capability_index(rows, cap_id);
    if cap >= rows.len() {
        Err(RelatedError::UnknownCapability)
    } else {
        let t = ssr_text(rows[cap]);
        if names_none(t) || t == Some("CORE"@) {
            Ok(Seq::empty())
        } else if t == Some("*"@) {
            match inherited_ssr(rows, cap, rows.len()) {
                Ok(id) => Ok(seq![id]),
                Err(e) => Err(e),
            }
        } else if t == Some("^"@) {
            collected_ssrs(rows, cap, rows.len())
        } else {
            Ok(seq![t.unwrap()])
        }
    }
}

/// The names without those that stand at an earlier place too.
pub open spec fn first_names(names: Seq<Seq<char>>) -> Seq<Seq<char>>
    decreases names.len(),
{
    if names.len() == 0 {
        Seq::empty()
    } else {
        let rest = first_names(names.drop_last());
        if rest.contains(names.last()) {
            rest
        } else {
            rest.push(names.last())
        }
    }
}

/// Whether a name stands for no surround system.
pub open spec fn not_really_surround(name: Seq<char>) -> bool {
    name == "Destination Core"@ || name == "N/A"@
}

/// The use of the system `name` by the lines of business, by a row of the
/// surround sheet: a line uses it where the row names it as a destination of
/// that line.
pub open spec fn used_by_row(row: SurroundSheetRow, name: Seq<char>) -> UsedBySet {
    UsedBySet {
        consumer: if texts_of(row.consumer_destination.names@).contains(name) {
            UsedBy::Yes
        } else {
            UsedBy::No
        },
        sbb: if texts_of(row.sbb_destination.names@).contains(name) {
            UsedBy::Yes
        } else {
            UsedBy::No
        },
        commercial: if texts_of(row.commercial_destination.names@).contains(name) {
            UsedBy::Yes
        } else {
            UsedBy::No
        },
    }
}

/// The names that a row of the surround sheet has as destinations: those
/// of the consumer line, then of small business, then of the commercial
/// line, each name at its first place only.
pub open spec fn destinations(row: SurroundSheetRow) -> Seq<Seq<char>> {
    first_names(
        texts_of(row.consumer_destination.names@) + texts_of(row.sbb_destination.names@)
            + texts_of(row.commercial_destination.names@),
    )
}

/// Of the names, those that stand for a surround system, each with its
/// use by the row.
pub open spec fn systems_among(row: SurroundSheetRow, names: Seq<Seq<char>>) -> Seq<
    (Seq<char>, UsedBySet),
>
    decreases names.len(),
{
    if names.len() == 0 {
        Seq::empty()
    } else if not_really_surround(names.last()) {
        systems_among(row, names.drop_last())
    } else {
        systems_among(row, names.drop_last()).push((names.last(), used_by_row(row, names.last())))
    }
}

/// The surround systems of the rows of the surround sheet with the
/// identifiers `ids`, in their order.
pub open spec fn systems_of(rows: Seq<SurroundSheetRow>, ids: Seq<Seq<char>>) -> Result<
    Seq<(Seq<char>, UsedBySet)>,
    RelatedError,
>
    decreases ids.len(),
{
    if ids.len() == 0 {
        Ok(Seq::empty())
    } else {
        match systems_of(rows, ids.drop_last()) {
            Ok(before) => {
                let i = ssr_index(rows, ids.last());
                if i >= rows.len() {
                    Err(RelatedError::UnknownSurroundSheetRow)
                } else {
                    Ok(before + systems_among(rows[i], destinations(rows[i])))
                }
            },
            Err(e) => Err(e),
        }
    }
}

/// The surround systems that are to provide the capability with the
/// identifier `cap_id`, each with its use by the lines of business.
pub open spec fn related_systems(db: CapabilitiesDB, cap_id: Seq<char>) -> Result<
    Seq<(Seq<char>, UsedBySet)>,
    RelatedError,
> {
    match ssr_ids_of(db.capabilities@, cap_id) {
        Ok(ids) => systems_of(db.surround_sheet_rows@, ids),
        Err(e) => Err(e),
    }
}

/// The names of the pairs, as texts.
pub open spec fn named(pairs: Seq<(String, UsedBySet)>) -> Seq<(Seq<char>, UsedBySet)> {
    Seq::new(pairs.len(), |i: int| (pairs[i].0@, pairs[i].1))
}

/// Whether `name` is one of `names`.
fn is_among(names: &Vec<String>, name: &str) -> (r: bool)
    ensures
        r == texts_of(names@).contains(name@),
{
    let mut i: usize = 0;
    while i < names.len()
        invariant
            i <= names.len(),
            forall|j: int| 0 <= j < i ==> texts_of(names@)[j] != name@,
        decreases names.len() - i,
    {
        if same_text(names[i].as_str(), name) {
            assert(texts_of(names@)[i as int] == name@);
            return true;
        }
        i = i + 1;
    }
    false
}

/// Appends to `found` the names of `names` that it does not hold yet.
fn add_first_names(found: &mut Vec<String>, names: &Vec<String>, Ghost(before): Ghost<
    Seq<Seq<char>>,
>)
    requires
        texts_of(old(found)@) == first_names(before),
    ensures
        texts_of(final(found)@) == first_names(before + texts_of(names@)),
{
    let mut i: usize = 0;
    assert(before + texts_of(names@).take(0) =~= before);
    while i < names.len()
        invariant
            i <= names.len(),
            texts_of(found@) == first_names(before + texts_of(names@).take(i as int)),
        decreases names.len() - i,
    {
        proof {
            let so_far = before + texts_of(names@).take(i as int);
            let next = before + texts_of(names@).take(i as int + 1);
            assert(next.drop_last() =~= so_far);
            assert(next.last() == names@[i as int]@);
        }
        if !is_among(found, names[i].as_str()) {
            let ghost held = texts_of(found@);
            found.push(names[i].clone());
            assert(texts_of(found@) =~= held.push(names@[i as int]@));
        }
        i = i + 1;
    }
    assert(texts_of(names@).take(names.len() as int) =~= texts_of(names@));
}

impl CapabilitiesDB {
    /// The row of the surround sheet that the capability at `cap` takes
    /// from its ancestors.
    fn find_inherited_ssr(&self, cap: usize, fuel: usize) -> (r: Result<String, RelatedError>)
        requires
            cap < self.capabilities@.len(),
        ensures
            match r {
                Ok(id) => inherited_ssr(self.capabilities@, cap as int, fuel as nat) == Ok::<
                    Seq<char>,
                    RelatedError,
                >(id@),
                Err(e) => inherited_ssr(self.capabilities@, cap as int, fuel as nat) == Err::<
                    Seq<char>,
                    RelatedError,
                >(e),
            },
        decreases fuel,
    {
        if fuel == 0 {
            return Err(RelatedError::TooDeep);
        }
        let parent = match self.find_capability(self.capabilities[cap].parent_id.as_str()) {
            Some(parent) => parent,
            None => {
                return Err(RelatedError::UnknownCapability);
            },
        };
        match &self.capabilities[parent].ssr_id {
            None => Err(RelatedError::NoAncestorValue),
            Some(s) => {
                if same_text(s.as_str(), "*") {
                    self.find_inherited_ssr(parent, fuel - 1)
                } else if same_text(s.as_str(), "") || same_text(s.as_str(), "CORE") || same_text(
                    s.as_str(),
                    "^",
                ) {
                    Err(RelatedError::NoAncestorValue)
                } else {
                    Ok(s.clone())
                }
            },
        }
    }

    /// Appends to `out` the rows of the surround sheet that the capability
    /// at `cap` and what is below it name.
    fn collect_ssrids(&self, out: &mut Vec<String>, cap: usize, fuel: usize) -> (r: Result<
        (),
        RelatedError,
    >)
        requires
            cap < self.capabilities@.len(),
        ensures
            match r {
                Ok(()) => collected_ssrs(self.capabilities@, cap as int, fuel as nat).is_ok()
                    && texts_of(final(out)@) == texts_of(old(out)@) + collected_ssrs(
                    self.capabilities@,
                    cap as int,
                    fuel as nat,
                ).unwrap(),
                Err(e) => collected_ssrs(self.capabilities@, cap as int, fuel as nat) == Err::<
                    Seq<Seq<char>>,
                    RelatedError,
                >(e),
            },
        decreases fuel, 0int, 0int,
    {
        match &self.capabilities[cap].ssr_id {
            None => Err(RelatedError::BadDescendant),
            Some(s) => {
                if same_text(s.as_str(), "") || same_text(s.as_str(), "*") {
                    Err(RelatedError::BadDescendant)
                } else if same_text(s.as_str(), "^") || same_text(s.as_str(), "CORE") {
                    if fuel == 0 {
                        return Err(RelatedError::TooDeep);
                    }
                    self.collect_below(out, cap, 0, fuel - 1)
                } else {
                    let ghost before = texts_of(out@);
                    out.push(s.clone());
                    assert(texts_of(out@) =~= before + seq![s@]);
                    Ok(())
                }
            },
        }
    }

    /// Appends to `out` the rows of the surround sheet that the children of
    /// the capability at `cap` name, taking the capabilities from row `from`
    /// on.
    fn collect_below(&self, out: &mut Vec<String>, cap: usize, from: usize, fuel: usize) -> (r:
        Result<(), RelatedError>)
        requires
            cap < self.capabilities@.len(),
        ensures
            match r {
                Ok(()) => collected_below(
                    self.capabilities@,
                    self.capabilities@[cap as int].id@,
                    from as int,
                    fuel as nat,
                ).is_ok() && texts_of(final(out)@) == texts_of(old(out)@) + collected_below(
                    self.capabilities@,
                    self.capabilities@[cap as int].id@,
                    from as int,
                    fuel as nat,
                ).unwrap(),
                Err(e) => collected_below(
                    self.capabilities@,
                    self.capabilities@[cap as int].id@,
                    from as int,
                    fuel as nat,
                ) == Err::<Seq<Seq<char>>, RelatedError>(e),
            },
        decreases fuel, 1int, self.capabilities@.len() - from,
    {
        let ghost before = texts_of(out@);
        if from >= self.capabilities.len() {
            assert(before + Seq::<Seq<char>>::empty() =~= before);
            return Ok(());
        }
        if same_text(
            self.capabilities[from].parent_id.as_str(),
            self.capabilities[cap].id.as_str(),
        ) {
            let child = match self.find_capability(self.capabilities[from].id.as_str()) {
                Some(child) => child,
                None => {
                    return Err(RelatedError::UnknownCapability);
                },
            };
            match self.collect_ssrids(out, child, fuel) {
                Ok(()) => {},
                Err(e) => {
                    return Err(e);
                },
            }
            match self.collect_below(out, cap, from + 1, fuel) {
                Ok(()) => {
                    proof {
                        let first = collected_ssrs(
                            self.capabilities@,
                            child as int,
                            fuel as nat,
                        ).unwrap();
                        let rest = collected_below(
                            self.capabilities@,
                            self.capabilities@[cap as int].id@,
                            from as int + 1,
                            fuel as nat,
                        ).unwrap();
                        assert(before + first + rest =~= before + (first + rest));
                    }
                    Ok(())
                },
                Err(e) => Err(e),
            }
        } else {
            self.collect_below(out, cap, from + 1, fuel)
        }
    }

    /// The rows of the surround sheet that belong to the capability with
    /// the identifier `cap_id`.
    fn find_ssr_ids(&self, cap_id: &str) -> (r: Result<Vec<String>, RelatedError>)
        ensures
            match r {
                Ok(ids) => ssr_ids_of(self.capabilities@, cap_id@) == Ok::<
                    Seq<Seq<char>>,
                    RelatedError,
                >(texts_of(ids@)),
                Err(e) => ssr_ids_of(self.capabilities@, cap_id@) == Err::<
                    Seq<Seq<char>>,
                    RelatedError,
                >(e),
            },
    {
        let mut ids: Vec<String> = Vec::new();
        assert(texts_of(ids@) =~= Seq::empty());
        let cap = match self.find_capability(cap_id) {
            Some(cap) => cap,
            None => {
                return Err(RelatedError::UnknownCapability);
            },
        };
        let fuel = self.capabilities.len();
        match &self.capabilities[cap].ssr_id {
            None => Ok(ids),
            Some(s) => {
                if same_text(s.as_str(), "") || same_text(s.as_str(), "CORE") {
                    Ok(ids)
                } else if same_text(s.as_str(), "*") {
                    match self.find_inherited_ssr(cap, fuel) {
                        Ok(id) => {
                            ids.push(id);
                            assert(texts_of(ids@) =~= seq![id@]);
                            Ok(ids)
                        },
                        Err(e) => Err(e),
                    }
                } else if same_text(s.as_str(), "^") {
                    match self.collect_ssrids(&mut ids, cap, fuel) {
                        Ok(()) => {
                            proof {
                                let got = collected_ssrs(
                                    self.capabilities@,
                                    cap as int,
                                    fuel as nat,
                                ).unwrap();
                                assert(Seq::<Seq<char>>::empty() + got =~= got);
                            }
                            Ok(ids)
                        },
                        Err(e) => Err(e),
                    }
                } else {
                    ids.push(s.clone());
                    assert(texts_of(ids@) =~= seq![s@]);
                    Ok(ids)
                }
            },
        }
    }

    /// The surround systems that are to provide the capability with the
    /// identifier `cap_id`, each with the lines of business that use it. A
    /// capability names its row of the surround sheet, or takes that of its
    /// nearest ancestor that names one (`*`), or those of the capabilities
    /// below it (`^`); the systems are the destinations of these rows.
    pub fn get_related_surrounds(&self, cap_id: &str) -> (r: Result<
        Vec<(String, UsedBySet)>,
        RelatedError,
    >)
        ensures
            match r {
                Ok(found) => related_systems(*self, cap_id@) == Ok::<
                    Seq<(Seq<char>, UsedBySet)>,
                    RelatedError,
                >(named(found@)),
                Err(e) => related_systems(*self, cap_id@) == Err::<
                    Seq<(Seq<char>, UsedBySet)>,
                    RelatedError,
                >(e),
            },
    {
        let ids = match self.find_ssr_ids(cap_id) {
            Ok(ids) => ids,
            Err(e) => {
                return Err(e);
            },
        };
        let ghost wanted = texts_of(ids@);
        let mut answer: Vec<(String, UsedBySet)> = Vec::new();
        let mut i: usize = 0;
        assert(wanted.take(0) =~= Seq::empty());
        assert(named(answer@) =~= Seq::empty());
        while i < ids.len()
            invariant
                i <= ids.len(),
                wanted == texts_of(ids@),
                ssr_ids_of(self.capabilities@, cap_id@) == Ok::<Seq<Seq<char>>, RelatedError>(
                    wanted,
                ),
                systems_of(self.surround_sheet_rows@, wanted.take(i as int)) == Ok::<
                    Seq<(Seq<char>, UsedBySet)>,
                    RelatedError,
                >(named(answer@)),
            decreases ids.len() - i,
        {
            proof {
                assert(wanted.take(i as int + 1).drop_last() =~= wanted.take(i as int));
                assert(wanted.take(i as int + 1).last() == ids@[i as int]@);
            }
            let row = match self.get_ssr_by_id(ids[i].as_str()) {
                Some(row) => row,
                None => {
                    proof {
                        systems_fail(self.surround_sheet_rows@, wanted, i as int + 1);
                    }
                    return Err(RelatedError::UnknownSurroundSheetRow);
                },
            };
            let mut names: Vec<String> = Vec::new();
            assert(texts_of(names@) =~= first_names(Seq::empty()));
            add_first_names(&mut names, &row.consumer_destination.names, Ghost(Seq::empty()));
            let ghost first = texts_of(row.consumer_destination.names@);
            assert(Seq::<Seq<char>>::empty() + first =~= first);
            add_first_names(&mut names, &row.sbb_destination.names, Ghost(first));
            let ghost second = first + texts_of(row.sbb_destination.names@);
            add_first_names(&mut names, &row.commercial_destination.names, Ghost(second));
            assert(texts_of(names@) == destinations(*row));
            let ghost before = named(answer@);
            let ghost all = texts_of(names@);
            let mut k: usize = 0;
            assert(all.take(0) =~= Seq::empty());
            assert(before + Seq::<(Seq<char>, UsedBySet)>::empty() =~= before);
            while k < names.len()
                invariant
                    k <= names.len(),
                    all == texts_of(names@),
                    named(answer@) == before + systems_among(*row, all.take(k as int)),
                decreases names.len() - k,
            {
                proof {
                    assert(all.take(k as int + 1).drop_last() =~= all.take(k as int));
                    assert(all.take(k as int + 1).last() == names@[k as int]@);
                }
                let name = &names[k];
                if !same_text(name.as_str(), "Destination Core") && !same_text(name.as_str(), "N/A") {
                    let used_by = UsedBySet::from_fields(
                        if is_among(&row.consumer_destination.names, name.as_str()) {
                            UsedBy::Yes
                        } else {
                            UsedBy::No
                        },
                        if is_among(&row.sbb_destination.names, name.as_str()) {
                            UsedBy::Yes
                        } else {
                            UsedBy::No
                        },
                        if is_among(&row.commercial_destination.names, name.as_str()) {
                            UsedBy::Yes
                        } else {
                            UsedBy::No
                        },
                    );
                    let ghost held = named(answer@);
                    answer.push((name.clone(), used_by));
                    assert(named(answer@) =~= held.push((name@, used_by)));
                    assert(before + systems_among(*row, all.take(k as int)).push(
                        (name@, used_by),
                    ) =~= (before + systems_among(*row, all.take(k as int))).push(
                        (name@, used_by),
                    ));
                }
                k = k + 1;
            }
            assert(all.take(names.len() as int) =~= all);
            i = i + 1;
        }
        assert(wanted.take(ids.len() as int) =~= wanted);
        Ok(answer)
    }
}

/// Where a row of the surround sheet is not found, the systems are not
/// found.
proof fn systems_fail(rows: Seq<SurroundSheetRow>, ids: Seq<Seq<char>>, k: int)
    requires
        0 < k <= ids.len(),
        systems_of(rows, ids.take(k)) == Err::<Seq<(Seq<char>, UsedBySet)>, RelatedError>(
            RelatedError::UnknownSurroundSheetRow,
        ),
    ensures
        systems_of(rows, ids) == Err::<Seq<(Seq<char>, UsedBySet)>, RelatedError>(
            RelatedError::UnknownSurroundSheetRow,
        ),
    decreases ids.len() - k,
{
    if k < ids.len() {
        assert(ids.take(k + 1).drop_last() =~= ids.take(k));
        systems_fail(rows, ids, k + 1);
    } else {
        assert(ids.take(k) =~= ids);
    }
}

/// The lines of a text: the parts between its line feeds. A text without
/// a line feed is one line, the empty text too.
pub open spec fn lines_of(s: Seq<char>) -> Seq<Seq<char>>
    decreases s.len(),
{
    if s.len() == 0 {
        seq![Seq::empty()]
    } else {
        let before = lines_of(s.drop_last());
        if s.last() == '\n' {
            before.push(Seq::empty())
        } else {
            before.update(before.len() - 1, before.last().push(s.last()))
        }
    }
}

/// The line without `prefix` at its start, and the line itself where it
/// does not start with it.
pub open spec fn without_prefix(line: Seq<char>, prefix: Seq<char>) -> Seq<char> {
    if prefix.len() <= line.len() && line.take(prefix.len() as int) == prefix {
        line.skip(prefix.len() as int)
    } else {
        line
    }
}

/// The names of the systems in a field of the surround sheet: one on each
/// line, without the mark of a new surround system.
pub open spec fn names_in(cell: Seq<char>) -> Seq<Seq<char>> {
    Seq::new(
        lines_of(cell).len(),
        |i: int| without_prefix(lines_of(cell)[i], "New Surround - "@),
    )
}

/// The truth value that a word of the data stands for.
pub open spec fn yes_no_of(word: Seq<char>) -> Option<bool> {
    if word == "Yes"@ {
        Some(true)
    } else if word == "No"@ {
        Some(false)
    } else {
        None
    }
}

/// Reads `Yes` or `No`; `None` for any other text.
pub fn yes_no(s: &str) -> (r: Option<bool>)
    ensures
        r == yes_no_of(s@),
{
    if same_text(s, "Yes") {
        Some(true)
    } else if same_text(s, "No") {
        Some(false)
    } else {
        None
    }
}

/// There is always a first line.
pub proof fn lines_not_empty(s: Seq<char>)
    ensures
        lines_of(s).len() >= 1,
    decreases s.len(),
{
    if s.len() > 0 {
        lines_not_empty(s.drop_last());
    }
}

/// Whether the characters of `line` from `at` on begin with `prefix`.
fn starts_with(line: &Vec<char>, from: usize, to: usize, prefix: &Vec<char>) -> (r: bool)
    requires
        from <= to <= line.len(),
    ensures
        r == (prefix@.len() <= to - from && line@.subrange(from as int, to as int).take(
            prefix@.len() as int,
        ) == prefix@),
{
    if prefix.len() > to - from {
        return false;
    }
    let ghost part = line@.subrange(from as int, to as int);
    let mut k: usize = 0;
    while k < prefix.len()
        invariant
            k <= prefix.len(),
            prefix.len() <= to - from,
            from <= to <= line.len(),
            part == line@.subrange(from as int, to as int),
            forall|j: int| 0 <= j < k ==> part[j] == prefix@[j],
        decreases prefix.len() - k,
    {
        if line[from + k] != prefix[k] {
            assert(part.take(prefix@.len() as int)[k as int] != prefix@[k as int]);
            return false;
        }
        k = k + 1;
    }
    assert(part.take(prefix@.len() as int) =~= prefix@);
    true
}

impl SurroundList {
    /// The names, as texts.
    pub open spec fn texts(&self) -> Seq<Seq<char>> {
        texts_of(self.names@)
    }

    /// Reads a field of the surround sheet: one name on each line, and the
    /// mark of a new surround system before a name is left out.
    pub fn from_text(cell: &str) -> (list: SurroundList)
        ensures
            list.texts() == names_in(cell@),
    {
        let chars = chars_of(cell);
        let prefix = chars_of("New Surround - ");
        let mut names: Vec<String> = Vec::new();
        let mut start: usize = 0;
        let mut i: usize = 0;
        let ghost whole = chars@;
        proof {
            assert(whole.take(0) =~= Seq::empty());
            assert(lines_of(whole.take(0)) =~= seq![Seq::empty()]);
            assert(whole.subrange(0, 0) =~= Seq::empty());
        }
        while i < chars.len()
            invariant
                i <= chars.len(),
                start <= i,
                whole == chars@,
                prefix@ == "New Surround - "@,
                lines_of(whole.take(i as int)).len() == names@.len() + 1,
                lines_of(whole.take(i as int)).last() == whole.subrange(start as int, i as int),
                forall|j: int|
                    0 <= j < names@.len() ==> #[trigger] names@[j]@ == without_prefix(
                        lines_of(whole.take(i as int))[j],
                        prefix@,
                    ),
            decreases chars.len() - i,
        {
            proof {
                assert(whole.take(i as int + 1).drop_last() =~= whole.take(i as int));
                assert(whole.take(i as int + 1).last() == whole[i as int]);
            }
            if chars[i] == '\n' {
                let name = Self::name_of(&chars, start, i, &prefix);
                names.push(name);
                start = i + 1;
                assert(whole.subrange(start as int, i as int + 1) =~= Seq::empty());
            } else {
                assert(whole.subrange(start as int, i as int + 1) =~= whole.subrange(
                    start as int,
                    i as int,
                ).push(whole[i as int]));
            }
            i = i + 1;
        }
        let name = Self::name_of(&chars, start, i, &prefix);
        names.push(name);
        proof {
            assert(whole.take(chars.len() as int) =~= whole);
            assert(texts_of(names@) =~= names_in(cell@));
        }
        SurroundList { names }
    }

    /// The name on the line that is made of the characters from `from` up
    /// to `to`.
    fn name_of(chars: &Vec<char>, from: usize, to: usize, prefix: &Vec<char>) -> (name: String)
        requires
            from <= to <= chars.len(),
        ensures
            name@ == without_prefix(chars@.subrange(from as int, to as int), prefix@),
    {
        if starts_with(chars, from, to, prefix) {
            let name = text_of(chars, from + prefix.len(), to);
            assert(chars@.subrange(from as int + prefix@.len(), to as int) =~= chars@.subrange(
                from as int,
                to as int,
            ).skip(prefix@.len() as int));
            name
        } else {
            text_of(chars, from, to)
        }
    }
}

} // verus!
