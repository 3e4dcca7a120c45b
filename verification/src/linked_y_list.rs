use vstd::prelude::*;
use crate::geometry::Coord;

verus! {

/// A list of indices, each with the coordinate down to which it reaches:
/// the first entry is the one added last, and the coordinates grow from each
/// entry to the next.
#[derive(Debug)]
pub struct LinkedYList {
    pub index: usize,
    pub y: Coord,
    pub next: Option<Box<LinkedYList>>,
}

/// The entries from the first of them on that reaches below `y`.
pub open spec fn below(entries: Seq<(usize, Coord)>, y: Coord) -> Seq<(usize, Coord)>
    decreases entries.len(),
{
    if entries.len() == 0 {
        Seq::empty()
    } else if entries[0].1 <= y {
        below(entries.skip(1), y)
    } else {
        entries
    }
}

impl View for LinkedYList {
    type V = Seq<(usize, Coord)>;

    open spec fn view(&self) -> Seq<(usize, Coord)> {
        self.entries()
    }
}

impl LinkedYList {
    /// The entries, the first of the list first.
    pub open spec fn entries(&self) -> Seq<(usize, Coord)>
        decreases self,
    {
        match self.next {
            Some(next) => seq![(self.index, self.y)] + next.entries(),
            None => seq![(self.index, self.y)],
        }
    }

    /// The list of one entry.
    pub fn new(index: usize, y: Coord) -> (list: Self)
        ensures
            list@ == seq![(index, y)],
            list.index == index,
    {
        LinkedYList { index, y, next: None }
    }

    /// The coordinate down to which the first entry reaches.
    pub fn bottom(&self) -> (y: Coord)
        ensures
            y == self@[0].1,
    {
        self.y
    }

    /// The list with a new first entry: the entries that do not reach below
    /// it are dropped from the front, up to the first that does.
    pub fn update(self, index: usize, y: Coord) -> (list: Self)
        ensures
            list@ == seq![(index, y)] + below(self@, y),
            list.index == index,
        decreases self,
    {
        if self.y <= y {
            let ghost rest = self@.skip(1);
            match self.next {
                Some(next) => {
                    assert(rest =~= next@);
                    (*next).update(index, y)
                },
                None => {
                    assert(rest =~= Seq::empty());
                    assert(below(rest, y) =~= Seq::empty());
                    assert(below(self@, y) == below(rest, y));
                    let list = LinkedYList::new(index, y);
                    assert(list@ =~= seq![(index, y)] + below(self@, y));
                    list
                },
            }
        } else {
            let ghost entries = self@;
            let list = LinkedYList { index, y, next: Some(Box::new(self)) };
            assert(list@ =~= seq![(index, y)] + entries);
            list
        }
    }

    /// The list without its first entry, and `None` where it has no other.
    pub fn pop(self) -> (rest: Option<Self>)
        ensures
            match rest {
                Some(rest) => rest@ == self@.skip(1),
                None => self@.len() == 1,
            },
    {
        match self.next {
            Some(next) => {
                assert(self@.skip(1) =~= next@);
                Some(*next)
            },
            None => None,
        }
    }
}

} // verus!
