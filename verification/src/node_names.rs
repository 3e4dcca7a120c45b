use vstd::prelude::*;
use crate::data_tree::Tree;
use crate::lookup::Identified;

verus! {

impl<T: Identified> Tree<T> {
    /// The names of the children.
    pub open spec fn child_names(self) -> Seq<Tree<Seq<char>>>
        decreases self, 0int,
    {
        Seq::new(
            self.children.len(),
            |i: int|
                if 0 <= i < self.children.len() {
                    self.children[i].names()
                } else {
                    Tree { data: Seq::empty(), collapsed: false, children: Seq::empty() }
                },
        )
    }

    /// The tree of the identifiers: every node, hidden or not, with its
    /// identifier in place of its payload, and with its collapse flag.
    pub open spec fn names(self) -> Tree<Seq<char>>
        decreases self, 1int,
    {
        Tree { data: self.data.id_view(), collapsed: self.collapsed, children: self.child_names() }
    }

    /// The names of the children, child by child.
    pub proof fn names_unfold(self)
        ensures
            self.child_names().len() == self.children.len(),
            forall|i: int|
                0 <= i < self.children.len() ==> #[trigger] self.child_names()[i]
                    == self.children[i].names(),
    {
    }

    /// What two trees with the same names have in common, node by node.
    pub proof fn names_reads(self, other: Tree<T>)
        requires
            self.names() == other.names(),
        ensures
            self.data.id_view() == other.data.id_view(),
            self.collapsed == other.collapsed,
            self.children.len() == other.children.len(),
            forall|i: int|
                0 <= i < self.children.len() ==> (#[trigger] self.children[i]).names()
                    == other.children[i].names(),
    {
        self.names_unfold();
        other.names_unfold();
        assert(self.child_names().len() == other.child_names().len());
        assert forall|i: int| 0 <= i < self.children.len() implies (
        #[trigger] self.children[i]).names() == other.children[i].names() by {
            assert(self.child_names()[i] == other.child_names()[i]);
        }
    }

    /// In trees with the same names a node is found at the same place.
    pub proof fn names_find(self, other: Tree<T>, id: Seq<char>)
        requires
            self.names() == other.names(),
        ensures
            self.find_path(id) == other.find_path(id),
        decreases self,
    {
        self.names_reads(other);
        self.child_paths_unfold(id);
        other.child_paths_unfold(id);
        assert forall|i: int| 0 <= i < self.children.len() implies #[trigger] self.child_paths(
            id,
        )[i] == other.child_paths(id)[i] by {
            self.children[i].names_find(other.children[i], id);
        }
        assert(self.child_paths(id) =~= other.child_paths(id));
    }

    /// In trees with the same names a path leads to nodes with the same
    /// names.
    pub proof fn names_at(self, other: Tree<T>, path: Seq<int>)
        requires
            self.names() == other.names(),
            self.has_path(path),
        ensures
            other.has_path(path),
            self.at(path).names() == other.at(path).names(),
        decreases path.len(),
    {
        self.names_reads(other);
        if path.len() > 0 {
            self.children[path[0]].names_at(other.children[path[0]], path.skip(1));
        }
    }

    /// Trees with the same names still have the same names when subtrees
    /// with the same names are put at the same place.
    pub proof fn names_replaced(
        self,
        other: Tree<T>,
        path: Seq<int>,
        sub: Tree<T>,
        other_sub: Tree<T>,
    )
        requires
            self.names() == other.names(),
            self.has_path(path),
            sub.names() == other_sub.names(),
        ensures
            self.replace_at(path, sub).names() == other.replace_at(path, other_sub).names(),
        decreases path.len(),
    {
        self.names_reads(other);
        if path.len() > 0 {
            let i = path[0];
            self.children[i].names_replaced(other.children[i], path.skip(1), sub, other_sub);
            let mine = self.replace_at(path, sub);
            let theirs = other.replace_at(path, other_sub);
            mine.names_unfold();
            theirs.names_unfold();
            assert forall|j: int| 0 <= j < self.children.len() implies #[trigger] mine.child_names()[j]
                == theirs.child_names()[j] by {
                if j != i {
                    assert(mine.children[j] == self.children[j]);
                    assert(theirs.children[j] == other.children[j]);
                }
            }
            assert(mine.child_names() =~= theirs.child_names());
        }
    }

    /// Trees with the same names have the same names after the same node
    /// has been collapsed or expanded in both.
    pub proof fn names_toggled(self, other: Tree<T>, id: Seq<char>)
        requires
            self.names() == other.names(),
        ensures
            self.can_toggle(id) == other.can_toggle(id),
            self.toggled(id).names() == other.toggled(id).names(),
    {
        self.names_find(other, id);
        if self.find_path(id).is_some() {
            let path = self.find_path(id).unwrap();
            self.found_is_there(id);
            self.names_at(other, path);
            let mine = self.at(path);
            let theirs = other.at(path);
            mine.names_reads(theirs);
            if self.can_toggle(id) {
                let flipped = mine.with_collapsed(!mine.collapsed);
                let other_flipped = theirs.with_collapsed(!theirs.collapsed);
                flipped.names_unfold();
                other_flipped.names_unfold();
                mine.names_unfold();
                theirs.names_unfold();
                assert(flipped.child_names() =~= mine.child_names());
                assert(other_flipped.child_names() =~= theirs.child_names());
                self.names_replaced(other, path, flipped, other_flipped);
            }
        }
    }

    /// Trees with the same names have one shape.
    pub proof fn names_shape(self, other: Tree<T>)
        requires
            self.names() == other.names(),
        ensures
            self.shape() == other.shape(),
        decreases self,
    {
        self.names_reads(other);
        self.pruning_unfold();
        other.pruning_unfold();
        assert forall|i: int| 0 <= i < self.children.len() implies #[trigger] self.child_shapes()[i]
            == other.child_shapes()[i] by {
            self.children[i].names_shape(other.children[i]);
        }
        assert(self.child_shapes() =~= other.child_shapes());
    }
}

} // verus!
