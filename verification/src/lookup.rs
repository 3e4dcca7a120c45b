use vstd::prelude::*;
use crate::data_tree::{DTNode, Tree};
use crate::seqs::indices;

verus! {

/// A payload that carries an identifier by which its node is found.
pub trait Identified {
    /// The identifier, as text.
    spec fn id_view(&self) -> Seq<char>;

    /// The identifier.
    fn id(&self) -> (id: &String)
        ensures
            id@ == self.id_view(),
    ;
}

/// The first of `hits`, from index `from` on, that holds a path, with its
/// index put in front of that path.
pub open spec fn first_hit(hits: Seq<Option<Seq<int>>>, from: int) -> Option<Seq<int>>
    decreases hits.len() - from,
{
    if from < 0 || from >= hits.len() {
        None
    } else if hits[from].is_some() {
        Some(seq![from] + hits[from].unwrap())
    } else {
        first_hit(hits, from + 1)
    }
}

impl<T> Tree<T> {
    /// Whether `path`, a sequence of child indices, leads from the root to a
    /// node.
    pub open spec fn has_path(self, path: Seq<int>) -> bool
        decreases path.len(),
    {
        path.len() == 0 || (0 <= path[0] < self.children.len() && self.children[path[0]].has_path(
            path.skip(1),
        ))
    }

    /// The subtree that `path` leads to.
    pub open spec fn at(self, path: Seq<int>) -> Tree<T>
        decreases path.len(),
    {
        if path.len() == 0 {
            self
        } else {
            self.children[path[0]].at(path.skip(1))
        }
    }

    /// This tree with the subtree that `path` leads to replaced by `sub`.
    pub open spec fn replace_at(self, path: Seq<int>, sub: Tree<T>) -> Tree<T>
        decreases path.len(),
    {
        if path.len() == 0 {
            sub
        } else {
            self.with_child(
                path[0],
                self.children[path[0]].replace_at(path.skip(1), sub),
            )
        }
    }

    /// After a replacement the path leads to what was put there.
    pub proof fn at_replaced(self, path: Seq<int>, sub: Tree<T>)
        requires
            self.has_path(path),
        ensures
            self.replace_at(path, sub).has_path(path),
            self.replace_at(path, sub).at(path) == sub,
        decreases path.len(),
    {
        if path.len() > 0 {
            self.children[path[0]].at_replaced(path.skip(1), sub);
        }
    }

    /// Of two replacements at one path the second one stands.
    pub proof fn replaced_twice(self, path: Seq<int>, first: Tree<T>, second: Tree<T>)
        requires
            self.has_path(path),
        ensures
            self.replace_at(path, first).replace_at(path, second) == self.replace_at(path, second),
        decreases path.len(),
    {
        if path.len() > 0 {
            let i = path[0];
            self.children[i].replaced_twice(path.skip(1), first, second);
            assert(self.replace_at(path, first).replace_at(path, second).children
                =~= self.replace_at(path, second).children);
        }
    }

    /// Putting back what is there changes nothing.
    pub proof fn replaced_by_itself(self, path: Seq<int>)
        requires
            self.has_path(path),
        ensures
            self.replace_at(path, self.at(path)) == self,
        decreases path.len(),
    {
        if path.len() > 0 {
            let i = path[0];
            self.children[i].replaced_by_itself(path.skip(1));
            assert(self.replace_at(path, self.at(path)).children =~= self.children);
        }
    }
}

impl<T: Identified> Tree<T> {
    /// For each child, the path to the first node in it that carries `id`.
    pub open spec fn child_paths(self, id: Seq<char>) -> Seq<Option<Seq<int>>>
        decreases self, 0int,
    {
        Seq::new(
            self.children.len(),
            |i: int|
                if 0 <= i < self.children.len() {
                    self.children[i].find_path(id)
                } else {
                    None
                },
        )
    }

    /// The path to the first node that carries `id`, where each node comes
    /// before its children and the children come in their order; `None`
    /// where no node carries it.
    pub open spec fn find_path(self, id: Seq<char>) -> Option<Seq<int>>
        decreases self, 1int,
    {
        if self.data.id_view() == id {
            Some(Seq::empty())
        } else {
            first_hit(self.child_paths(id), 0)
        }
    }

    /// Whether some node carries `id`.
    pub open spec fn has_id(self, id: Seq<char>) -> bool {
        self.find_path(id).is_some()
    }

    /// Whether a call of `toggle_collapse` with `id` changes the tree: a
    /// node carries `id`, and the first that does is not the root and has
    /// children.
    pub open spec fn can_toggle(self, id: Seq<char>) -> bool {
        match self.find_path(id) {
            Some(path) => path.len() > 0 && self.at(path).children.len() > 0,
            None => false,
        }
    }

    /// The tree after a call of `toggle_collapse` with `id`.
    pub open spec fn toggled(self, id: Seq<char>) -> Tree<T> {
        if self.can_toggle(id) {
            let path = self.find_path(id).unwrap();
            self.replace_at(path, self.at(path).with_collapsed(!self.at(path).collapsed))
        } else {
            self
        }
    }

    /// The tree with `child` added below the first node that carries `id`,
    /// and the tree itself where no node carries it.
    pub open spec fn with_child_under(self, id: Seq<char>, child: Tree<T>) -> Tree<T> {
        match self.find_path(id) {
            Some(path) => self.replace_at(path, self.at(path).push_child(child)),
            None => self,
        }
    }

    /// The paths found in the children, child by child.
    pub proof fn child_paths_unfold(self, id: Seq<char>)
        ensures
            self.child_paths(id).len() == self.children.len(),
            forall|i: int|
                0 <= i < self.children.len() ==> #[trigger] self.child_paths(id)[i]
                    == self.children[i].find_path(id),
    {
    }

    /// A path that was found leads to a node, and that node carries the
    /// identifier.
    pub proof fn found_is_there(self, id: Seq<char>)
        requires
            self.find_path(id).is_some(),
        ensures
            self.has_path(self.find_path(id).unwrap()),
            self.at(self.find_path(id).unwrap()).data.id_view() == id,
        decreases self,
    {
        if self.data.id_view() != id {
            self.child_paths_unfold(id);
            self.found_in_child(id, 0);
        }
    }

    /// The same, for a path that was found in a child from `from` on.
    proof fn found_in_child(self, id: Seq<char>, from: int)
        requires
            0 <= from,
            first_hit(self.child_paths(id), from).is_some(),
        ensures
            self.has_path(first_hit(self.child_paths(id), from).unwrap()),
            self.at(first_hit(self.child_paths(id), from).unwrap()).data.id_view() == id,
        decreases self, self.children.len() - from,
    {
        self.child_paths_unfold(id);
        let hits = self.child_paths(id);
        if hits[from].is_some() {
            let path = seq![from] + hits[from].unwrap();
            assert(path.skip(1) =~= hits[from].unwrap());
            self.children[from].found_is_there(id);
        } else {
            self.found_in_child(id, from + 1);
        }
    }

    /// Another collapse flag at a node leaves every search as it was.
    pub proof fn find_ignores_collapse(self, path: Seq<int>, collapsed: bool, id: Seq<char>)
        requires
            self.has_path(path),
        ensures
            self.replace_at(path, self.at(path).with_collapsed(collapsed)).find_path(id)
                == self.find_path(id),
        decreases path.len(),
    {
        let after = self.replace_at(path, self.at(path).with_collapsed(collapsed));
        after.child_paths_unfold(id);
        self.child_paths_unfold(id);
        if path.len() > 0 {
            self.children[path[0]].find_ignores_collapse(path.skip(1), collapsed, id);
        }
        assert(after.child_paths(id) =~= self.child_paths(id));
    }

    /// Toggling a node twice gives the tree back as it was.
    pub proof fn toggled_twice(self, id: Seq<char>)
        ensures
            self.toggled(id).toggled(id) == self,
            self.toggled(id).can_toggle(id) == self.can_toggle(id),
    {
        if self.can_toggle(id) {
            let path = self.find_path(id).unwrap();
            let node = self.at(path);
            let flipped = node.with_collapsed(!node.collapsed);
            self.found_is_there(id);
            self.find_ignores_collapse(path, !node.collapsed, id);
            self.at_replaced(path, flipped);
            self.replaced_twice(path, flipped, flipped.with_collapsed(!flipped.collapsed));
            assert(flipped.with_collapsed(!flipped.collapsed) == node);
            self.replaced_by_itself(path);
        }
    }
}

impl<T> DTNode<T> {
    /// The node that `path` leads to.
    pub fn node_at(&self, path: &Vec<usize>) -> (node: &DTNode<T>)
        requires
            self@.has_path(indices(path@)),
        ensures
            node@ == self@.at(indices(path@)),
    {
        let mut node: &DTNode<T> = self;
        let mut k: usize = 0;
        let ghost whole = indices(path@);
        proof {
            assert(whole.skip(0) =~= whole);
        }
        while k < path.len()
            invariant
                k <= path.len(),
                whole == indices(path@),
                node@.has_path(whole.skip(k as int)),
                node@.at(whole.skip(k as int)) == self@.at(whole),
            decreases path.len() - k,
        {
            proof {
                assert(whole.skip(k as int).skip(1) =~= whole.skip(k as int + 1));
                assert(whole.skip(k as int)[0] == path@[k as int]);
            }
            node = &node.children[path[k]];
            k = k + 1;
        }
        node
    }

    /// A node with one child changed has the value of the node with that
    /// child replaced.
    pub proof fn child_changed(&self, after: &DTNode<T>, i: int)
        requires
            0 <= i < self.children.len(),
            after.data == self.data,
            after.collapsed == self.collapsed,
            after.children@ == self.children@.update(i, after.children@[i]),
        ensures
            after@ == self@.with_child(i, after.children@[i]@),
    {
        self.view_unfold();
        after.view_unfold();
        assert(after@.children =~= self@.children.update(i, after.children@[i]@));
    }

    /// The node that `path`, from its index `from` on, leads to, to be
    /// changed in place.
    pub fn node_at_mut(&mut self, path: &Vec<usize>, from: usize) -> (node: &mut DTNode<T>)
        requires
            from <= path.len(),
            old(self)@.has_path(indices(path@).skip(from as int)),
        ensures
            node@ == old(self)@.at(indices(path@).skip(from as int)),
            final(self)@ == old(self)@.replace_at(
                indices(path@).skip(from as int),
                final(node)@,
            ),
        decreases path.len() - from,
    {
        if from == path.len() {
            self
        } else {
            let i = path[from];
            let ghost before = *self;
            proof {
                assert(indices(path@).skip(from as int).skip(1) =~= indices(path@).skip(
                    from as int + 1,
                ));
                assert(indices(path@).skip(from as int)[0] == i);
                self.view_unfold();
                assert forall|after: DTNode<T>|
                    after.data == before.data && after.collapsed == before.collapsed
                        && after.children@ == before.children@.update(
                        i as int,
                        after.children@[i as int],
                    ) implies #[trigger] after@ == before@.with_child(
                    i as int,
                    after.children@[i as int]@,
                ) by {
                    before.child_changed(&after, i as int);
                }
            }
            let child: &mut Box<DTNode<T>> = &mut self.children[i];
            child.node_at_mut(path, from + 1)
        }
    }

    /// Sets the collapse flag of the node that `path`, from its index `from`
    /// on, leads to.
    fn collapse_at(&mut self, path: &Vec<usize>, from: usize, collapsed: bool)
        requires
            from <= path.len(),
            old(self)@.has_path(indices(path@).skip(from as int)),
        ensures
            final(self)@ == old(self)@.replace_at(
                indices(path@).skip(from as int),
                old(self)@.at(indices(path@).skip(from as int)).with_collapsed(collapsed),
            ),
        decreases path.len() - from,
    {
        if from == path.len() {
            self.collapsed = collapsed;
            assert(self@.children =~= old(self)@.children);
        } else {
            let i = path[from];
            proof {
                assert(indices(path@).skip(from as int).skip(1) =~= indices(path@).skip(
                    from as int + 1,
                ));
                assert(indices(path@).skip(from as int)[0] == i);
            }
            let child: &mut Box<DTNode<T>> = &mut self.children[i];
            child.collapse_at(path, from + 1, collapsed);
            assert(self@.children =~= old(self)@.children.update(
                i as int,
                old(self)@.children[i as int].replace_at(
                    indices(path@).skip(from as int + 1),
                    old(self)@.children[i as int].at(
                        indices(path@).skip(from as int + 1),
                    ).with_collapsed(collapsed),
                ),
            ));
        }
    }

    /// Adds `child` below the node that `path`, from its index `from` on,
    /// leads to.
    fn push_at(&mut self, path: &Vec<usize>, from: usize, child: DTNode<T>)
        requires
            from <= path.len(),
            old(self)@.has_path(indices(path@).skip(from as int)),
        ensures
            final(self)@ == old(self)@.replace_at(
                indices(path@).skip(from as int),
                old(self)@.at(indices(path@).skip(from as int)).push_child(child@),
            ),
        decreases path.len() - from,
    {
        if from == path.len() {
            self.add_child_node(child);
        } else {
            let i = path[from];
            proof {
                assert(indices(path@).skip(from as int).skip(1) =~= indices(path@).skip(
                    from as int + 1,
                ));
                assert(indices(path@).skip(from as int)[0] == i);
            }
            let node: &mut Box<DTNode<T>> = &mut self.children[i];
            node.push_at(path, from + 1, child);
            assert(self@.children =~= old(self)@.children.update(
                i as int,
                old(self)@.children[i as int].replace_at(
                    indices(path@).skip(from as int + 1),
                    old(self)@.children[i as int].at(
                        indices(path@).skip(from as int + 1),
                    ).push_child(child@),
                ),
            ));
        }
    }
}

impl<T: Identified> DTNode<T> {
    /// The path to the first node that carries `id`, each node coming before
    /// its children and the children in their order.
    pub fn find_path(&self, id: &String) -> (found: Option<Vec<usize>>)
        ensures
            match found {
                Some(path) => self@.find_path(id@) == Some(indices(path@)),
                None => self@.find_path(id@).is_none(),
            },
        decreases self,
    {
        if *self.data.id() == *id {
            let path: Vec<usize> = Vec::new();
            assert(indices(path@) =~= Seq::empty());
            return Some(path);
        }
        let ghost hits = self@.child_paths(id@);
        proof {
            self@.child_paths_unfold(id@);
        }
        let mut i: usize = 0;
        while i < self.children.len()
            invariant
                i <= self.children.len(),
                self.data.id_view() != id@,
                hits == self@.child_paths(id@),
                hits.len() == self.children.len(),
                forall|k: int|
                    0 <= k < self.children.len() ==> #[trigger] hits[k]
                        == self.children[k]@.find_path(id@),
                first_hit(hits, 0) == first_hit(hits, i as int),
            decreases self.children.len() - i,
        {
            match self.children[i].find_path(id) {
                Some(mut path) => {
                    let ghost tail = indices(path@);
                    path.insert(0, i);
                    assert(indices(path@) =~= seq![i as int] + tail);
                    return Some(path);
                },
                None => {},
            }
            i = i + 1;
        }
        None
    }

    /// The payload of the first node that carries `id`.
    pub fn find_data_by_id(&self, id: &str) -> (found: Option<&T>)
        ensures
            match self@.find_path(id@) {
                Some(path) => found == Some(&self@.at(path).data),
                None => found.is_none(),
            },
    {
        let key = id.to_owned();
        match self.find_path(&key) {
            Some(path) => {
                proof {
                    self@.found_is_there(id@);
                }
                Some(&self.node_at(&path).data)
            },
            None => None,
        }
    }

    /// The first node that carries `id`, to be changed in place.
    pub fn find_node_by_id_mut(&mut self, id: &str) -> (found: Option<&mut DTNode<T>>)
        ensures
            match found {
                Some(node) => old(self)@.find_path(id@).is_some() && node@ == old(self)@.at(
                    old(self)@.find_path(id@).unwrap(),
                ) && final(self)@ == old(self)@.replace_at(
                    old(self)@.find_path(id@).unwrap(),
                    final(node)@,
                ),
                None => old(self)@.find_path(id@).is_none() && final(self)@ == old(self)@,
            },
    {
        let key = id.to_owned();
        match self.find_path(&key) {
            Some(path) => {
                proof {
                    self@.found_is_there(id@);
                    assert(indices(path@).skip(0) =~= indices(path@));
                }
                Some(self.node_at_mut(&path, 0))
            },
            None => None,
        }
    }

    /// Collapses or expands the first node that carries `id`, and says
    /// whether the tree changed and must be laid out again. The root and a
    /// node without children are left as they are, and so is the tree where
    /// no node carries `id`.
    pub fn toggle_collapse(&mut self, id: &str) -> (changed: bool)
        ensures
            changed == old(self)@.can_toggle(id@),
            final(self)@ == old(self)@.toggled(id@),
            !changed ==> *final(self) == *old(self),
    {
        let key = id.to_owned();
        match self.find_path(&key) {
            Some(path) => {
                proof {
                    self@.found_is_there(id@);
                    assert(indices(path@).skip(0) =~= indices(path@));
                }
                if path.len() == 0 {
                    return false;
                }
                let node = self.node_at(&path);
                if node.children.len() == 0 {
                    return false;
                }
                let collapsed = !node.collapsed;
                self.collapse_at(&path, 0, collapsed);
                true
            },
            None => false,
        }
    }

    /// Adds `child` below the first node that carries `id`, and says whether
    /// there is such a node. Where there is none the tree stays as it is.
    pub fn add_child_under(&mut self, id: &String, child: DTNode<T>) -> (added: bool)
        ensures
            added == old(self)@.has_id(id@),
            final(self)@ == old(self)@.with_child_under(id@, child@),
    {
        match self.find_path(id) {
            Some(path) => {
                proof {
                    self@.found_is_there(id@);
                    assert(indices(path@).skip(0) =~= indices(path@));
                }
                self.push_at(&path, 0, child);
                true
            },
            None => false,
        }
    }
}

} // verus!
