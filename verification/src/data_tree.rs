use vstd::prelude::*;
use crate::seqs::{joined, joined_all, joined_step, total, total_all, total_grows, total_step};

verus! {

/// The mathematical value of a tree: a payload, a collapse flag and the
/// ordered sequence of child trees.
pub struct Tree<T> {
    pub data: T,
    pub collapsed: bool,
    pub children: Seq<Tree<T>>,
}

/// A node that owns its payload and its children, in insertion order.
#[derive(Debug)]
pub struct DTNode<T> {
    pub data: T,
    pub collapsed: bool,
    pub children: Vec<Box<DTNode<T>>>,
}

/// One step of building a tree. `AddData` attaches a child to the current
/// node, `StartChildren` makes the last child of the current node the current
/// node and sets its collapse flag, `EndChildren` goes back to the parent.
#[derive(Debug)]
pub enum DTNodeBuild<T> {
    AddData(T),
    StartChildren(bool),
    EndChildren,
}

/// The steps handed to `grow_tree` do not describe a tree: one goes back to
/// the parent of the node the building began at, or goes down from a node
/// that has no child.
#[derive(Debug, PartialEq, Eq, Structural, Clone, Copy)]
pub struct InvalidGrowth;

impl InvalidGrowth {
    /// What went wrong, in words.
    pub fn message(&self) -> (s: &'static str)
        ensures
            s@ == "Invalid Growth"@,
    {
        "Invalid Growth"
    }
}

/// The side of the root on which a tree is laid out.
#[derive(Debug, PartialEq, Eq, Structural, Clone, Copy)]
pub enum TreeLayoutDirection {
    Right,
    Left,
}

impl<T> View for DTNode<T> {
    type V = Tree<T>;

    open spec fn view(&self) -> Tree<T> {
        self.tree()
    }
}

impl<T> DTNode<T> {
    /// The value of the tree rooted at this node.
    pub open spec fn tree(&self) -> Tree<T>
        decreases self,
    {
        Tree {
            data: self.data,
            collapsed: self.collapsed,
            children: Seq::new(
                self.children.len() as nat,
                |i: int|
                    if 0 <= i < self.children.len() {
                        (*self.children[i]).tree()
                    } else {
                        arbitrary()
                    },
            ),
        }
    }
}

impl<T> Tree<T> {
    /// A tree of one node, not collapsed.
    pub open spec fn leaf(data: T) -> Tree<T> {
        Tree { data, collapsed: false, children: Seq::empty() }
    }

    /// This tree with one more child, after the others.
    pub open spec fn push_child(self, child: Tree<T>) -> Tree<T> {
        Tree { children: self.children.push(child), ..self }
    }

    /// This tree with another collapse flag at its root.
    pub open spec fn with_collapsed(self, collapsed: bool) -> Tree<T> {
        Tree { collapsed, ..self }
    }

    /// This tree with child `i` replaced.
    pub open spec fn with_child(self, i: int, child: Tree<T>) -> Tree<T> {
        Tree { children: self.children.update(i, child), ..self }
    }

    /// Whether the children of the root are shown: it has some and is not
    /// collapsed.
    pub open spec fn is_open(self) -> bool {
        !self.collapsed && self.children.len() > 0
    }

    /// The number of nodes of each child.
    pub open spec fn child_sizes(self) -> Seq<int>
        decreases self, 0int,
    {
        Seq::new(
            self.children.len(),
            |i: int|
                if 0 <= i < self.children.len() {
                    self.children[i].size() as int
                } else {
                    0
                },
        )
    }

    /// The number of nodes.
    pub open spec fn size(self) -> nat
        decreases self, 1int,
    {
        (1 + total(self.child_sizes())) as nat
    }

    /// The visible payloads of each child.
    pub open spec fn child_visible(self) -> Seq<Seq<T>>
        decreases self, 0int,
    {
        Seq::new(
            self.children.len(),
            |i: int|
                if 0 <= i < self.children.len() {
                    self.children[i].visible()
                } else {
                    Seq::empty()
                },
        )
    }

    /// The payloads of the visible nodes, each node before its children and
    /// the children in their order. The children of a collapsed node, and
    /// all that is below them, are not visible.
    pub open spec fn visible(self) -> Seq<T>
        decreases self, 1int,
    {
        if self.collapsed {
            seq![self.data]
        } else {
            seq![self.data] + joined(self.child_visible())
        }
    }

    /// The payloads of the visible leaves of each child.
    pub open spec fn child_fringe(self) -> Seq<Seq<T>>
        decreases self, 0int,
    {
        Seq::new(
            self.children.len(),
            |i: int|
                if 0 <= i < self.children.len() {
                    self.children[i].fringe()
                } else {
                    Seq::empty()
                },
        )
    }

    /// The payloads of the visible nodes that show no children, because
    /// they have none or because they are collapsed, in the order of
    /// `visible`.
    pub open spec fn fringe(self) -> Seq<T>
        decreases self, 1int,
    {
        if !self.is_open() {
            seq![self.data]
        } else {
            joined(self.child_fringe())
        }
    }

    /// The visible leaves of a tree, child by child.
    pub proof fn fringe_unfold(self)
        ensures
            self.child_fringe().len() == self.children.len(),
            forall|i: int|
                0 <= i < self.children.len() ==> #[trigger] self.child_fringe()[i]
                    == self.children[i].fringe(),
    {
    }

    /// The number of visible nodes of each child.
    pub open spec fn child_counts(self) -> Seq<int> {
        Seq::new(self.children.len(), |i: int| self.children[i].visible().len() as int)
    }

    /// The number of times one can go from the root to a last child.
    pub open spec fn spine_len(self) -> nat
        decreases self,
    {
        if self.children.len() == 0 {
            0
        } else {
            1 + self.children.last().spine_len()
        }
    }

    /// This tree with `child` added below the node that is reached from the
    /// root by going `depth` times to the last child.
    pub open spec fn push_on_spine(self, depth: nat, child: Tree<T>) -> Tree<T>
        decreases depth,
    {
        if depth == 0 || self.children.len() == 0 {
            self.push_child(child)
        } else {
            self.with_child(
                self.children.len() - 1,
                self.children.last().push_on_spine((depth - 1) as nat, child),
            )
        }
    }

    /// This tree with the collapse flag set at the node that is reached from
    /// the root by going `depth` times to the last child.
    pub open spec fn collapse_on_spine(self, depth: nat, collapsed: bool) -> Tree<T>
        decreases depth,
    {
        if depth == 0 || self.children.len() == 0 {
            self.with_collapsed(collapsed)
        } else {
            self.with_child(
                self.children.len() - 1,
                self.children.last().collapse_on_spine((depth - 1) as nat, collapsed),
            )
        }
    }

    /// The tree that the steps build when the current node is `depth` steps
    /// down the last children of `self`, and `None` where a step cannot be
    /// taken. Steps that go down may be left open at the end.
    pub open spec fn grow_from(self, depth: nat, steps: Seq<DTNodeBuild<T>>) -> Option<Tree<T>>
        decreases steps.len(),
    {
        if steps.len() == 0 {
            Some(self)
        } else {
            match steps[0] {
                DTNodeBuild::AddData(data) => self.push_on_spine(depth, Tree::leaf(data)).grow_from(
                    depth,
                    steps.skip(1),
                ),
                DTNodeBuild::StartChildren(collapsed) => if self.spine_len() > depth {
                    self.collapse_on_spine(depth + 1, collapsed).grow_from(depth + 1, steps.skip(1))
                } else {
                    None
                },
                DTNodeBuild::EndChildren => if depth > 0 {
                    self.grow_from((depth - 1) as nat, steps.skip(1))
                } else {
                    None
                },
            }
        }
    }

    /// The tree that the steps build from `self`, the root being the current
    /// node at the start.
    pub open spec fn grown(self, steps: Seq<DTNodeBuild<T>>) -> Option<Tree<T>> {
        self.grow_from(0, steps)
    }

    /// The children, each with every node expanded.
    pub open spec fn child_expanded(self) -> Seq<Tree<T>>
        decreases self, 0int,
    {
        Seq::new(
            self.children.len(),
            |i: int|
                if 0 <= i < self.children.len() {
                    self.children[i].expanded()
                } else {
                    self
                },
        )
    }

    /// This tree with every node expanded.
    pub open spec fn expanded(self) -> Tree<T>
        decreases self, 1int,
    {
        Tree { data: self.data, collapsed: false, children: self.child_expanded() }
    }

    /// The children, each folded `level` levels below its root.
    pub open spec fn child_folded(self, level: nat) -> Seq<Tree<T>>
        decreases self, 0int,
    {
        Seq::new(
            self.children.len(),
            |i: int|
                if 0 <= i < self.children.len() {
                    self.children[i].folded_at(level)
                } else {
                    self
                },
        )
    }

    /// This tree folded `level` levels below the root: the nodes above that
    /// level are expanded, those on it are collapsed, and those below it are
    /// as they were.
    pub open spec fn folded_at(self, level: nat) -> Tree<T>
        decreases self, 1int,
    {
        if level == 0 {
            self.with_collapsed(true)
        } else {
            Tree {
                data: self.data,
                collapsed: false,
                children: self.child_folded((level - 1) as nat),
            }
        }
    }

    /// The children of a tree after the folding, child by child.
    pub proof fn folding_unfold(self, level: nat)
        ensures
            self.child_expanded().len() == self.children.len(),
            self.child_folded(level).len() == self.children.len(),
            forall|i: int|
                0 <= i < self.children.len() ==> #[trigger] self.child_expanded()[i]
                    == self.children[i].expanded(),
            forall|i: int|
                0 <= i < self.children.len() ==> #[trigger] self.child_folded(level)[i]
                    == self.children[i].folded_at(level),
    {
    }

    /// The number of nodes is one more than that of the children.
    pub proof fn size_unfold(self)
        ensures
            self.size() == 1 + total(self.child_sizes()),
            self.child_sizes().len() == self.children.len(),
            forall|i: int|
                0 <= i < self.children.len() ==> #[trigger] self.child_sizes()[i]
                    == self.children[i].size() && self.child_sizes()[i] >= 1,
        decreases self,
    {
        assert forall|i: int| 0 <= i < self.children.len() implies #[trigger] self.child_sizes()[i]
            == self.children[i].size() && self.child_sizes()[i] >= 1 by {
            let c = self.children[i];
            c.size_unfold();
            total_grows(c.child_sizes(), 0, c.children.len() as int);
            total_all(c.child_sizes());
        }
        total_grows(self.child_sizes(), 0, self.children.len() as int);
        total_all(self.child_sizes());
    }

    /// What is visible of each child, child by child.
    pub proof fn visible_unfold(self)
        ensures
            self.child_visible().len() == self.children.len(),
            forall|i: int|
                0 <= i < self.children.len() ==> #[trigger] self.child_visible()[i]
                    == self.children[i].visible(),
            self.visible().len() >= 1,
            self.visible()[0] == self.data,
    {
    }

    /// The visible nodes of a tree that is not collapsed are its root and
    /// the visible nodes of its children.
    pub proof fn visible_count(self)
        ensures
            self.visible().len() == if self.collapsed {
                1
            } else {
                1 + total(self.child_counts())
            },
            forall|i: int| 0 <= i < self.children.len() ==> #[trigger] self.child_counts()[i] >= 1,
    {
        self.visible_unfold();
        crate::seqs::joined_len(self.child_visible());
        assert(self.child_counts() =~= Seq::new(
            self.child_visible().len(),
            |i: int| self.child_visible()[i].len() as int,
        ));
        assert forall|i: int| 0 <= i < self.children.len() implies #[trigger] self.child_counts()[i]
            >= 1 by {
            self.children[i].visible_unfold();
        }
    }

    /// Adding a leaf at a depth that the spine reaches makes the spine end
    /// one below that depth.
    pub proof fn spine_after_push(self, depth: nat, data: T)
        requires
            depth <= self.spine_len(),
        ensures
            self.push_on_spine(depth, Tree::leaf(data)).spine_len() == depth + 1,
        decreases depth,
    {
        let after = self.push_on_spine(depth, Tree::leaf(data));
        if depth == 0 || self.children.len() == 0 {
            assert(after.children.last() == Tree::leaf(data));
            assert(Tree::leaf(data).spine_len() == 0);
        } else {
            self.children.last().spine_after_push((depth - 1) as nat, data);
            assert(after.children.last() == self.children.last().push_on_spine(
                (depth - 1) as nat,
                Tree::leaf(data),
            ));
        }
    }

    /// Setting a collapse flag leaves the spine as long as it was.
    pub proof fn spine_after_collapse(self, depth: nat, collapsed: bool)
        ensures
            self.collapse_on_spine(depth, collapsed).spine_len() == self.spine_len(),
        decreases depth,
    {
        let after = self.collapse_on_spine(depth, collapsed);
        if depth == 0 || self.children.len() == 0 {
            assert(after.children == self.children);
        } else {
            self.children.last().spine_after_collapse((depth - 1) as nat, collapsed);
            assert(after.children.last() == self.children.last().collapse_on_spine(
                (depth - 1) as nat,
                collapsed,
            ));
        }
    }
}

/// Whether every step can be taken when `below` counts how often one can go
/// down from the current node, and `above` how often one can go back up.
pub open spec fn balanced<T>(below: int, above: int, steps: Seq<DTNodeBuild<T>>) -> bool
    decreases steps.len(),
{
    if steps.len() == 0 {
        true
    } else {
        match steps[0] {
            DTNodeBuild::AddData(_) => balanced(1, above, steps.skip(1)),
            DTNodeBuild::StartChildren(_) => below > 0 && balanced(
                below - 1,
                above + 1,
                steps.skip(1),
            ),
            DTNodeBuild::EndChildren => above > 0 && balanced(below + 1, above - 1, steps.skip(1)),
        }
    }
}

/// The steps build a tree exactly when each of them can be taken.
pub proof fn grow_is_balanced<T>(t: Tree<T>, depth: nat, steps: Seq<DTNodeBuild<T>>)
    requires
        depth <= t.spine_len(),
    ensures
        t.grow_from(depth, steps).is_some() == balanced(
            t.spine_len() - depth,
            depth as int,
            steps,
        ),
    decreases steps.len(),
{
    if steps.len() > 0 {
        match steps[0] {
            DTNodeBuild::AddData(data) => {
                t.spine_after_push(depth, data);
                grow_is_balanced(t.push_on_spine(depth, Tree::leaf(data)), depth, steps.skip(1));
            },
            DTNodeBuild::StartChildren(collapsed) => {
                if t.spine_len() > depth {
                    t.spine_after_collapse(depth + 1, collapsed);
                    grow_is_balanced(
                        t.collapse_on_spine(depth + 1, collapsed),
                        depth + 1,
                        steps.skip(1),
                    );
                }
            },
            DTNodeBuild::EndChildren => {
                if depth > 0 {
                    grow_is_balanced(t, (depth - 1) as nat, steps.skip(1));
                }
            },
        }
    }
}

/// How far one can go down matters only up to the number of steps.
pub proof fn balanced_capped<T>(below: int, other: int, above: int, steps: Seq<DTNodeBuild<T>>)
    requires
        below >= steps.len(),
        other >= steps.len(),
    ensures
        balanced(below, above, steps) == balanced(other, above, steps),
    decreases steps.len(),
{
    if steps.len() > 0 {
        match steps[0] {
            DTNodeBuild::AddData(_) => {},
            DTNodeBuild::StartChildren(_) => {
                balanced_capped(below - 1, other - 1, above + 1, steps.skip(1));
            },
            DTNodeBuild::EndChildren => {
                balanced_capped(below + 1, other + 1, above - 1, steps.skip(1));
            },
        }
    }
}

/// By how much a step changes the depth of the current node.
pub open spec fn descent<T>(step: DTNodeBuild<T>) -> int {
    match step {
        DTNodeBuild::AddData(_) => 0,
        DTNodeBuild::StartChildren(_) => 1,
        DTNodeBuild::EndChildren => -1,
    }
}

/// How far below the node at which the building began the current node is
/// after the first `k` steps, if each of them can be taken.
pub open spec fn net_descent<T>(steps: Seq<DTNodeBuild<T>>, k: int) -> int
    decreases k,
{
    if k <= 0 {
        0
    } else {
        net_descent(steps, k - 1) + descent(steps[k - 1])
    }
}

/// The depth after `k` steps is that after the first step and the `k - 1`
/// that follow it.
proof fn net_descent_split<T>(steps: Seq<DTNodeBuild<T>>, k: int)
    requires
        0 < k <= steps.len(),
    ensures
        net_descent(steps, k) == descent(steps[0]) + net_descent(steps.skip(1), k - 1),
    decreases k,
{
    if k > 1 {
        net_descent_split(steps, k - 1);
        assert(steps.skip(1)[k - 2] == steps[k - 1]);
    } else {
        assert(net_descent(steps, 0) == 0);
        assert(net_descent(steps.skip(1), 0) == 0);
    }
}

/// Steps that would go above the current node of the start build nothing.
proof fn rising_steps_fail<T>(t: Tree<T>, depth: nat, steps: Seq<DTNodeBuild<T>>, k: int)
    requires
        0 < k <= steps.len(),
        depth + net_descent(steps, k) < 0,
    ensures
        t.grow_from(depth, steps).is_none(),
    decreases steps.len(),
{
    net_descent_split(steps, k);
    if k == 1 {
        assert(net_descent(steps.skip(1), 0) == 0);
    } else {
        match steps[0] {
            DTNodeBuild::AddData(data) => {
                rising_steps_fail(
                    t.push_on_spine(depth, Tree::leaf(data)),
                    depth,
                    steps.skip(1),
                    k - 1,
                );
            },
            DTNodeBuild::StartChildren(collapsed) => {
                if t.spine_len() > depth {
                    rising_steps_fail(
                        t.collapse_on_spine(depth + 1, collapsed),
                        depth + 1,
                        steps.skip(1),
                        k - 1,
                    );
                }
            },
            DTNodeBuild::EndChildren => {
                if depth > 0 {
                    rising_steps_fail(t, (depth - 1) as nat, steps.skip(1), k - 1);
                }
            },
        }
    }
}

/// Steps with an `EndChildren` that no `StartChildren` before it matches
/// build nothing: where among the first `k` steps more go up than down,
/// `grow_tree` fails, and so leaves the tree as it was.
pub proof fn unmatched_end_fails<T>(t: Tree<T>, steps: Seq<DTNodeBuild<T>>, k: int)
    requires
        0 < k <= steps.len(),
        net_descent(steps, k) < 0,
    ensures
        t.grown(steps).is_none(),
{
    rising_steps_fail(t, 0, steps, k);
}

/// The payloads that the references of `refs` point to.
pub open spec fn pointees<T>(refs: Seq<&T>) -> Seq<T> {
    Seq::new(refs.len(), |i: int| *refs[i])
}

impl<T> DTNode<T> {
    /// The value of a node is made of the values of its children.
    pub proof fn view_unfold(&self)
        ensures
            self@.data == self.data,
            self@.collapsed == self.collapsed,
            self@.children.len() == self.children.len(),
            forall|i: int|
                0 <= i < self.children.len() ==> #[trigger] self@.children[i]
                    == self.children[i]@,
    {
    }

    /// A tree of one node, not collapsed.
    pub fn new(data: T) -> (node: Self)
        ensures
            node@ == Tree::leaf(data),
    {
        let node = DTNode { data, collapsed: false, children: Vec::new() };
        assert(node@.children =~= Seq::empty());
        node
    }

    /// The number of nodes, this one and all below it; `usize::MAX` where
    /// there are more than that.
    pub fn len(&self) -> (n: usize)
        ensures
            n == if self@.size() <= usize::MAX {
                self@.size() as int
            } else {
                usize::MAX as int
            },
        decreases self,
    {
        let ghost sizes = self@.child_sizes();
        proof {
            self@.size_unfold();
            self.view_unfold();
            total_all(sizes);
        }
        let mut n: usize = 1;
        let mut i: usize = 0;
        while i < self.children.len()
            invariant
                i <= self.children.len(),
                sizes == self@.child_sizes(),
                sizes.len() == self.children.len(),
                forall|k: int| 0 <= k < sizes.len() ==> sizes[k] >= 1,
                forall|k: int|
                    0 <= k < sizes.len() ==> #[trigger] sizes[k] == self.children[k]@.size(),
                n == if 1 + total(sizes.take(i as int)) <= usize::MAX {
                    1 + total(sizes.take(i as int))
                } else {
                    usize::MAX as int
                },
            decreases self.children.len() - i,
        {
            proof {
                total_step(sizes, i as int);
                total_grows(sizes, 0, i as int);
                assert(sizes[i as int] == self.children[i as int]@.size());
            }
            let m = self.children[i].len();
            n = if m > usize::MAX - n {
                usize::MAX
            } else {
                n + m
            };
            i = i + 1;
        }
        n
    }

    /// Adds a new child with this payload, after the other children.
    pub fn add_child_data(&mut self, data: T)
        ensures
            final(self)@ == old(self)@.push_child(Tree::leaf(data)),
    {
        let child = DTNode::new(data);
        self.add_child_node(child);
    }

    /// Adds a node, with all that is below it, as a child of this node,
    /// after the other children.
    pub fn add_child_node(&mut self, child: DTNode<T>)
        ensures
            final(self)@ == old(self)@.push_child(child@),
    {
        self.children.push(Box::new(child));
        assert(self@.children =~= old(self)@.children.push(child@));
    }

    /// The number of times one can go from this node to a last child, but
    /// `cap` where it is more than that.
    fn spine_len_up_to(&self, cap: usize) -> (n: usize)
        ensures
            n <= cap,
            n <= self@.spine_len(),
            n < cap ==> n == self@.spine_len(),
    {
        let mut node: &DTNode<T> = self;
        let mut n: usize = 0;
        while n < cap && node.children.len() > 0
            invariant
                n <= cap,
                n + node@.spine_len() == self@.spine_len(),
            decreases cap - n,
        {
            let last = node.children.len() - 1;
            assert(node@.children.last() == node.children[last as int]@);
            node = &node.children[last];
            n = n + 1;
        }
        n
    }

    /// Adds `child` below the node that is reached from this one by going
    /// `depth` times to the last child.
    fn push_on_spine(&mut self, depth: usize, child: DTNode<T>)
        ensures
            final(self)@ == old(self)@.push_on_spine(depth as nat, child@),
        decreases depth,
    {
        let n = self.children.len();
        if depth == 0 || n == 0 {
            self.add_child_node(child);
        } else {
            let last: &mut Box<DTNode<T>> = &mut self.children[n - 1];
            last.push_on_spine(depth - 1, child);
            assert(self@.children =~= old(self)@.children.update(
                n - 1,
                old(self)@.children.last().push_on_spine((depth - 1) as nat, child@),
            ));
        }
    }

    /// Sets the collapse flag of the node that is reached from this one by
    /// going `depth` times to the last child.
    fn collapse_on_spine(&mut self, depth: usize, collapsed: bool)
        ensures
            final(self)@ == old(self)@.collapse_on_spine(depth as nat, collapsed),
        decreases depth,
    {
        let n = self.children.len();
        if depth == 0 || n == 0 {
            self.collapsed = collapsed;
            assert(self@.children =~= old(self)@.children);
        } else {
            let last: &mut Box<DTNode<T>> = &mut self.children[n - 1];
            last.collapse_on_spine(depth - 1, collapsed);
            assert(self@.children =~= old(self)@.children.update(
                n - 1,
                old(self)@.children.last().collapse_on_spine((depth - 1) as nat, collapsed),
            ));
        }
    }

    /// Whether every step can be taken, the current node at the start being
    /// this one.
    fn can_grow(&self, items: &Vec<DTNodeBuild<T>>) -> (ok: bool)
        ensures
            ok == self@.grown(items@).is_some(),
    {
        let spine = self.spine_len_up_to(items.len());
        let mut below: u128 = spine as u128;
        let mut above: u128 = 0;
        proof {
            grow_is_balanced(self@, 0, items@);
            if spine == items.len() {
                balanced_capped(self@.spine_len() as int, spine as int, 0, items@);
            }
            assert(items@.skip(0) =~= items@);
        }
        let mut i: usize = 0;
        while i < items.len()
            invariant
                i <= items.len(),
                below + above <= items.len() + i + 1,
                balanced(below as int, above as int, items@.skip(i as int)) == self@.grown(
                    items@,
                ).is_some(),
            decreases items.len() - i,
        {
            proof {
                assert(items@.skip(i as int).skip(1) =~= items@.skip(i as int + 1));
                assert(items@.skip(i as int)[0] == items@[i as int]);
            }
            match &items[i] {
                DTNodeBuild::AddData(_) => {
                    below = 1;
                },
                DTNodeBuild::StartChildren(_) => {
                    if below == 0 {
                        return false;
                    }
                    below = below - 1;
                    above = above + 1;
                },
                DTNodeBuild::EndChildren => {
                    if above == 0 {
                        return false;
                    }
                    below = below + 1;
                    above = above - 1;
                },
            }
            i = i + 1;
        }
        true
    }

    /// Builds the tree on from this node by the steps of `items`, in their
    /// order. Where a step cannot be taken the tree is left as it was and
    /// the error comes back: nothing is added. Steps that go down need not
    /// be closed at the end.
    pub fn grow_tree(&mut self, items: Vec<DTNodeBuild<T>>) -> (r: Result<(), InvalidGrowth>)
        ensures
            r.is_ok() == old(self)@.grown(items@).is_some(),
            r.is_ok() ==> old(self)@.grown(items@) == Some(final(self)@),
            r.is_err() ==> final(self)@ == old(self)@,
    {
        if !self.can_grow(&items) {
            return Err(InvalidGrowth);
        }
        let mut items = items;
        let ghost steps = items@;
        assert(steps.len() == items.len());
        let mut rest: Vec<DTNodeBuild<T>> = Vec::new();
        while items.len() > 0
            invariant
                rest@.len() + items@.len() == steps.len(),
                forall|k: int| 0 <= k < items@.len() ==> items@[k] == steps[k],
                forall|k: int| 0 <= k < rest@.len() ==> rest@[k] == steps[steps.len() - 1 - k],
            decreases items.len(),
        {
            let step = items.pop().unwrap();
            rest.push(step);
        }
        let mut depth: usize = 0;
        proof {
            assert(steps.skip(0) =~= steps);
        }
        while rest.len() > 0
            invariant
                rest@.len() <= steps.len(),
                steps.len() <= usize::MAX,
                forall|k: int| 0 <= k < rest@.len() ==> rest@[k] == steps[steps.len() - 1 - k],
                depth <= steps.len() - rest@.len(),
                self@.grow_from(depth as nat, steps.skip(steps.len() - rest@.len())) == old(
                    self,
                )@.grown(steps),
                old(self)@.grown(steps).is_some(),
            decreases rest.len(),
        {
            let ghost at = steps.len() - rest@.len();
            proof {
                assert(steps.skip(at).skip(1) =~= steps.skip(at + 1));
                assert(steps.skip(at)[0] == steps[at]);
            }
            let step = rest.pop().unwrap();
            match step {
                DTNodeBuild::AddData(data) => {
                    self.push_on_spine(depth, DTNode::new(data));
                },
                DTNodeBuild::StartChildren(collapsed) => {
                    depth = depth + 1;
                    self.collapse_on_spine(depth, collapsed);
                },
                DTNodeBuild::EndChildren => {
                    depth = depth - 1;
                },
            }
        }
        proof {
            assert(steps.skip(steps.len() as int) =~= Seq::empty());
        }
        Ok(())
    }

    /// Expands every node of the tree.
    pub fn expand_all(&mut self)
        ensures
            final(self)@ == old(self)@.expanded(),
        decreases *old(self),
    {
        let ghost before = self@;
        proof {
            before.folding_unfold(0);
            self.view_unfold();
        }
        self.collapsed = false;
        let n = self.children.len();
        let mut i: usize = 0;
        while i < n
            invariant
                n == self.children.len(),
                i <= n,
                before == old(self)@,
                before.children.len() == n,
                self.data == before.data,
                !self.collapsed,
                forall|j: int| 0 <= j < i ==> #[trigger] self.children[j]@ == before.children[j].expanded(),
                forall|j: int| i <= j < n ==> #[trigger] self.children[j]@ == before.children[j],
                forall|j: int| i <= j < n ==> #[trigger] self.children[j] == old(self).children[j],
            decreases n - i,
        {
            let child: &mut Box<DTNode<T>> = &mut self.children[i];
            child.expand_all();
            i = i + 1;
        }
        proof {
            self.view_unfold();
            assert(self@.children =~= before.child_expanded());
        }
    }

    /// Folds the tree `level` levels below this node: expands the nodes
    /// above that level, collapses those on it, and leaves those below it as
    /// they are.
    pub fn fold_at(&mut self, level: usize)
        ensures
            final(self)@ == old(self)@.folded_at(level as nat),
        decreases *old(self),
    {
        let ghost before = self@;
        proof {
            self.view_unfold();
        }
        if level == 0 {
            self.collapsed = true;
            proof {
                self.view_unfold();
                assert(self@.children =~= before.children);
            }
            return ;
        }
        proof {
            before.folding_unfold((level - 1) as nat);
        }
        self.collapsed = false;
        let n = self.children.len();
        let mut i: usize = 0;
        while i < n
            invariant
                n == self.children.len(),
                i <= n,
                level > 0,
                before == old(self)@,
                before.children.len() == n,
                self.data == before.data,
                !self.collapsed,
                forall|j: int|
                    0 <= j < i ==> #[trigger] self.children[j]@ == before.children[j].folded_at(
                        (level - 1) as nat,
                    ),
                forall|j: int| i <= j < n ==> #[trigger] self.children[j]@ == before.children[j],
                forall|j: int| i <= j < n ==> #[trigger] self.children[j] == old(self).children[j],
            decreases n - i,
        {
            let child: &mut Box<DTNode<T>> = &mut self.children[i];
            child.fold_at(level - 1);
            i = i + 1;
        }
        proof {
            self.view_unfold();
            assert(self@.children =~= before.child_folded((level - 1) as nat));
        }
    }

    /// Appends to `out` the payloads of the visible nodes of this tree.
    fn collect_visible<'a>(&'a self, out: &mut Vec<&'a T>)
        ensures
            pointees(final(out)@) == pointees(old(out)@) + self@.visible(),
        decreases self,
    {
        let ghost before = pointees(out@);
        let ghost parts = self@.child_visible();
        proof {
            self@.visible_unfold();
            joined_all(parts);
        }
        out.push(&self.data);
        assert(pointees(out@) =~= before + seq![self.data]);
        if !self.collapsed {
            let mut i: usize = 0;
            while i < self.children.len()
                invariant
                    i <= self.children.len(),
                    parts == self@.child_visible(),
                    parts.len() == self.children.len(),
                    pointees(out@) == before + seq![self.data] + joined(parts.take(i as int)),
                decreases self.children.len() - i,
            {
                proof {
                    joined_step(parts, i as int);
                }
                self.children[i].collect_visible(out);
                assert(pointees(out@) =~= before + seq![self.data] + joined(
                    parts.take(i as int + 1),
                ));
                i = i + 1;
            }
        }
        assert(pointees(out@) =~= before + self@.visible());
    }

    /// Appends to `out` the payloads of the visible leaves of this tree.
    fn collect_fringe<'a>(&'a self, out: &mut Vec<&'a T>)
        ensures
            pointees(final(out)@) == pointees(old(out)@) + self@.fringe(),
        decreases self,
    {
        let ghost before = pointees(out@);
        let ghost parts = self@.child_fringe();
        proof {
            self@.fringe_unfold();
            self.view_unfold();
            joined_all(parts);
        }
        if self.collapsed || self.children.len() == 0 {
            out.push(&self.data);
            assert(pointees(out@) =~= before + seq![self.data]);
            return ;
        }
        let mut i: usize = 0;
        assert(before + joined(parts.take(0)) =~= before);
        while i < self.children.len()
            invariant
                i <= self.children.len(),
                parts == self@.child_fringe(),
                parts.len() == self.children.len(),
                forall|j: int|
                    0 <= j < self.children.len() ==> #[trigger] self@.children[j]
                        == self.children[j]@,
                forall|j: int|
                    0 <= j < self.children.len() ==> #[trigger] parts[j]
                        == self@.children[j].fringe(),
                pointees(out@) == before + joined(parts.take(i as int)),
            decreases self.children.len() - i,
        {
            proof {
                joined_step(parts, i as int);
                assert(self@.children[i as int] == self.children[i as int]@);
            }
            self.children[i].collect_fringe(out);
            assert(pointees(out@) =~= before + joined(parts.take(i as int + 1)));
            i = i + 1;
        }
    }

    /// The payloads of the visible nodes that show no children, in the
    /// order of `visible_data`.
    pub fn visible_leaves(&self) -> (out: Vec<&T>)
        ensures
            pointees(out@) == self@.fringe(),
    {
        let mut out: Vec<&T> = Vec::new();
        assert(pointees(out@) =~= Seq::empty());
        self.collect_fringe(&mut out);
        assert(Seq::<T>::empty() + self@.fringe() =~= self@.fringe());
        out
    }

    /// The payloads of the visible nodes: each node before its children,
    /// the children in their order, and nothing of what is below a collapsed
    /// node.
    pub fn visible_data(&self) -> (out: Vec<&T>)
        ensures
            pointees(out@) == self@.visible(),
    {
        let mut out: Vec<&T> = Vec::new();
        assert(pointees(out@) =~= Seq::empty());
        self.collect_visible(&mut out);
        assert(Seq::<T>::empty() + self@.visible() =~= self@.visible());
        out
    }

    /// The number of visible nodes.
    pub fn visible_count(&self) -> (n: usize)
        ensures
            n == self@.visible().len(),
    {
        let out = self.visible_data();
        out.len()
    }
}

} // verus!
