//! Tree structure to keep file-system paths.
//!
//! A tree node stands for one path component; the branch from the root to a
//! node spells a relative path. Children keep the order in which they were
//! first inserted, and that order drives every traversal.

use vstd::prelude::*;
use vstd::string::*;
use crate::paths::{
    clone_names,
    names_of_components,
    normal_names,
    path_names,
    split_path,
    PathComponent,
};

verus! {

/// Mathematical model of a path tree: a name and the ordered child trees.
pub ghost struct TreeView {
    pub name: Seq<char>,
    pub children: Seq<TreeView>,
}

/// File System node as path to file or directory.
#[derive(Debug, PartialEq, Eq)]
pub struct FsNode {
    pub name: String,
    pub children: Vec<FsNode>,
}

impl View for FsNode {
    type V = TreeView;

    open spec fn view(&self) -> TreeView
        decreases self,
    {
        TreeView {
            name: self.name@,
            children: Seq::new(
                self.children@.len(),
                |i: int|
                    if 0 <= i < self.children@.len() {
                        self.children@[i].view()
                    } else {
                        TreeView::leaf(Seq::empty())
                    },
            ),
        }
    }
}

/// One stop of a traversal: the node visited, the branch that leads to it
/// and the level at which it lies.
#[derive(Clone, Debug, PartialEq, Eq)]
pub struct Visit<'a> {
    pub node: &'a FsNode,
    pub path: Vec<String>,
    pub level: usize,
}

/// Mathematical model of a stop of a traversal.
pub ghost struct VisitView {
    pub node: TreeView,
    pub path: Seq<Seq<char>>,
    pub level: nat,
}

impl<'a> DeepView for Visit<'a> {
    type V = VisitView;

    open spec fn deep_view(&self) -> VisitView {
        VisitView { node: self.node@, path: self.path.deep_view(), level: self.level as nat }
    }
}

impl TreeView {
    /// A tree of one node.
    pub open spec fn leaf(name: Seq<char>) -> TreeView {
        TreeView { name, children: Seq::empty() }
    }

    /// `i` is the position of the first child called `name`.
    pub open spec fn is_first_named(self, name: Seq<char>, i: int) -> bool {
        &&& 0 <= i < self.children.len()
        &&& self.children[i].name == name
        &&& forall|j: int| 0 <= j < i ==> (#[trigger] self.children[j]).name != name
    }

    /// Position of the first child called `name`, if there is one.
    pub open spec fn lookup(self, name: Seq<char>) -> Option<int> {
        if exists|i: int| self.is_first_named(name, i) {
            Some(choose|i: int| self.is_first_named(name, i))
        } else {
            None
        }
    }

    /// The tree after the branch `names` has been inserted: at each level the
    /// first child of that name is entered, and where there is none a new
    /// child is appended after the existing ones.
    pub open spec fn insert(self, names: Seq<Seq<char>>) -> TreeView
        decreases names.len(),
    {
        if names.len() == 0 {
            self
        } else {
            let rest = names.drop_first();
            match self.lookup(names[0]) {
                Some(i) => TreeView {
                    name: self.name,
                    children: self.children.update(i, self.children[i].insert(rest)),
                },
                None => TreeView {
                    name: self.name,
                    children: self.children.push(TreeView::leaf(names[0]).insert(rest)),
                },
            }
        }
    }

    /// Whether the branch `names` can be followed from this node, entering at
    /// each level the first child of that name.
    pub open spec fn contains(self, names: Seq<Seq<char>>) -> bool
        decreases names.len(),
    {
        names.len() == 0 || match self.lookup(names[0]) {
            Some(i) => self.children[i].contains(names.drop_first()),
            None => false,
        }
    }

    /// The stops of a depth-first walk below this node: the children in
    /// their order, each followed at once by all that lies below it. A child
    /// is reached by `path` extended with its name, at level `level`; what
    /// lies below it is one level further down.
    pub open spec fn walk(self, path: Seq<Seq<char>>, level: nat) -> Seq<VisitView>
        decreases self, self.children.len() + 1,
    {
        self.walk_first(self.children.len(), path, level)
    }

    /// The part of the walk that covers the first `n` children.
    pub open spec fn walk_first(self, n: nat, path: Seq<Seq<char>>, level: nat) -> Seq<
        VisitView,
    >
        decreases self, n,
    {
        if n == 0 || n > self.children.len() {
            Seq::empty()
        } else {
            let child = self.children[n - 1];
            let here = path.push(child.name);
            self.walk_first((n - 1) as nat, path, level) + seq![
                VisitView { node: child, path: here, level },
            ] + child.walk(here, level + 1)
        }
    }

    /// Number of levels below this node.
    pub open spec fn height(self) -> nat
        decreases self, self.children.len() + 1,
    {
        self.height_first(self.children.len())
    }

    /// Number of levels below this node when only the first `n` children
    /// are counted.
    pub open spec fn height_first(self, n: nat) -> nat
        decreases self, n,
    {
        if n == 0 || n > self.children.len() {
            0
        } else {
            let before = self.height_first((n - 1) as nat);
            let here = 1 + self.children[n - 1].height();
            if here > before {
                here
            } else {
                before
            }
        }
    }

    /// Every child lies less high than its parent.
    pub proof fn lemma_child_height(self, i: int)
        requires
            0 <= i < self.children.len(),
        ensures
            1 + self.children[i].height() <= self.height(),
    {
        self.lemma_child_height_first(self.children.len(), i);
    }

    proof fn lemma_child_height_first(self, n: nat, i: int)
        requires
            0 <= i < n <= self.children.len(),
        ensures
            1 + self.children[i].height() <= self.height_first(n),
        decreases n,
    {
        if i < n - 1 {
            self.lemma_child_height_first((n - 1) as nat, i);
        }
    }

    /// Some child is called `name`, and only one.
    pub open spec fn has_one_named(self, name: Seq<char>) -> bool {
        &&& exists|i: int| 0 <= i < self.children.len() && (#[trigger] self.children[i]).name == name
        &&& forall|i: int, j: int|
            0 <= i < self.children.len() && 0 <= j < self.children.len() && (
            #[trigger] self.children[i]).name == name && (#[trigger] self.children[j]).name
                == name ==> i == j
    }

    /// Along the branch `names` every name occurs exactly once among the
    /// children of the node at which it is looked up.
    pub open spec fn once_along(self, names: Seq<Seq<char>>) -> bool
        decreases names.len(),
    {
        names.len() == 0 || (self.has_one_named(names[0]) && match self.lookup(names[0]) {
            Some(i) => self.children[i].once_along(names.drop_first()),
            None => false,
        })
    }

    /// No node has two children of the same name.
    pub open spec fn wf(self) -> bool
        decreases self,
    {
        &&& forall|i: int, j: int|
            0 <= i < j < self.children.len() ==> (#[trigger] self.children[i]).name != (
            #[trigger] self.children[j]).name
        &&& forall|i: int|
            0 <= i < self.children.len() ==> (#[trigger] self.children[i]).wf()
    }
}

impl TreeView {
    /// Where some child bears a name, there is a first child that bears it.
    pub proof fn lemma_first_named_exists(self, name: Seq<char>, j: int)
        requires
            0 <= j < self.children.len(),
            self.children[j].name == name,
        ensures
            self.lookup(name) is Some,
            self.is_first_named(name, self.lookup(name)->0),
            self.lookup(name)->0 <= j,
        decreases j,
    {
        if forall|k: int| 0 <= k < j ==> (#[trigger] self.children[k]).name != name {
            assert(self.is_first_named(name, j));
        } else {
            let k = choose|k: int| 0 <= k < j && (#[trigger] self.children[k]).name == name;
            self.lemma_first_named_exists(name, k);
        }
    }

    /// The first child of a name is found at `i` exactly when `i` is its
    /// position.
    pub proof fn lemma_lookup_is(self, name: Seq<char>, i: int)
        requires
            self.is_first_named(name, i),
        ensures
            self.lookup(name) == Some(i),
    {
    }

    /// Insertion changes no name: neither that of the node itself nor that
    /// of a child that was there, and the children that were there keep
    /// their places. A child is appended exactly when the first name of the
    /// branch is not yet that of a child; it then comes last and bears
    /// that name.
    pub proof fn lemma_insert_order(self, names: Seq<Seq<char>>)
        ensures
            self.insert(names).name == self.name,
            self.insert(names).children.len() >= self.children.len(),
            forall|i: int|
                0 <= i < self.children.len() ==> (#[trigger] self.insert(names).children[i]).name
                    == self.children[i].name,
            names.len() == 0 || self.lookup(names[0]) is Some ==> self.insert(
                names,
            ).children.len() == self.children.len(),
            names.len() > 0 && self.lookup(names[0]) is None ==> {
                &&& self.insert(names).children.len() == self.children.len() + 1
                &&& self.insert(names).children.last().name == names[0]
            },
        decreases names.len(),
    {
        if names.len() > 0 {
            let rest = names.drop_first();
            match self.lookup(names[0]) {
                Some(i) => {
                    self.children[i].lemma_insert_order(rest);
                },
                None => {
                    TreeView::leaf(names[0]).lemma_insert_order(rest);
                },
            }
        }
    }

    /// A branch that has been inserted is contained.
    pub proof fn lemma_insert_contains(self, names: Seq<Seq<char>>)
        ensures
            self.insert(names).contains(names),
        decreases names.len(),
    {
        if names.len() > 0 {
            let rest = names.drop_first();
            let after = self.insert(names);
            self.lemma_insert_order(names);
            match self.lookup(names[0]) {
                Some(i) => {
                    self.children[i].lemma_insert_order(rest);
                    after.lemma_lookup_is(names[0], i);
                    self.children[i].lemma_insert_contains(rest);
                },
                None => {
                    let n = self.children.len() as int;
                    assert forall|j: int| 0 <= j < n implies (#[trigger] after.children[j]).name
                        != names[0] by {
                        if self.children[j].name == names[0] {
                            self.lemma_first_named_exists(names[0], j);
                        }
                    }
                    after.lemma_lookup_is(names[0], n);
                    TreeView::leaf(names[0]).lemma_insert_contains(rest);
                },
            }
        }
    }

    /// A branch whose first name is the name of no child is not contained.
    pub proof fn lemma_foreign_first_name(self, names: Seq<Seq<char>>)
        requires
            names.len() > 0,
            forall|i: int|
                0 <= i < self.children.len() ==> (#[trigger] self.children[i]).name != names[0],
        ensures
            !self.contains(names),
    {
    }

    /// What is contained stays contained when another branch is inserted.
    pub proof fn lemma_insert_keeps(self, names: Seq<Seq<char>>, other: Seq<Seq<char>>)
        requires
            self.contains(other),
        ensures
            self.insert(names).contains(other),
        decreases other.len(),
    {
        if other.len() > 0 && names.len() > 0 {
            let after = self.insert(names);
            let k = self.lookup(other[0])->0;
            self.lemma_insert_order(names);
            after.lemma_lookup_is(other[0], k);
            match self.lookup(names[0]) {
                Some(i) => {
                    if i == k {
                        self.children[k].lemma_insert_keeps(
                            names.drop_first(),
                            other.drop_first(),
                        );
                    }
                },
                None => {
                },
            }
        }
    }

    /// Insertion into a tree without duplicated siblings gives a tree
    /// without duplicated siblings.
    pub proof fn lemma_insert_wf(self, names: Seq<Seq<char>>)
        requires
            self.wf(),
        ensures
            self.insert(names).wf(),
        decreases names.len(),
    {
        if names.len() > 0 {
            let rest = names.drop_first();
            let after = self.insert(names);
            self.lemma_insert_order(names);
            match self.lookup(names[0]) {
                Some(i) => {
                    self.children[i].lemma_insert_wf(rest);
                },
                None => {
                    let n = self.children.len() as int;
                    let fresh = TreeView::leaf(names[0]);
                    fresh.lemma_insert_wf(rest);
                    assert forall|a: int, b: int| 0 <= a < b < after.children.len() implies (
                    #[trigger] after.children[a]).name != (#[trigger] after.children[b]).name by {
                        if b == n && self.children[a].name == names[0] {
                            self.lemma_first_named_exists(names[0], a);
                        }
                    }
                },
            }
        }
    }

    /// In a tree without duplicated siblings every name of a contained
    /// branch occurs exactly once at its level.
    pub proof fn lemma_contained_once(self, names: Seq<Seq<char>>)
        requires
            self.wf(),
            self.contains(names),
        ensures
            self.once_along(names),
        decreases names.len(),
    {
        if names.len() > 0 {
            let k = self.lookup(names[0])->0;
            self.children[k].lemma_contained_once(names.drop_first());
        }
    }

    /// After two insertions into a tree without duplicated siblings, both
    /// branches are contained, no node has two children of one name, and
    /// every name of either branch occurs exactly once at its level.
    pub proof fn lemma_insert_twice(self, first: Seq<Seq<char>>, second: Seq<Seq<char>>)
        requires
            self.wf(),
        ensures
            self.insert(first).insert(second).wf(),
            self.insert(first).insert(second).contains(first),
            self.insert(first).insert(second).contains(second),
            self.insert(first).insert(second).once_along(first),
            self.insert(first).insert(second).once_along(second),
    {
        let once = self.insert(first);
        let twice = once.insert(second);
        self.lemma_insert_wf(first);
        once.lemma_insert_wf(second);
        self.lemma_insert_contains(first);
        once.lemma_insert_keeps(second, first);
        once.lemma_insert_contains(second);
        twice.lemma_contained_once(first);
        twice.lemma_contained_once(second);
    }

    /// Every stop of a walk lies at or below the level at which the walk
    /// begins, its branch has one name for each level from the start path
    /// down to it, and the last of them is the name of its node.
    pub proof fn lemma_walk_stops(self, path: Seq<Seq<char>>, level: nat)
        ensures
            forall|k: int|
                0 <= k < self.walk(path, level).len() ==> {
                    let stop = #[trigger] self.walk(path, level)[k];
                    &&& stop.level >= level
                    &&& stop.path.len() == path.len() + 1 + (stop.level - level)
                    &&& stop.path.last() == stop.node.name
                },
        decreases self, self.children.len() + 1,
    {
        self.lemma_walk_first_stops(self.children.len(), path, level);
        let all = self.walk(path, level);
        assert forall|k: int| 0 <= k < all.len() implies {
            let stop = #[trigger] all[k];
            &&& stop.level >= level
            &&& stop.path.len() == path.len() + 1 + (stop.level - level)
            &&& stop.path.last() == stop.node.name
        } by {
            assert(all[k] == self.walk_first(self.children.len(), path, level)[k]);
        }
    }

    proof fn lemma_walk_first_stops(self, n: nat, path: Seq<Seq<char>>, level: nat)
        ensures
            forall|k: int|
                0 <= k < self.walk_first(n, path, level).len() ==> {
                    let stop = #[trigger] self.walk_first(n, path, level)[k];
                    &&& stop.level >= level
                    &&& stop.path.len() == path.len() + 1 + (stop.level - level)
                    &&& stop.path.last() == stop.node.name
                },
        decreases self, n,
    {
        if 0 < n <= self.children.len() {
            let child = self.children[n - 1];
            let here = path.push(child.name);
            let front = self.walk_first((n - 1) as nat, path, level);
            let below = child.walk(here, level + 1);
            let all = self.walk_first(n, path, level);
            self.lemma_walk_first_stops((n - 1) as nat, path, level);
            child.lemma_walk_stops(here, level + 1);
            assert forall|k: int| 0 <= k < all.len() implies {
                let stop = #[trigger] all[k];
                &&& stop.level >= level
                &&& stop.path.len() == path.len() + 1 + (stop.level - level)
                &&& stop.path.last() == stop.node.name
            } by {
                if k < front.len() {
                    assert(all[k] == front[k]);
                } else if k > front.len() {
                    assert(all[k] == below[k - front.len() - 1]);
                }
            }
        }
    }

    /// Inserting a branch that is contained changes nothing.
    pub proof fn lemma_insert_contained(self, names: Seq<Seq<char>>)
        requires
            self.contains(names),
        ensures
            self.insert(names) == self,
        decreases names.len(),
    {
        if names.len() > 0 {
            let k = self.lookup(names[0])->0;
            self.children[k].lemma_insert_contained(names.drop_first());
            assert(self.insert(names).children =~= self.children);
        }
    }
}

/// An outside cursor on a tree. It hands out no node: the nodes of a tree
/// are reached by `traverse`.
pub struct FsNodeIter<'a>(pub &'a FsNode);

impl<'a> FsNodeIter<'a> {
    /// The next node: there is none.
    pub fn next(&mut self) -> (node: Option<&'a FsNode>)
        ensures
            node is None,
            *final(self) == *old(self),
    {
        None
    }
}

impl Clone for FsNode {
    /// A copy of the whole tree below this node.
    fn clone(&self) -> (copy: FsNode)
        ensures
            copy@ == self@,
        decreases self,
    {
        let mut children: Vec<FsNode> = Vec::new();
        let mut i: usize = 0;
        while i < self.children.len()
            invariant
                i <= self.children.len(),
                children.len() == i,
                forall|j: int| 0 <= j < i ==> children[j]@ == self.children[j]@,
            decreases self.children.len() - i,
        {
            children.push(self.children[i].clone());
            i += 1;
        }
        let copy = FsNode { name: self.name.clone(), children };
        proof {
            self.lemma_view();
            copy.lemma_view();
            assert(copy@.children =~= self@.children);
        }
        copy
    }
}

impl FsNode {
    /// A cursor on this node.
    pub fn iter(&self) -> (cursor: FsNodeIter<'_>)
        ensures
            cursor.0 == self,
    {
        FsNodeIter(self)
    }

    /// A node called `name` that has no children yet.
    pub fn new(name: String) -> (node: FsNode)
        ensures
            node@ == TreeView::leaf(name@),
            node@.wf(),
    {
        let node = FsNode { name, children: Vec::new() };
        assert(node@.children =~= Seq::empty());
        node
    }

    /// The model of a node is made of its name and of the models of its
    /// children, in their order.
    pub proof fn lemma_view(&self)
        ensures
            self@.name == self.name@,
            self@.children.len() == self.children@.len(),
            forall|i: int|
                0 <= i < self.children@.len() ==> {
                    &&& #[trigger] self@.children[i] == self.children@[i]@
                    &&& self@.children[i].name == self.children@[i].name@
                },
    {
    }

    /// Position of the first child called `name`.
    fn find_child(&self, name: &String) -> (pos: Option<usize>)
        ensures
            match pos {
                Some(i) => self@.lookup(name@) == Some(i as int),
                None => self@.lookup(name@) is None,
            },
    {
        proof {
            self.lemma_view();
        }
        let mut i: usize = 0;
        while i < self.children.len()
            invariant
                i <= self.children.len(),
                self@.children.len() == self.children@.len(),
                forall|j: int|
                    0 <= j < self.children@.len() ==> (#[trigger] self@.children[j]).name
                        == self.children@[j].name@,
                forall|j: int| 0 <= j < i ==> (#[trigger] self@.children[j]).name != name@,
            decreases self.children.len() - i,
        {
            if self.children[i].name == *name {
                assert(self@.is_first_named(name@, i as int));
                return Some(i);
            }
            i += 1;
        }
        None
    }

    /// Inserts the branch `names`, one node per name, below this node.
    /// Where a child of the wanted name exists it is entered; otherwise a
    /// new child is appended. Inserting a branch that is there already
    /// leaves the tree as it is.
    pub fn push_names(&mut self, names: &Vec<String>)
        ensures
            final(self)@ == old(self)@.insert(names.deep_view()),
            old(self)@.wf() ==> final(self)@.wf(),
    {
        assert(names.deep_view().skip(0) =~= names.deep_view());
        proof {
            if self@.wf() {
                self@.lemma_insert_wf(names.deep_view());
            }
        }
        self.push_from(names, 0);
    }

    fn push_from(&mut self, names: &Vec<String>, start: usize)
        requires
            start <= names.len(),
        ensures
            final(self)@ == old(self)@.insert(names.deep_view().skip(start as int)),
        decreases names.len() - start,
    {
        if start < names.len() {
            let ghost before = self@;
            let ghost branch = names.deep_view().skip(start as int);
            assert(branch.drop_first() =~= names.deep_view().skip(start as int + 1));
            match self.find_child(&names[start]) {
                Some(pos) => {
                    self.children[pos].push_from(names, start + 1);
                    assert(self@.children =~= before.children.update(
                        pos as int,
                        before.children[pos as int].insert(branch.drop_first()),
                    ));
                },
                None => {
                    let mut node = FsNode::new(names[start].clone());
                    node.push_from(names, start + 1);
                    self.children.push(node);
                    assert(self@.children =~= before.children.push(
                        TreeView::leaf(branch[0]).insert(branch.drop_first()),
                    ));
                },
            }
        }
    }

    /// Inserts the branch that `parts` spell: one node per `Normal`
    /// component; root, current, parent and prefix components are skipped.
    pub fn push_components(&mut self, parts: &Vec<PathComponent>)
        ensures
            final(self)@ == old(self)@.insert(normal_names(parts.deep_view())),
            old(self)@.wf() ==> final(self)@.wf(),
    {
        let names = names_of_components(parts);
        self.push_names(&names);
    }

    /// Inserts the path `path` as a branch of its `Normal` components.
    pub fn push(&mut self, path: &str)
        ensures
            final(self)@ == old(self)@.insert(path_names(path@)),
            old(self)@.wf() ==> final(self)@.wf(),
    {
        let parts = split_path(path);
        self.push_components(&parts);
    }

    /// Whether the branch that `parts` spell is in the tree: true if and
    /// only if every `Normal` component is found as a child along the
    /// descent.
    pub fn contains_components(&self, parts: &Vec<PathComponent>) -> (found: bool)
        ensures
            found == self@.contains(normal_names(parts.deep_view())),
    {
        let names = names_of_components(parts);
        self.contains_names(&names)
    }

    /// Whether the path `path` is in the tree.
    pub fn contains(&self, path: &str) -> (found: bool)
        ensures
            found == self@.contains(path_names(path@)),
    {
        let parts = split_path(path);
        self.contains_components(&parts)
    }

    /// Traverse depth-first, each node before its children, siblings in
    /// the order of their insertion. The children of this node are reached
    /// by `parent_path` extended with their names and lie at `level`.
    pub fn traverse<'a>(&'a self, parent_path: &Vec<String>, level: usize) -> (visits: Vec<
        Visit<'a>,
    >)
        requires
            level + self@.height() <= usize::MAX,
        ensures
            visits.deep_view() == self@.walk(parent_path.deep_view(), level as nat),
    {
        let mut visits: Vec<Visit<'a>> = Vec::new();
        self.walk_into(parent_path, level, &mut visits);
        visits
    }

    /// Traverse the whole tree from level 0, starting with an empty path.
    pub fn traverse_top<'a>(&'a self) -> (visits: Vec<Visit<'a>>)
        ensures
            visits.deep_view() == self@.walk(Seq::empty(), 0),
    {
        let mut visits: Vec<Visit<'a>> = Vec::new();
        let path: Vec<String> = Vec::new();
        assert(path.deep_view() =~= Seq::empty());
        self.walk_into(&path, 0, &mut visits);
        visits
    }

    /// Appends the stops of the walk below this node to `out`. A branch is
    /// held in a vector, so a level never exceeds the length of the path
    /// that reaches it unless the start level was chosen above it.
    fn walk_into<'a>(&'a self, path: &Vec<String>, level: usize, out: &mut Vec<Visit<'a>>)
        requires
            level <= path.len() || level + self@.height() <= usize::MAX,
        ensures
            final(out).deep_view() == old(out).deep_view() + self@.walk(
                path.deep_view(),
                level as nat,
            ),
        decreases self,
    {
        let ghost start = out.deep_view();
        let ghost tree = self@;
        proof {
            self.lemma_view();
        }
        let mut i: usize = 0;
        while i < self.children.len()
            invariant
                i <= self.children.len(),
                tree == self@,
                tree.children.len() == self.children@.len(),
                forall|j: int|
                    0 <= j < self.children@.len() ==> {
                        &&& #[trigger] tree.children[j] == self.children@[j]@
                        &&& tree.children[j].name == self.children@[j].name@
                    },
                level <= path.len() || level + tree.height() <= usize::MAX,
                out.deep_view() == start + tree.walk_first(
                    i as nat,
                    path.deep_view(),
                    level as nat,
                ),
            decreases self.children.len() - i,
        {
            let child = &self.children[i];
            let ghost before = out.deep_view();
            let mut here = clone_names(path);
            here.push(child.name.clone());
            let mut there = clone_names(path);
            there.push(child.name.clone());
            assert(here.deep_view() =~= path.deep_view().push(child.name@));
            assert(there.deep_view() =~= path.deep_view().push(child.name@));
            let visit = Visit { node: child, path: there, level };
            let ghost stop = visit.deep_view();
            out.push(visit);
            assert(out.deep_view() =~= before.push(stop));
            proof {
                child.lemma_view();
                tree.lemma_child_height(i as int);
            }
            if child.children.len() > 0 {
                assert(here.len() == path.len() + 1);
                child.walk_into(&here, level + 1, out);
            } else {
                assert(child@.walk(here.deep_view(), level as nat + 1) =~= Seq::empty());
            }
            i += 1;
        }
    }

    /// Whether the branch `names` is in the tree below this node.
    pub fn contains_names(&self, names: &Vec<String>) -> (found: bool)
        ensures
            found == self@.contains(names.deep_view()),
    {
        let mut node: &FsNode = self;
        let mut i: usize = 0;
        assert(names.deep_view().skip(0) =~= names.deep_view());
        while i < names.len()
            invariant
                i <= names.len(),
                self@.contains(names.deep_view()) == node@.contains(
                    names.deep_view().skip(i as int),
                ),
            decreases names.len() - i,
        {
            let ghost branch = names.deep_view().skip(i as int);
            assert(branch.drop_first() =~= names.deep_view().skip(i as int + 1));
            match node.find_child(&names[i]) {
                Some(pos) => {
                    proof {
                        node.lemma_view();
                    }
                    node = &node.children[pos];
                },
                None => {
                    return false;
                },
            }
            i += 1;
        }
        true
    }
}

} // verus!
