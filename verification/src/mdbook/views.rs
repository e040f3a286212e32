//! Why a view of a view is the view itself.
//!
//! A view of the source set is made by walking the set and inserting the
//! branch of each wanted file into a fresh tree. What comes of it is the
//! set without the nodes that lead to no wanted file, each node that stays
//! in its old place among those that stay. Walking that tree meets the same
//! wanted files in the same order, so the view of it is the same tree.

use vstd::prelude::*;
use crate::fsnode::{TreeView, VisitView};
use crate::mdbook::files::{
    empty_tree,
    files_with_extensions,
    flagged,
    has_wanted_extension,
    selected_files,
};
use crate::paths::has_extension_in;

verus! {

/// What a file system says of the stops of the walk of `tree`, where
/// `is_file` says of each branch whether a regular file lies there.
pub open spec fn file_flags(tree: TreeView, is_file: spec_fn(Seq<Seq<char>>) -> bool) -> Seq<
    bool,
> {
    tree.walk(Seq::empty(), 0).map_values(|stop: VisitView| is_file(stop.path))
}

/// The branches of the stops of the first `n` children of `t` and of what
/// lies below them, in the order of the walk.
spec fn branches_first(t: TreeView, n: nat, prefix: Seq<Seq<char>>) -> Seq<Seq<Seq<char>>>
    decreases t, n,
{
    if n == 0 || n > t.children.len() {
        Seq::empty()
    } else {
        let child = t.children[n - 1];
        let here = prefix.push(child.name);
        branches_first(t, (n - 1) as nat, prefix) + seq![here] + branches(child, here)
    }
}

/// The branches of the stops of the walk below `t`.
spec fn branches(t: TreeView, prefix: Seq<Seq<char>>) -> Seq<Seq<Seq<char>>>
    decreases t, t.children.len() + 1,
{
    branches_first(t, t.children.len(), prefix)
}

/// Those of `paths` that `pick` picks, in their order.
spec fn picked(paths: Seq<Seq<Seq<char>>>, pick: spec_fn(Seq<Seq<char>>) -> bool) -> Seq<
    Seq<Seq<char>>,
>
    decreases paths.len(),
{
    if paths.len() == 0 {
        Seq::empty()
    } else if pick(paths.last()) {
        picked(paths.drop_last(), pick).push(paths.last())
    } else {
        picked(paths.drop_last(), pick)
    }
}

/// The tree `acc` after all of `paths` have been inserted, in their order.
spec fn insert_all(acc: TreeView, paths: Seq<Seq<Seq<char>>>) -> TreeView
    decreases paths.len(),
{
    if paths.len() == 0 {
        acc
    } else {
        insert_all(acc, paths.drop_last()).insert(paths.last())
    }
}

/// Whether the branch `b` is that of a wanted file.
spec fn wanted(extensions: Seq<Seq<char>>, is_file: spec_fn(Seq<Seq<char>>) -> bool) -> spec_fn(
    Seq<Seq<char>>,
) -> bool {
    |b: Seq<Seq<char>>| is_file(b) && b.len() > 0 && has_extension_in(b.last(), extensions)
}

/// What `pick` picks below the name `name`.
spec fn under(pick: spec_fn(Seq<Seq<char>>) -> bool, name: Seq<char>) -> spec_fn(
    Seq<Seq<char>>,
) -> bool {
    |b: Seq<Seq<char>>| pick(seq![name] + b)
}

/// Each of `paths` behind `prefix`.
spec fn with_prefix(prefix: Seq<Seq<char>>, paths: Seq<Seq<Seq<char>>>) -> Seq<Seq<Seq<char>>> {
    Seq::new(paths.len(), |i: int| prefix + paths[i])
}

/// What is picked of the child `c` and of what lies below it, as seen from
/// the child.
spec fn region_picks(c: TreeView, pick: spec_fn(Seq<Seq<char>>) -> bool) -> Seq<Seq<Seq<char>>> {
    picked(seq![Seq::empty()] + branches(c, Seq::empty()), under(pick, c.name))
}

/// The copy of `u` that holds what `pick` picks and what leads to it.
spec fn copy_of(u: TreeView, pick: spec_fn(Seq<Seq<char>>) -> bool) -> TreeView {
    insert_all(TreeView::leaf(u.name), picked(branches(u, Seq::empty()), pick))
}

/// The copies of those among the first `n` children of `u` that lead to
/// something picked.
spec fn kept(u: TreeView, pick: spec_fn(Seq<Seq<char>>) -> bool, n: nat) -> Seq<TreeView>
    decreases n,
{
    if n == 0 || n > u.children.len() {
        Seq::empty()
    } else {
        let c = u.children[n - 1];
        let picks = region_picks(c, pick);
        if picks.len() > 0 {
            kept(u, pick, (n - 1) as nat).push(insert_all(TreeView::leaf(c.name), picks))
        } else {
            kept(u, pick, (n - 1) as nat)
        }
    }
}

proof fn lemma_walk_branches(t: TreeView, prefix: Seq<Seq<char>>, level: nat)
    ensures
        t.walk(prefix, level).len() == branches(t, prefix).len(),
        forall|k: int|
            0 <= k < t.walk(prefix, level).len() ==> (#[trigger] t.walk(prefix, level)[k]).path
                == branches(t, prefix)[k],
    decreases t, t.children.len() + 1,
{
    lemma_walk_first_branches(t, t.children.len(), prefix, level);
}

proof fn lemma_walk_first_branches(t: TreeView, n: nat, prefix: Seq<Seq<char>>, level: nat)
    ensures
        t.walk_first(n, prefix, level).len() == branches_first(t, n, prefix).len(),
        forall|k: int|
            0 <= k < t.walk_first(n, prefix, level).len() ==> (#[trigger] t.walk_first(
                n,
                prefix,
                level,
            )[k]).path == branches_first(t, n, prefix)[k],
    decreases t, n,
{
    if 0 < n <= t.children.len() {
        let child = t.children[n - 1];
        let here = prefix.push(child.name);
        lemma_walk_first_branches(t, (n - 1) as nat, prefix, level);
        lemma_walk_branches(child, here, level + 1);
        let front = t.walk_first((n - 1) as nat, prefix, level);
        let below = child.walk(here, level + 1);
        let all = t.walk_first(n, prefix, level);
        let b_front = branches_first(t, (n - 1) as nat, prefix);
        let b_below = branches(child, here);
        let b_all = branches_first(t, n, prefix);
        assert(all.len() == b_all.len());
        assert forall|k: int| 0 <= k < all.len() implies (#[trigger] all[k]).path == b_all[k] by {
            if k < front.len() {
                assert(all[k] == front[k]);
                assert(b_all[k] == b_front[k]);
            } else if k == front.len() {
            } else {
                assert(all[k] == below[k - front.len() - 1]);
                assert(b_all[k] == b_below[k - front.len() - 1]);
            }
        }
    }
}

proof fn lemma_picked_concat(
    a: Seq<Seq<Seq<char>>>,
    b: Seq<Seq<Seq<char>>>,
    pick: spec_fn(Seq<Seq<char>>) -> bool,
)
    ensures
        picked(a + b, pick) == picked(a, pick) + picked(b, pick),
    decreases b.len(),
{
    if b.len() == 0 {
        assert(a + b =~= a);
        assert(picked(a, pick) + picked(b, pick) =~= picked(a, pick));
    } else {
        assert((a + b).drop_last() =~= a + b.drop_last());
        assert((a + b).last() == b.last());
        lemma_picked_concat(a, b.drop_last(), pick);
        if pick(b.last()) {
            assert(picked(a, pick) + picked(b.drop_last(), pick).push(b.last()) =~= (picked(
                a,
                pick,
            ) + picked(b.drop_last(), pick)).push(b.last()));
        }
    }
}

proof fn lemma_insert_all_concat(acc: TreeView, a: Seq<Seq<Seq<char>>>, b: Seq<Seq<Seq<char>>>)
    ensures
        insert_all(acc, a + b) == insert_all(insert_all(acc, a), b),
    decreases b.len(),
{
    if b.len() == 0 {
        assert(a + b =~= a);
    } else {
        assert((a + b).drop_last() =~= a + b.drop_last());
        assert((a + b).last() == b.last());
        lemma_insert_all_concat(acc, a, b.drop_last());
    }
}

proof fn lemma_insert_all_name(acc: TreeView, paths: Seq<Seq<Seq<char>>>)
    ensures
        insert_all(acc, paths).name == acc.name,
    decreases paths.len(),
{
    if paths.len() > 0 {
        lemma_insert_all_name(acc, paths.drop_last());
        insert_all(acc, paths.drop_last()).lemma_insert_order(paths.last());
    }
}

proof fn lemma_insert_all_one(acc: TreeView, path: Seq<Seq<char>>)
    ensures
        insert_all(acc, seq![path]) == acc.insert(path),
{
    assert(seq![path].drop_last() =~= Seq::<Seq<Seq<char>>>::empty());
    assert(insert_all(acc, Seq::<Seq<Seq<char>>>::empty()) == acc);
}

proof fn lemma_branches_prefix(t: TreeView, prefix: Seq<Seq<char>>)
    ensures
        branches(t, prefix) == with_prefix(prefix, branches(t, Seq::empty())),
    decreases t, t.children.len() + 1,
{
    lemma_branches_first_prefix(t, t.children.len(), prefix);
}

proof fn lemma_branches_first_prefix(t: TreeView, n: nat, prefix: Seq<Seq<char>>)
    ensures
        branches_first(t, n, prefix) == with_prefix(
            prefix,
            branches_first(t, n, Seq::empty()),
        ),
    decreases t, n,
{
    let empty = Seq::<Seq<char>>::empty();
    if n == 0 || n > t.children.len() {
        assert(branches_first(t, n, prefix) =~= with_prefix(
            prefix,
            branches_first(t, n, empty),
        ));
    } else {
        let child = t.children[n - 1];
        let here = prefix.push(child.name);
        let bare = empty.push(child.name);
        lemma_branches_first_prefix(t, (n - 1) as nat, prefix);
        lemma_branches_prefix(child, here);
        lemma_branches_prefix(child, bare);
        let inner = branches(child, empty);
        let left = branches_first(t, n, prefix);
        let right = with_prefix(prefix, branches_first(t, n, empty));
        let front = branches_first(t, (n - 1) as nat, empty);
        assert(left.len() == right.len());
        assert forall|k: int| 0 <= k < left.len() implies left[k] == right[k] by {
            if k < front.len() {
            } else if k == front.len() {
                assert(prefix + bare =~= here);
            } else {
                let j = k - front.len() - 1;
                assert(here + inner[j] =~= prefix + (bare + inner[j]));
            }
        }
        assert(left =~= right);
    }
}

proof fn lemma_picked_under(
    name: Seq<char>,
    paths: Seq<Seq<Seq<char>>>,
    pick: spec_fn(Seq<Seq<char>>) -> bool,
)
    ensures
        picked(with_prefix(seq![name], paths), pick) == with_prefix(
            seq![name],
            picked(paths, under(pick, name)),
        ),
    decreases paths.len(),
{
    let long = with_prefix(seq![name], paths);
    if paths.len() == 0 {
        assert(picked(long, pick) =~= with_prefix(seq![name], picked(paths, under(pick, name))));
    } else {
        lemma_picked_under(name, paths.drop_last(), pick);
        assert(long.drop_last() =~= with_prefix(seq![name], paths.drop_last()));
        assert(long.last() == seq![name] + paths.last());
        assert(under(pick, name)(paths.last()) == pick(seq![name] + paths.last()));
        if pick(long.last()) {
            assert(with_prefix(seq![name], picked(paths.drop_last(), under(pick, name))).push(
                long.last(),
            ) =~= with_prefix(
                seq![name],
                picked(paths.drop_last(), under(pick, name)).push(paths.last()),
            ));
        }
    }
}

/// Branches that begin with a name that no child bears give one new child:
/// the tree of what follows the name in each.
proof fn lemma_insert_all_fresh(acc: TreeView, name: Seq<char>, tails: Seq<Seq<Seq<char>>>)
    requires
        forall|i: int| 0 <= i < acc.children.len() ==> (#[trigger] acc.children[i]).name != name,
        tails.len() > 0,
    ensures
        insert_all(acc, with_prefix(seq![name], tails)) == (TreeView {
            name: acc.name,
            children: acc.children.push(insert_all(TreeView::leaf(name), tails)),
        }),
    decreases tails.len(),
{
    let long = with_prefix(seq![name], tails);
    let last = seq![name] + tails.last();
    assert(long.last() == last);
    assert(long.drop_last() =~= with_prefix(seq![name], tails.drop_last()));
    assert(last.drop_first() =~= tails.last());
    assert(last[0] == name);
    let n = acc.children.len() as int;
    if tails.len() == 1 {
        assert(long.drop_last() =~= Seq::<Seq<Seq<char>>>::empty());
        assert(tails.drop_last() =~= Seq::<Seq<Seq<char>>>::empty());
        if acc.lookup(name) is Some {
            assert(acc.is_first_named(name, acc.lookup(name)->0));
        }
        assert(insert_all(acc, Seq::<Seq<Seq<char>>>::empty()) == acc);
        assert(insert_all(TreeView::leaf(name), Seq::<Seq<Seq<char>>>::empty())
            == TreeView::leaf(name));
        assert(insert_all(acc, long) == acc.insert(last));
        assert(insert_all(TreeView::leaf(name), tails) == TreeView::leaf(name).insert(
            tails.last(),
        ));
    } else {
        lemma_insert_all_fresh(acc, name, tails.drop_last());
        let grown = insert_all(TreeView::leaf(name), tails.drop_last());
        let before = TreeView { name: acc.name, children: acc.children.push(grown) };
        lemma_insert_all_name(TreeView::leaf(name), tails.drop_last());
        assert(before.is_first_named(name, n)) by {
            assert forall|j: int| 0 <= j < n implies (#[trigger] before.children[j]).name
                != name by {
                assert(before.children[j] == acc.children[j]);
            }
        }
        before.lemma_lookup_is(name, n);
        assert(before.insert(last).children =~= acc.children.push(grown.insert(tails.last())));
    }
}

proof fn lemma_kept_fresh(
    u: TreeView,
    pick: spec_fn(Seq<Seq<char>>) -> bool,
    n: nat,
    name: Seq<char>,
)
    requires
        n <= u.children.len(),
        forall|j: int| 0 <= j < n ==> (#[trigger] u.children[j]).name != name,
    ensures
        forall|k: int|
            0 <= k < kept(u, pick, n).len() ==> (#[trigger] kept(u, pick, n)[k]).name != name,
    decreases n,
{
    if n > 0 {
        lemma_kept_fresh(u, pick, (n - 1) as nat, name);
        let c = u.children[n - 1];
        let front = kept(u, pick, (n - 1) as nat);
        lemma_insert_all_name(TreeView::leaf(c.name), region_picks(c, pick));
        assert(c.name != name);
        assert forall|k: int| 0 <= k < kept(u, pick, n).len() implies (#[trigger] kept(
            u,
            pick,
            n,
        )[k]).name != name by {
            if k < front.len() {
                assert(kept(u, pick, n)[k] == front[k]);
            }
        }
    }
}

/// The region of a child in the walk, as seen from the parent: the branch
/// of the child itself and the branches below it.
proof fn lemma_region(u: TreeView, n: nat, pick: spec_fn(Seq<Seq<char>>) -> bool)
    requires
        0 < n <= u.children.len(),
    ensures
        picked(branches_first(u, n, Seq::empty()), pick) == picked(
            branches_first(u, (n - 1) as nat, Seq::empty()),
            pick,
        ) + with_prefix(seq![u.children[n - 1].name], region_picks(u.children[n - 1], pick)),
{
    let empty = Seq::<Seq<char>>::empty();
    let c = u.children[n - 1];
    let here = empty.push(c.name);
    assert(here =~= seq![c.name]);
    let front = branches_first(u, (n - 1) as nat, empty);
    let tails = seq![empty] + branches(c, empty);
    let region = with_prefix(seq![c.name], tails);
    lemma_branches_prefix(c, here);
    assert(seq![here] + branches(c, here) =~= region) by {
        assert(seq![c.name] + empty =~= here);
    }
    assert(branches_first(u, n, empty) =~= front + region);
    lemma_picked_concat(front, region, pick);
    lemma_picked_under(c.name, tails, pick);
}

/// The copy of a tree holds, in their order, the copies of the children
/// that lead to something picked.
proof fn lemma_copy_shape(u: TreeView, pick: spec_fn(Seq<Seq<char>>) -> bool, n: nat)
    requires
        n <= u.children.len(),
        forall|i: int, j: int|
            0 <= i < j < u.children.len() ==> (#[trigger] u.children[i]).name != (
            #[trigger] u.children[j]).name,
    ensures
        insert_all(TreeView::leaf(u.name), picked(branches_first(u, n, Seq::empty()), pick)) == (
        TreeView { name: u.name, children: kept(u, pick, n) }),
    decreases n,
{
    let empty = Seq::<Seq<char>>::empty();
    if n > 0 {
        let c = u.children[n - 1];
        let before = TreeView { name: u.name, children: kept(u, pick, (n - 1) as nat) };
        let front = picked(branches_first(u, (n - 1) as nat, empty), pick);
        let picks = region_picks(c, pick);
        lemma_copy_shape(u, pick, (n - 1) as nat);
        lemma_region(u, n, pick);
        lemma_insert_all_concat(TreeView::leaf(u.name), front, with_prefix(seq![c.name], picks));
        if picks.len() > 0 {
            assert forall|j: int| 0 <= j < n - 1 implies (#[trigger] u.children[j]).name
                != c.name by {
                assert(u.children[j].name != u.children[n - 1].name);
            }
            lemma_kept_fresh(u, pick, (n - 1) as nat, c.name);
            lemma_insert_all_fresh(before, c.name, picks);
        } else {
            assert(with_prefix(seq![c.name], picks) =~= Seq::<Seq<Seq<char>>>::empty());
        }
    }
}

proof fn lemma_branches_first_same(t1: TreeView, t2: TreeView, n: nat, prefix: Seq<Seq<char>>)
    requires
        n <= t1.children.len(),
        n <= t2.children.len(),
        forall|i: int| 0 <= i < n ==> t1.children[i] == t2.children[i],
    ensures
        branches_first(t1, n, prefix) == branches_first(t2, n, prefix),
    decreases n,
{
    if n > 0 {
        lemma_branches_first_same(t1, t2, (n - 1) as nat, prefix);
    }
}

/// What is picked of a child and below it is what is picked of its copy
/// and below that.
proof fn lemma_region_of_copy(c: TreeView, pick: spec_fn(Seq<Seq<char>>) -> bool)
    requires
        c.wf(),
    ensures
        insert_all(TreeView::leaf(c.name), region_picks(c, pick)) == copy_of(
            c,
            under(pick, c.name),
        ),
        region_picks(copy_of(c, under(pick, c.name)), pick) == region_picks(c, pick),
    decreases c, c.children.len() + 3,
{
    let empty = Seq::<Seq<char>>::empty();
    let below = under(pick, c.name);
    let copy = copy_of(c, below);
    lemma_insert_all_name(TreeView::leaf(c.name), picked(branches(c, empty), below));
    lemma_picked_concat(seq![empty], branches(c, empty), below);
    lemma_picked_concat(seq![empty], branches(copy, empty), below);
    lemma_copy_branches(c, below);
    let head = picked(seq![empty], below);
    assert(seq![empty].drop_last() =~= Seq::<Seq<Seq<char>>>::empty());
    assert(picked(Seq::<Seq<Seq<char>>>::empty(), below) =~= Seq::<Seq<Seq<char>>>::empty());
    lemma_insert_all_concat(TreeView::leaf(c.name), head, picked(branches(c, empty), below));
    if below(empty) {
        assert(head =~= seq![empty]);
        lemma_insert_all_one(TreeView::leaf(c.name), empty);
    } else {
        assert(head =~= Seq::<Seq<Seq<char>>>::empty());
    }
}

proof fn lemma_kept_branches(u: TreeView, pick: spec_fn(Seq<Seq<char>>) -> bool, n: nat)
    requires
        u.wf(),
        n <= u.children.len(),
    ensures
        picked(
            branches(TreeView { name: u.name, children: kept(u, pick, n) }, Seq::empty()),
            pick,
        ) == picked(branches_first(u, n, Seq::empty()), pick),
    decreases u, n + 1,
{
    let empty = Seq::<Seq<char>>::empty();
    let now = TreeView { name: u.name, children: kept(u, pick, n) };
    if n > 0 {
        let c = u.children[n - 1];
        let picks = region_picks(c, pick);
        let before = TreeView { name: u.name, children: kept(u, pick, (n - 1) as nat) };
        lemma_kept_branches(u, pick, (n - 1) as nat);
        lemma_region(u, n, pick);
        if picks.len() > 0 {
            let copy = insert_all(TreeView::leaf(c.name), picks);
            let m = before.children.len();
            assert(c.wf());
            lemma_region_of_copy(c, pick);
            assert(now.children =~= before.children.push(copy));
            assert(now.children[m as int] == copy);
            lemma_branches_first_same(now, before, m, empty);
            lemma_region(now, m + 1, pick);
            assert(region_picks(copy, pick) == picks) by {
                lemma_insert_all_name(TreeView::leaf(c.name), picks);
            }
            assert(copy.name == c.name) by {
                lemma_insert_all_name(TreeView::leaf(c.name), picks);
            }
        } else {
            assert(with_prefix(seq![c.name], picks) =~= Seq::<Seq<Seq<char>>>::empty());
            assert(picked(branches_first(u, n, empty), pick) =~= picked(
                branches_first(u, (n - 1) as nat, empty),
                pick,
            ));
        }
    }
}

/// The walk of the copy of a tree meets what is picked as the walk of the
/// tree does.
proof fn lemma_copy_branches(u: TreeView, pick: spec_fn(Seq<Seq<char>>) -> bool)
    requires
        u.wf(),
    ensures
        picked(branches(copy_of(u, pick), Seq::empty()), pick) == picked(
            branches(u, Seq::empty()),
            pick,
        ),
    decreases u, u.children.len() + 2,
{
    lemma_copy_shape(u, pick, u.children.len());
    lemma_kept_branches(u, pick, u.children.len());
}

/// A view is the tree of the wanted branches of the walk.
proof fn lemma_view_is_insert_all(
    walk: Seq<VisitView>,
    paths: Seq<Seq<Seq<char>>>,
    extensions: Seq<Seq<char>>,
    is_file: spec_fn(Seq<Seq<char>>) -> bool,
    flags: Seq<bool>,
    n: int,
)
    requires
        0 <= n <= walk.len(),
        paths.len() == walk.len(),
        flags.len() == walk.len(),
        forall|k: int| 0 <= k < walk.len() ==> (#[trigger] walk[k]).path == paths[k],
        forall|k: int| 0 <= k < walk.len() ==> #[trigger] flags[k] == is_file(walk[k].path),
    ensures
        selected_files(walk, extensions, flags, n) == insert_all(
            empty_tree(),
            picked(paths.take(n), wanted(extensions, is_file)),
        ),
    decreases n,
{
    if n == 0 {
        assert(paths.take(0) =~= Seq::<Seq<Seq<char>>>::empty());
        assert(picked(Seq::<Seq<Seq<char>>>::empty(), wanted(extensions, is_file))
            =~= Seq::<Seq<Seq<char>>>::empty());
    } else {
        lemma_view_is_insert_all(walk, paths, extensions, is_file, flags, n - 1);
        assert(paths.take(n).drop_last() =~= paths.take(n - 1));
        assert(paths.take(n).last() == walk[n - 1].path);
        assert(flags[n - 1] == is_file(walk[n - 1].path));
        assert(wanted(extensions, is_file)(walk[n - 1].path) == (flagged(flags, n - 1)
            && has_wanted_extension(walk[n - 1], extensions)));
        let pick = wanted(extensions, is_file);
        let front = picked(paths.take(n - 1), pick);
        if pick(walk[n - 1].path) {
            assert(front.push(walk[n - 1].path).drop_last() =~= front);
            assert(picked(paths.take(n), pick) == front.push(walk[n - 1].path));
        } else {
            assert(picked(paths.take(n), pick) == front);
        }
    }
}

/// Taking a view is idempotent: the view of a view, taken with the same
/// extensions of the same file system, is the view itself.
pub proof fn lemma_view_of_view(
    tree: TreeView,
    extensions: Seq<Seq<char>>,
    is_file: spec_fn(Seq<Seq<char>>) -> bool,
)
    requires
        tree.wf(),
    ensures
        ({
            let once = files_with_extensions(tree, extensions, file_flags(tree, is_file));
            files_with_extensions(once, extensions, file_flags(once, is_file)) == once
        }),
{
    let empty = Seq::<Seq<char>>::empty();
    let pick = wanted(extensions, is_file);
    let once = files_with_extensions(tree, extensions, file_flags(tree, is_file));
    let root = TreeView { name: Seq::empty(), children: tree.children };
    let walk = tree.walk(empty, 0);
    lemma_walk_branches(tree, empty, 0);
    lemma_view_is_insert_all(
        walk,
        branches(tree, empty),
        extensions,
        is_file,
        file_flags(tree, is_file),
        walk.len() as int,
    );
    assert(branches(tree, empty).take(walk.len() as int) =~= branches(tree, empty));
    lemma_branches_first_same(tree, root, tree.children.len(), empty);
    assert(once == copy_of(root, pick));
    assert(root.wf());
    lemma_copy_branches(root, pick);
    let walk2 = once.walk(empty, 0);
    lemma_walk_branches(once, empty, 0);
    lemma_view_is_insert_all(
        walk2,
        branches(once, empty),
        extensions,
        is_file,
        file_flags(once, is_file),
        walk2.len() as int,
    );
    assert(branches(once, empty).take(walk2.len() as int) =~= branches(once, empty));
}

} // verus!
