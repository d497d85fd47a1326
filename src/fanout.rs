use vstd::prelude::*;
use vstd::multiset::Multiset;

use crate::pattern::{is_match, opt_view, pruned, Pattern};
use crate::tree::{child_path, parts_view, paths_view, walk, walk_kids, walk_node, EntryPath, Node, PathModel};

verus! {

broadcast use vstd::seq_lib::group_to_multiset_ensures, vstd::seq_lib::lemma_multiset_commutative;

/// The number of objects in the tree at `n`, `n` included.
pub open spec fn size(n: Node) -> nat
    decreases n, 1int,
{
    1 + size_kids(n.children@)
}

pub open spec fn size_kids(kids: Seq<Node>) -> nat
    decreases kids, 0int,
{
    if kids.len() == 0 {
        0
    } else {
        size_kids(kids.subrange(0, kids.len() - 1)) + size(kids[kids.len() - 1])
    }
}

/// A unit of pending work: a directory still to be read, with its path.
pub type Task<'a> = (&'a Node, Vec<String>);

pub open spec fn tasks_view(t: Seq<Task>) -> Seq<(Node, PathModel)> {
    t.map_values(|k: Task| (*k.0, parts_view(k.1@)))
}

/// The objects held by pending work, all told.
pub open spec fn load(p: Seq<(Node, PathModel)>) -> nat
    decreases p.len(),
{
    if p.len() == 0 {
        0
    } else {
        load(p.drop_last()) + size(p.last().0)
    }
}

/// What the pending work has yet to emit.
pub open spec fn pending_emits(p: Seq<(Node, PathModel)>, prune: Option<Seq<char>>) -> Seq<PathModel>
    decreases p.len(),
{
    if p.len() == 0 {
        seq![]
    } else {
        pending_emits(p.drop_last(), prune) + walk_node(p.last().0, p.last().1, prune)
    }
}

/// Enumerates everything below `root` that the prune pattern leaves, by
/// handing each directory to a pool of pending work: a child is emitted as
/// soon as its directory is read, and explored later. The entries are those
/// of the sequential walk, each as often, in another order.
pub fn enumerate_fan_out(root: &Node, prune: &Option<Pattern>) -> (r: Vec<EntryPath>)
    ensures
        paths_view(r@).to_multiset() == walk(*root, opt_view(prune)).to_multiset(),
{
    let ghost pr = opt_view(prune);
    let ghost w = walk(*root, pr);
    let mut out: Vec<EntryPath> = Vec::new();
    if is_match(root.name.as_str(), prune) {
        assert(paths_view(out@) =~= w);
        return out;
    }
    let mut stack: Vec<Task> = Vec::new();
    let top: Vec<String> = Vec::new();
    stack.push((root, top));
    proof {
        let tv = tasks_view(stack@);
        assert(parts_view(top@) =~= seq![]);
        assert(tv.drop_last() =~= Seq::<(Node, PathModel)>::empty());
        assert(tv.len() == 1);
        assert(tv.last() == (*root, Seq::<Seq<char>>::empty()));
        assert(pending_emits(tv.drop_last(), pr) =~= Seq::<PathModel>::empty());
        assert(pending_emits(tv, pr) =~= w);
        assert(paths_view(out@) =~= Seq::<PathModel>::empty());
        assert(paths_view(out@).to_multiset().add(pending_emits(tv, pr).to_multiset()) =~= w.to_multiset());
    }
    while stack.len() > 0
        invariant
            pr == opt_view(prune),
            w == walk(*root, pr),
            paths_view(out@).to_multiset().add(pending_emits(tasks_view(stack@), pr).to_multiset()) == w.to_multiset(),
        decreases load(tasks_view(stack@)),
    {
        let ghost before = tasks_view(stack@);
        let task = stack.pop();
        let (n, path) = match task {
            Some(t) => t,
            None => {
                return out;
            },
        };
        let ghost rest = tasks_view(stack@);
        let ghost pv = parts_view(path@);
        let ghost out0 = paths_view(out@).to_multiset();
        proof {
            assert(before.drop_last() =~= rest);
            assert(before.last() == (*n, pv));
            assert(out0.add(pending_emits(rest, pr).to_multiset()).add(walk_node(*n, pv, pr).to_multiset())
                =~= w.to_multiset());
        }
        if n.is_dir {
            let mut i: usize = 0;
            proof {
                assert(n.children@.subrange(0, 0) =~= Seq::<Node>::empty());
                assert(tasks_view(stack@) == rest);
                assert(paths_view(out@).to_multiset().add(pending_emits(tasks_view(stack@), pr).to_multiset())
                    =~= out0.add(pending_emits(rest, pr).to_multiset()).add(
                    walk_kids(n.children@.subrange(0, 0), pv, pr).to_multiset()));
            }
            while i < n.children.len()
                invariant
                    i <= n.children@.len(),
                    pr == opt_view(prune),
                    pv == parts_view(path@),
                    paths_view(out@).to_multiset().add(pending_emits(tasks_view(stack@), pr).to_multiset())
                        == out0.add(pending_emits(rest, pr).to_multiset()).add(
                        walk_kids(n.children@.subrange(0, i as int), pv, pr).to_multiset()),
                    load(tasks_view(stack@)) <= load(rest) + size_kids(n.children@.subrange(0, i as int)),
                decreases n.children@.len() - i,
            {
                let c = &n.children[i];
                let ghost kids = n.children@.subrange(0, i as int + 1);
                let ghost prev = n.children@.subrange(0, i as int);
                let ghost sv0 = tasks_view(stack@);
                let ghost ov0 = paths_view(out@);
                assert(kids.subrange(0, kids.len() - 1) =~= prev);
                assert(kids[kids.len() - 1] == *c);
                if !is_match(c.name.as_str(), prune) {
                    let cp = child_path(&path, &c.name);
                    let ghost cpv = parts_view(cp@);
                    let e = EntryPath { parts: cp };
                    let again = e.copy();
                    out.push(e);
                    stack.push((c, again.parts));
                    proof {
                        let sv = tasks_view(stack@);
                        assert(sv.drop_last() =~= sv0);
                        assert(sv.last() == (*c, cpv));
                        assert(paths_view(out@) =~= ov0.push(cpv));
                        assert(walk_kids(kids, pv, pr) == walk_kids(prev, pv, pr) + walk_node(*c, cpv, pr).push(cpv));
                        assert(walk_kids(kids, pv, pr).to_multiset() =~= walk_kids(prev, pv, pr).to_multiset().add(
                            walk_node(*c, cpv, pr).to_multiset()).insert(cpv));
                        assert(pending_emits(sv, pr).to_multiset() =~= pending_emits(sv0, pr).to_multiset().add(
                            walk_node(*c, cpv, pr).to_multiset()));
                        assert(load(sv) == load(sv0) + size(*c));
                        assert(size_kids(kids) == size_kids(prev) + size(*c));
                        broadcast use vstd::multiset::group_multiset_axioms;
                        let a = out0.add(pending_emits(rest, pr).to_multiset());
                        let nm = walk_node(*c, cpv, pr).to_multiset();
                        assert(ov0.to_multiset().add(pending_emits(sv0, pr).to_multiset()) == a.add(
                            walk_kids(prev, pv, pr).to_multiset()));
                        assert(paths_view(out@).to_multiset().add(pending_emits(sv, pr).to_multiset()) =~= ov0.to_multiset().add(
                            pending_emits(sv0, pr).to_multiset()).add(nm).insert(cpv));
                        assert(a.add(walk_kids(kids, pv, pr).to_multiset()) =~= a.add(walk_kids(prev, pv, pr).to_multiset()).add(
                            nm).insert(cpv));
                    }
                } else {
                    assert(walk_kids(kids, pv, pr) =~= walk_kids(prev, pv, pr));
                    assert(size_kids(kids) == size_kids(prev) + size(*c));
                }
                i = i + 1;
                assert(n.children@.subrange(0, i as int) == kids);
                assert(paths_view(out@).to_multiset().add(pending_emits(tasks_view(stack@), pr).to_multiset())
                    =~= out0.add(pending_emits(rest, pr).to_multiset()).add(
                    walk_kids(n.children@.subrange(0, i as int), pv, pr).to_multiset()));
            }
            assert(n.children@.subrange(0, i as int) =~= n.children@);
        } else {
            assert(walk_node(*n, pv, pr) =~= seq![]);
            assert(paths_view(out@).to_multiset().add(pending_emits(tasks_view(stack@), pr).to_multiset())
                =~= w.to_multiset());
        }
        assert(load(before) == load(rest) + size(*n));
    }
    assert(tasks_view(stack@) =~= Seq::<(Node, PathModel)>::empty());
    assert(paths_view(out@).to_multiset() =~= w.to_multiset());
    out
}

} // verus!
