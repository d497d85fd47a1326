use vstd::prelude::*;

use crate::pattern::pruned;
use crate::tree::{walk, walk_kids, walk_node, Node, PathModel};

verus! {

/// Whether `r` is a (non-empty) relative path to an object below `n`.
pub open spec fn has_path(n: Node, r: PathModel) -> bool
    decreases n, 1int,
{
    n.is_dir && r.len() > 0 && kids_have(n.children@, r)
}

/// Whether `r` is a relative path that starts at one of `kids`.
pub open spec fn kids_have(kids: Seq<Node>, r: PathModel) -> bool
    decreases kids, 0int,
{
    if kids.len() == 0 || r.len() == 0 {
        false
    } else {
        let c = kids[kids.len() - 1];
        (c.name@ == r[0] && (r.len() == 1 || has_path(c, r.subrange(1, r.len() as int))))
            || kids_have(kids.subrange(0, kids.len() - 1), r)
    }
}

/// No component of `r` is caught by the prune pattern.
pub open spec fn clear(prune: Option<Seq<char>>, r: PathModel) -> bool {
    forall|i: int| 0 <= i < r.len() ==> !pruned(prune, #[trigger] r[i])
}

/// `q` lies strictly below `path`; `rest` is the part after it.
pub open spec fn below(q: PathModel, path: PathModel) -> bool {
    q.len() > path.len() && q.subrange(0, path.len() as int) == path
}

pub open spec fn rest(q: PathModel, path: PathModel) -> PathModel {
    q.subrange(path.len() as int, q.len() as int)
}

/// Every child of every directory below `n` has a name unlike its siblings'.
pub open spec fn names_distinct(n: Node) -> bool
    decreases n, 1int,
{
    kids_distinct(n.children@)
}

pub open spec fn kids_distinct(kids: Seq<Node>) -> bool
    decreases kids, 0int,
{
    if kids.len() == 0 {
        true
    } else {
        let c = kids[kids.len() - 1];
        &&& kids_distinct(kids.subrange(0, kids.len() - 1))
        &&& names_distinct(c)
        &&& forall|j: int| 0 <= j < kids.len() - 1 ==> (#[trigger] kids[j]).name@ != c.name@
    }
}

proof fn lemma_node_exact(n: Node, path: PathModel, prune: Option<Seq<char>>, q: PathModel)
    ensures
        walk_node(n, path, prune).contains(q) <==> (below(q, path) && has_path(n, rest(q, path))
            && clear(prune, rest(q, path))),
    decreases n, 1int,
{
    if n.is_dir {
        lemma_kids_exact(n.children@, path, prune, q);
    }
}

proof fn lemma_kids_exact(kids: Seq<Node>, path: PathModel, prune: Option<Seq<char>>, q: PathModel)
    ensures
        walk_kids(kids, path, prune).contains(q) <==> (below(q, path) && kids_have(kids, rest(q, path))
            && clear(prune, rest(q, path))),
    decreases kids, 0int,
{
    if kids.len() > 0 {
        let init = kids.subrange(0, kids.len() - 1);
        let c = kids[kids.len() - 1];
        let cp = path.push(c.name@);
        let r = rest(q, path);
        lemma_kids_exact(init, path, prune, q);
        let a = walk_kids(init, path, prune);
        if pruned(prune, c.name@) {
            assert(walk_kids(kids, path, prune) =~= a);
            if below(q, path) && clear(prune, r) {
                assert(!pruned(prune, r[0]));
            }
        } else {
            let b = walk_node(c, cp, prune);
            lemma_node_exact(c, cp, prune, q);
            assert(walk_kids(kids, path, prune) == a + b.push(cp));
            assert((a + b.push(cp)).contains(q) <==> (a.contains(q) || b.contains(q) || q == cp)) by {
                if (a + b.push(cp)).contains(q) {
                    let k = choose|k: int| 0 <= k < (a + b.push(cp)).len() && (a + b.push(cp))[k] == q;
                    if k < a.len() {
                        assert(a[k] == q);
                    } else if k < a.len() + b.len() {
                        assert(b[k - a.len()] == q);
                    }
                }
                if a.contains(q) {
                    let k = choose|k: int| 0 <= k < a.len() && a[k] == q;
                    assert((a + b.push(cp))[k] == q);
                }
                if b.contains(q) {
                    let k = choose|k: int| 0 <= k < b.len() && b[k] == q;
                    assert((a + b.push(cp))[a.len() as int + k] == q);
                }
                if q == cp {
                    assert((a + b.push(cp))[a.len() + b.len() as int] == q);
                }
            }
            if q == cp {
                assert(q.subrange(0, path.len() as int) =~= path);
                assert(r =~= seq![c.name@]);
            }
            if below(q, cp) {
                assert(q.subrange(0, path.len() as int) =~= cp.subrange(0, path.len() as int));
                assert(cp.subrange(0, path.len() as int) =~= path);
                assert(r.subrange(1, r.len() as int) =~= rest(q, cp));
                assert(r[0] == q[path.len() as int]);
                assert(q[path.len() as int] == cp[path.len() as int]);
                if clear(prune, r) {
                    assert forall|i: int| 0 <= i < rest(q, cp).len() implies !pruned(prune, #[trigger] rest(q, cp)[i]) by {
                        assert(rest(q, cp)[i] == r[i + 1]);
                    }
                }
                if clear(prune, rest(q, cp)) {
                    assert forall|i: int| 0 <= i < r.len() implies !pruned(prune, #[trigger] r[i]) by {
                        if i > 0 {
                            assert(r[i] == rest(q, cp)[i - 1]);
                        }
                    }
                }
            }
            if below(q, path) && r[0] == c.name@ && r.len() > 1 {
                assert(q.subrange(0, cp.len() as int) =~= cp);
                assert(r.subrange(1, r.len() as int) =~= rest(q, cp));
            }
            if below(q, path) && r[0] == c.name@ && r.len() == 1 {
                assert(q =~= cp);
            }
        }
    }
}

/// A path is emitted by a walk exactly when it names an object below the
/// root, no component along it (the object's own name included) is caught by
/// the prune pattern, and the root's own name is not caught either.
pub proof fn lemma_emitted_exactly(root: Node, prune: Option<Seq<char>>, q: PathModel)
    ensures
        walk(root, prune).contains(q) <==> (!pruned(prune, root.name@) && has_path(root, q) && clear(prune, q)),
{
    if !pruned(prune, root.name@) {
        lemma_node_exact(root, seq![], prune, q);
        assert(rest(q, seq![]) =~= q);
        assert(q.subrange(0, 0) =~= Seq::<Seq<char>>::empty());
    }
}

/// With no prune pattern, the walk emits exactly the objects below the root.
pub proof fn lemma_complete_without_pruning(root: Node)
    ensures
        walk(root, None).to_set() == Set::new(|q: PathModel| has_path(root, q)),
{
    assert forall|q: PathModel| walk(root, None).to_set().contains(q) <==> has_path(root, q) by {
        lemma_emitted_exactly(root, None, q);
    }
    assert(walk(root, None).to_set() =~= Set::new(|q: PathModel| has_path(root, q)));
}

/// Nothing whose path passes through a caught name is emitted, and the caught
/// directory itself is not either.
pub proof fn lemma_pruned_never_emitted(root: Node, prune: Option<Seq<char>>, q: PathModel, i: int)
    requires
        0 <= i < q.len(),
        pruned(prune, q[i]),
    ensures
        !walk(root, prune).contains(q),
{
    lemma_emitted_exactly(root, prune, q);
}


proof fn lemma_concat_no_duplicates(x: Seq<PathModel>, y: Seq<PathModel>)
    requires
        x.no_duplicates(),
        y.no_duplicates(),
        forall|q: PathModel| x.contains(q) ==> !y.contains(q),
    ensures
        (x + y).no_duplicates(),
{
    let s = x + y;
    assert forall|i: int, j: int| 0 <= i < s.len() && 0 <= j < s.len() && i != j implies s[i] != s[j] by {
        if i < x.len() && j >= x.len() {
            assert(x.contains(s[i]));
            assert(y[j - x.len()] == s[j]);
        } else if j < x.len() && i >= x.len() {
            assert(x.contains(s[j]));
            assert(y[i - x.len()] == s[i]);
        } else if i >= x.len() && j >= x.len() {
            assert(y[i - x.len()] == s[i] && y[j - x.len()] == s[j]);
        }
    }
}

proof fn lemma_kids_have_name(kids: Seq<Node>, r: PathModel)
    requires
        kids_have(kids, r),
    ensures
        exists|j: int| 0 <= j < kids.len() && (#[trigger] kids[j]).name@ == r[0],
    decreases kids.len(),
{
    let init = kids.subrange(0, kids.len() - 1);
    if kids[kids.len() - 1].name@ != r[0] {
        lemma_kids_have_name(init, r);
        let j = choose|j: int| 0 <= j < init.len() && (#[trigger] init[j]).name@ == r[0];
        assert(kids[j] == init[j]);
    }
}

proof fn lemma_node_no_duplicates(n: Node, path: PathModel, prune: Option<Seq<char>>)
    requires
        names_distinct(n),
    ensures
        walk_node(n, path, prune).no_duplicates(),
    decreases n, 1int,
{
    if n.is_dir {
        lemma_kids_no_duplicates(n.children@, path, prune);
    }
}

proof fn lemma_kids_no_duplicates(kids: Seq<Node>, path: PathModel, prune: Option<Seq<char>>)
    requires
        kids_distinct(kids),
    ensures
        walk_kids(kids, path, prune).no_duplicates(),
    decreases kids, 0int,
{
    if kids.len() > 0 {
        let init = kids.subrange(0, kids.len() - 1);
        let c = kids[kids.len() - 1];
        let cp = path.push(c.name@);
        let a = walk_kids(init, path, prune);
        lemma_kids_no_duplicates(init, path, prune);
        if pruned(prune, c.name@) {
            assert(walk_kids(kids, path, prune) =~= a);
        } else {
            let b = walk_node(c, cp, prune);
            lemma_node_no_duplicates(c, cp, prune);
            assert forall|q: PathModel| b.contains(q) implies q != cp && q[path.len() as int] == c.name@ by {
                lemma_node_exact(c, cp, prune, q);
                assert(q.subrange(0, cp.len() as int)[path.len() as int] == q[path.len() as int]);
            }
            let tail = b.push(cp);
            assert forall|i: int, j: int| 0 <= i < tail.len() && 0 <= j < tail.len() && i != j implies tail[i] != tail[j] by {
                if i == b.len() {
                    assert(b.contains(tail[j]));
                } else if j == b.len() {
                    assert(b.contains(tail[i]));
                }
            }
            assert forall|q: PathModel| a.contains(q) implies !tail.contains(q) by {
                lemma_kids_exact(init, path, prune, q);
                lemma_kids_have_name(init, rest(q, path));
                let j = choose|j: int| 0 <= j < init.len() && (#[trigger] init[j]).name@ == rest(q, path)[0];
                assert(init[j] == kids[j]);
                assert(rest(q, path)[0] == q[path.len() as int]);
                if tail.contains(q) {
                    let k = choose|k: int| 0 <= k < tail.len() && tail[k] == q;
                    if k < b.len() {
                        assert(b.contains(tail[k]));
                    }
                }
            }
            lemma_concat_no_duplicates(a, tail);
        }
    }
}

/// In a tree where no two children of one directory share a name, a walk
/// emits no path twice.
pub proof fn lemma_no_duplicates(root: Node, prune: Option<Seq<char>>)
    requires
        names_distinct(root),
    ensures
        walk(root, prune).no_duplicates(),
{
    if !pruned(prune, root.name@) {
        lemma_node_no_duplicates(root, seq![], prune);
    }
}


/// Any enumeration that yields the walk's entries, each as often, in some
/// order (as the fan-out walk does) emits the same set of paths as the
/// sequential walk, and in a tree whose sibling names are distinct it emits
/// none twice.
pub proof fn lemma_modes_agree(root: Node, prune: Option<Seq<char>>, s: Seq<PathModel>)
    requires
        s.to_multiset() == walk(root, prune).to_multiset(),
    ensures
        s.to_set() == walk(root, prune).to_set(),
        names_distinct(root) ==> s.no_duplicates(),
{
    broadcast use vstd::seq_lib::group_to_multiset_ensures;

    let w = walk(root, prune);
    assert forall|q: PathModel| s.to_set().contains(q) <==> w.to_set().contains(q) by {
        assert(s.contains(q) <==> s.to_multiset().count(q) > 0);
        assert(w.contains(q) <==> w.to_multiset().count(q) > 0);
    }
    assert(s.to_set() =~= w.to_set());
    if names_distinct(root) {
        lemma_no_duplicates(root, prune);
        w.lemma_multiset_has_no_duplicates();
        s.lemma_multiset_has_no_duplicates_conv();
    }
}

} // verus!
