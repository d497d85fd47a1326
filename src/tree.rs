use vstd::prelude::*;

use crate::pattern::{is_match, opt_view, pruned, Pattern};

verus! {

/// One object of a directory tree: a file, or a directory with its children
/// in the order a directory read gives them.
pub struct Node {
    pub name: String,
    pub is_dir: bool,
    pub children: Vec<Node>,
}

/// A path below the walk's root, as its components (the root excluded).
pub struct EntryPath {
    pub parts: Vec<String>,
}

/// A path in the model: one character sequence per component.
pub type PathModel = Seq<Seq<char>>;

pub open spec fn parts_view(v: Seq<String>) -> PathModel {
    v.map_values(|s: String| s@)
}

impl View for EntryPath {
    type V = PathModel;

    open spec fn view(&self) -> PathModel {
        parts_view(self.parts@)
    }
}

impl EntryPath {
    /// A copy of this path.
    pub fn copy(&self) -> (r: EntryPath)
        ensures
            r@ == self@,
    {
        let mut parts: Vec<String> = Vec::new();
        let mut i: usize = 0;
        while i < self.parts.len()
            invariant
                i <= self.parts@.len(),
                parts@ == self.parts@.subrange(0, i as int),
            decreases self.parts@.len() - i,
        {
            parts.push(self.parts[i].clone());
            i = i + 1;
            assert(parts@ =~= self.parts@.subrange(0, i as int));
        }
        assert(self.parts@.subrange(0, i as int) =~= self.parts@);
        EntryPath { parts }
    }
}

/// The models of a sequence of emitted paths.
pub open spec fn paths_view(v: Seq<EntryPath>) -> Seq<PathModel> {
    v.map_values(|e: EntryPath| e@)
}

/// What the walk emits below `n`, whose own path is `path`: each child that
/// the prune pattern does not catch, after everything emitted below it,
/// children in read order.
pub open spec fn walk_node(n: Node, path: PathModel, prune: Option<Seq<char>>) -> Seq<PathModel>
    decreases n, 1int,
{
    if n.is_dir {
        walk_kids(n.children@, path, prune)
    } else {
        seq![]
    }
}

/// What the walk emits for the children `kids` of the directory at `path`.
pub open spec fn walk_kids(kids: Seq<Node>, path: PathModel, prune: Option<Seq<char>>) -> Seq<PathModel>
    decreases kids, 0int,
{
    if kids.len() == 0 {
        seq![]
    } else {
        let c = kids[kids.len() - 1];
        let cp = path.push(c.name@);
        walk_kids(kids.subrange(0, kids.len() - 1), path, prune) + if pruned(prune, c.name@) {
            seq![]
        } else {
            walk_node(c, cp, prune).push(cp)
        }
    }
}

/// What a walk from `root` emits: nothing when the root's own name is
/// caught, else everything below it.
pub open spec fn walk(root: Node, prune: Option<Seq<char>>) -> Seq<PathModel> {
    if pruned(prune, root.name@) {
        seq![]
    } else {
        walk_node(root, seq![], prune)
    }
}

/// The path of child `name` of the directory at `parent`.
pub fn child_path(parent: &Vec<String>, name: &String) -> (r: Vec<String>)
    ensures
        parts_view(r@) == parts_view(parent@).push(name@),
{
    let mut r: Vec<String> = Vec::new();
    let mut i: usize = 0;
    while i < parent.len()
        invariant
            i <= parent@.len(),
            r@ == parent@.subrange(0, i as int),
        decreases parent@.len() - i,
    {
        r.push(parent[i].clone());
        i = i + 1;
        assert(r@ =~= parent@.subrange(0, i as int));
    }
    assert(parent@.subrange(0, i as int) =~= parent@);
    r.push(name.clone());
    assert(parts_view(r@) =~= parts_view(parent@).push(name@));
    r
}

/// Appends to `out` what the walk emits below `n`, whose path is `path`.
fn walk_into(n: &Node, path: &Vec<String>, prune: &Option<Pattern>, out: &mut Vec<EntryPath>)
    ensures
        paths_view(final(out)@) == paths_view(old(out)@) + walk_node(*n, parts_view(path@), opt_view(prune)),
    decreases n,
{
    let ghost pv = parts_view(path@);
    let ghost pr = opt_view(prune);
    if !n.is_dir {
        assert(paths_view(out@) =~= paths_view(out@) + walk_node(*n, pv, pr));
        return;
    }
    let ghost start = paths_view(out@);
    let mut i: usize = 0;
    assert(n.children@.subrange(0, 0) =~= Seq::<Node>::empty());
    assert(paths_view(out@) =~= start + walk_kids(n.children@.subrange(0, 0), pv, pr));
    while i < n.children.len()
        invariant
            i <= n.children@.len(),
            pv == parts_view(path@),
            pr == opt_view(prune),
            paths_view(out@) == start + walk_kids(n.children@.subrange(0, i as int), pv, pr),
        decreases n.children@.len() - i,
    {
        let c = &n.children[i];
        let ghost before = paths_view(out@);
        let ghost kids = n.children@.subrange(0, i as int + 1);
        assert(kids.subrange(0, kids.len() - 1) =~= n.children@.subrange(0, i as int));
        assert(kids[kids.len() - 1] == *c);
        if !is_match(c.name.as_str(), prune) {
            let cp = child_path(path, &c.name);
            assert(decreases_to!(*n => n.children));
            assert(decreases_to!(n.children => n.children@));
            assert(decreases_to!(n.children@ => n.children@[i as int]));
            walk_into(c, &cp, prune, out);
            let ghost mid = paths_view(out@);
            out.push(EntryPath { parts: cp });
            assert(paths_view(out@) =~= mid.push(pv.push(c.name@)));
        } else {
            assert(walk_kids(kids, pv, pr) =~= walk_kids(n.children@.subrange(0, i as int), pv, pr));
        }
        i = i + 1;
        assert(paths_view(out@) =~= start + walk_kids(n.children@.subrange(0, i as int), pv, pr));
    }
    assert(n.children@.subrange(0, i as int) =~= n.children@);
}

/// Enumerates everything below `root` that the prune pattern leaves, each
/// entry after everything emitted below it.
pub fn enumerate(root: &Node, prune: &Option<Pattern>) -> (r: Vec<EntryPath>)
    ensures
        paths_view(r@) == walk(*root, opt_view(prune)),
{
    let mut out: Vec<EntryPath> = Vec::new();
    if is_match(root.name.as_str(), prune) {
        assert(paths_view(out@) =~= walk(*root, opt_view(prune)));
        return out;
    }
    let top: Vec<String> = Vec::new();
    assert(parts_view(top@) =~= seq![]);
    walk_into(root, &top, prune, &mut out);
    assert(paths_view(out@) =~= walk(*root, opt_view(prune)));
    out
}

} // verus!
