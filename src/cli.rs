use vstd::prelude::*;

use crate::fanout::enumerate_fan_out;
use crate::laws::lemma_emitted_exactly;
use crate::pattern::{is_match, opt_view, pruned, regex_compiles, regex_finds, Pattern};
use crate::tree::{child_path, enumerate, paths_view, walk, EntryPath, Node, PathModel};

verus! {

/// The prune pattern used when none is given: the metadata directories of
/// the common version-control systems.
pub const DEFAULT_IGNORE: &'static str = "^(\\.git|\\.hg|\\.svn|_darcs|\\.bzr)$";

/// What can go wrong while setting up or running a listing.
pub enum WalkError {
    Regex(regex::Error),
    Other(String),
}

pub open spec fn opt_text(s: Option<String>) -> Option<Seq<char>> {
    match s {
        Some(t) => Some(t@),
        None => None,
    }
}

/// The prune pattern text: the one given, else the one from the
/// environment, else the default.
pub open spec fn ignore_source(given: Option<Seq<char>>, env: Option<Seq<char>>) -> Seq<char> {
    match given {
        Some(g) => g,
        None => match env {
            Some(e) => e,
            None => DEFAULT_IGNORE@,
        },
    }
}

/// The prune pattern a text stands for: an empty text disables pruning.
pub open spec fn prune_of(text: Seq<char>) -> Option<Seq<char>> {
    if text.len() == 0 {
        None
    } else {
        Some(text)
    }
}

/// Whether the select pattern lets a base name through; an absent one lets
/// everything through.
pub open spec fn selected(select: Option<Seq<char>>, name: Seq<char>) -> bool {
    match select {
        Some(p) => regex_finds(p, name),
        None => true,
    }
}

/// The base name of a path: its last component.
pub open spec fn base_name(q: PathModel) -> Seq<char> {
    q[q.len() - 1]
}

/// What a listing of `root` shows: the walk's entries whose base name the
/// select pattern lets through, in the walk's order.
pub open spec fn shown(root: Node, prune: Option<Seq<char>>, select: Option<Seq<char>>) -> Seq<PathModel> {
    walk(root, prune).filter(|q: PathModel| selected(select, base_name(q)))
}

/// The paths of the children `names` of `parent` that the prune pattern
/// leaves, in read order.
pub open spec fn kept_children(parent: PathModel, names: Seq<Seq<char>>, prune: Option<Seq<char>>) -> Seq<PathModel>
    decreases names.len(),
{
    if names.len() == 0 {
        seq![]
    } else {
        let n = names[names.len() - 1];
        kept_children(parent, names.subrange(0, names.len() - 1), prune) + if pruned(prune, n) {
            seq![]
        } else {
            seq![parent.push(n)]
        }
    }
}

/// Picks the prune pattern text from the given one, the environment's, or
/// the default.
pub fn ignore_text(given: &Option<String>, env: &Option<String>) -> (r: String)
    ensures
        r@ == ignore_source(opt_text(*given), opt_text(*env)),
{
    match given {
        Some(g) => g.clone(),
        None => match env {
            Some(e) => e.clone(),
            None => DEFAULT_IGNORE.to_owned(),
        },
    }
}

/// The walker's settings: a prune pattern, a select pattern, and whether
/// subtrees are explored concurrently.
pub struct Cli {
    matchre: Option<Pattern>,
    ignore: Option<Pattern>,
    is_async: bool,
}

impl Cli {
    pub closed spec fn prune_view(&self) -> Option<Seq<char>> {
        opt_view(&self.ignore)
    }

    pub closed spec fn select_view(&self) -> Option<Seq<char>> {
        opt_view(&self.matchre)
    }

    pub closed spec fn async_view(&self) -> bool {
        self.is_async
    }

    /// Compiles the settings. The prune pattern is `ignore`, else
    /// `env_ignore`, else the default, and an empty text disables it; the
    /// select pattern is `matches`, if given.
    pub fn new(ignore: Option<String>, env_ignore: Option<String>, matches: Option<String>, is_async: bool) -> (r: Result<Cli, WalkError>)
        ensures
            ({
                let t = ignore_source(opt_text(ignore), opt_text(env_ignore));
                &&& r is Ok <==> ((t.len() == 0 || regex_compiles(t)) && (matches matches Some(m) ==> regex_compiles(m@)))
                &&& r matches Ok(c) ==> (c.prune_view() == prune_of(t) && c.select_view() == opt_text(matches)
                    && c.async_view() == is_async)
                &&& r matches Err(e) ==> e is Regex
            }),
    {
        let text = ignore_text(&ignore, &env_ignore);
        let ignore = if !text.as_str().is_empty() {
            match Pattern::new(text.as_str()) {
                Ok(p) => Some(p),
                Err(e) => {
                    return Err(WalkError::Regex(e));
                },
            }
        } else {
            None
        };
        let matchre = match matches {
            Some(s) => match Pattern::new(s.as_str()) {
                Ok(p) => Some(p),
                Err(e) => {
                    return Err(WalkError::Regex(e));
                },
            },
            None => None,
        };
        Ok(Cli { matchre, ignore, is_async })
    }

    pub fn is_async(&self) -> (r: bool)
        ensures
            r == self.async_view(),
    {
        self.is_async
    }

    /// Whether the prune pattern catches a base name.
    pub fn prunes(&self, name: &str) -> (r: bool)
        ensures
            r == pruned(self.prune_view(), name@),
    {
        is_match(name, &self.ignore)
    }

    /// Whether the select pattern lets a base name through.
    pub fn selects(&self, name: &str) -> (r: bool)
        ensures
            r == selected(self.select_view(), name@),
    {
        match &self.matchre {
            Some(_) => is_match(name, &self.matchre),
            None => true,
        }
    }

    /// The children of the directory at `parent`, read as `names`, that the
    /// walk goes on with: those the prune pattern does not catch, in order.
    pub fn children(&self, parent: &EntryPath, names: &Vec<String>) -> (r: Vec<EntryPath>)
        ensures
            paths_view(r@) == kept_children(parent@, names@.map_values(|s: String| s@), self.prune_view()),
    {
        let ghost nv = names@.map_values(|s: String| s@);
        let mut r: Vec<EntryPath> = Vec::new();
        let mut i: usize = 0;
        assert(nv.subrange(0, 0) =~= Seq::<Seq<char>>::empty());
        assert(paths_view(r@) =~= kept_children(parent@, nv.subrange(0, 0), self.prune_view()));
        while i < names.len()
            invariant
                i <= names@.len(),
                nv == names@.map_values(|s: String| s@),
                paths_view(r@) == kept_children(parent@, nv.subrange(0, i as int), self.prune_view()),
            decreases names@.len() - i,
        {
            let ghost sub = nv.subrange(0, i as int + 1);
            assert(sub.subrange(0, i as int) =~= nv.subrange(0, i as int));
            assert(sub[i as int] == names@[i as int]@);
            if !self.prunes(names[i].as_str()) {
                let p = child_path(&parent.parts, &names[i]);
                r.push(EntryPath { parts: p });
            }
            i = i + 1;
            assert(paths_view(r@) =~= kept_children(parent@, nv.subrange(0, i as int), self.prune_view()));
        }
        assert(nv.subrange(0, i as int) =~= nv);
        r
    }

    /// Enumerates `root` with the prune pattern, sequentially or by fan-out
    /// as the settings say: the same entries either way, in the walk's own
    /// order when sequential.
    pub fn files(&self, root: &Node) -> (r: Vec<EntryPath>)
        ensures
            paths_view(r@).to_multiset() == walk(*root, self.prune_view()).to_multiset(),
            !self.async_view() ==> paths_view(r@) == walk(*root, self.prune_view()),
    {
        if self.is_async {
            enumerate_fan_out(root, &self.ignore)
        } else {
            enumerate(root, &self.ignore)
        }
    }

    /// The entries of a walk of `root` whose base name the select pattern
    /// lets through, in the walk's order.
    pub fn listing(&self, root: &Node) -> (r: Vec<EntryPath>)
        ensures
            paths_view(r@) == shown(*root, self.prune_view(), self.select_view()),
    {
        let all = enumerate(root, &self.ignore);
        let ghost av = paths_view(all@);
        let ghost pred = |q: PathModel| selected(self.select_view(), base_name(q));
        let mut r: Vec<EntryPath> = Vec::new();
        let mut i: usize = 0;
        assert(av.subrange(0, 0) =~= Seq::<PathModel>::empty());
        while i < all.len()
            invariant
                i <= all@.len(),
                av == paths_view(all@),
                av == walk(*root, self.prune_view()),
                pred == (|q: PathModel| selected(self.select_view(), base_name(q))),
                paths_view(r@) == av.subrange(0, i as int).filter(pred),
            decreases all@.len() - i,
        {
            let ghost sub = av.subrange(0, i as int + 1);
            assert(sub.drop_last() =~= av.subrange(0, i as int));
            let e = &all[i];
            proof {
                assert(av.contains(av[i as int]));
                lemma_emitted_exactly(*root, self.prune_view(), av[i as int]);
            }
            let n = e.parts.len();
            let keep = self.selects(e.parts[n - 1].as_str());
            assert(keep == pred(sub.last()));
            let ghost before = paths_view(r@);
            proof {
                reveal(Seq::filter);
            }
            if keep {
                let c = e.copy();
                r.push(c);
                assert(paths_view(r@) =~= before.push(sub.last()));
                assert(sub.filter(pred) == sub.drop_last().filter(pred).push(sub.last()));
            } else {
                assert(sub.filter(pred) == sub.drop_last().filter(pred));
            }
            i = i + 1;
            assert(av.subrange(0, i as int) == sub);
        }
        assert(av.subrange(0, i as int) =~= av);
        r
    }
}


/// Sets the walker up from the given, environment and select pattern texts
/// and lists `root` sequentially: the entries the select pattern lets
/// through, or the error of a pattern that does not compile.
pub fn _main(ignore: Option<String>, env_ignore: Option<String>, matches: Option<String>, root: &Node) -> (r: Result<
    Vec<EntryPath>,
    WalkError,
>)
    ensures
        ({
            let t = ignore_source(opt_text(ignore), opt_text(env_ignore));
            &&& r is Ok <==> ((t.len() == 0 || regex_compiles(t)) && (matches matches Some(m) ==> regex_compiles(m@)))
            &&& r matches Ok(v) ==> paths_view(v@) == shown(*root, prune_of(t), opt_text(matches))
            &&& r matches Err(e) ==> e is Regex
        }),
{
    match Cli::new(ignore, env_ignore, matches, false) {
        Ok(cli) => Ok(cli.listing(root)),
        Err(e) => Err(e),
    }
}

proof fn lemma_filter_keeps_all(s: Seq<PathModel>, pred: spec_fn(PathModel) -> bool)
    requires
        forall|q: PathModel| #[trigger] pred(q),
    ensures
        s.filter(pred) == s,
    decreases s.len(),
{
    reveal(Seq::filter);
    if s.len() > 0 {
        lemma_filter_keeps_all(s.drop_last(), pred);
        assert(s.drop_last().push(s.last()) =~= s);
    }
}

/// Listing with a select pattern shows exactly what listing without one
/// shows, filtered afterwards by that pattern on base names.
pub proof fn lemma_select_is_post_filter(root: Node, prune: Option<Seq<char>>, select: Seq<char>)
    ensures
        shown(root, prune, Some(select)) == shown(root, prune, None).filter(
            |q: PathModel| regex_finds(select, base_name(q)),
        ),
{
    let all = |q: PathModel| selected(None, base_name(q));
    lemma_filter_keeps_all(walk(root, prune), all);
    let by_select = |q: PathModel| selected(Some(select), base_name(q));
    let by_finds = |q: PathModel| regex_finds(select, base_name(q));
    assert(by_select =~= by_finds);
}

/// With no prune pattern given and none in the environment, the default one
/// is in force.
pub proof fn lemma_default_prune()
    ensures
        prune_of(ignore_source(None, None)) == Some(DEFAULT_IGNORE@),
{
    reveal_strlit("^(\\.git|\\.hg|\\.svn|_darcs|\\.bzr)$");
}

} // verus!
