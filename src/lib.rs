//! A directory-tree walker with subtree pruning and name selection by
//! regular expression, with its laws proved over a model of the tree.

mod cli;
mod fanout;
mod laws;
mod pattern;
mod tree;

pub use cli::{
    _main, base_name, ignore_source, ignore_text, kept_children, lemma_default_prune, lemma_select_is_post_filter,
    opt_text, prune_of, selected, shown, Cli, WalkError, DEFAULT_IGNORE,
};
pub use fanout::enumerate_fan_out;
pub use laws::{
    clear, has_path, kids_distinct, kids_have, lemma_complete_without_pruning, lemma_emitted_exactly, lemma_modes_agree,
    lemma_no_duplicates, lemma_pruned_never_emitted, names_distinct,
};
pub use pattern::{is_match, opt_view, pruned, regex_compiles, regex_finds, Pattern};
pub use tree::{child_path, enumerate, parts_view, paths_view, walk, walk_kids, walk_node, EntryPath, Node, PathModel};
