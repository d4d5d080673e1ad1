use vstd::prelude::*;

verus! {

/// One substitution rule.
///
/// `from` is searched for literally and replaced by `to`. `times` bounds the
/// number of replacements; `None` replaces every occurrence. `name` is a label
/// that never affects behaviour.
pub struct Item {
    pub name: Option<String>,
    pub from: String,
    pub to: String,
    pub times: Option<usize>,
}

/// What one run needs: the file to rewrite, the file that holds the rules,
/// and how talkative the caller wants to be.
pub struct Config {
    pub target_filename: String,
    pub pattern_filename: String,
    pub verbosity: u64,
}

} // verus!
