//! How an editor starts the server.

use vstd::prelude::*;
use crate::search::{first_index, lemma_first_index, lemma_first_index_at};
use crate::text::string_views;

verus! {

/// The command line that starts the server.
#[derive(Debug)]
pub struct Launch {
    pub command: String,
    pub args: Vec<String>,
}

/// Where a development build of the server may lie, relative to the
/// worktree, in the order of preference.
pub open spec fn development_paths() -> Seq<Seq<char>> {
    seq!["target/release/haproxy-lsp"@, "target/debug/haproxy-lsp"@, "bin/haproxy-lsp"@]
}

/// The command to run, where `found[i]` says whether the development path
/// number `i` was found: the first path found, or `haproxy-lsp`, to be
/// looked up on the search path, where none was.
pub open spec fn chosen_command(found: Seq<bool>) -> Seq<char> {
    match first_index(found, |hit: bool| hit) {
        Some(i) => if i < development_paths().len() {
            development_paths()[i]
        } else {
            "haproxy-lsp"@
        },
        None => "haproxy-lsp"@,
    }
}

/// The development paths, in the order of preference.
pub fn candidate_paths() -> (paths: Vec<String>)
    ensures
        string_views(paths@) == development_paths(),
{
    let mut paths: Vec<String> = Vec::new();
    paths.push("target/release/haproxy-lsp".to_owned());
    paths.push("target/debug/haproxy-lsp".to_owned());
    paths.push("bin/haproxy-lsp".to_owned());
    assert(string_views(paths@) =~= development_paths());
    paths
}

/// The command line that starts the server, where `found[i]` says whether
/// the development path number `i` was found. The server always gets the
/// one argument `--stdio`.
pub fn launch_command(found: &Vec<bool>) -> (launch: Launch)
    ensures
        launch.command@ == chosen_command(found@),
        string_views(launch.args@) == seq!["--stdio"@],
{
    let paths = candidate_paths();
    let mut args: Vec<String> = Vec::new();
    args.push("--stdio".to_owned());
    assert(string_views(args@) =~= seq!["--stdio"@]);
    assert(string_views(paths@).len() == 3);
    let mut i: usize = 0;
    while i < found.len() && i < paths.len()
        invariant
            i <= found.len(),
            i <= paths.len(),
            string_views(paths@) == development_paths(),
            string_views(args@) == seq!["--stdio"@],
            forall|j: int| 0 <= j < i ==> !(#[trigger] found@[j]),
        decreases found.len() - i,
    {
        if found[i] {
            proof {
                lemma_first_index_at(found@, |hit: bool| hit, i as int);
                assert(string_views(paths@)[i as int] == paths@[i as int]@);
            }
            return Launch { command: paths[i].clone(), args };
        }
        i += 1;
    }
    proof {
        lemma_first_index(found@, |hit: bool| hit);
    }
    Launch { command: "haproxy-lsp".to_owned(), args }
}

} // verus!
