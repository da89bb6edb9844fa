//! Session configuration: where the index is written, which paths are
//! ignored, and whether the scan fans out concurrently.

use vstd::prelude::*;

verus! {

/// Configuration of an indexing or update session.
#[derive(Debug)]
pub struct BOFConfig {
    pub output_dir: String,
    pub ignore_paths: Vec<String>,
    pub parallel: bool,
}

impl BOFConfig {
    /// The default output directory: a hidden index directory.
    pub fn default_output_dir() -> (r: String)
        ensures
            r@ == ".bof"@,
    {
        ".bof".to_owned()
    }

    /// The default ignore list: the version-control directory.
    pub fn default_ignore_paths() -> (r: Vec<String>)
        ensures
            r.deep_view() == seq![".git"@],
    {
        let mut r: Vec<String> = Vec::new();
        r.push(".git".to_owned());
        proof {
            assert(r.deep_view() =~= seq![".git"@]);
        }
        r
    }

    /// The configured ignore set, as a sequence of path strings.
    pub open spec fn ignore_model(&self) -> Seq<Seq<char>> {
        self.ignore_paths.deep_view()
    }

    /// Whether `path` stands in the configured ignore set.
    pub fn is_ignored(&self, path: &String) -> (r: bool)
        ensures
            r == self.ignore_model().contains(path@),
    {
        let n = self.ignore_paths.len();
        let mut i: usize = 0;
        while i < n
            invariant
                n == self.ignore_paths.len(),
                i <= n,
                forall|j: int| 0 <= j < i ==> self.ignore_paths.deep_view()[j] != path@,
            decreases n - i,
        {
            if self.ignore_paths[i] == *path {
                proof {
                    assert(self.ignore_model()[i as int] == path@);
                }
                return true;
            }
            i += 1;
        }
        proof {
            assert(forall|j: int| 0 <= j < self.ignore_model().len()
                ==> self.ignore_model()[j] != path@);
        }
        false
    }
}

impl Default for BOFConfig {
    /// The default session: the hidden output directory, the
    /// version-control directory ignored, concurrency off.
    fn default() -> (r: Self)
        ensures
            r.output_dir@ == ".bof"@,
            r.ignore_paths.deep_view() == seq![".git"@],
            !r.parallel,
    {
        BOFConfig {
            output_dir: BOFConfig::default_output_dir(),
            ignore_paths: BOFConfig::default_ignore_paths(),
            parallel: false,
        }
    }
}

} // verus!
