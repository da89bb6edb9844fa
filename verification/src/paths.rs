//! Plain-string path arithmetic used by the index: joining a directory path
//! with a child name, and taking the parent directory of a path.
//!
//! Paths are plain strings with `/` as the separator and no trailing
//! separator. The parent of a path is the prefix before its last separator;
//! it is `/` for a child of the root, the empty string for a bare name, and
//! `.` for a path that has no parent at all (the empty path or `/` itself).

use vstd::prelude::*;
use vstd::string::StrSliceExecFns;
use vstd::string::StringExecFns;

verus! {

/// Index of the last `/` in `p`, or `-1` if `p` holds none.
pub open spec fn last_slash_index(p: Seq<char>) -> int
    decreases p.len(),
{
    if p.len() == 0 {
        -1
    } else if p.last() == '/' {
        p.len() - 1
    } else {
        last_slash_index(p.drop_last())
    }
}

/// `last_slash_index` points at the last separator: a separator stands there,
/// and none stands after it.
pub proof fn lemma_last_slash_index(p: Seq<char>)
    ensures
        -1 <= last_slash_index(p) < p.len(),
        last_slash_index(p) >= 0 ==> p[last_slash_index(p)] == '/',
        forall|j: int| last_slash_index(p) < j < p.len() ==> p[j] != '/',
    decreases p.len(),
{
    if p.len() > 0 && p.last() != '/' {
        lemma_last_slash_index(p.drop_last());
        assert(forall|j: int| 0 <= j < p.len() - 1 ==> p.drop_last()[j] == p[j]);
    }
}

/// The parent directory of a path string.
pub open spec fn spec_parent_dir(p: Seq<char>) -> Seq<char> {
    if p.len() == 0 || (p.len() == 1 && p[0] == '/') {
        "."@
    } else if last_slash_index(p) == -1 {
        Seq::empty()
    } else if last_slash_index(p) == 0 {
        seq!['/']
    } else {
        p.subrange(0, last_slash_index(p))
    }
}

/// A child's path under a directory.
pub open spec fn spec_join_path(dir: Seq<char>, name: Seq<char>) -> Seq<char> {
    dir + seq!['/'] + name
}

/// Parent directory of `path`, as recorded in the inverse table.
pub fn parent_dir(path: &String) -> (r: String)
    ensures
        r@ == spec_parent_dir(path@),
{
    let s = path.as_str();
    let n = s.unicode_len();
    proof {
        lemma_last_slash_index(path@);
    }
    let mut i: usize = n;
    let mut found: bool = false;
    while i > 0 && !found
        invariant
            i <= n,
            n == path@.len(),
            s@ == path@,
            !found ==> forall|j: int| i <= j < n ==> path@[j] != '/',
            found ==> 0 < i <= n && path@[i - 1] == '/'
                && forall|j: int| i <= j < n ==> path@[j] != '/',
        decreases i + (if found { 0int } else { 1int }),
    {
        if s.get_char(i - 1) == '/' {
            found = true;
        } else {
            i -= 1;
        }
    }
    if !found {
        if n == 0 {
            ".".to_owned()
        } else {
            String::new()
        }
    } else if i == 1 {
        if n == 1 {
            ".".to_owned()
        } else {
            proof {
                reveal_strlit("/");
                assert("/"@ =~= seq!['/']);
            }
            "/".to_owned()
        }
    } else {
        let r = s.substring_char(0, i - 1).to_owned();
        proof {
            assert(last_slash_index(path@) == i - 1);
        }
        r
    }
}

/// The path of a child named `name` inside the directory at `dir`.
pub fn join_path(dir: &String, name: &String) -> (r: String)
    ensures
        r@ == spec_join_path(dir@, name@),
{
    let mut r = dir.clone();
    r.append("/");
    r.append(name.as_str());
    proof {
        reveal_strlit("/");
        assert("/"@ =~= seq!['/']);
    }
    r
}

} // verus!
