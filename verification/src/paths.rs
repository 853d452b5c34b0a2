//! Path arithmetic of the facade: the parent directory that the write
//! operation creates before writing, and the joining of a directory and a
//! file name that the image-save operation uses.
//!
//! Paths are plain strings with `/` as the separator. The parent of a path is
//! everything before its last separator — the root `/` alone when that
//! separator is the leading one — and a path without a separator has no
//! parent, so the write operation creates nothing for it.
use vstd::prelude::*;
use vstd::string::StrSliceExecFns;
use vstd::string::StringExecFns;

verus! {

/// The position of the last `/` in `s`, or `-1` when `s` has none.
pub open spec fn last_sep_idx(s: Seq<char>) -> int
    decreases s.len(),
{
    if s.len() == 0 {
        -1
    } else if s[s.len() - 1] == '/' {
        s.len() - 1
    } else {
        last_sep_idx(s.drop_last())
    }
}

/// The parent directory of a path: what stands before the last separator,
/// the root when the last separator leads the path, nothing when the path
/// has no separator.
pub open spec fn parent_of(s: Seq<char>) -> Option<Seq<char>> {
    let i = last_sep_idx(s);
    if i < 0 {
        None
    } else if i == 0 {
        Some(seq!['/'])
    } else {
        Some(s.subrange(0, i))
    }
}

/// `last_sep_idx` points at the last separator: it lies in range, holds a
/// `/`, and nothing after it is one; when it is `-1` the path has none.
pub proof fn lemma_last_sep_idx(s: Seq<char>)
    ensures
        -1 <= last_sep_idx(s) < s.len(),
        last_sep_idx(s) >= 0 ==> s[last_sep_idx(s)] == '/',
        forall|j: int| last_sep_idx(s) < j < s.len() ==> s[j] != '/',
    decreases s.len(),
{
    if s.len() > 0 && s[s.len() - 1] != '/' {
        lemma_last_sep_idx(s.drop_last());
        assert forall|j: int| last_sep_idx(s) < j < s.len() implies s[j] != '/' by {
            if j < s.len() - 1 {
                assert(s.drop_last()[j] == s[j]);
            }
        }
    }
}

/// The parent directory of `path`, as the write operation creates it.
pub fn parent_dir(path: &str) -> (r: Option<String>)
    ensures
        match r {
            Some(p) => parent_of(path@) == Some(p@),
            None => parent_of(path@) is None,
        },
{
    let n: usize = path.unicode_len();
    let mut i: usize = n;
    while i > 0
        invariant
            i <= n,
            n == path@.len(),
            forall|j: int| i <= j < n ==> path@[j] != '/',
        decreases i,
    {
        let c: char = path.get_char(i - 1);
        if c == '/' {
            proof {
                lemma_last_sep_idx(path@);
                let l = last_sep_idx(path@);
                if l < i - 1 {
                    assert(path@[i - 1] != '/');
                } else if l > i - 1 {
                    assert(path@[l] != '/');
                }
                assert(l == i - 1);
            }
            if i == 1 {
                let root = String::from_str("/");
                proof {
                    reveal_strlit("/");
                    assert(root@ =~= seq!['/']);
                }
                return Some(root);
            } else {
                let p = path.substring_char(0, i - 1);
                return Some(p.to_owned());
            }
        }
        i = i - 1;
    }
    proof {
        lemma_last_sep_idx(path@);
        let l = last_sep_idx(path@);
        if l >= 0 {
            assert(path@[l] != '/');
        }
    }
    None
}

/// `dir` and `name` joined with a single separator: `name` is appended after
/// a `/`, which is not doubled when `dir` already ends with one.
pub open spec fn joined(dir: Seq<char>, name: Seq<char>) -> Seq<char> {
    if dir.len() > 0 && dir[dir.len() - 1] == '/' {
        dir + name
    } else {
        dir + seq!['/'] + name
    }
}

/// Joins a directory and a file name into one path.
pub fn join_path(dir: &str, name: &str) -> (r: String)
    ensures
        r@ == joined(dir@, name@),
{
    let n: usize = dir.unicode_len();
    let mut s: String = dir.to_owned();
    if n == 0 || dir.get_char(n - 1) != '/' {
        s.append("/");
        proof {
            reveal_strlit("/");
            assert("/"@ =~= seq!['/']);
        }
    }
    s.append(name);
    proof {
        assert(s@ =~= joined(dir@, name@));
    }
    s
}

} // verus!
