//! Default destination paths.
//!
//! When no destination is given, the sample file's path is the source path
//! with `.sample` appended to its filename component. A path is treated as
//! a plain string; the filename component is everything after the last
//! `'/'`. A path whose filename component is empty, `"."` or `".."` has no
//! filename to append to, and yields no default.

use vstd::prelude::*;

verus! {

/// The index where the filename component of `path` starts: just after the
/// last `'/'`, or `0` when there is none.
pub open spec fn file_name_start(path: Seq<char>) -> int
    decreases path.len(),
{
    if path.len() == 0 {
        0
    } else if path.last() == '/' {
        path.len() as int
    } else {
        file_name_start(path.drop_last())
    }
}

/// The filename component of `path`.
pub open spec fn file_name_of(path: Seq<char>) -> Seq<char> {
    path.skip(file_name_start(path))
}

/// Whether `path` has a filename component that a suffix can be appended
/// to: one that is nonempty and neither `"."` nor `".."`.
pub open spec fn has_file_name(path: Seq<char>) -> bool {
    file_name_of(path) != Seq::<char>::empty() && file_name_of(path) != seq!['.']
        && file_name_of(path) != seq!['.', '.']
}

/// The default destination path: the source path with `.sample` appended
/// to its filename component.
pub open spec fn sample_path_of(path: Seq<char>) -> Seq<char> {
    path + seq!['.', 's', 'a', 'm', 'p', 'l', 'e']
}

/// Derives the default sample-file path for `env_file`: the same path with
/// `.sample` appended to its filename component, or `None` when the path
/// has no filename component.
pub fn sample_file_path(env_file: &str) -> (res: Option<String>)
    ensures
        res is Some <==> has_file_name(env_file@),
        res is Some ==> res.unwrap()@ == sample_path_of(env_file@),
{
    let n: usize = env_file.unicode_len();
    let mut start: usize = 0;
    let mut i: usize = 0;
    while i < n
        invariant
            start <= i <= n,
            n == env_file@.len(),
            forall|k: int| start <= k < i ==> env_file@[k] != '/',
            start > 0 ==> env_file@[start - 1] == '/',
        decreases n - i,
    {
        if env_file.get_char(i) == '/' {
            start = i + 1;
        }
        i = i + 1;
    }
    proof {
        lemma_file_name_start_at(env_file@, start as int);
    }
    let len: usize = n - start;
    let dot1 = len == 1 && env_file.get_char(start) == '.';
    let dot2 = len == 2 && env_file.get_char(start) == '.' && env_file.get_char(start + 1) == '.';
    if len == 0 || dot1 || dot2 {
        proof {
            let fname = file_name_of(env_file@);
            if dot1 {
                assert(fname =~= seq!['.']);
            }
            if dot2 {
                assert(fname =~= seq!['.', '.']);
            }
            if len == 0 {
                assert(fname =~= Seq::<char>::empty());
            }
        }
        None
    } else {
        let out = env_file.to_owned().concat(".sample");
        proof {
            reveal_strlit(".sample");
            let fname = file_name_of(env_file@);
            assert(fname == env_file@.skip(start as int));
            assert(fname.len() == len);
            assert(fname != seq!['.']) by {
                if fname == seq!['.'] {
                    assert(seq!['.'][0] == '.');
                    assert(env_file@.skip(start as int)[0] == env_file@[start as int]);
                    assert(false);
                }
            }
            assert(fname != seq!['.', '.']) by {
                if fname == seq!['.', '.'] {
                    assert(seq!['.', '.'][0] == '.' && seq!['.', '.'][1] == '.');
                    assert(env_file@.skip(start as int)[0] == env_file@[start as int]);
                    assert(env_file@.skip(start as int)[1] == env_file@[start + 1]);
                    assert(false);
                }
            }
            assert(out@ =~= sample_path_of(env_file@));
        }
        Some(out)
    }
}

/// `file_name_start` is the unique cut: at or after every `'/'`, and right
/// after one unless it is `0`.
pub proof fn lemma_file_name_start_at(path: Seq<char>, j: int)
    requires
        0 <= j <= path.len(),
        forall|i: int| j <= i < path.len() ==> path[i] != '/',
        j > 0 ==> path[j - 1] == '/',
    ensures
        file_name_start(path) == j,
    decreases path.len(),
{
    if path.len() == 0 {
    } else if path.last() == '/' {
        assert(j == path.len());
    } else {
        let t = path.drop_last();
        assert(forall|i: int| j <= i < t.len() ==> t[i] == path[i] && t[i] != '/');
        if j > 0 {
            assert(t[j - 1] == path[j - 1]);
        }
        lemma_file_name_start_at(t, j);
    }
}

} // verus!
