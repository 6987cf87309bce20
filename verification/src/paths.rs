//! Validation of the destination path: the run accepts only a path whose
//! file name carries the extension `m3u`, and refuses everything else
//! before any network work starts.
use vstd::prelude::*;
use vstd::string::StrSliceExecFns;

verus! {

/// Index of the last occurrence of `c` in `s`, or `-1` if there is none.
pub open spec fn last_index_of(s: Seq<char>, c: char) -> int
    decreases s.len(),
{
    if s.len() == 0 {
        -1
    } else if s.last() == c {
        s.len() - 1
    } else {
        last_index_of(s.drop_last(), c)
    }
}

/// The file name of a path: everything after the last `'/'`, or the whole
/// path if it has none.
pub open spec fn file_name_of(s: Seq<char>) -> Seq<char> {
    s.skip(last_index_of(s, '/') + 1)
}

/// The extension of a file name: what follows its last `'.'`, unless the
/// name has no `'.'` or starts with its only one (a hidden file has no
/// extension).
pub open spec fn extension_of(f: Seq<char>) -> Option<Seq<char>> {
    let d = last_index_of(f, '.');
    if d <= 0 {
        None
    } else {
        Some(f.skip(d + 1))
    }
}

/// Whether the path's file name carries exactly the extension `m3u`.
pub open spec fn is_m3u_path(s: Seq<char>) -> bool {
    extension_of(file_name_of(s)) == Some(seq!['m', '3', 'u'])
}

proof fn lemma_last_index_props(s: Seq<char>, c: char)
    ensures
        -1 <= last_index_of(s, c) < s.len(),
        last_index_of(s, c) >= 0 ==> s[last_index_of(s, c)] == c,
        forall|j: int| last_index_of(s, c) < j < s.len() ==> #[trigger] s[j] != c,
    decreases s.len(),
{
    if s.len() == 0 {
    } else if s.last() == c {
    } else {
        lemma_last_index_props(s.drop_last(), c);
        assert forall|j: int| last_index_of(s, c) < j < s.len() implies #[trigger] s[j] != c by {
            if j < s.len() - 1 {
                assert(s.drop_last()[j] == s[j]);
            }
        }
    }
}

proof fn lemma_last_index_unique(s: Seq<char>, c: char, k: int)
    requires
        0 <= k < s.len(),
        s[k] == c,
        forall|j: int| k < j < s.len() ==> #[trigger] s[j] != c,
    ensures
        last_index_of(s, c) == k,
{
    lemma_last_index_props(s, c);
    if last_index_of(s, c) < k {
        assert(s[k] != c);
    } else if last_index_of(s, c) > k {
        assert(s[last_index_of(s, c)] == c);
    }
}

proof fn lemma_last_index_none(s: Seq<char>, c: char)
    requires
        forall|j: int| 0 <= j < s.len() ==> #[trigger] s[j] != c,
    ensures
        last_index_of(s, c) == -1,
{
    lemma_last_index_props(s, c);
    if last_index_of(s, c) >= 0 {
        assert(s[last_index_of(s, c)] == c);
    }
}

/// Decides whether the path's file name carries the extension `m3u`: the
/// input-validation gate that runs before any other work.
pub fn path_has_m3u_extension(path: &str) -> (r: bool)
    ensures
        r == is_m3u_path(path@),
{
    let n = path.unicode_len();
    let mut idx: usize = n;
    let mut found_sep = false;
    let mut sep_i: usize = 0;
    let mut found_dot = false;
    let mut dot_i: usize = 0;
    while idx > 0
        invariant
            n == path@.len(),
            idx <= n,
            found_sep ==> idx <= sep_i < n && path@[sep_i as int] == '/',
            found_sep ==> forall|j: int| sep_i < j < n ==> #[trigger] path@[j] != '/',
            !found_sep ==> forall|j: int| idx <= j < n ==> #[trigger] path@[j] != '/',
            found_dot ==> idx <= dot_i < n && path@[dot_i as int] == '.',
            found_dot ==> forall|j: int| dot_i < j < n ==> #[trigger] path@[j] != '.',
            !found_dot ==> forall|j: int| idx <= j < n ==> #[trigger] path@[j] != '.',
        decreases idx,
    {
        idx -= 1;
        let c = path.get_char(idx);
        if c == '/' && !found_sep {
            found_sep = true;
            sep_i = idx;
        }
        if c == '.' && !found_dot {
            found_dot = true;
            dot_i = idx;
        }
    }
    let start = if found_sep {
        sep_i + 1
    } else {
        0
    };
    proof {
        if found_sep {
            lemma_last_index_unique(path@, '/', sep_i as int);
        } else {
            lemma_last_index_none(path@, '/');
        }
        assert(file_name_of(path@) == path@.skip(start as int));
    }
    let ghost f = file_name_of(path@);
    proof {
        assert(f.len() == n - start);
        assert(forall|j: int| 0 <= j < f.len() ==> #[trigger] f[j] == path@[start + j]);
        if found_dot && dot_i >= start {
            assert(f[dot_i - start] == '.');
            assert forall|j: int| dot_i - start < j < f.len() implies #[trigger] f[j] != '.' by {
                assert(f[j] == path@[start + j]);
            }
            lemma_last_index_unique(f, '.', dot_i - start);
        } else {
            assert forall|j: int| 0 <= j < f.len() implies #[trigger] f[j] != '.' by {
                assert(f[j] == path@[start + j]);
                if found_dot {
                    assert(start + j > dot_i);
                } else {
                    assert(start + j >= idx);
                }
            }
            lemma_last_index_none(f, '.');
        }
    }
    if found_dot && dot_i > start && n - dot_i == 4 {
        let m = path.get_char(dot_i + 1) == 'm' && path.get_char(dot_i + 2) == '3'
            && path.get_char(dot_i + 3) == 'u';
        proof {
            let ext = f.skip(dot_i - start + 1);
            assert(extension_of(f) == Some(ext));
            assert(ext.len() == 3);
            assert(forall|j: int| 0 <= j < 3 ==> #[trigger] ext[j] == path@[dot_i + 1 + j]);
            if path@[dot_i + 1] == 'm' && path@[dot_i + 2] == '3' && path@[dot_i + 3] == 'u' {
                assert(ext =~= seq!['m', '3', 'u']);
            } else {
                assert(ext != seq!['m', '3', 'u']) by {
                    if ext == seq!['m', '3', 'u'] {
                        assert(ext[0] == 'm' && ext[1] == '3' && ext[2] == 'u');
                    }
                }
            }
        }
        m
    } else {
        proof {
            if found_dot && dot_i > start {
                let ext = f.skip(dot_i - start + 1);
                assert(extension_of(f) == Some(ext));
                assert(ext.len() != 3);
                assert(ext != seq!['m', '3', 'u']) by {
                    if ext == seq!['m', '3', 'u'] {
                        assert(ext.len() == 3);
                    }
                }
            }
        }
        false
    }
}

} // verus!
