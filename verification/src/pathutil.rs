//! Verified path manipulation on plain strings.
//!
//! Paths are treated textually, in the POSIX style: components separated by
//! `/`, absolute paths starting with `/`. The file name is everything after
//! the last separator; its stem and extension split at the last dot, except
//! that a leading dot (a hidden file) starts the stem.

use crate::strnum::dec_str;
use crate::strnum::dec_of;
use vstd::prelude::*;

verus! {

/// The index of the last occurrence of `c` in `s`, or `-1`.
pub open spec fn rfind(s: Seq<char>, c: char) -> int
    decreases s.len(),
{
    if s.len() == 0 {
        -1
    } else if s[s.len() - 1] == c {
        s.len() - 1
    } else {
        rfind(s.drop_last(), c)
    }
}

/// Everything after the last `/`, or all of `s`.
pub open spec fn file_name(s: Seq<char>) -> Seq<char> {
    s.skip(rfind(s, '/') + 1)
}

/// Everything before the last `/`; the empty sequence when there is none,
/// `/` itself for an entry of the root directory.
pub open spec fn parent_dir(s: Seq<char>) -> Seq<char> {
    let i = rfind(s, '/');
    if i == -1 {
        Seq::<char>::empty()
    } else if i == 0 {
        seq!['/']
    } else {
        s.take(i)
    }
}

/// `dir` and `name` joined with a single separator. An empty `dir` leaves
/// `name` alone.
pub open spec fn join(dir: Seq<char>, name: Seq<char>) -> Seq<char> {
    if dir.len() == 0 {
        name
    } else if dir[dir.len() - 1] == '/' {
        dir + name
    } else {
        dir + seq!['/'] + name
    }
}

/// The length of the stem within a file name: up to the last dot, except
/// that a dot in first position starts the stem.
pub open spec fn stem_len(name: Seq<char>) -> int {
    let d = rfind(name, '.');
    if d <= 0 {
        name.len() as int
    } else {
        d
    }
}

/// The file name's part before its extension.
pub open spec fn stem_of(name: Seq<char>) -> Seq<char> {
    name.take(stem_len(name))
}

/// The file name's extension, without its dot, if it has one.
pub open spec fn ext_of(name: Seq<char>) -> Option<Seq<char>> {
    let d = rfind(name, '.');
    if d <= 0 {
        None
    } else {
        Some(name.skip(d + 1))
    }
}

/// `path` with its file name replaced by `name`.
pub open spec fn with_file_name(path: Seq<char>, name: Seq<char>) -> Seq<char> {
    join(parent_dir(path), name)
}

/// `path` with its extension replaced by `ext`; an empty `ext` removes the
/// extension together with its dot.
pub open spec fn set_extension(path: Seq<char>, ext: Seq<char>) -> Seq<char> {
    let f = file_name(path);
    if ext.len() == 0 {
        with_file_name(path, stem_of(f))
    } else {
        with_file_name(path, stem_of(f) + seq!['.'] + ext)
    }
}

/// Whether `s` is an absolute path.
pub open spec fn is_abs(s: Seq<char>) -> bool {
    s.len() > 0 && s[0] == '/'
}

/// `path` relative to the directory `base`: the remainder after `base` and
/// the separator that follows it. `None` when `path` does not lie under
/// `base`.
pub open spec fn strip_path_prefix(path: Seq<char>, base: Seq<char>) -> Option<Seq<char>> {
    if base.len() == 0 {
        Some(path)
    } else if base.len() < path.len() && path.take(base.len() as int) == base {
        if base[base.len() - 1] == '/' {
            Some(path.skip(base.len() as int))
        } else if path[base.len() as int] == '/' {
            Some(path.skip(base.len() as int + 1))
        } else {
            None
        }
    } else {
        None
    }
}

/// `path` with `_<n>` injected between the file name's stem and its
/// extension.
pub open spec fn serial_output(path: Seq<char>, n: nat) -> Seq<char> {
    let f = file_name(path);
    let k = stem_len(f);
    with_file_name(path, f.take(k) + seq!['_'] + dec_str(n) + f.skip(k))
}

/// `rfind` stays within the sequence: at least `-1`, below the length.
pub proof fn lemma_rfind_bounds(s: Seq<char>, c: char)
    ensures
        -1 <= rfind(s, c),
        rfind(s, c) < s.len(),
    decreases s.len(),
{
    if s.len() > 0 && s[s.len() - 1] != c {
        lemma_rfind_bounds(s.drop_last(), c);
    }
}

/// The index of the last occurrence of `c`, decided executably.
pub fn rfind_char(s: &str, c: char) -> (r: Option<usize>)
    ensures
        match r {
            Some(i) => i < s@.len() && rfind(s@, c) == i as int,
            None => rfind(s@, c) == -1,
        },
{
    let n = s.unicode_len();
    let mut k = n;
    proof {
        assert(s@.take(n as int) =~= s@);
    }
    while k > 0
        invariant
            k <= n,
            n == s@.len(),
            rfind(s@, c) == rfind(s@.take(k as int), c),
        decreases k,
    {
        if s.get_char(k - 1) == c {
            proof {
                assert(s@.take(k as int).len() == k);
                assert(s@.take(k as int)[k - 1] == s@[k - 1]);
            }
            return Some(k - 1);
        }
        proof {
            assert(s@.take(k as int)[k - 1] == s@[k - 1]);
            assert(s@.take(k as int).drop_last() =~= s@.take(k as int - 1));
        }
        k = k - 1;
    }
    proof {
        assert(s@.take(0).len() == 0);
    }
    None
}

/// The file-name part of `path`.
pub fn file_name_of(path: &str) -> (r: String)
    ensures
        r@ == file_name(path@),
{
    let n = path.unicode_len();
    match rfind_char(path, '/') {
        Some(i) => path.substring_char(i + 1, n).to_owned(),
        None => {
            proof {
                assert(path@.skip(0) =~= path@);
            }
            path.to_owned()
        },
    }
}

/// The parent-directory part of `path`.
pub fn parent_dir_of(path: &str) -> (r: String)
    ensures
        r@ == parent_dir(path@),
{
    match rfind_char(path, '/') {
        Some(0) => {
            let r = "/".to_owned();
            proof {
                reveal_strlit("/");
                assert(r@ =~= seq!['/']);
            }
            r
        },
        Some(i) => path.substring_char(0, i).to_owned(),
        None => String::new(),
    }
}

/// Join `dir` and `name` with a single separator.
pub fn join_path(dir: &str, name: &str) -> (r: String)
    ensures
        r@ == join(dir@, name@),
{
    let n = dir.unicode_len();
    if n == 0 {
        name.to_owned()
    } else if dir.get_char(n - 1) == '/' {
        dir.to_owned().concat(name)
    } else {
        let r = dir.to_owned().concat("/").concat(name);
        proof {
            reveal_strlit("/");
            assert(r@ =~= dir@ + seq!['/'] + name@);
        }
        r
    }
}

/// The length of the stem within the file name `name`.
pub fn stem_len_of(name: &str) -> (r: usize)
    ensures
        r as int == stem_len(name@),
        r <= name@.len(),
{
    match rfind_char(name, '.') {
        Some(d) => {
            if d == 0 {
                name.unicode_len()
            } else {
                d
            }
        },
        None => name.unicode_len(),
    }
}

/// `path` with its file name replaced by `name`.
pub fn with_file_name_of(path: &str, name: &str) -> (r: String)
    ensures
        r@ == with_file_name(path@, name@),
{
    let dir = parent_dir_of(path);
    join_path(dir.as_str(), name)
}

/// `path` with its extension replaced by `ext`; an empty `ext` removes the
/// extension together with its dot.
pub fn set_extension_of(path: &str, ext: &str) -> (r: String)
    ensures
        r@ == set_extension(path@, ext@),
{
    let f = file_name_of(path);
    let k = stem_len_of(f.as_str());
    let stem = f.as_str().substring_char(0, k).to_owned();
    if ext.unicode_len() == 0 {
        with_file_name_of(path, stem.as_str())
    } else {
        let new_name = stem.concat(".").concat(ext);
        proof {
            reveal_strlit(".");
            assert(new_name@ =~= stem_of(f@) + seq!['.'] + ext@);
        }
        with_file_name_of(path, new_name.as_str())
    }
}

/// Whether `path` is absolute.
pub fn is_abs_path(path: &str) -> (r: bool)
    ensures
        r == is_abs(path@),
{
    path.unicode_len() > 0 && path.get_char(0) == '/'
}

/// `path` relative to the directory `base`, when it lies under `base`.
pub fn strip_prefix_of(path: &str, base: &str) -> (r: Option<String>)
    ensures
        match r {
            Some(s) => strip_path_prefix(path@, base@) == Some(s@),
            None => strip_path_prefix(path@, base@) is None,
        },
{
    let bl = base.unicode_len();
    let pl = path.unicode_len();
    if bl == 0 {
        return Some(path.to_owned());
    }
    if bl < pl {
        let pre = path.substring_char(0, bl);
        if crate::util::str_eq(pre, base) {
            if base.get_char(bl - 1) == '/' {
                return Some(path.substring_char(bl, pl).to_owned());
            }
            if path.get_char(bl) == '/' {
                return Some(path.substring_char(bl + 1, pl).to_owned());
            }
        }
    }
    None
}

/// `path` with `_<n>` injected between the file name's stem and its
/// extension.
pub fn serial_output_of(path: &str, n: usize) -> (r: String)
    ensures
        r@ == serial_output(path@, n as nat),
{
    let f = file_name_of(path);
    let k = stem_len_of(f.as_str());
    let stem = f.as_str().substring_char(0, k).to_owned();
    let rest = f.as_str().substring_char(k, f.as_str().unicode_len());
    let num = dec_of(n);
    let name = stem.concat("_").concat(num.as_str()).concat(rest);
    proof {
        reveal_strlit("_");
        assert(name@ =~= f@.take(stem_len(f@)) + seq!['_'] + dec_str(n as nat) + f@.skip(
            stem_len(f@),
        ));
    }
    with_file_name_of(path, name.as_str())
}

} // verus!
