//! Small verified helpers for duplicating strings and string lists.
//!
//! `Vec<String>` cannot be cloned through `Clone` with its contents' values
//! preserved in contracts, so these helpers restate the copies element by
//! element at the view level.

use vstd::prelude::*;

verus! {

/// Copy an optional string, preserving its view.
pub fn dup_opt_string(o: &Option<String>) -> (r: Option<String>)
    ensures
        r.deep_view() == o.deep_view(),
{
    match o {
        Option::None => Option::None,
        Option::Some(s) => Option::Some(s.clone()),
    }
}

/// Copy a string list, preserving every element's view.
pub fn dup_vec_string(v: &Vec<String>) -> (r: Vec<String>)
    ensures
        r.deep_view() == v.deep_view(),
{
    let mut out: Vec<String> = Vec::new();
    let mut i: usize = 0;
    while i < v.len()
        invariant
            i <= v.len(),
            out.len() == i,
            forall|j: int| 0 <= j < i ==> out@[j]@ == v@[j]@,
        decreases v.len() - i,
    {
        out.push(v[i].clone());
        i = i + 1;
    }
    proof {
        assert(out.deep_view() =~~= v.deep_view());
    }
    out
}

/// Copy an optional string list, preserving every element's view.
pub fn dup_opt_vec_string(o: &Option<Vec<String>>) -> (r: Option<Vec<String>>)
    ensures
        r.deep_view() == o.deep_view(),
{
    match o {
        Option::None => Option::None,
        Option::Some(v) => Option::Some(dup_vec_string(v)),
    }
}

/// Character-wise string equality, decided executably.
pub fn str_eq(a: &str, b: &str) -> (r: bool)
    ensures
        r == (a@ == b@),
{
    let la = a.unicode_len();
    let lb = b.unicode_len();
    if la != lb {
        return false;
    }
    let mut i: usize = 0;
    while i < la
        invariant
            la == a@.len(),
            la == b@.len(),
            i <= la,
            forall|j: int| 0 <= j < i ==> a@[j] == b@[j],
        decreases la - i,
    {
        if a.get_char(i) != b.get_char(i) {
            return false;
        }
        i = i + 1;
    }
    proof {
        assert(a@ =~= b@);
    }
    true
}

/// Whether some element of `v` has the view `s@`.
pub fn contains_str(v: &Vec<String>, s: &str) -> (r: bool)
    ensures
        r == v.deep_view().contains(s@),
{
    let mut i: usize = 0;
    while i < v.len()
        invariant
            i <= v.len(),
            forall|j: int| 0 <= j < i ==> v.deep_view()[j] != s@,
        decreases v.len() - i,
    {
        if str_eq(v[i].as_str(), s) {
            assert(v.deep_view()[i as int] == s@);
            return true;
        }
        i = i + 1;
    }
    false
}

/// The first option if it is set, else the second, for copyable payloads.
pub fn pick_opt<T: Copy>(a: &Option<T>, b: &Option<T>) -> (r: Option<T>)
    ensures
        r == if *a is Some {
            *a
        } else {
            *b
        },
{
    if a.is_some() {
        *a
    } else {
        *b
    }
}

/// The first option if it is set, else the second, copying the string.
pub fn pick_opt_string(a: &Option<String>, b: &Option<String>) -> (r: Option<String>)
    ensures
        r.deep_view() == if *a is Some {
            a.deep_view()
        } else {
            b.deep_view()
        },
{
    match a {
        Option::Some(s) => Option::Some(s.clone()),
        Option::None => dup_opt_string(b),
    }
}

/// The first option if it is set, else the second, copying the list.
pub fn pick_opt_vec_string(a: &Option<Vec<String>>, b: &Option<Vec<String>>) -> (r: Option<
    Vec<String>,
>)
    ensures
        r.deep_view() == if *a is Some {
            a.deep_view()
        } else {
            b.deep_view()
        },
{
    match a {
        Option::Some(v) => Option::Some(dup_vec_string(v)),
        Option::None => dup_opt_vec_string(b),
    }
}

} // verus!
