//! The argument-template grammar: tokenization and placeholder substitution.
//!
//! A template is split on the double-quote character. The segments between
//! an opening and a closing quote are tokens verbatim; the segments outside
//! quotes are split on whitespace. An odd number of quotes is an unclosed
//! quotation and rejected. The quote characters themselves never reach the
//! tokens.
//!
//! The placeholders `{input_file}`, `{output_file}`, `{output_dir}` and
//! `{repeat_num}` are recognized as whole tokens; every other token passes
//! through literally.

use crate::error::Error;
use crate::error::ErrorKind;
use crate::pathutil::parent_dir;
use crate::pathutil::parent_dir_of;
use crate::pathutil::serial_output;
use crate::pathutil::serial_output_of;
use crate::strnum::dec_of;
use crate::strnum::dec_str;
use crate::util::str_eq;
use vstd::prelude::*;

verus! {

/// The whitespace that separates unquoted tokens.
pub open spec fn is_space(c: char) -> bool {
    c == ' ' || c == '\t' || c == '\n' || c == '\r'
}

/// The first index at or after `from` whose character satisfies `pred`, or
/// the length of `s`.
pub open spec fn find_if(s: Seq<char>, from: int, pred: spec_fn(char) -> bool) -> int
    decreases s.len() - from,
{
    if from < 0 || from >= s.len() {
        s.len() as int
    } else if pred(s[from]) {
        from
    } else {
        find_if(s, from + 1, pred)
    }
}

pub proof fn lemma_find_if_bounds(s: Seq<char>, from: int, pred: spec_fn(char) -> bool)
    requires
        0 <= from <= s.len(),
    ensures
        from <= find_if(s, from, pred) <= s.len(),
        find_if(s, from, pred) < s.len() ==> pred(s[find_if(s, from, pred)]),
    decreases s.len() - from,
{
    if from < s.len() && !pred(s[from]) {
        lemma_find_if_bounds(s, from + 1, pred);
    }
}

/// Matching one given character.
pub open spec fn eq_char(c: char) -> spec_fn(char) -> bool {
    |x: char| x == c
}

/// The segments of `s` between occurrences of `c`: always one segment more
/// than there are occurrences.
pub open spec fn split_on(s: Seq<char>, c: char) -> Seq<Seq<char>>
    decreases s.len(),
    via split_on_dec
{
    let i = find_if(s, 0, eq_char(c));
    if i == s.len() as int {
        seq![s]
    } else {
        seq![s.take(i)] + split_on(s.skip(i + 1), c)
    }
}

#[via_fn]
proof fn split_on_dec(s: Seq<char>, c: char) {
    lemma_find_if_bounds(s, 0, eq_char(c));
}

/// The whitespace-separated words of `s`, without empty words.
pub open spec fn ws_split(s: Seq<char>) -> Seq<Seq<char>>
    decreases s.len(),
    via ws_split_dec
{
    let b = find_if(s, 0, |x: char| !is_space(x));
    if b == s.len() as int {
        Seq::<Seq<char>>::empty()
    } else {
        let e = find_if(s, b, |x: char| is_space(x));
        seq![s.subrange(b, e)] + ws_split(s.skip(e))
    }
}

#[via_fn]
proof fn ws_split_dec(s: Seq<char>) {
    let b = find_if(s, 0, |x: char| !is_space(x));
    lemma_find_if_bounds(s, 0, |x: char| !is_space(x));
    if b < s.len() {
        lemma_find_if_bounds(s, b, |x: char| is_space(x));
        assert(find_if(s, b, |x: char| is_space(x)) >= b + 1);
    }
}

/// The tokens contributed by the segments from index `i` on: odd-indexed
/// segments verbatim, even-indexed segments split on whitespace.
pub open spec fn interleave_tokens(segs: Seq<Seq<char>>, i: int) -> Seq<Seq<char>>
    decreases segs.len() - i,
{
    if i < 0 || i >= segs.len() {
        Seq::<Seq<char>>::empty()
    } else if i % 2 == 1 {
        seq![segs[i]] + interleave_tokens(segs, i + 1)
    } else {
        ws_split(segs[i]) + interleave_tokens(segs, i + 1)
    }
}

/// The tokens of an argument template, or `None` for an unclosed quotation.
pub open spec fn spec_split_args(s: Seq<char>) -> Option<Seq<Seq<char>>> {
    let segs = split_on(s, '"');
    if segs.len() % 2 == 0 {
        None
    } else {
        Some(interleave_tokens(segs, 0))
    }
}

/// `find_if` returns `i` when `i` is the first index from `from` on whose
/// character satisfies `pred`.
pub proof fn lemma_find_if_at(s: Seq<char>, from: int, pred: spec_fn(char) -> bool, i: int)
    requires
        0 <= from <= i < s.len(),
        pred(s[i]),
        forall|j: int| from <= j < i ==> !pred(s[j]),
    ensures
        find_if(s, from, pred) == i,
    decreases i - from,
{
    if from < i {
        lemma_find_if_at(s, from + 1, pred, i);
    }
}

/// A token enclosed in a balanced pair of double quotes survives
/// tokenization and substitution as one argument, its quotes stripped: with
/// no quote inside `s1`, `t` or `s2` and `t` none of the placeholders, the
/// template `s1"t"s2` yields `t`, verbatim, as the argument after the words
/// of `s1`, under every substitution.
pub proof fn lemma_quoted_token_preserved(
    s1: Seq<char>,
    t: Seq<char>,
    s2: Seq<char>,
    input: Seq<char>,
    output: Seq<char>,
    serial: bool,
    n: nat,
)
    requires
        forall|j: int| 0 <= j < s1.len() ==> s1[j] != '"',
        forall|j: int| 0 <= j < t.len() ==> t[j] != '"',
        forall|j: int| 0 <= j < s2.len() ==> s2[j] != '"',
        t != "{input_file}"@,
        t != "{output_file}"@,
        t != "{output_dir}"@,
        t != "{repeat_num}"@,
    ensures
        ({
            let full = s1 + seq!['"'] + t + seq!['"'] + s2;
            let k = ws_split(s1).len() as int;
            &&& spec_split_args(full) is Some
            &&& 0 <= k < spec_split_args(full)->0.len()
            &&& spec_split_args(full)->0[k] == t
            &&& subst_args(spec_split_args(full)->0, input, output, serial, n)[k] == t
        }),
{
    let q = seq!['"'];
    let full = s1 + q + t + q + s2;
    let pred = eq_char('"');
    let n1 = s1.len() as int;
    let n2 = t.len() as int;

    // The first quote stands right after s1.
    assert(full[n1] == '"');
    assert(forall|j: int| 0 <= j < n1 ==> full[j] == s1[j] && !pred(full[j]));
    lemma_find_if_at(full, 0, pred, n1);
    assert(split_on(full, '"') == seq![full.take(n1)] + split_on(full.skip(n1 + 1), '"'));
    assert(full.take(n1) =~= s1);
    let rest1 = full.skip(n1 + 1);
    assert(rest1 =~= t + q + s2);

    // The second quote stands right after t.
    assert(rest1[n2] == '"');
    assert(forall|j: int| 0 <= j < n2 ==> rest1[j] == t[j] && !pred(rest1[j]));
    lemma_find_if_at(rest1, 0, pred, n2);
    assert(split_on(rest1, '"') == seq![rest1.take(n2)] + split_on(rest1.skip(n2 + 1), '"'));
    assert(rest1.take(n2) =~= t);
    let rest2 = rest1.skip(n2 + 1);
    assert(rest2 =~= s2);

    // No quote remains in s2.
    lemma_find_if_bounds(s2, 0, pred);
    assert(find_if(s2, 0, pred) == s2.len() as int);
    assert(split_on(s2, '"') == seq![s2]);

    let segs = split_on(full, '"');
    assert(segs =~= seq![s1, t, s2]);
    assert(segs.len() == 3);

    let toks = interleave_tokens(segs, 0);
    assert(interleave_tokens(segs, 3) == Seq::<Seq<char>>::empty());
    assert(interleave_tokens(segs, 2) == ws_split(s2) + interleave_tokens(segs, 3));
    assert(interleave_tokens(segs, 1) == seq![t] + interleave_tokens(segs, 2));
    assert(toks == ws_split(s1) + interleave_tokens(segs, 1));

    let k = ws_split(s1).len() as int;
    assert(toks[k] == t);
    assert(subst_args(toks, input, output, serial, n)[k] == subst_token(
        t,
        input,
        output,
        serial,
        n,
    ));
    assert(subst_token(t, input, output, serial, n) == t);
}

/// The first index at or after `from` holding `c`, or the length of `s`.
fn find_char_from(s: &str, c: char, from: usize) -> (r: usize)
    requires
        from <= s@.len(),
    ensures
        r as int == find_if(s@, from as int, eq_char(c)),
        from <= r <= s@.len(),
{
    let n = s.unicode_len();
    let mut i = from;
    while i < n
        invariant
            from <= i <= n,
            n == s@.len(),
            find_if(s@, from as int, eq_char(c)) == find_if(s@, i as int, eq_char(c)),
        decreases n - i,
    {
        if s.get_char(i) == c {
            return i;
        }
        i = i + 1;
    }
    i
}

/// The first index at or after `from` whose character is (`space` true) or
/// is not (`space` false) whitespace, or the length of `s`.
fn find_space_from(s: &str, space: bool, from: usize) -> (r: usize)
    requires
        from <= s@.len(),
    ensures
        space ==> r as int == find_if(s@, from as int, |x: char| is_space(x)),
        !space ==> r as int == find_if(s@, from as int, |x: char| !is_space(x)),
        from <= r <= s@.len(),
{
    let ghost pred: spec_fn(char) -> bool = if space {
        |x: char| is_space(x)
    } else {
        |x: char| !is_space(x)
    };
    let n = s.unicode_len();
    let mut i = from;
    while i < n
        invariant
            from <= i <= n,
            n == s@.len(),
            pred == (if space {
                |x: char| is_space(x)
            } else {
                |x: char| !is_space(x)
            }),
            find_if(s@, from as int, pred) == find_if(s@, i as int, pred),
        decreases n - i,
    {
        let ch = s.get_char(i);
        let ws = ch == ' ' || ch == '\t' || ch == '\n' || ch == '\r';
        if ws == space {
            proof {
                assert(pred(s@[i as int]));
            }
            return i;
        }
        proof {
            assert(!pred(s@[i as int]));
        }
        i = i + 1;
    }
    i
}

/// The segments of `s` between double quotes.
fn split_on_quote(s: &str) -> (r: Vec<String>)
    ensures
        r.deep_view() == split_on(s@, '"'),
        r@.len() >= 1,
    decreases s@.len(),
{
    let n = s.unicode_len();
    let i = find_char_from(s, '"', 0);
    if i == n {
        let mut v: Vec<String> = Vec::new();
        v.push(s.to_owned());
        proof {
            assert(v.deep_view() =~~= seq![s@]);
        }
        v
    } else {
        let head = s.substring_char(0, i).to_owned();
        let tail = s.substring_char(i + 1, n);
        let mut rest = split_on_quote(tail);
        rest.insert(0, head);
        proof {
            assert(rest.deep_view() =~~= seq![s@.take(i as int)] + split_on(
                s@.skip(i as int + 1),
                '"',
            ));
        }
        rest
    }
}

/// The whitespace-separated words of `s`.
fn ws_tokens(s: &str) -> (r: Vec<String>)
    ensures
        r.deep_view() == ws_split(s@),
    decreases s@.len(),
{
    let n = s.unicode_len();
    let b = find_space_from(s, false, 0);
    if b == n {
        let v: Vec<String> = Vec::new();
        proof {
            assert(v.deep_view() =~~= Seq::<Seq<char>>::empty());
        }
        v
    } else {
        let e = find_space_from(s, true, b);
        proof {
            lemma_find_if_bounds(s@, 0, |x: char| !is_space(x));
            assert(!is_space(s@[b as int]));
            lemma_find_if_bounds(s@, b as int + 1, |x: char| is_space(x));
        }
        let tok = s.substring_char(b, e).to_owned();
        let tail = s.substring_char(e, n);
        let mut rest = ws_tokens(tail);
        rest.insert(0, tok);
        proof {
            assert(rest.deep_view() =~~= seq![s@.subrange(b as int, e as int)] + ws_split(
                s@.skip(e as int),
            ));
        }
        rest
    }
}

/// Split an argument template into its tokens. Fails with a `Config` error
/// exactly when the quotation is unclosed.
pub fn split_args(s: &str) -> (r: Result<Vec<String>, Error>)
    ensures
        match r {
            Ok(v) => spec_split_args(s@) == Some(v.deep_view()),
            Err(e) => spec_split_args(s@) is None && e.kind == ErrorKind::Config,
        },
{
    let segs = split_on_quote(s);
    if segs.len() % 2 == 0 {
        return Err(
            Error::new(ErrorKind::Config, "args' quotation mask is not closed".to_owned()),
        );
    }
    let ghost sv = segs.deep_view();
    let mut out: Vec<String> = Vec::new();
    let mut i: usize = 0;
    proof {
        assert(out.deep_view() =~~= Seq::<Seq<char>>::empty());
    }
    while i < segs.len()
        invariant
            i <= segs.len(),
            sv == segs.deep_view(),
            sv == split_on(s@, '"'),
            sv.len() % 2 == 1,
            segs@.len() == sv.len(),
            out.deep_view() + interleave_tokens(sv, i as int) == interleave_tokens(sv, 0),
        decreases segs.len() - i,
    {
        let ghost prev = out.deep_view();
        if i % 2 == 1 {
            out.push(segs[i].clone());
            proof {
                assert(out.deep_view() =~~= prev.push(sv[i as int]));
                assert(prev.push(sv[i as int]) + interleave_tokens(sv, i as int + 1)
                    =~= prev + interleave_tokens(sv, i as int));
            }
        } else {
            let mut toks = ws_tokens(segs[i].as_str());
            let ghost tv = toks.deep_view();
            out.append(&mut toks);
            proof {
                assert(out.deep_view() =~~= prev + tv);
                assert((prev + tv) + interleave_tokens(sv, i as int + 1) =~= prev
                    + interleave_tokens(sv, i as int));
            }
        }
        i = i + 1;
    }
    proof {
        assert(out.deep_view() + interleave_tokens(sv, sv.len() as int) =~= out.deep_view());
    }
    Ok(out)
}

/// One token after substitution, for the invocation over `input`/`output`
/// with repetition number `n`.
pub open spec fn subst_token(
    t: Seq<char>,
    input: Seq<char>,
    output: Seq<char>,
    serial: bool,
    n: nat,
) -> Seq<char> {
    if t == "{input_file}"@ {
        input
    } else if t == "{output_file}"@ {
        if serial {
            serial_output(output, n)
        } else {
            output
        }
    } else if t == "{output_dir}"@ {
        parent_dir(output)
    } else if t == "{repeat_num}"@ {
        dec_str(n)
    } else {
        t
    }
}

/// Every token after substitution, in template order.
pub open spec fn subst_args(
    tokens: Seq<Seq<char>>,
    input: Seq<char>,
    output: Seq<char>,
    serial: bool,
    n: nat,
) -> Seq<Seq<char>> {
    tokens.map_values(|t: Seq<char>| subst_token(t, input, output, serial, n))
}

/// Substitute the placeholders of `tokens` for the invocation over
/// `input`/`output` with repetition number `n`. With `serial` set, the
/// `{output_file}` placeholder carries `_<n>` before its extension.
pub fn substitute_args(
    tokens: &Vec<String>,
    input: &str,
    output: &str,
    serial: bool,
    n: usize,
) -> (r: Vec<String>)
    ensures
        r.deep_view() == subst_args(tokens.deep_view(), input@, output@, serial, n as nat),
{
    let mut out: Vec<String> = Vec::new();
    let mut i: usize = 0;
    while i < tokens.len()
        invariant
            i <= tokens.len(),
            out@.len() == i,
            forall|j: int|
                0 <= j < i ==> out@[j]@ == subst_token(
                    tokens@[j]@,
                    input@,
                    output@,
                    serial,
                    n as nat,
                ),
        decreases tokens.len() - i,
    {
        let t = tokens[i].as_str();
        let arg: String = if str_eq(t, "{input_file}") {
            input.to_owned()
        } else if str_eq(t, "{output_file}") {
            if serial {
                serial_output_of(output, n)
            } else {
                output.to_owned()
            }
        } else if str_eq(t, "{output_dir}") {
            parent_dir_of(output)
        } else if str_eq(t, "{repeat_num}") {
            dec_of(n)
        } else {
            tokens[i].clone()
        };
        proof {
            assert(arg@ == subst_token(tokens@[i as int]@, input@, output@, serial, n as nat));
        }
        out.push(arg);
        i = i + 1;
    }
    proof {
        assert(out.deep_view() =~~= subst_args(
            tokens.deep_view(),
            input@,
            output@,
            serial,
            n as nat,
        ));
    }
    out
}

} // verus!
