//! Command-template expansion: `{}` becomes the whole entry name, `{N}` the
//! N-th field of the name split on the channel's delimiter.

use vstd::prelude::*;
use crate::entry::Entry;
use crate::strings::{str_chars, string_from_chars, push_all};

verus! {

/// Unicode white space, as `char::is_whitespace` decides it.
pub open spec fn is_ws_char(c: char) -> bool {
    let u = c as u32;
    ||| (0x9 <= u <= 0xD)
    ||| u == 0x20
    ||| u == 0x85
    ||| u == 0xA0
    ||| u == 0x1680
    ||| (0x2000 <= u <= 0x200A)
    ||| u == 0x2028
    ||| u == 0x2029
    ||| u == 0x202F
    ||| u == 0x205F
    ||| u == 0x3000
}

/// A text that trims to nothing: every character is white space.
pub open spec fn all_ws(s: Seq<char>) -> bool {
    forall|i: int| 0 <= i < s.len() ==> is_ws_char(#[trigger] s[i])
}

pub fn is_ws(c: char) -> (r: bool)
    ensures
        r == is_ws_char(c),
{
    let u = c as u32;
    (0x9 <= u && u <= 0xD) || u == 0x20 || u == 0x85 || u == 0xA0 || u == 0x1680 || (0x2000 <= u
        && u <= 0x200A) || u == 0x2028 || u == 0x2029 || u == 0x202F || u == 0x205F || u == 0x3000
}

fn all_ws_exec(s: &Vec<char>) -> (r: bool)
    ensures
        r == all_ws(s@),
{
    let n = s.len();
    for i in 0..n
        invariant
            n == s@.len(),
            forall|j: int| 0 <= j < i ==> is_ws_char(#[trigger] s@[j]),
    {
        if !is_ws(s[i]) {
            return false;
        }
    }
    true
}

/// The pieces of `s` split on the delimiter `d`, scanning left to right;
/// `start` opens the current piece and `cur >= start` is the scan position.
pub open spec fn split_from(s: Seq<char>, d: Seq<char>, start: int, cur: int) -> Seq<Seq<char>>
    decreases s.len() - cur,
    when 0 <= start <= cur <= s.len() && d.len() >= 1
{
    if cur + d.len() > s.len() {
        seq![s.subrange(start, s.len() as int)]
    } else if s.subrange(cur, cur + d.len()) == d {
        seq![s.subrange(start, cur)] + split_from(s, d, cur + d.len(), cur + d.len())
    } else {
        split_from(s, d, start, cur + 1)
    }
}

/// The fields of `s` split on `d`: ordinary string splitting for a non-empty
/// delimiter; an empty delimiter splits nothing.
pub open spec fn split_seq(s: Seq<char>, d: Seq<char>) -> Seq<Seq<char>> {
    if d.len() == 0 {
        seq![s]
    } else {
        split_from(s, d, 0, 0)
    }
}

/// Every literal `{}` in `s` from position `from` on replaced by `name`.
pub open spec fn subst_global_from(s: Seq<char>, name: Seq<char>, from: int) -> Seq<char>
    decreases s.len() - from,
    when 0 <= from <= s.len()
{
    if from >= s.len() {
        Seq::empty()
    } else if from + 2 <= s.len() && s[from] == '{' && s[from + 1] == '}' {
        name + subst_global_from(s, name, from + 2)
    } else {
        seq![s[from]] + subst_global_from(s, name, from + 1)
    }
}

pub open spec fn is_digit_char(c: char) -> bool {
    0x30 <= c as u32 <= 0x39
}

pub open spec fn digit_val(c: char) -> nat {
    (c as u32 - 0x30) as nat
}

/// The number of consecutive decimal digits in `s` starting at `from`.
pub open spec fn digits_run(s: Seq<char>, from: int) -> int
    decreases s.len() - from,
    when 0 <= from <= s.len()
{
    if from < s.len() && is_digit_char(s[from]) {
        1 + digits_run(s, from + 1)
    } else {
        0
    }
}

/// The decimal value of a digit sequence.
pub open spec fn to_nat(s: Seq<char>) -> nat
    decreases s.len(),
{
    if s.len() == 0 {
        0
    } else {
        to_nat(s.drop_last()) * 10 + digit_val(s.last())
    }
}

/// Whether position `from` in `s` starts a positional placeholder `{N}`,
/// and the placeholder's extent and value.
pub open spec fn at_placeholder(s: Seq<char>, from: int) -> bool {
    &&& 0 <= from < s.len()
    &&& s[from] == '{'
    &&& digits_run(s, from + 1) > 0
    &&& from + 1 + digits_run(s, from + 1) < s.len()
    &&& s[from + 1 + digits_run(s, from + 1)] == '}'
}

pub open spec fn placeholder_index(s: Seq<char>, from: int) -> nat {
    to_nat(s.subrange(from + 1, from + 1 + digits_run(s, from + 1)))
}

/// `s` from `from` on, with every placeholder `{N}` replaced by the N-th
/// field (an out-of-range field reads as empty, a case `positional_ok_from`
/// rules out).
pub open spec fn subst_positional_from(s: Seq<char>, parts: Seq<Seq<char>>, from: int) -> Seq<char>
    decreases s.len() - from,
    when 0 <= from <= s.len()
{
    if from >= s.len() {
        Seq::empty()
    } else if at_placeholder(s, from) {
        let d = digits_run(s, from + 1);
        let idx = placeholder_index(s, from);
        (if idx < parts.len() {
            parts[idx as int]
        } else {
            Seq::empty()
        }) + subst_positional_from(s, parts, from + 2 + d)
    } else {
        seq![s[from]] + subst_positional_from(s, parts, from + 1)
    }
}

/// Every placeholder `{N}` in `s` from `from` on names an existing field.
pub open spec fn positional_ok_from(s: Seq<char>, nparts: int, from: int) -> bool
    decreases s.len() - from,
    when 0 <= from <= s.len()
{
    if from >= s.len() {
        true
    } else if at_placeholder(s, from) {
        placeholder_index(s, from) < nparts && positional_ok_from(
            s,
            nparts,
            from + 2 + digits_run(s, from + 1),
        )
    } else {
        positional_ok_from(s, nparts, from + 1)
    }
}

/// The command template matches the entry: either there is nothing to format
/// (the name trims to nothing), or every `{N}` placeholder left after `{}`
/// substitution names one of the name's fields.
pub open spec fn format_ok(template: Seq<char>, delimiter: Seq<char>, name: Seq<char>) -> bool {
    all_ws(name) || positional_ok_from(
        subst_global_from(template, name, 0),
        split_seq(name, delimiter).len() as int,
        0,
    )
}

/// What `format_command` yields: nothing for a blank name, otherwise the
/// template with `{}` replaced by the whole name and `{N}` by its fields.
pub open spec fn spec_format(template: Seq<char>, delimiter: Seq<char>, name: Seq<char>) -> Option<
    Seq<char>,
> {
    if all_ws(name) {
        None
    } else {
        Some(
            subst_positional_from(
                subst_global_from(template, name, 0),
                split_seq(name, delimiter),
                0,
            ),
        )
    }
}

/// Does `s@.subrange(at, at + d@.len()) == d@` hold?
fn matches_at(s: &Vec<char>, d: &Vec<char>, at: usize) -> (r: bool)
    requires
        at + d@.len() <= s@.len(),
    ensures
        r == (s@.subrange(at as int, at + d@.len()) == d@),
{
    let n = s.len();
    let m = d.len();
    for k in 0..m
        invariant
            n == s@.len(),
            m == d@.len(),
            at + m <= s@.len(),
            forall|j: int| 0 <= j < k ==> s@[at + j] == d@[j],
    {
        if s[at + k] != d[k] {
            assert(s@.subrange(at as int, at + d@.len())[k as int] != d@[k as int]);
            return false;
        }
    }
    assert(s@.subrange(at as int, at + d@.len()) =~= d@);
    true
}

/// Copy `s[a..b]` into a fresh vector.
fn copy_range(s: &Vec<char>, a: usize, b: usize) -> (r: Vec<char>)
    requires
        a <= b <= s@.len(),
    ensures
        r@ == s@.subrange(a as int, b as int),
{
    let mut r: Vec<char> = Vec::new();
    proof {
        assert(r@ =~= s@.subrange(a as int, a as int));
    }
    for k in a..b
        invariant
            a <= b <= s@.len(),
            r@ == s@.subrange(a as int, k as int),
    {
        r.push(s[k]);
        assert(r@ =~= s@.subrange(a as int, k + 1));
    }
    r
}

/// Split `s` on the delimiter `d`, left to right.
pub(crate) fn split_chars(s: &Vec<char>, d: &Vec<char>) -> (r: Vec<Vec<char>>)
    ensures
        r.deep_view() == split_seq(s@, d@),
{
    let n = s.len();
    let m = d.len();
    if m == 0 {
        let mut r: Vec<Vec<char>> = Vec::new();
        r.push(copy_range(s, 0, n));
        assert(s@.subrange(0, n as int) =~= s@);
        assert(r.deep_view() =~~= split_seq(s@, d@));
        return r;
    }
    let mut r: Vec<Vec<char>> = Vec::new();
    let mut start: usize = 0;
    let mut cur: usize = 0;
    proof {
        assert(r.deep_view() =~~= Seq::<Seq<char>>::empty());
        assert(r.deep_view() + split_from(s@, d@, 0, 0) =~~= split_from(s@, d@, 0, 0));
    }
    while m <= n && cur <= n - m
        invariant
            n == s@.len(),
            m == d@.len(),
            m >= 1,
            start <= cur <= n,
            split_from(s@, d@, 0, 0) == r.deep_view() + split_from(
                s@,
                d@,
                start as int,
                cur as int,
            ),
        decreases n - cur,
    {
        if matches_at(s, d, cur) {
            let ghost pre = r.deep_view();
            let piece = copy_range(s, start, cur);
            r.push(piece);
            proof {
                assert(r.deep_view() =~~= pre.push(s@.subrange(start as int, cur as int)));
                assert(pre + (seq![s@.subrange(start as int, cur as int)] + split_from(
                    s@,
                    d@,
                    cur + m,
                    cur + m,
                )) =~~= r.deep_view() + split_from(s@, d@, cur + m, cur + m));
            }
            start = cur + m;
            cur = cur + m;
        } else {
            cur = cur + 1;
        }
    }
    let ghost pre = r.deep_view();
    let piece = copy_range(s, start, n);
    r.push(piece);
    proof {
        assert(r.deep_view() =~~= pre.push(s@.subrange(start as int, n as int)));
        assert(split_from(s@, d@, start as int, cur as int) == seq![
            s@.subrange(start as int, n as int),
        ]);
        assert(r.deep_view() =~~= pre + seq![s@.subrange(start as int, n as int)]);
    }
    r
}

/// Parse the decimal digits `s[a..b]` as a field index: the index when it
/// names one of `nparts` fields, nothing when it is out of range.
fn parse_index(s: &Vec<char>, a: usize, b: usize, nparts: usize) -> (r: Option<usize>)
    requires
        a <= b <= s@.len(),
        forall|j: int| a <= j < b ==> is_digit_char(#[trigger] s@[j]),
    ensures
        r matches Some(i) ==> i == to_nat(s@.subrange(a as int, b as int)) && i < nparts,
        r is None ==> to_nat(s@.subrange(a as int, b as int)) >= nparts,
{
    let mut acc: usize = 0;
    let mut k: usize = a;
    proof {
        assert(s@.subrange(a as int, a as int) =~= Seq::<char>::empty());
    }
    while k < b
        invariant
            a <= k <= b <= s@.len(),
            forall|j: int| a <= j < b ==> is_digit_char(#[trigger] s@[j]),
            acc == to_nat(s@.subrange(a as int, k as int)),
            acc >= nparts ==> k == a || k == b,
        decreases b - k,
    {
        if acc >= nparts {
            proof {
                lemma_to_nat_monotone(s@, a as int, k as int, b as int);
            }
            return None;
        }
        let u = s[k] as u32;
        let dv = (u - 0x30) as usize;
        proof {
            assert(is_digit_char(s@[k as int]));
            assert(s@.subrange(a as int, k + 1).drop_last() =~= s@.subrange(a as int, k as int));
            assert(s@.subrange(a as int, k + 1).last() == s@[k as int]);
        }
        if acc > usize::MAX / 10 || (acc == usize::MAX / 10 && dv > 5) {
            // the digits read so far already outgrow any possible field count
            proof {
                assert(to_nat(s@.subrange(a as int, k + 1)) > usize::MAX);
                lemma_to_nat_monotone(s@, a as int, (k + 1) as int, b as int);
            }
            return None;
        }
        acc = acc * 10 + dv;
        k = k + 1;
        if acc >= nparts && k < b {
            proof {
                lemma_to_nat_monotone(s@, a as int, k as int, b as int);
            }
            return None;
        }
    }
    if acc >= nparts {
        return None;
    }
    Some(acc)
}

/// A digit sequence's value only grows as more digits follow.
pub(crate) proof fn lemma_to_nat_monotone(s: Seq<char>, a: int, k: int, b: int)
    requires
        0 <= a <= k <= b <= s.len(),
    ensures
        to_nat(s.subrange(a, k)) <= to_nat(s.subrange(a, b)),
    decreases b - k,
{
    if k < b {
        lemma_to_nat_monotone(s, a, k + 1, b);
        assert(s.subrange(a, k + 1).drop_last() =~= s.subrange(a, k));
    }
}

/// Replace every literal `{}` in `t` by `name`.
fn subst_global_exec(t: &Vec<char>, name: &Vec<char>) -> (r: Vec<char>)
    ensures
        r@ == subst_global_from(t@, name@, 0),
{
    let n = t.len();
    let mut out: Vec<char> = Vec::new();
    let mut i: usize = 0;
    proof {
        assert(out@ + subst_global_from(t@, name@, 0) =~= subst_global_from(t@, name@, 0));
    }
    while i < n
        invariant
            n == t@.len(),
            0 <= i <= n,
            subst_global_from(t@, name@, 0) == out@ + subst_global_from(t@, name@, i as int),
        decreases n - i,
    {
        let ghost pre = out@;
        if i + 1 < n && t[i] == '{' && t[i + 1] == '}' {
            push_all(&mut out, name.as_slice());
            i = i + 2;
            assert(out@ + subst_global_from(t@, name@, i as int) =~= pre + (name@
                + subst_global_from(t@, name@, i as int)));
        } else {
            out.push(t[i]);
            i = i + 1;
            assert(out@ + subst_global_from(t@, name@, i as int) =~= pre + (seq![t@[i - 1]]
                + subst_global_from(t@, name@, i as int)));
        }
    }
    assert(subst_global_from(t@, name@, n as int) =~= Seq::<char>::empty());
    assert(out@ =~= out@ + Seq::<char>::empty());
    out
}

/// The extent of the digit run in `t` starting at `from`.
fn digits_run_exec(t: &Vec<char>, from: usize) -> (r: usize)
    requires
        from <= t@.len(),
    ensures
        r == digits_run(t@, from as int),
        from + r <= t@.len(),
{
    let n = t.len();
    let mut j = from;
    while j < n && (t[j] as u32) >= 0x30 && (t[j] as u32) <= 0x39
        invariant
            from <= j <= n,
            n == t@.len(),
            digits_run(t@, from as int) == (j - from) + digits_run(t@, j as int),
            forall|x: int| from <= x < j ==> is_digit_char(#[trigger] t@[x]),
        decreases n - j,
    {
        j = j + 1;
    }
    j - from
}

/// Replace every placeholder `{N}` in `t` by the N-th of the `parts`.
fn subst_positional_exec(t: &Vec<char>, parts: &Vec<Vec<char>>) -> (r: Option<Vec<char>>)
    ensures
        r matches Some(v) ==> positional_ok_from(t@, parts@.len() as int, 0) && v@
            == subst_positional_from(t@, parts.deep_view(), 0),
        r is None ==> !positional_ok_from(t@, parts@.len() as int, 0),
{
    let n = t.len();
    let nparts = parts.len();
    let mut out: Vec<char> = Vec::new();
    let mut i: usize = 0;
    proof {
        assert(out@ + subst_positional_from(t@, parts.deep_view(), 0) =~= subst_positional_from(
            t@,
            parts.deep_view(),
            0,
        ));
        assert(parts@.len() == parts.deep_view().len());
    }
    while i < n
        invariant
            n == t@.len(),
            nparts == parts@.len(),
            0 <= i <= n,
            subst_positional_from(t@, parts.deep_view(), 0) == out@ + subst_positional_from(
                t@,
                parts.deep_view(),
                i as int,
            ),
            positional_ok_from(t@, nparts as int, 0) == positional_ok_from(
                t@,
                nparts as int,
                i as int,
            ),
        decreases n - i,
    {
        let ghost pre = out@;
        let mut placeholder = false;
        if t[i] == '{' {
            let d = digits_run_exec(t, i + 1);
            if d > 0 && i + 1 + d < n && t[i + 1 + d] == '}' {
                placeholder = true;
                assert(at_placeholder(t@, i as int));
                proof {
                    assert(forall|j: int|
                        i + 1 <= j < i + 1 + d ==> is_digit_char(#[trigger] t@[j])) by {
                        lemma_digits_run_digits(t@, i + 1, d as int);
                    }
                }
                match parse_index(t, i + 1, i + 1 + d, nparts) {
                    Some(idx) => {
                        assert(idx == placeholder_index(t@, i as int));
                        push_all(&mut out, parts[idx].as_slice());
                        assert(parts[idx as int]@ == parts.deep_view()[idx as int]);
                        i = i + 2 + d;
                        assert(out@ + subst_positional_from(t@, parts.deep_view(), i as int) =~= pre
                            + (parts.deep_view()[idx as int] + subst_positional_from(
                            t@,
                            parts.deep_view(),
                            i as int,
                        )));
                    },
                    None => {
                        assert(placeholder_index(t@, i as int) >= nparts);
                        assert(!positional_ok_from(t@, nparts as int, i as int));
                        return None;
                    },
                }
            }
        }
        if !placeholder {
            out.push(t[i]);
            i = i + 1;
            assert(out@ + subst_positional_from(t@, parts.deep_view(), i as int) =~= pre + (seq![
                t@[i - 1],
            ] + subst_positional_from(t@, parts.deep_view(), i as int)));
        }
    }
    assert(out@ =~= out@ + Seq::<char>::empty());
    Some(out)
}

/// A digit run consists of digits.
proof fn lemma_digits_run_digits(s: Seq<char>, from: int, d: int)
    requires
        0 <= from <= s.len(),
        digits_run(s, from) == d,
    ensures
        forall|j: int| from <= j < from + d ==> is_digit_char(#[trigger] s[j]),
    decreases d,
{
    if d > 0 {
        lemma_digits_run_digits(s, from + 1, d - 1);
    }
}

/// Whether the command template matches the entry: every `{N}` placeholder it
/// asks for (after `{}` substitution) must name one of the fields the entry's
/// name splits into. A template that fails this is a configuration error,
/// to be signalled loudly by the caller.
pub fn command_matches_entry(command: &String, delimiter: &String, entry: &Entry) -> (r: bool)
    ensures
        r == format_ok(command@, delimiter@, entry.name@),
{
    let name = str_chars(entry.name.as_str());
    if all_ws_exec(&name) {
        return true;
    }
    let delim = str_chars(delimiter.as_str());
    let parts = split_chars(&name, &delim);
    let template = str_chars(command.as_str());
    let pass1 = subst_global_exec(&template, &name);
    proof {
        assert(parts@.len() == parts.deep_view().len());
    }
    match subst_positional_exec(&pass1, &parts) {
        Some(_) => true,
        None => false,
    }
}

/// Format the command template against the entry: `None` when the entry's
/// name trims to nothing (there is nothing to preview), otherwise the
/// template with `{}` replaced by the whole name and `{N}` by the N-th field
/// of the name split on the delimiter.
pub fn format_command(command: &String, delimiter: &String, entry: &Entry) -> (r: Option<String>)
    requires
        format_ok(command@, delimiter@, entry.name@),
    ensures
        r matches Some(f) ==> spec_format(command@, delimiter@, entry.name@) matches Some(g) && f@
            == g,
        r is None <==> spec_format(command@, delimiter@, entry.name@) is None,
{
    let name = str_chars(entry.name.as_str());
    if all_ws_exec(&name) {
        return None;
    }
    let delim = str_chars(delimiter.as_str());
    let parts = split_chars(&name, &delim);
    let template = str_chars(command.as_str());
    let pass1 = subst_global_exec(&template, &name);
    proof {
        assert(parts@.len() == parts.deep_view().len());
    }
    match subst_positional_exec(&pass1, &parts) {
        Some(v) => Some(string_from_chars(v.as_slice())),
        None => {
            proof {
                assert(false);
            }
            None
        },
    }
}

} // verus!
