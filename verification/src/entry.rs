//! Entries: the items a preview is computed for, and the match-range
//! bookkeeping that comes with them.

use vstd::prelude::*;

verus! {

/// The icon attached to entries and previews. It comes from the `devicons`
/// crate and is only carried through, never inspected.
#[verifier::external_type_specification]
#[verifier::external_body]
pub struct ExFileIcon(devicons::FileIcon);

/// One candidate item a preview can be computed for.
///
/// Identity is the pair of `name` and `line_number`: entries that agree on
/// those are the same entry, whatever else they carry.
#[derive(Debug, Clone)]
pub struct Entry {
    /// The name of the entry.
    pub name: String,
    /// An optional value associated with the entry.
    pub value: Option<String>,
    /// The optional ranges for matching characters in the name.
    pub name_match_ranges: Option<Vec<(u32, u32)>>,
    /// The optional ranges for matching characters in the value.
    pub value_match_ranges: Option<Vec<(u32, u32)>>,
    /// The optional icon associated with the entry.
    pub icon: Option<devicons::FileIcon>,
    /// The optional line number associated with the entry.
    pub line_number: Option<usize>,
}

impl PartialEq for Entry {
    fn eq(&self, other: &Entry) -> (r: bool) {
        self.name.eq(&other.name) && match (self.line_number, other.line_number) {
            (Option::None, Option::None) => true,
            (Option::Some(a), Option::Some(b)) => a == b,
            _ => false,
        }
    }
}

impl vstd::std_specs::cmp::PartialEqSpecImpl for Entry {
    open spec fn obeys_eq_spec() -> bool {
        true
    }

    open spec fn eq_spec(&self, other: &Entry) -> bool {
        self.name@ == other.name@ && self.line_number == other.line_number
    }
}

impl Entry {
    /// Create a new entry with the given name and nothing else.
    pub fn new(name: String) -> (r: Self)
        ensures
            r.name == name,
            r.value is None,
            r.name_match_ranges is None,
            r.value_match_ranges is None,
            r.icon is None,
            r.line_number is None,
    {
        Entry {
            name,
            value: None,
            name_match_ranges: None,
            value_match_ranges: None,
            icon: None,
            line_number: None,
        }
    }

    pub fn with_value(self, value: String) -> (r: Self)
        ensures
            r == (Entry { value: Some(value), ..self }),
    {
        Entry { value: Some(value), ..self }
    }

    /// Attach the name's match ranges, merged so that contiguous ranges fuse.
    pub fn with_name_match_ranges(self, name_match_ranges: &[(u32, u32)]) -> (r: Self)
        ensures
            r.name_match_ranges matches Some(m) && m@ == merged_ranges(name_match_ranges@),
            r.name == self.name,
            r.value == self.value,
            r.value_match_ranges == self.value_match_ranges,
            r.icon == self.icon,
            r.line_number == self.line_number,
    {
        Entry { name_match_ranges: Some(merge_ranges(name_match_ranges)), ..self }
    }

    /// Attach the value's match ranges, merged so that contiguous ranges fuse.
    pub fn with_value_match_ranges(self, value_match_ranges: &[(u32, u32)]) -> (r: Self)
        ensures
            r.value_match_ranges matches Some(m) && m@ == merged_ranges(value_match_ranges@),
            r.name == self.name,
            r.value == self.value,
            r.name_match_ranges == self.name_match_ranges,
            r.icon == self.icon,
            r.line_number == self.line_number,
    {
        Entry { value_match_ranges: Some(merge_ranges(value_match_ranges)), ..self }
    }

    pub fn with_icon(self, icon: devicons::FileIcon) -> (r: Self)
        ensures
            r == (Entry { icon: Some(icon), ..self }),
    {
        Entry { icon: Some(icon), ..self }
    }

    pub fn with_line_number(self, line_number: usize) -> (r: Self)
        ensures
            r == (Entry { line_number: Some(line_number), ..self }),
    {
        Entry { line_number: Some(line_number), ..self }
    }

    /// How the entry is written to standard output on selection: the name,
    /// quoted when it is an existing path with white space in it (the caller
    /// says whether the path exists), and the line number appended after a
    /// colon.
    pub fn stdout_repr(&self, path_exists: bool) -> (r: String)
        ensures
            ({
                let base = if path_exists && has_ascii_ws(self.name@) {
                    seq!['\''] + self.name@ + seq!['\'']
                } else {
                    self.name@
                };
                r@ == match self.line_number {
                    Some(ln) => base + seq![':'] + dec_digits(ln as int),
                    None => base,
                }
            }),
    {
        let chars = crate::strings::str_chars(self.name.as_str());
        let mut out: Vec<char> = Vec::new();
        let quote = path_exists && contains_ascii_ws(&chars);
        if quote {
            out.push('\'');
        }
        crate::strings::push_all(&mut out, chars.as_slice());
        if quote {
            out.push('\'');
        }
        proof {
            if quote {
                assert(out@ =~= seq!['\''] + self.name@ + seq!['\'']);
            } else {
                assert(out@ =~= self.name@);
            }
        }
        match self.line_number {
            Some(ln) => {
                let ghost base = out@;
                out.push(':');
                push_dec_digits(&mut out, ln);
                proof {
                    assert(out@ =~= base + seq![':'] + dec_digits(ln as int));
                }
            },
            None => {},
        }
        crate::strings::string_from_chars(out.as_slice())
    }

    /// The entry shown while there is nothing to show.
    pub fn placeholder() -> (r: Self)
        ensures
            r.name@ == Seq::<char>::empty(),
            r.value is None,
            r.name_match_ranges is None,
            r.value_match_ranges is None,
            r.icon is None,
            r.line_number is None,
    {
        Entry::new(String::new())
    }
}

/// ASCII white space, as `char::is_ascii_whitespace` decides it.
pub open spec fn is_ascii_ws(c: char) -> bool {
    c == ' ' || c == '\t' || c == '\n' || c == '\r' || c as u32 == 0x0C
}

pub open spec fn has_ascii_ws(s: Seq<char>) -> bool {
    exists|i: int| 0 <= i < s.len() && is_ascii_ws(#[trigger] s[i])
}

fn contains_ascii_ws(chars: &Vec<char>) -> (r: bool)
    ensures
        r == has_ascii_ws(chars@),
{
    let n = chars.len();
    for i in 0..n
        invariant
            n == chars@.len(),
            forall|j: int| 0 <= j < i ==> !is_ascii_ws(#[trigger] chars@[j]),
    {
        let c = chars[i];
        if c == ' ' || c == '\t' || c == '\n' || c == '\r' || c as u32 == 0x0C {
            assert(is_ascii_ws(chars@[i as int]));
            return true;
        }
    }
    false
}

/// The decimal digits of `n`, most significant first.
pub open spec fn dec_digits(n: int) -> Seq<char>
    decreases n,
    when n >= 0
{
    if n <= 9 {
        seq![((0x30 + n) as u8) as char]
    } else {
        dec_digits(n / 10).push(((0x30 + n % 10) as u8) as char)
    }
}

/// Append the decimal digits of `n`.
fn push_dec_digits(out: &mut Vec<char>, n: usize)
    ensures
        final(out)@ == old(out)@ + dec_digits(n as int),
    decreases n,
{
    if n <= 9 {
        out.push((0x30 + n as u8) as char);
        assert(out@ =~= old(out)@ + dec_digits(n as int));
    } else {
        push_dec_digits(out, n / 10);
        out.push((0x30 + (n % 10) as u8) as char);
        assert(out@ =~= old(out)@ + dec_digits(n as int));
    }
}

/// One merge step: append the range `x` to the already-merged prefix `acc`,
/// fusing it with the last range when the two are contiguous.
pub open spec fn merge_step(acc: Seq<(u32, u32)>, x: (u32, u32)) -> Seq<(u32, u32)> {
    if acc.len() == 0 {
        acc.push(x)
    } else if acc.last().1 == x.0 {
        acc.update(acc.len() - 1, (acc.last().0, x.1))
    } else {
        acc.push(x)
    }
}

/// The merge of a whole sequence of ranges, folding `merge_step` from the left.
pub open spec fn merged_ranges(rs: Seq<(u32, u32)>) -> Seq<(u32, u32)>
    decreases rs.len(),
{
    if rs.len() == 0 {
        Seq::empty()
    } else {
        merge_step(merged_ranges(rs.drop_last()), rs.last())
    }
}

/// Fuse adjacent ranges: whenever a range starts exactly where the previous
/// one ended, the two become one; all other ranges are kept as they are.
pub fn merge_ranges(ranges: &[(u32, u32)]) -> (r: Vec<(u32, u32)>)
    ensures
        r@ == merged_ranges(ranges@),
{
    let mut acc: Vec<(u32, u32)> = Vec::new();
    let n = ranges.len();
    for i in 0..n
        invariant
            n == ranges@.len(),
            acc@ == merged_ranges(ranges@.take(i as int)),
    {
        let x = ranges[i];
        if acc.len() > 0 && acc[acc.len() - 1].1 == x.0 {
            let last = acc.len() - 1;
            let lo = acc[last].0;
            acc[last] = (lo, x.1);
        } else {
            acc.push(x);
        }
        assert(ranges@.take(i + 1).drop_last() =~= ranges@.take(i as int));
        assert(ranges@.take(i + 1).last() == x);
    }
    assert(ranges@.take(n as int) =~= ranges@);
    acc
}

} // verus!
