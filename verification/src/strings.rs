//! String utilities: equality, UTF-8 character boundaries, and the scrubbing
//! of non-printable characters before a line is displayed.

use vstd::prelude::*;
use vstd::math::min;
use vstd::string::StringSliceAdditionalSpecFns;
use vstd::utf8::{encode_utf8_decode_utf8, encode_utf8_valid_utf8, is_char_boundary, valid_utf8};

verus! {

/// What `String::from_utf8_lossy` makes of bytes that are not valid UTF-8:
/// some text, a function of the bytes alone.
pub uninterp spec fn utf8_lossy_repaired(bytes: Seq<u8>) -> Seq<char>;

/// What `String::from_utf8_lossy` returns: valid UTF-8 decodes to exactly its
/// text, anything else to its repaired form.
pub open spec fn utf8_lossy(bytes: Seq<u8>) -> Seq<char> {
    if valid_utf8(bytes) {
        vstd::utf8::decode_utf8(bytes)
    } else {
        utf8_lossy_repaired(bytes)
    }
}

/// Relies on `String::from_utf8_lossy`: a valid UTF-8 byte sequence decodes
/// to exactly its text; invalid sequences still yield a string, a function of
/// the bytes alone.
#[verifier::external_body]
pub fn bytes_to_string_lossy(bytes: &[u8]) -> (r: String)
    ensures
        r@ == utf8_lossy(bytes@),
        !valid_utf8(bytes@) ==> r@ == utf8_lossy_repaired(bytes@),
{
    String::from_utf8_lossy(bytes).into_owned()
}

/// Relies on `String: FromIterator<char>`: collecting characters builds the
/// string of exactly those characters.
#[verifier::external_body]
pub fn string_from_chars(chars: &[char]) -> (r: String)
    ensures
        r@ == chars@,
{
    chars.iter().collect()
}

/// Relies on `str::chars`: the characters of a string slice are its text, in
/// order.
#[verifier::external_body]
pub fn str_chars(s: &str) -> (r: Vec<char>)
    ensures
        r@ == s@,
{
    s.chars().collect()
}

/// Append all elements of `src` to `dst`.
pub fn push_all<T: Copy>(dst: &mut Vec<T>, src: &[T])
    ensures
        final(dst)@ == old(dst)@ + src@,
{
    let n = src.len();
    for i in 0..n
        invariant
            n == src@.len(),
            dst@ == old(dst)@ + src@.take(i as int),
    {
        dst.push(src[i]);
        assert(dst@ =~= old(dst)@ + src@.take(i + 1));
    }
    assert(dst@ =~= old(dst)@ + src@);
}

/// Lines longer than this many bytes are cut before display.
pub const MAX_LINE_LENGTH: usize = 300;

/// What `replace_non_printable` replaces, and how wide a tab becomes.
#[derive(Debug, Clone, Copy, PartialEq, Eq, Structural)]
pub struct ReplaceNonPrintableConfig {
    pub replace_tab: bool,
    pub tab_width: usize,
    pub replace_line_feed: bool,
    pub replace_control_characters: bool,
}

/// The stock configuration: tabs become four spaces, newlines disappear,
/// control characters become a visible placeholder.
pub open spec fn default_replace_cfg() -> ReplaceNonPrintableConfig {
    ReplaceNonPrintableConfig {
        replace_tab: true,
        tab_width: 4,
        replace_line_feed: true,
        replace_control_characters: true,
    }
}

impl ReplaceNonPrintableConfig {
    /// The same configuration with another tab width.
    pub fn tab_width(self, width: usize) -> (r: Self)
        ensures
            r == (ReplaceNonPrintableConfig { tab_width: width, ..self }),
    {
        ReplaceNonPrintableConfig { tab_width: width, ..self }
    }
}

impl Default for ReplaceNonPrintableConfig {
    fn default() -> (r: Self)
        ensures
            r == default_replace_cfg(),
    {
        ReplaceNonPrintableConfig {
            replace_tab: true,
            tab_width: 4,
            replace_line_feed: true,
            replace_control_characters: true,
        }
    }
}

/// A byte-order mark starts at `i`.
pub open spec fn at_bom(s: Seq<u8>, i: int) -> bool {
    &&& 0 <= i
    &&& i + 3 <= s.len()
    &&& s[i] == 0xEF
    &&& s[i + 1] == 0xBB
    &&& s[i + 2] == 0xBF
}

/// How many input bytes the unit at `i` spans: three for a replaced
/// byte-order mark, one otherwise.
pub open spec fn unit_len(s: Seq<u8>, i: int, cfg: ReplaceNonPrintableConfig) -> int {
    if cfg.replace_control_characters && at_bom(s, i) {
        3int
    } else {
        1int
    }
}

/// `k` spaces.
pub open spec fn spaces(k: int) -> Seq<u8> {
    Seq::new(k as nat, |x: int| 0x20u8)
}

/// The bytes U+2400 (the symbol standing in for an erased character)
/// encodes to.
pub open spec fn placeholder_bytes() -> Seq<u8> {
    seq![0xE2u8, 0x90u8, 0x80u8]
}

/// What the unit at `i` becomes: a tab turns into spaces, a newline into
/// nothing, a control byte, delete or byte-order mark into the placeholder
/// symbol; everything else is copied as it is.
pub open spec fn unit_out(s: Seq<u8>, i: int, cfg: ReplaceNonPrintableConfig) -> Seq<u8> {
    if s[i] == 0x09 && cfg.replace_tab {
        spaces(cfg.tab_width as int)
    } else if s[i] == 0x0A && cfg.replace_line_feed {
        Seq::empty()
    } else if cfg.replace_control_characters && at_bom(s, i) {
        placeholder_bytes()
    } else if cfg.replace_control_characters && (s[i] < 0x20 || s[i] == 0x7F) {
        placeholder_bytes()
    } else {
        seq![s[i]]
    }
}

/// How the unit at `i` shifts later text: a tab grows it by the tab width
/// less one, a dropped newline shrinks it by one, every replacement is
/// width-for-width.
pub open spec fn unit_delta(s: Seq<u8>, i: int, cfg: ReplaceNonPrintableConfig) -> int {
    if s[i] == 0x09 && cfg.replace_tab {
        cfg.tab_width - 1
    } else if s[i] == 0x0A && cfg.replace_line_feed {
        -1int
    } else {
        0int
    }
}

/// The scrubbed bytes of `s` from `i` on.
pub open spec fn replace_bytes(s: Seq<u8>, i: int, cfg: ReplaceNonPrintableConfig) -> Seq<u8>
    decreases s.len() - i,
    when 0 <= i <= s.len()
{
    if i >= s.len() {
        Seq::empty()
    } else {
        unit_out(s, i, cfg) + replace_bytes(s, i + unit_len(s, i, cfg), cfg)
    }
}

/// The cumulative shift recorded for each unit of `s` from `i` on, starting
/// from `delta`.
pub open spec fn replace_offsets(
    s: Seq<u8>,
    i: int,
    delta: int,
    cfg: ReplaceNonPrintableConfig,
) -> Seq<int>
    decreases s.len() - i,
    when 0 <= i <= s.len()
{
    if i >= s.len() {
        Seq::empty()
    } else {
        seq![delta] + replace_offsets(s, i + unit_len(s, i, cfg), delta + unit_delta(s, i, cfg), cfg)
    }
}

/// Scrub `input` for display: tabs, newlines, control characters and the
/// byte-order mark are replaced as the configuration says, and alongside the
/// text each input unit gets the cumulative shift its position has undergone.
pub fn replace_non_printable(input: &[u8], config: &ReplaceNonPrintableConfig) -> (r: (
    String,
    Vec<i64>,
))
    requires
        input@.len() <= 0x1000_0000,
        config.tab_width <= 0x1000_0000,
    ensures
        r.0@ == utf8_lossy(replace_bytes(input@, 0, *config)),
        r.1@.map_values(|x: i64| x as int) == replace_offsets(input@, 0, 0, *config),
{
    let n = input.len();
    let mut out: Vec<u8> = Vec::new();
    let mut offsets: Vec<i64> = Vec::new();
    let mut delta: i64 = 0;
    let mut i: usize = 0;
    proof {
        assert(out@ + replace_bytes(input@, 0, *config) =~= replace_bytes(input@, 0, *config));
        assert(offsets@.map_values(|x: i64| x as int) + replace_offsets(input@, 0, 0, *config)
            =~= replace_offsets(input@, 0, 0, *config));
    }
    while i < n
        invariant
            n == input@.len(),
            n <= 0x1000_0000,
            config.tab_width <= 0x1000_0000,
            i <= n,
            -(i as int) <= delta as int,
            delta as int <= 0x1000_0000 * (i as int),
            replace_bytes(input@, 0, *config) == out@ + replace_bytes(input@, i as int, *config),
            replace_offsets(input@, 0, 0, *config) == offsets@.map_values(|x: i64| x as int)
                + replace_offsets(input@, i as int, delta as int, *config),
        decreases n - i,
    {
        let ghost pre_out = out@;
        let ghost pre_offs = offsets@.map_values(|x: i64| x as int);
        let ghost d0 = delta as int;
        offsets.push(delta);
        proof {
            assert(offsets@.map_values(|x: i64| x as int) =~= pre_offs.push(d0));
        }
        let b = input[i];
        let step: usize;
        if b == 0x09 && config.replace_tab {
            let w = config.tab_width;
            let ghost mid = out@;
            let mut k: usize = 0;
            while k < w
                invariant
                    k <= w,
                    out@ == mid + spaces(k as int),
                decreases w - k,
            {
                out.push(0x20);
                k = k + 1;
                assert(out@ =~= mid + spaces(k as int));
            }
            delta = delta + (w as i64 - 1);
            step = 1;
        } else if b == 0x0A && config.replace_line_feed {
            delta = delta - 1;
            step = 1;
        } else if config.replace_control_characters && b == 0xEF && n - i > 2 && input[i + 1]
            == 0xBB && input[i + 2] == 0xBF {
            out.push(0xE2);
            out.push(0x90);
            out.push(0x80);
            step = 3;
        } else if config.replace_control_characters && (b < 0x20 || b == 0x7F) {
            out.push(0xE2);
            out.push(0x90);
            out.push(0x80);
            step = 1;
        } else {
            out.push(b);
            step = 1;
        }
        proof {
            assert(unit_len(input@, i as int, *config) == step as int);
            assert(out@ =~= pre_out + unit_out(input@, i as int, *config));
            assert(d0 + unit_delta(input@, i as int, *config) == delta as int);
        }
        i = i + step;
        proof {
            assert(pre_out + (unit_out(input@, (i - step) as int, *config) + replace_bytes(
                input@,
                i as int,
                *config,
            )) =~= out@ + replace_bytes(input@, i as int, *config));
            assert(pre_offs + (seq![d0] + replace_offsets(input@, i as int, delta as int, *config))
                =~= offsets@.map_values(|x: i64| x as int) + replace_offsets(
                input@,
                i as int,
                delta as int,
                *config,
            ));
        }
    }
    proof {
        assert(replace_bytes(input@, n as int, *config) == Seq::<u8>::empty());
        assert(out@ + Seq::<u8>::empty() =~= out@);
        assert(replace_offsets(input@, n as int, delta as int, *config) == Seq::<int>::empty());
        assert(offsets@.map_values(|x: i64| x as int) + Seq::<int>::empty() =~= offsets@.map_values(
            |x: i64| x as int,
        ));
    }
    let text = bytes_to_string_lossy(out.as_slice());
    (text, offsets)
}

/// Prepare one line for display: cut it at the last character boundary at or
/// before `MAX_LINE_LENGTH` bytes, then scrub it with the stock
/// configuration.
pub fn preprocess_line(line: &str) -> (r: (String, Vec<i64>))
    ensures
        ({
            let cut = prev_boundary(
                line.spec_bytes(),
                min(MAX_LINE_LENGTH as int, line.spec_bytes().len() as int),
            );
            let kept = line.spec_bytes().subrange(0, cut);
            &&& r.0@ == utf8_lossy(replace_bytes(kept, 0, default_replace_cfg()))
            &&& r.1@.map_values(|x: i64| x as int) == replace_offsets(
                kept,
                0,
                0,
                default_replace_cfg(),
            )
        }),
{
    let end = prev_char_boundary(line, MAX_LINE_LENGTH);
    let (kept, _) = line.split_at(end);
    let cfg = ReplaceNonPrintableConfig::default();
    proof {
        encode_utf8_valid_utf8(line@);
        lemma_prev_in_range(
            line.spec_bytes(),
            min(MAX_LINE_LENGTH as int, line.spec_bytes().len() as int),
        );
    }
    replace_non_printable(kept.as_bytes(), &cfg)
}

/// Byte-slice equality.
pub fn bytes_eq(a: &[u8], b: &[u8]) -> (r: bool)
    ensures
        r == (a@ == b@),
{
    if a.len() != b.len() {
        assert(a@ != b@) by {
            assert(a@.len() != b@.len());
        }
        return false;
    }
    let n = a.len();
    for i in 0..n
        invariant
            n == a@.len() == b@.len(),
            forall|j: int| 0 <= j < i ==> a@[j] == b@[j],
    {
        if a[i] != b[i] {
            return false;
        }
    }
    assert(a@ =~= b@);
    true
}

/// String-slice equality, decided over the UTF-8 bytes.
pub fn str_eq(a: &str, b: &str) -> (r: bool)
    ensures
        r == (a@ == b@),
{
    let r = bytes_eq(a.as_bytes(), b.as_bytes());
    proof {
        if a.spec_bytes() == b.spec_bytes() {
            encode_utf8_valid_utf8(a@);
            encode_utf8_decode_utf8(a@);
            encode_utf8_decode_utf8(b@);
        }
    }
    r
}

/// The first character boundary of `bytes` at or after `from`
/// (`bytes.len()` itself always is one).
pub open spec fn next_boundary(bytes: Seq<u8>, from: int) -> int
    decreases bytes.len() - from,
    when 0 <= from <= bytes.len() && valid_utf8(bytes)
{
    if from >= bytes.len() || is_char_boundary(bytes, from) {
        from
    } else {
        next_boundary(bytes, from + 1)
    }
}

/// The last character boundary of `bytes` at or before `from`
/// (`0` always is one).
pub open spec fn prev_boundary(bytes: Seq<u8>, from: int) -> int
    decreases from,
    when 0 <= from <= bytes.len() && valid_utf8(bytes)
{
    if from <= 0 || is_char_boundary(bytes, from) {
        from
    } else {
        prev_boundary(bytes, from - 1)
    }
}

/// The end of a valid UTF-8 byte sequence is a character boundary.
pub proof fn lemma_boundary_at_end(bytes: Seq<u8>)
    requires
        valid_utf8(bytes),
    ensures
        is_char_boundary(bytes, bytes.len() as int),
    decreases bytes.len(),
{
    if bytes.len() > 0 {
        assert(1 <= vstd::utf8::length_of_first_scalar(bytes) <= bytes.len());
        lemma_boundary_at_end(vstd::utf8::pop_first_scalar(bytes));
    }
}

/// The smallest index at or after `start` (both clamped to the length) that
/// lies on a character boundary of `s`.
pub fn next_char_boundary(s: &str, start: usize) -> (r: usize)
    ensures
        r == next_boundary(s.spec_bytes(), min(start as int, s.spec_bytes().len() as int)),
        is_char_boundary(s.spec_bytes(), r as int),
        r <= s.spec_bytes().len(),
        start <= s.spec_bytes().len() ==> start <= r,
{
    proof {
        encode_utf8_valid_utf8(s@);
        lemma_boundary_at_end(s.spec_bytes());
    }
    let n = s.as_bytes().len();
    let mut i: usize = if start < n {
        start
    } else {
        n
    };
    while !s.is_char_boundary(i)
        invariant
            i <= n,
            n == s.spec_bytes().len(),
            valid_utf8(s.spec_bytes()),
            is_char_boundary(s.spec_bytes(), n as int),
            next_boundary(s.spec_bytes(), min(start as int, n as int)) == next_boundary(
                s.spec_bytes(),
                i as int,
            ),
        decreases n - i,
    {
        i = i + 1;
    }
    proof {
        lemma_next_in_range(s.spec_bytes(), min(start as int, n as int));
    }
    i
}

/// The largest index at or before `start` (clamped to the length) that lies
/// on a character boundary of `s`.
pub fn prev_char_boundary(s: &str, start: usize) -> (r: usize)
    ensures
        r == prev_boundary(s.spec_bytes(), min(start as int, s.spec_bytes().len() as int)),
        is_char_boundary(s.spec_bytes(), r as int),
        r <= min(start as int, s.spec_bytes().len() as int),
{
    proof {
        encode_utf8_valid_utf8(s@);
    }
    let n = s.as_bytes().len();
    let mut i: usize = if start < n {
        start
    } else {
        n
    };
    while !s.is_char_boundary(i)
        invariant
            i <= n,
            n == s.spec_bytes().len(),
            valid_utf8(s.spec_bytes()),
            prev_boundary(s.spec_bytes(), min(start as int, n as int)) == prev_boundary(
                s.spec_bytes(),
                i as int,
            ),
        decreases i,
    {
        i = i - 1;
    }
    proof {
        lemma_prev_in_range(s.spec_bytes(), min(start as int, n as int));
    }
    i
}

/// The slice of `s` between `start` and `end`, each snapped outward to the
/// nearest character boundary (`start` down, `end` up); empty when either
/// index lies beyond the string.
pub fn slice_at_char_boundaries<'a>(s: &'a str, start: usize, end: usize) -> (r: &'a str)
    requires
        start <= end,
    ensures
        (start > s.spec_bytes().len() || end > s.spec_bytes().len()) ==> r@ == Seq::<
            char,
        >::empty(),
        (start <= s.spec_bytes().len() && end <= s.spec_bytes().len()) ==> r.spec_bytes()
            == s.spec_bytes().subrange(
            prev_boundary(s.spec_bytes(), start as int),
            next_boundary(s.spec_bytes(), end as int),
        ),
{
    let n = s.as_bytes().len();
    if start > n || end > n {
        let empty = "";
        proof {
            reveal_strlit("");
            assert(empty@ =~= Seq::<char>::empty());
        }
        return empty;
    }
    let lo = prev_char_boundary(s, start);
    let hi = next_char_boundary(s, end);
    proof {
        encode_utf8_valid_utf8(s@);
        lemma_prev_le_next(s.spec_bytes(), start as int, end as int);
    }
    let (_, tail) = s.split_at(lo);
    proof {
        lemma_boundary_shift(s.spec_bytes(), lo as int, hi as int);
    }
    let (mid, _) = tail.split_at(hi - lo);
    proof {
        assert(mid.spec_bytes() =~= s.spec_bytes().subrange(lo as int, hi as int));
    }
    mid
}

/// Snapping down from `start` never passes snapping up from `end`, when
/// `start <= end`.
proof fn lemma_prev_le_next(bytes: Seq<u8>, start: int, end: int)
    requires
        valid_utf8(bytes),
        0 <= start <= end <= bytes.len(),
    ensures
        prev_boundary(bytes, start) <= next_boundary(bytes, end),
        0 <= prev_boundary(bytes, start),
        next_boundary(bytes, end) <= bytes.len(),
        is_char_boundary(bytes, prev_boundary(bytes, start)),
        is_char_boundary(bytes, next_boundary(bytes, end)),
{
    lemma_boundary_at_end(bytes);
    lemma_prev_in_range(bytes, start);
    lemma_next_in_range(bytes, end);
}

proof fn lemma_prev_in_range(bytes: Seq<u8>, from: int)
    requires
        valid_utf8(bytes),
        0 <= from <= bytes.len(),
    ensures
        0 <= prev_boundary(bytes, from) <= from,
        is_char_boundary(bytes, prev_boundary(bytes, from)),
    decreases from,
{
    if !is_char_boundary(bytes, from) {
        lemma_prev_in_range(bytes, from - 1);
    }
}

proof fn lemma_next_in_range(bytes: Seq<u8>, from: int)
    requires
        valid_utf8(bytes),
        is_char_boundary(bytes, bytes.len() as int),
        0 <= from <= bytes.len(),
    ensures
        from <= next_boundary(bytes, from) <= bytes.len(),
        is_char_boundary(bytes, next_boundary(bytes, from)),
    decreases bytes.len() - from,
{
    if !is_char_boundary(bytes, from) {
        lemma_next_in_range(bytes, from + 1);
    }
}

/// A boundary of the tail split off at a boundary is a boundary of the whole,
/// shifted.
proof fn lemma_boundary_shift(bytes: Seq<u8>, lo: int, hi: int)
    requires
        valid_utf8(bytes),
        0 <= lo <= hi <= bytes.len(),
        is_char_boundary(bytes, lo),
        is_char_boundary(bytes, hi),
    ensures
        valid_utf8(bytes.subrange(lo, bytes.len() as int)),
        is_char_boundary(bytes.subrange(lo, bytes.len() as int), hi - lo),
    decreases lo,
{
    vstd::utf8::valid_utf8_split(bytes, lo);
    lemma_boundary_sub(bytes, lo, hi);
}

proof fn lemma_boundary_sub(bytes: Seq<u8>, lo: int, hi: int)
    requires
        valid_utf8(bytes),
        0 <= lo <= hi <= bytes.len(),
        is_char_boundary(bytes, lo),
        is_char_boundary(bytes, hi),
    ensures
        is_char_boundary(bytes.subrange(lo, bytes.len() as int), hi - lo),
    decreases bytes.len(),
{
    if lo == 0 {
        assert(bytes.subrange(0, bytes.len() as int) =~= bytes);
    } else {
        let first_len = vstd::utf8::length_of_first_scalar(bytes);
        assert(1 <= first_len <= bytes.len());
        let tail = vstd::utf8::pop_first_scalar(bytes);
        assert(is_char_boundary(tail, lo - first_len));
        assert(is_char_boundary(tail, hi - first_len)) by {
            if hi == 0 {
            } else {
                assert(is_char_boundary(bytes, hi));
            }
        }
        assert(lo - first_len >= 0) by {
            if lo - first_len < 0 {
                assert(!is_char_boundary(tail, lo - first_len));
            }
        }
        lemma_boundary_sub(tail, lo - first_len, hi - first_len);
        assert(tail.subrange(lo - first_len, tail.len() as int) =~= bytes.subrange(
            lo,
            bytes.len() as int,
        ));
    }
}

} // verus!
