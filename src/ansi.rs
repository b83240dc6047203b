use vstd::prelude::*;

use crate::text::{append_chars, chars_of, slice_chars, string_of};

verus! {

/// One escape sequence of a colorized text, with the number of visible
/// characters that precede it.
#[derive(Clone, Debug)]
pub struct AnsiSegment {
    pub code: String,
    pub visible_pos: usize,
}

impl AnsiSegment {
    /// The sequence and its visible offset.
    pub open spec fn view(&self) -> (Seq<char>, nat) {
        (self.code@, self.visible_pos as nat)
    }
}

/// The sequences and offsets of `v`.
pub open spec fn segments_view(v: Seq<AnsiSegment>) -> Seq<(Seq<char>, nat)> {
    v.map_values(|a: AnsiSegment| a.view())
}

/// Whether `c` is an ASCII letter, which ends an escape sequence.
pub open spec fn is_alpha(c: char) -> bool {
    ('a' <= c && c <= 'z') || ('A' <= c && c <= 'Z')
}

/// Whether an escape sequence (`ESC [`) starts at `i`.
pub open spec fn csi_at(s: Seq<char>, i: int) -> bool {
    0 <= i && i + 1 < s.len() && s[i] == '\x1b' && s[i + 1] == '['
}

/// The end of a sequence whose parameters start at `k`: just past the first
/// letter, or the end of the text.
pub open spec fn code_end(s: Seq<char>, k: int) -> int
    decreases s.len() - k,
{
    if k >= s.len() {
        s.len() as int
    } else if is_alpha(s[k]) {
        k + 1
    } else {
        code_end(s, k + 1)
    }
}

/// An escape sequence ends between its start and the end of the text.
pub proof fn lemma_code_end_bounds(s: Seq<char>, k: int)
    requires
        0 <= k <= s.len(),
    ensures
        k <= code_end(s, k) <= s.len(),
    decreases s.len() - k,
{
    if k < s.len() && !is_alpha(s[k]) {
        lemma_code_end_bounds(s, k + 1);
    }
}

/// The escape sequences of `s` from index `i` on, each with its visible offset,
/// counted from `pos` at `i`.
pub open spec fn segments_from(s: Seq<char>, i: int, pos: nat) -> Seq<(Seq<char>, nat)>
    decreases s.len() - i,
    via segments_from_decreases
{
    if i < 0 || i >= s.len() {
        seq![]
    } else if csi_at(s, i) {
        let e = code_end(s, i + 2);
        seq![(s.subrange(i, e), pos)] + segments_from(s, e, pos)
    } else {
        segments_from(s, i + 1, pos + 1)
    }
}

#[via_fn]
proof fn segments_from_decreases(s: Seq<char>, i: int, pos: nat) {
    if 0 <= i < s.len() && csi_at(s, i) {
        lemma_code_end_bounds(s, i + 2);
    }
}

/// The visible characters of `s` from index `i` on: `s` without its escape sequences.
pub open spec fn visible_from(s: Seq<char>, i: int) -> Seq<char>
    decreases s.len() - i,
    via visible_from_decreases
{
    if i < 0 || i >= s.len() {
        seq![]
    } else if csi_at(s, i) {
        visible_from(s, code_end(s, i + 2))
    } else {
        seq![s[i]] + visible_from(s, i + 1)
    }
}

#[via_fn]
proof fn visible_from_decreases(s: Seq<char>, i: int) {
    if 0 <= i < s.len() && csi_at(s, i) {
        lemma_code_end_bounds(s, i + 2);
    }
}

/// The escape sequences of `s` with their visible offsets.
pub open spec fn segments_of(s: Seq<char>) -> Seq<(Seq<char>, nat)> {
    segments_from(s, 0, 0)
}

/// The visible text of `s`: `s` with every escape sequence removed.
pub open spec fn visible(s: Seq<char>) -> Seq<char> {
    visible_from(s, 0)
}

proof fn lemma_segments_step(s: Seq<char>, i: int, pos: nat)
    requires
        0 <= i < s.len(),
    ensures
        csi_at(s, i) ==> segments_from(s, i, pos) == seq![(s.subrange(i, code_end(s, i + 2)), pos)]
            + segments_from(s, code_end(s, i + 2), pos),
        !csi_at(s, i) ==> segments_from(s, i, pos) == segments_from(s, i + 1, pos + 1),
        csi_at(s, i) ==> visible_from(s, i) == visible_from(s, code_end(s, i + 2)),
        !csi_at(s, i) ==> visible_from(s, i) == seq![s[i]] + visible_from(s, i + 1),
{
}

/// Exclusive end of the escape sequence whose parameters start at `k`.
fn find_code_end(s: &Vec<char>, k: usize) -> (e: usize)
    requires
        k <= s@.len(),
    ensures
        e as int == code_end(s@, k as int),
        k <= e <= s@.len(),
{
    let n = s.len();
    let mut j: usize = k;
    while j < n && !(('a' <= s[j] && s[j] <= 'z') || ('A' <= s[j] && s[j] <= 'Z'))
        invariant
            k <= j <= n,
            n == s@.len(),
            code_end(s@, k as int) == code_end(s@, j as int),
        decreases n - j,
    {
        j += 1;
    }
    if j < n {
        j + 1
    } else {
        n
    }
}

fn csi_starts(s: &Vec<char>, i: usize) -> (b: bool)
    ensures
        b == csi_at(s@, i as int),
{
    i < s.len() && i + 1 < s.len() && s[i] == '\x1b' && s[i + 1] == '['
}

/// The escape sequences of `text`, each with the count of visible characters
/// before it, in the order in which they occur.
pub fn get_ansi_segments(text: &str) -> (r: Vec<AnsiSegment>)
    ensures
        segments_view(r@) == segments_of(text@),
{
    let s = chars_of(text);
    ansi_segments_of(&s)
}

/// The escape sequences of the characters `s`; see `get_ansi_segments`.
pub fn ansi_segments_of(s: &Vec<char>) -> (r: Vec<AnsiSegment>)
    ensures
        segments_view(r@) == segments_of(s@),
{
    let n = s.len();
    let mut r: Vec<AnsiSegment> = Vec::new();
    let mut i: usize = 0;
    let mut pos: usize = 0;
    while i < n
        invariant
            n == s@.len(),
            i <= n,
            pos <= i,
            segments_view(r@) + segments_from(s@, i as int, pos as nat) == segments_of(s@),
        decreases n - i,
    {
        proof {
            lemma_segments_step(s@, i as int, pos as nat);
        }
        if csi_starts(s, i) {
            let e = find_code_end(s, i + 2);
            let code = slice_chars(s, i, e);
            let seg = AnsiSegment { code: string_of(code.as_slice()), visible_pos: pos };
            let ghost old_r = r@;
            r.push(seg);
            proof {
                assert(segments_view(r@) =~= segments_view(old_r) + seq![seg.view()]);
                assert(segments_view(r@) + segments_from(s@, e as int, pos as nat) =~= segments_view(
                    old_r,
                ) + segments_from(s@, i as int, pos as nat));
            }
            i = e;
        } else {
            i += 1;
            pos += 1;
        }
    }
    r
}

/// The visible characters of `s`.
pub fn visible_chars(s: &Vec<char>) -> (r: Vec<char>)
    ensures
        r@ == visible(s@),
{
    let n = s.len();
    let mut r: Vec<char> = Vec::new();
    let mut i: usize = 0;
    while i < n
        invariant
            n == s@.len(),
            i <= n,
            r@ + visible_from(s@, i as int) == visible(s@),
        decreases n - i,
    {
        proof {
            lemma_segments_step(s@, i as int, 0);
        }
        if csi_starts(s, i) {
            i = find_code_end(s, i + 2);
        } else {
            let ghost old_r = r@;
            r.push(s[i]);
            proof {
                assert(r@ + visible_from(s@, (i + 1) as int) =~= old_r + visible_from(s@, i as int));
            }
            i += 1;
        }
    }
    r
}

/// Whether `c` is the reset sequence (`ESC [ 0 m` or `ESC [ m`).
pub open spec fn is_reset(c: Seq<char>) -> bool {
    c == seq!['\x1b', '[', '0', 'm'] || c == seq!['\x1b', '[', 'm']
}

/// The reset sequence that ends a colored run.
pub open spec fn reset_seq() -> Seq<char> {
    seq!['\x1b', '[', '0', 'm']
}

/// Scanning the sequences from `i` while they stand before visible offset `pos`,
/// with `cur` the style in force: the style in force at `pos`.
pub open spec fn active_from(segs: Seq<(Seq<char>, nat)>, i: int, pos: nat, cur: Seq<Seq<char>>) -> Seq<Seq<char>>
    decreases segs.len() - i,
{
    if i < 0 || i >= segs.len() || segs[i].1 >= pos {
        cur
    } else if is_reset(segs[i].0) {
        active_from(segs, i + 1, pos, seq![])
    } else {
        active_from(segs, i + 1, pos, seq![segs[i].0])
    }
}

/// The style in force at visible offset `pos`: the most recent sequence before
/// it, or none when that one is a reset or there is none.
pub open spec fn active_codes(segs: Seq<(Seq<char>, nat)>, pos: nat) -> Seq<Seq<char>> {
    active_from(segs, 0, pos, seq![])
}

/// The character sequences of the strings `v`.
pub open spec fn strings_view(v: Seq<String>) -> Seq<Seq<char>> {
    v.map_values(|s: String| s@)
}

fn is_reset_code(code: &String) -> (b: bool)
    ensures
        b == is_reset(code@),
{
    let c = chars_of(code.as_str());
    let b = (c.len() == 4 && c[0] == '\x1b' && c[1] == '[' && c[2] == '0' && c[3] == 'm') || (c.len()
        == 3 && c[0] == '\x1b' && c[1] == '[' && c[2] == 'm');
    proof {
        if c@.len() == 4 && c@[0] == '\x1b' && c@[1] == '[' && c@[2] == '0' && c@[3] == 'm' {
            assert(c@ =~= seq!['\x1b', '[', '0', 'm']);
        }
        if c@.len() == 3 && c@[0] == '\x1b' && c@[1] == '[' && c@[2] == 'm' {
            assert(c@ =~= seq!['\x1b', '[', 'm']);
        }
    }
    b
}

/// The escape sequences in force at visible offset `pos`, to be replayed at the
/// start of a continuation line.
pub fn get_active_codes_at_pos(segments: &[AnsiSegment], pos: usize) -> (r: Vec<String>)
    ensures
        strings_view(r@) == active_codes(segments_view(segments@), pos as nat),
{
    let ghost segs = segments_view(segments@);
    let mut active: Vec<String> = Vec::new();
    let mut i: usize = 0;
    while i < segments.len() && segments[i].visible_pos < pos
        invariant
            i <= segments@.len(),
            segs == segments_view(segments@),
            segs.len() == segments@.len(),
            active_from(segs, i as int, pos as nat, strings_view(active@)) == active_codes(segs, pos as nat),
        decreases segments@.len() - i,
    {
        proof {
            assert(segs[i as int] == segments@[i as int].view());
        }
        if is_reset_code(&segments[i].code) {
            active = Vec::new();
            proof {
                assert(strings_view(active@) =~= seq![]);
            }
        } else {
            active = Vec::new();
            active.push(segments[i].code.clone());
            proof {
                assert(strings_view(active@) =~= seq![segs[i as int].0]);
            }
        }
        i += 1;
    }
    proof {
        if i < segments.len() {
            assert(segs[i as int] == segments@[i as int].view());
        }
    }
    active
}

/// The escape sequences that stand at visible offset `p`, joined in order.
pub open spec fn codes_at(segs: Seq<(Seq<char>, nat)>, p: int) -> Seq<char>
    decreases segs.len(),
{
    if segs.len() == 0 {
        seq![]
    } else {
        codes_at(segs.drop_last(), p) + if segs.last().1 == p {
            segs.last().0
        } else {
            seq![]
        }
    }
}

/// The strings of `v` joined.
pub open spec fn joined(v: Seq<Seq<char>>) -> Seq<char>
    decreases v.len(),
{
    if v.len() == 0 {
        seq![]
    } else {
        joined(v.drop_last()) + v.last()
    }
}

/// The first `n` characters of the chunk `plain`, which starts at visible offset
/// `start`, each preceded by the sequences that stood before it (those at or
/// past `end` left out).
pub open spec fn rebuild(plain: Seq<char>, segs: Seq<(Seq<char>, nat)>, start: int, end: int, n: int) -> Seq<char>
    decreases n,
{
    if n <= 0 {
        seq![]
    } else {
        rebuild(plain, segs, start, end, n - 1) + (if start + n - 1 < end {
            codes_at(segs, start + n - 1)
        } else {
            seq![]
        }) + seq![plain[n - 1]]
    }
}

fn push_codes_at(out: &mut Vec<char>, segments: &[AnsiSegment], p: usize)
    ensures
        final(out)@ == old(out)@ + codes_at(segments_view(segments@), p as int),
{
    let ghost segs = segments_view(segments@);
    let mut j: usize = 0;
    while j < segments.len()
        invariant
            j <= segments@.len(),
            segs == segments_view(segments@),
            out@ == old(out)@ + codes_at(segs.subrange(0, j as int), p as int),
        decreases segments@.len() - j,
    {
        proof {
            assert(segs.subrange(0, j + 1).drop_last() =~= segs.subrange(0, j as int));
        }
        if segments[j].visible_pos == p {
            let c = chars_of(segments[j].code.as_str());
            append_chars(out, &c);
        }
        j += 1;
    }
    proof {
        assert(segs.subrange(0, segments@.len() as int) =~= segs);
    }
}

/// `plain_text`, the visible characters from offset `start_pos`, with the
/// escape sequences that stood among them put back in place, after the
/// sequences `active_codes` that were in force where it starts.
pub fn insert_ansi_codes_in_range(
    plain_text: &str,
    segments: &[AnsiSegment],
    start_pos: usize,
    end_pos: usize,
    active_codes: &[String],
) -> (r: String)
    requires
        start_pos + plain_text@.len() <= usize::MAX,
    ensures
        r@ == joined(strings_view(active_codes@)) + rebuild(
            plain_text@,
            segments_view(segments@),
            start_pos as int,
            end_pos as int,
            plain_text@.len() as int,
        ),
{
    let plain = chars_of(plain_text);
    let out = rebuild_chunk(&plain, segments, start_pos, end_pos, active_codes);
    string_of(out.as_slice())
}

pub(crate) fn rebuild_chunk(
    plain: &Vec<char>,
    segments: &[AnsiSegment],
    start_pos: usize,
    end_pos: usize,
    active_codes: &[String],
) -> (out: Vec<char>)
    requires
        start_pos + plain@.len() <= usize::MAX,
    ensures
        out@ == joined(strings_view(active_codes@)) + rebuild(
            plain@,
            segments_view(segments@),
            start_pos as int,
            end_pos as int,
            plain@.len() as int,
        ),
{
    let ghost act = strings_view(active_codes@);
    let ghost segs = segments_view(segments@);
    let mut out: Vec<char> = Vec::new();
    let mut k: usize = 0;
    while k < active_codes.len()
        invariant
            k <= active_codes@.len(),
            act == strings_view(active_codes@),
            out@ == joined(act.subrange(0, k as int)),
        decreases active_codes@.len() - k,
    {
        proof {
            assert(act.subrange(0, k + 1).drop_last() =~= act.subrange(0, k as int));
        }
        let c = chars_of(active_codes[k].as_str());
        append_chars(&mut out, &c);
        k += 1;
    }
    proof {
        assert(act.subrange(0, active_codes@.len() as int) =~= act);
    }
    let ghost prefix = out@;
    let mut i: usize = 0;
    while i < plain.len()
        invariant
            i <= plain@.len(),
            start_pos + plain@.len() <= usize::MAX,
            segs == segments_view(segments@),
            prefix == joined(act),
            out@ == prefix + rebuild(plain@, segs, start_pos as int, end_pos as int, i as int),
        decreases plain@.len() - i,
    {
        let ghost before = out@;
        let p = start_pos + i;
        if p < end_pos {
            push_codes_at(&mut out, segments, p);
        }
        out.push(plain[i]);
        proof {
            assert(out@ =~= prefix + rebuild(plain@, segs, start_pos as int, end_pos as int, i + 1));
        }
        i += 1;
    }
    out
}

} // verus!
