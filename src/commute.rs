use vstd::prelude::*;

use crate::ansi::{
    active_codes, active_from, code_end, codes_at, csi_at, is_alpha, joined, lemma_code_end_bounds,
    rebuild, reset_seq, segments_from, segments_of, visible, visible_from,
};
use crate::color::{is_sgr, styled_as, Color};
use crate::wrap::{
    budget_of, chunk_end, chunk_text, connector, expand_tabs, indent_of, indent_outcome, is_separator,
    separator_parts, spaces, wrap_from, wrap_outcome, wrapped,
};

verus! {

/// Whether every escape sequence of `s` from `i` on is complete (ends in a
/// letter) and no escape character stands last.
pub open spec fn closed_from(s: Seq<char>, i: int) -> bool
    decreases s.len() - i,
    via closed_from_decreases
{
    if i < 0 || i >= s.len() {
        true
    } else if csi_at(s, i) {
        let e = code_end(s, i + 2);
        e > i + 2 && is_alpha(s[e - 1]) && closed_from(s, e)
    } else {
        !(s[i] == '\x1b' && i + 1 == s.len()) && closed_from(s, i + 1)
    }
}

#[via_fn]
proof fn closed_from_decreases(s: Seq<char>, i: int) {
    if 0 <= i < s.len() && csi_at(s, i) {
        lemma_code_end_bounds(s, i + 2);
    }
}

/// Whether `s` is well formed: its escape sequences complete, no escape
/// character standing last.
pub open spec fn closed(s: Seq<char>) -> bool {
    closed_from(s, 0)
}

/// Whether `c` is one complete escape sequence.
pub open spec fn is_code(c: Seq<char>) -> bool {
    &&& c.len() >= 3
    &&& c[0] == '\x1b'
    &&& c[1] == '['
    &&& is_alpha(c.last())
    &&& forall|m: int| 2 <= m < c.len() - 1 ==> !is_alpha(#[trigger] c[m])
}

proof fn lemma_code_end_shift(a: Seq<char>, b: Seq<char>, j: int)
    requires
        0 <= j,
    ensures
        code_end(a + b, a.len() + j) == a.len() + code_end(b, j),
    decreases b.len() - j,
{
    if j < b.len() {
        assert((a + b)[a.len() + j] == b[j]);
        if !is_alpha(b[j]) {
            lemma_code_end_shift(a, b, j + 1);
        }
    }
}

proof fn lemma_code_end_prefix(a: Seq<char>, b: Seq<char>, k: int)
    requires
        0 <= k <= a.len(),
        code_end(a, k) > k,
        is_alpha(a[code_end(a, k) - 1]),
    ensures
        code_end(a + b, k) == code_end(a, k),
    decreases a.len() - k,
{
    lemma_code_end_bounds(a, k);
    assert((a + b)[k] == a[k]);
    if !is_alpha(a[k]) {
        lemma_code_end_bounds(a, k + 1);
        lemma_code_end_prefix(a, b, k + 1);
    }
}

proof fn lemma_code_end_no_alpha(s: Seq<char>, k: int)
    requires
        0 <= k <= s.len(),
    ensures
        forall|m: int| k <= m < code_end(s, k) - 1 ==> !is_alpha(#[trigger] s[m]),
    decreases s.len() - k,
{
    if k < s.len() && !is_alpha(s[k]) {
        lemma_code_end_no_alpha(s, k + 1);
    }
}

proof fn lemma_code_end_of_code(c: Seq<char>, k: int)
    requires
        is_code(c),
        2 <= k <= c.len() - 1,
    ensures
        code_end(c, k) == c.len(),
    decreases c.len() - k,
{
    if k < c.len() - 1 {
        lemma_code_end_of_code(c, k + 1);
    }
}

proof fn lemma_visible_shift(a: Seq<char>, b: Seq<char>, j: int)
    requires
        0 <= j,
    ensures
        visible_from(a + b, a.len() + j) == visible_from(b, j),
        closed_from(a + b, a.len() + j) == closed_from(b, j),
    decreases b.len() - j,
{
    if j < b.len() {
        assert((a + b)[a.len() + j] == b[j]);
        if j + 1 < b.len() {
            assert((a + b)[a.len() + j + 1] == b[j + 1]);
        }
        assert(csi_at(a + b, a.len() + j) == csi_at(b, j));
        if csi_at(b, j) {
            lemma_code_end_shift(a, b, j + 2);
            lemma_code_end_bounds(b, j + 2);
            let e = code_end(b, j + 2);
            lemma_visible_shift(a, b, e);
            if e > j + 2 {
                assert((a + b)[a.len() + e - 1] == b[e - 1]);
            }
        } else {
            lemma_visible_shift(a, b, j + 1);
        }
    }
}

/// Removing escape sequences distributes over a concatenation whose first part
/// is well formed.
pub proof fn lemma_visible_concat(a: Seq<char>, b: Seq<char>, i: int)
    requires
        0 <= i <= a.len(),
        closed_from(a, i),
    ensures
        visible_from(a + b, i) == visible_from(a, i) + visible(b),
        closed(b) ==> closed_from(a + b, i),
    decreases a.len() - i,
{
    if i == a.len() {
        lemma_visible_shift(a, b, 0);
        assert(visible_from(a, i) =~= seq![]);
        assert(visible_from(a + b, i) =~= visible_from(a, i) + visible(b));
    } else {
        assert((a + b)[i] == a[i]);
        if i + 1 < a.len() {
            assert((a + b)[i + 1] == a[i + 1]);
        }
        if csi_at(a, i) {
            assert(csi_at(a + b, i));
            lemma_code_end_bounds(a, i + 2);
            lemma_code_end_prefix(a, b, i + 2);
            let e = code_end(a, i + 2);
            assert((a + b)[e - 1] == a[e - 1]);
            lemma_visible_concat(a, b, e);
        } else {
            assert(!csi_at(a + b, i));
            lemma_visible_concat(a, b, i + 1);
            assert(visible_from(a + b, i) =~= visible_from(a, i) + visible(b));
        }
    }
}

proof fn lemma_concat(a: Seq<char>, b: Seq<char>)
    requires
        closed(a),
        closed(b),
    ensures
        visible(a + b) == visible(a) + visible(b),
        closed(a + b),
{
    lemma_visible_concat(a, b, 0);
}

proof fn lemma_code_facts(c: Seq<char>)
    requires
        is_code(c),
    ensures
        visible(c) == Seq::<char>::empty(),
        closed(c),
{
    assert(csi_at(c, 0));
    lemma_code_end_of_code(c, 2);
    assert(code_end(c, 2) == c.len());
    assert(visible_from(c, c.len() as int) == Seq::<char>::empty());
    assert(visible_from(c, 0) == visible_from(c, code_end(c, 2)));
    assert(is_alpha(c[c.len() - 1]));
    assert(closed_from(c, c.len() as int));
    assert(closed_from(c, 0));
}

proof fn lemma_plain_facts(t: Seq<char>, i: int, pos: nat)
    requires
        0 <= i <= t.len(),
        !t.contains('\x1b'),
    ensures
        visible_from(t, i) == t.subrange(i, t.len() as int),
        closed_from(t, i),
        segments_from(t, i, pos) == Seq::<(Seq<char>, nat)>::empty(),
    decreases t.len() - i,
{
    if i < t.len() {
        assert(t[i] != '\x1b');
        assert(!csi_at(t, i));
        lemma_plain_facts(t, i + 1, pos + 1);
        lemma_plain_facts(t, i + 1, pos);
        assert(visible_from(t, i) =~= t.subrange(i, t.len() as int));
    } else {
        assert(t.subrange(i, t.len() as int) =~= Seq::<char>::empty());
    }
}

proof fn lemma_segments_are_codes(s: Seq<char>, i: int, pos: nat)
    requires
        0 <= i <= s.len(),
        closed_from(s, i),
    ensures
        forall|k: int| 0 <= k < segments_from(s, i, pos).len() ==> is_code(#[trigger] segments_from(s, i, pos)[k].0),
    decreases s.len() - i,
{
    if i < s.len() {
        if csi_at(s, i) {
            lemma_code_end_bounds(s, i + 2);
            let e = code_end(s, i + 2);
            lemma_segments_are_codes(s, e, pos);
            lemma_code_end_no_alpha(s, i + 2);
            let c = s.subrange(i, e);
            assert forall|m: int| 2 <= m < c.len() - 1 implies !is_alpha(#[trigger] c[m]) by {
                assert(c[m] == s[i + m]);
            }
            assert(is_code(c));
            let rest = segments_from(s, e, pos);
            assert(segments_from(s, i, pos) == seq![(c, pos)] + rest);
            assert forall|k: int| 0 <= k < segments_from(s, i, pos).len() implies is_code(
                #[trigger] segments_from(s, i, pos)[k].0,
            ) by {
                if k > 0 {
                    assert(segments_from(s, i, pos)[k] == rest[k - 1]);
                }
            }
        } else {
            lemma_segments_are_codes(s, i + 1, pos + 1);
            assert(segments_from(s, i, pos) == segments_from(s, i + 1, pos + 1));
        }
    }
}

proof fn lemma_codes_at(segs: Seq<(Seq<char>, nat)>, p: int)
    requires
        forall|k: int| 0 <= k < segs.len() ==> is_code(#[trigger] segs[k].0),
    ensures
        visible(codes_at(segs, p)) == Seq::<char>::empty(),
        closed(codes_at(segs, p)),
    decreases segs.len(),
{
    if segs.len() > 0 {
        let init = segs.drop_last();
        assert forall|k: int| 0 <= k < init.len() implies is_code(#[trigger] init[k].0) by {
            assert(init[k] == segs[k]);
        }
        lemma_codes_at(init, p);
        let x: Seq<char> = if segs.last().1 == p {
            segs.last().0
        } else {
            seq![]
        };
        if segs.last().1 == p {
            assert(is_code(segs[segs.len() - 1].0));
            lemma_code_facts(x);
        } else {
            assert(visible(x) =~= Seq::<char>::empty());
        }
        lemma_concat(codes_at(init, p), x);
        assert(visible(codes_at(segs, p)) =~= Seq::<char>::empty());
    } else {
        assert(visible(codes_at(segs, p)) =~= Seq::<char>::empty());
    }
}

proof fn lemma_active_codes(segs: Seq<(Seq<char>, nat)>, i: int, pos: nat, cur: Seq<Seq<char>>)
    requires
        forall|k: int| 0 <= k < segs.len() ==> is_code(#[trigger] segs[k].0),
        forall|k: int| 0 <= k < cur.len() ==> is_code(#[trigger] cur[k]),
    ensures
        forall|k: int| 0 <= k < active_from(segs, i, pos, cur).len() ==> is_code(#[trigger] active_from(segs, i, pos, cur)[k]),
    decreases segs.len() - i,
{
    if !(i < 0 || i >= segs.len() || segs[i].1 >= pos) {
        let next: Seq<Seq<char>> = if crate::ansi::is_reset(segs[i].0) {
            seq![]
        } else {
            seq![segs[i].0]
        };
        assert(is_code(segs[i].0));
        assert forall|k: int| 0 <= k < next.len() implies is_code(#[trigger] next[k]) by {
            assert(next[k] == segs[i].0);
        }
        lemma_active_codes(segs, i + 1, pos, next);
        assert(active_from(segs, i, pos, cur) == active_from(segs, i + 1, pos, next));
    }
}

proof fn lemma_joined_codes(v: Seq<Seq<char>>)
    requires
        forall|k: int| 0 <= k < v.len() ==> is_code(#[trigger] v[k]),
    ensures
        visible(joined(v)) == Seq::<char>::empty(),
        closed(joined(v)),
    decreases v.len(),
{
    if v.len() > 0 {
        let init = v.drop_last();
        assert forall|k: int| 0 <= k < init.len() implies is_code(#[trigger] init[k]) by {
            assert(init[k] == v[k]);
        }
        lemma_joined_codes(init);
        lemma_code_facts(v[v.len() - 1]);
        lemma_concat(joined(init), v.last());
        assert(visible(joined(v)) =~= Seq::<char>::empty());
    } else {
        assert(visible(joined(v)) =~= Seq::<char>::empty());
    }
}

proof fn lemma_single(ch: char)
    requires
        ch != '\x1b',
    ensures
        visible(seq![ch]) == seq![ch],
        closed(seq![ch]),
{
    assert(visible_from(seq![ch], 1) =~= Seq::<char>::empty());
    assert(!csi_at(seq![ch], 0));
    assert(visible(seq![ch]) =~= seq![ch]);
    assert(closed_from(seq![ch], 1));
}

proof fn lemma_rebuild(plain: Seq<char>, segs: Seq<(Seq<char>, nat)>, start: int, end: int, n: int)
    requires
        0 <= n <= plain.len(),
        !plain.contains('\x1b'),
        forall|k: int| 0 <= k < segs.len() ==> is_code(#[trigger] segs[k].0),
    ensures
        visible(rebuild(plain, segs, start, end, n)) == plain.subrange(0, n),
        closed(rebuild(plain, segs, start, end, n)),
    decreases n,
{
    if n <= 0 {
        assert(visible(rebuild(plain, segs, start, end, n)) =~= plain.subrange(0, n));
    } else {
        lemma_rebuild(plain, segs, start, end, n - 1);
        let prev = rebuild(plain, segs, start, end, n - 1);
        let codes: Seq<char> = if start + n - 1 < end {
            codes_at(segs, start + n - 1)
        } else {
            seq![]
        };
        lemma_codes_at(segs, start + n - 1);
        if !(start + n - 1 < end) {
            assert(visible(codes) =~= Seq::<char>::empty());
        }
        assert(plain[n - 1] != '\x1b');
        lemma_single(plain[n - 1]);
        lemma_concat(prev, codes);
        lemma_concat(prev + codes, seq![plain[n - 1]]);
        assert(visible(rebuild(plain, segs, start, end, n)) =~= plain.subrange(0, n));
    }
}

proof fn lemma_reset()
    ensures
        visible(reset_seq()) == Seq::<char>::empty(),
        closed(reset_seq()),
{
    let c = reset_seq();
    assert forall|m: int| 2 <= m < c.len() - 1 implies !is_alpha(#[trigger] c[m]) by {
    }
    lemma_code_facts(c);
}

proof fn lemma_chunk(s: Seq<char>, budget: nat, mid: Seq<char>, last: Seq<char>, mid2: Seq<char>, last2: Seq<char>, c: int)
    requires
        closed(s),
        !visible(s).contains('\x1b'),
        closed(mid),
        closed(last),
        closed(mid2),
        closed(last2),
        visible(mid) == visible(mid2),
        visible(last) == visible(last2),
        budget > 0,
        0 <= c < visible(s).len(),
    ensures
        visible(chunk_text(s, budget, mid, last, c)) == visible(chunk_text(visible(s), budget, mid2, last2, c)),
        closed(chunk_text(s, budget, mid, last, c)),
        closed(chunk_text(visible(s), budget, mid2, last2, c)),
{
    let t = visible(s);
    let n = t.len() as int;
    let e = chunk_end(c, budget as int, n);
    lemma_plain_facts(t, 0, 0);
    assert(t.subrange(0, n) =~= t);
    assert(visible(t) == t);
    lemma_segments_are_codes(s, 0, 0);
    let segs = segments_of(s);
    let act = if c > 0 {
        active_codes(segs, c as nat)
    } else {
        seq![]
    };
    lemma_active_codes(segs, 0, c as nat, seq![]);
    lemma_joined_codes(act);
    let chunk = t.subrange(c, e);
    assert forall|k: int| 0 <= k < chunk.len() implies chunk[k] != '\x1b' by {
        assert(chunk[k] == t[c + k]);
    }
    assert(!chunk.contains('\x1b'));
    lemma_rebuild(chunk, segs, c, e, e - c);
    assert(chunk.subrange(0, e - c) =~= chunk);
    let sep: Seq<char> = if e < n {
        if e + budget >= n {
            last
        } else {
            mid
        }
    } else {
        seq![]
    };
    if !(e < n) {
        assert(visible(sep) =~= Seq::<char>::empty());
    }
    let sep2: Seq<char> = if e < n {
        if e + budget >= n {
            last2
        } else {
            mid2
        }
    } else {
        seq![]
    };
    if !(e < n) {
        assert(visible(sep2) =~= Seq::<char>::empty());
    }
    lemma_reset();
    let x1 = joined(act);
    let x2 = rebuild(chunk, segs, c, e, e - c);
    lemma_concat(x1, x2);
    lemma_concat(x1 + x2, reset_seq());
    lemma_concat(x1 + x2 + reset_seq(), sep);
    let tsegs = segments_of(t);
    assert(tsegs =~= Seq::<(Seq<char>, nat)>::empty());
    let tact = if c > 0 {
        active_codes(tsegs, c as nat)
    } else {
        seq![]
    };
    assert(tact =~= Seq::<Seq<char>>::empty());
    assert(joined(tact) =~= Seq::<char>::empty());
    lemma_joined_codes(tact);
    lemma_rebuild(chunk, tsegs, c, e, e - c);
    let y2 = rebuild(chunk, tsegs, c, e, e - c);
    lemma_concat(joined(tact), y2);
    lemma_concat(joined(tact) + y2, reset_seq());
    lemma_concat(joined(tact) + y2 + reset_seq(), sep2);
}

proof fn lemma_wrap_from(s: Seq<char>, budget: nat, mid: Seq<char>, last: Seq<char>, mid2: Seq<char>, last2: Seq<char>, c: int)
    requires
        closed(s),
        !visible(s).contains('\x1b'),
        closed(mid),
        closed(last),
        closed(mid2),
        closed(last2),
        visible(mid) == visible(mid2),
        visible(last) == visible(last2),
        budget > 0,
        0 <= c,
    ensures
        visible(wrap_from(s, budget, mid, last, c)) == visible(wrap_from(visible(s), budget, mid2, last2, c)),
        closed(wrap_from(s, budget, mid, last, c)),
        closed(wrap_from(visible(s), budget, mid2, last2, c)),
    decreases visible(s).len() - c,
{
    let t = visible(s);
    lemma_plain_facts(t, 0, 0);
    assert(t.subrange(0, t.len() as int) =~= t);
    assert(visible(t) == t);
    if c >= t.len() {
        assert(visible(wrap_from(s, budget, mid, last, c)) =~= Seq::<char>::empty());
        assert(visible(wrap_from(t, budget, mid2, last2, c)) =~= Seq::<char>::empty());
    } else {
        lemma_chunk(s, budget, mid, last, mid2, last2, c);
        if c + budget < t.len() {
            lemma_wrap_from(s, budget, mid, last, mid2, last2, c + budget);
            lemma_concat(chunk_text(s, budget, mid, last, c), wrap_from(s, budget, mid, last, c + budget));
            lemma_concat(chunk_text(t, budget, mid2, last2, c), wrap_from(t, budget, mid2, last2, c + budget));
        }
    }
}

/// Stripping colors commutes with wrapping, up to what wrapping adds: for a
/// well-formed colorized text `s` (every escape sequence complete, no stray
/// escape character in its visible text) and well-formed separators, the
/// visible text of `s` wrapped equals the visible text of `s` stripped, then
/// wrapped.
pub proof fn lemma_strip_commutes_with_wrap(s: Seq<char>, budget: nat, mid: Seq<char>, last: Seq<char>)
    requires
        closed(s),
        !visible(s).contains('\x1b'),
        closed(mid),
        closed(last),
    ensures
        visible(wrapped(visible(s), budget, mid, last)) == visible(wrapped(s, budget, mid, last)),
{
    let t = visible(s);
    lemma_plain_facts(t, 0, 0);
    assert(t.subrange(0, t.len() as int) =~= t);
    if budget > 0 && t.len() > budget {
        lemma_wrap_from(s, budget, mid, last, mid, last, 0);
    }
}

/// Where no wrapping is needed (a zero budget, or a visible text that fits),
/// wrapping the stripped text gives exactly the stripped wrapped text.
pub proof fn lemma_strip_commutes_when_fitting(s: Seq<char>, budget: nat, mid: Seq<char>, last: Seq<char>)
    requires
        !visible(s).contains('\x1b'),
        budget == 0 || visible(s).len() <= budget,
    ensures
        wrapped(visible(s), budget, mid, last) == visible(wrapped(s, budget, mid, last)),
{
    let t = visible(s);
    lemma_plain_facts(t, 0, 0);
    assert(t.subrange(0, t.len() as int) =~= t);
}

/// On a sink of unbounded width (`-1`) the message is handed through, so
/// reflowing the stripped message gives exactly the stripped reflowed message.
pub proof fn lemma_strip_commutes_unbounded(
    s: Seq<char>,
    r_plain: Seq<char>,
    r_colored: Seq<char>,
    show_colors: bool,
    header_width: nat,
    fg: Color,
    bg: Color,
)
    requires
        indent_outcome(r_plain, visible(s), show_colors, -1, header_width, fg, bg),
        indent_outcome(r_colored, s, show_colors, -1, header_width, fg, bg),
    ensures
        r_plain == visible(r_colored),
{
}

proof fn lemma_styled(r: Seq<char>, t: Seq<char>)
    requires
        styled_as(r, t),
        !t.contains('\x1b'),
    ensures
        closed(r),
        visible(r) == t,
{
    lemma_plain_facts(t, 0, 0);
    assert(t.subrange(0, t.len() as int) =~= t);
    if r != t {
        let pre = choose|pre: Seq<char>| is_sgr(pre) && r == pre + t + reset_seq();
        assert forall|m: int| 2 <= m < pre.len() - 1 implies !is_alpha(#[trigger] pre[m]) by {
        }
        assert(is_code(pre));
        lemma_code_facts(pre);
        lemma_reset();
        lemma_concat(pre, t);
        lemma_concat(pre + t, reset_seq());
        assert(visible(r) =~= t);
    }
}

proof fn lemma_no_escape(t: Seq<char>)
    requires
        forall|k: int| 0 <= k < t.len() ==> #[trigger] t[k] != '\x1b',
    ensures
        !t.contains('\x1b'),
{
}

proof fn lemma_separator(sep: Seq<char>, indent: nat, fg: Color, bg: Color, show_colors: bool, final_line: bool)
    requires
        is_separator(sep, indent, fg, bg, show_colors, final_line),
    ensures
        closed(sep),
        visible(sep) == seq!['\n'] + spaces(indent) + connector(fg, bg, final_line) + seq![' '],
{
    let (margin, conn) = choose|margin: Seq<char>, conn: Seq<char>|
        #[trigger] separator_parts(sep, margin, conn, indent, fg, bg, show_colors, final_line);
    let sp = spaces(indent);
    let cn = connector(fg, bg, final_line);
    lemma_no_escape(sp);
    assert forall|k: int| 0 <= k < cn.len() implies #[trigger] cn[k] != '\x1b' by {
    }
    lemma_no_escape(cn);
    lemma_plain_facts(sp, 0, 0);
    lemma_plain_facts(cn, 0, 0);
    assert(sp.subrange(0, sp.len() as int) =~= sp);
    assert(cn.subrange(0, cn.len() as int) =~= cn);
    if fg == bg {
        lemma_styled(margin, sp);
    }
    if show_colors {
        lemma_styled(conn, cn);
    }
    lemma_single('\n');
    lemma_single(' ');
    lemma_concat(seq!['\n'], margin);
    lemma_concat(seq!['\n'] + margin, conn);
    lemma_concat(seq!['\n'] + margin + conn, seq![' ']);
}

proof fn lemma_expand_concat(a: Seq<char>, b: Seq<char>)
    ensures
        expand_tabs(a + b) == expand_tabs(a) + expand_tabs(b),
    decreases b.len(),
{
    if b.len() == 0 {
        assert(a + b =~= a);
        assert(expand_tabs(b) =~= Seq::<char>::empty());
        assert(expand_tabs(a) + expand_tabs(b) =~= expand_tabs(a));
    } else {
        assert((a + b).drop_last() =~= a + b.drop_last());
        assert((a + b).last() == b.last());
        lemma_expand_concat(a, b.drop_last());
        let tail: Seq<char> = if b.last() == '\t' {
            seq![' ', ' ', ' ', ' ']
        } else {
            seq![b.last()]
        };
        assert(expand_tabs(a + b) == expand_tabs(a + b.drop_last()) + tail);
        assert(expand_tabs(b) == expand_tabs(b.drop_last()) + tail);
        assert(expand_tabs(a + b) =~= expand_tabs(a) + expand_tabs(b));
    }
}

proof fn lemma_expand_single(c: char)
    ensures
        expand_tabs(seq![c]) == if c == '\t' {
            seq![' ', ' ', ' ', ' ']
        } else {
            seq![c]
        },
{
    assert(seq![c].drop_last() =~= Seq::<char>::empty());
    assert(expand_tabs(Seq::<char>::empty()) =~= Seq::<char>::empty());
    assert(seq![c].last() == c);
    if c == '\t' {
        assert(expand_tabs(seq![c]) =~= seq![' ', ' ', ' ', ' ']);
    } else {
        assert(expand_tabs(seq![c]) =~= seq![c]);
    }
}

proof fn lemma_expand_chars(x: Seq<char>)
    ensures
        forall|k: int| 0 <= k < expand_tabs(x).len() ==> #[trigger] expand_tabs(x)[k] == ' ' || x.contains(expand_tabs(x)[k]),
    decreases x.len(),
{
    if x.len() > 0 {
        lemma_expand_chars(x.drop_last());
        let e = expand_tabs(x);
        let p = expand_tabs(x.drop_last());
        assert forall|k: int| 0 <= k < e.len() implies #[trigger] e[k] == ' ' || x.contains(e[k]) by {
            if k < p.len() {
                assert(e[k] == p[k]);
                if x.drop_last().contains(p[k]) {
                    let j = choose|j: int| 0 <= j < x.drop_last().len() && x.drop_last()[j] == p[k];
                    assert(x[j] == p[k]);
                }
            } else {
                assert(x[x.len() - 1] == x.last());
            }
        }
    }
}

proof fn lemma_expand_code(c: Seq<char>)
    requires
        is_code(c),
    ensures
        is_code(expand_tabs(c)),
{
    let mid = c.subrange(2, c.len() - 1);
    assert(c =~= seq![c[0]] + seq![c[1]] + mid + seq![c.last()]);
    lemma_expand_concat(seq![c[0]] + seq![c[1]] + mid, seq![c.last()]);
    lemma_expand_concat(seq![c[0]] + seq![c[1]], mid);
    lemma_expand_concat(seq![c[0]], seq![c[1]]);
    lemma_expand_single(c[0]);
    lemma_expand_single(c[1]);
    lemma_expand_single(c.last());
    lemma_expand_chars(mid);
    let em = expand_tabs(mid);
    let e = expand_tabs(c);
    assert(e == seq![c[0]] + seq![c[1]] + em + seq![c.last()]);
    assert forall|m: int| 2 <= m < e.len() - 1 implies !is_alpha(#[trigger] e[m]) by {
        assert(e[m] == em[m - 2]);
        if em[m - 2] != ' ' {
            let j = choose|j: int| 0 <= j < mid.len() && mid[j] == em[m - 2];
            assert(mid[j] == c[j + 2]);
        }
    }
}

proof fn lemma_suffix(s: Seq<char>, i: int)
    requires
        0 <= i <= s.len(),
    ensures
        visible(s.subrange(i, s.len() as int)) == visible_from(s, i),
        closed(s.subrange(i, s.len() as int)) == closed_from(s, i),
{
    let a = s.subrange(0, i);
    let b = s.subrange(i, s.len() as int);
    assert(s =~= a + b);
    lemma_visible_shift(a, b, 0);
}

proof fn lemma_expand_visible(s: Seq<char>, i: int)
    requires
        0 <= i <= s.len(),
        closed_from(s, i),
        !visible_from(s, i).contains('\x1b'),
    ensures
        visible(expand_tabs(s.subrange(i, s.len() as int))) == expand_tabs(visible_from(s, i)),
        closed(expand_tabs(s.subrange(i, s.len() as int))),
    decreases s.len() - i,
{
    let u = s.subrange(i, s.len() as int);
    if i == s.len() {
        assert(u =~= Seq::<char>::empty());
        assert(expand_tabs(u) =~= Seq::<char>::empty());
        assert(visible(expand_tabs(u)) =~= Seq::<char>::empty());
        assert(expand_tabs(visible_from(s, i)) =~= Seq::<char>::empty());
    } else if csi_at(s, i) {
        lemma_code_end_bounds(s, i + 2);
        let e = code_end(s, i + 2);
        let code = s.subrange(i, e);
        let rest = s.subrange(e, s.len() as int);
        assert(u =~= code + rest);
        lemma_code_end_no_alpha(s, i + 2);
        assert forall|m: int| 2 <= m < code.len() - 1 implies !is_alpha(#[trigger] code[m]) by {
            assert(code[m] == s[i + m]);
        }
        assert(is_code(code));
        lemma_expand_code(code);
        lemma_code_facts(expand_tabs(code));
        lemma_expand_visible(s, e);
        lemma_expand_concat(code, rest);
        lemma_concat(expand_tabs(code), expand_tabs(rest));
        assert(visible(expand_tabs(u)) =~= visible(expand_tabs(rest)));
    } else {
        let rest = s.subrange(i + 1, s.len() as int);
        assert(u =~= seq![s[i]] + rest);
        let v = visible_from(s, i);
        assert(v == seq![s[i]] + visible_from(s, i + 1));
        assert(v[0] == s[i]);
        assert(s[i] != '\x1b');
        let w = visible_from(s, i + 1);
        assert(!w.contains('\x1b')) by {
            if w.contains('\x1b') {
                let k = choose|k: int| 0 <= k < w.len() && w[k] == '\x1b';
                assert(v[k + 1] == '\x1b');
            }
        }
        lemma_expand_visible(s, i + 1);
        lemma_expand_single(s[i]);
        let head = expand_tabs(seq![s[i]]);
        if s[i] == '\t' {
            lemma_plain_facts(head, 0, 0);
            assert(head.subrange(0, head.len() as int) =~= head);
        } else {
            lemma_single(s[i]);
        }
        lemma_expand_concat(seq![s[i]], rest);
        lemma_concat(head, expand_tabs(rest));
        lemma_expand_concat(seq![s[i]], visible_from(s, i + 1));
    }
}

/// Stripping colors commutes with reflowing for a console, up to what
/// reflowing adds, for a well-formed colorized message (tabs allowed): the
/// visible text of the reflowed stripped message equals the visible text of the
/// reflowed message, whatever separators each call painted.
pub proof fn lemma_strip_commutes_with_reflow(
    s: Seq<char>,
    r_plain: Seq<char>,
    r_colored: Seq<char>,
    show_colors: bool,
    width: int,
    header_width: nat,
    fg: Color,
    bg: Color,
)
    requires
        closed(s),
        !visible(s).contains('\x1b'),
        indent_outcome(r_plain, visible(s), show_colors, width, header_width, fg, bg),
        indent_outcome(r_colored, s, show_colors, width, header_width, fg, bg),
    ensures
        visible(r_plain) == visible(r_colored),
{
    let t = visible(s);
    lemma_plain_facts(t, 0, 0);
    assert(t.subrange(0, t.len() as int) =~= t);
    assert(s.subrange(0, s.len() as int) =~= s);
    lemma_expand_visible(s, 0);
    let xs = expand_tabs(s);
    let xt = expand_tabs(t);
    lemma_expand_chars(t);
    assert(!xt.contains('\x1b')) by {
        if xt.contains('\x1b') {
            let k = choose|k: int| 0 <= k < xt.len() && xt[k] == '\x1b';
            assert(xt[k] == ' ' || t.contains(xt[k]));
        }
    }
    lemma_plain_facts(xt, 0, 0);
    assert(xt.subrange(0, xt.len() as int) =~= xt);
    if width >= 0 {
        let budget = budget_of(width, header_width);
        let indent = indent_of(header_width);
        let (m1, l1) = choose|mid: Seq<char>, last: Seq<char>|
            #[trigger] wrap_outcome(r_plain, t, budget, indent, fg, bg, show_colors, mid, last);
        let (m2, l2) = choose|mid: Seq<char>, last: Seq<char>|
            #[trigger] wrap_outcome(r_colored, s, budget, indent, fg, bg, show_colors, mid, last);
        lemma_separator(m1, indent, fg, bg, show_colors, false);
        lemma_separator(l1, indent, fg, bg, show_colors, true);
        lemma_separator(m2, indent, fg, bg, show_colors, false);
        lemma_separator(l2, indent, fg, bg, show_colors, true);
        assert(visible(xs) == xt);
        if budget > 0 && xt.len() > budget {
            lemma_wrap_from(xs, budget, m2, l2, m1, l1, 0);
        }
    }
}

} // verus!
