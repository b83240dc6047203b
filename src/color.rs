use vstd::prelude::*;

use colored::Colorize;

use crate::ansi::reset_seq;
use crate::text::chars_of;

verus! {

/// A terminal color.
#[derive(Clone, Copy, Debug, PartialEq, Eq, Structural)]
pub enum Color {
    Black,
    Red,
    Green,
    Yellow,
    Blue,
    Magenta,
    Cyan,
    White,
    BrightRed,
    BrightGreen,
    BrightYellow,
    BrightBlue,
    BrightMagenta,
    BrightCyan,
    DarkOrange,
}

impl Color {
    /// The name under which the terminal styling crate knows this color.
    pub fn name(&self) -> (r: &'static str)
        ensures
            r@ == name_of(*self),
    {
        match self {
            Color::Black => "black",
            Color::Red => "red",
            Color::Green => "green",
            Color::Yellow => "yellow",
            Color::Blue => "blue",
            Color::Magenta => "magenta",
            Color::Cyan => "cyan",
            Color::White => "white",
            Color::BrightRed => "bright red",
            Color::BrightGreen => "bright green",
            Color::BrightYellow => "bright yellow",
            Color::BrightBlue => "bright blue",
            Color::BrightMagenta => "bright magenta",
            Color::BrightCyan => "bright cyan",
            Color::DarkOrange => "#ff6400",
        }
    }
}

/// The name under which the styling crate knows `c`.
pub open spec fn name_of(c: Color) -> Seq<char> {
    match c {
        Color::Black => "black"@,
        Color::Red => "red"@,
        Color::Green => "green"@,
        Color::Yellow => "yellow"@,
        Color::Blue => "blue"@,
        Color::Magenta => "magenta"@,
        Color::Cyan => "cyan"@,
        Color::White => "white"@,
        Color::BrightRed => "bright red"@,
        Color::BrightGreen => "bright green"@,
        Color::BrightYellow => "bright yellow"@,
        Color::BrightBlue => "bright blue"@,
        Color::BrightMagenta => "bright magenta"@,
        Color::BrightCyan => "bright cyan"@,
        Color::DarkOrange => "#ff6400"@,
    }
}

/// The foreground parameter the styling crate writes for the color named
/// `name`, when it does not depend on the terminal.
pub open spec fn fg_code_of(name: Seq<char>) -> Option<Seq<char>> {
    if name == "black"@ {
        Some("30"@)
    } else if name == "red"@ {
        Some("31"@)
    } else if name == "green"@ {
        Some("32"@)
    } else if name == "yellow"@ {
        Some("33"@)
    } else if name == "blue"@ {
        Some("34"@)
    } else if name == "magenta"@ {
        Some("35"@)
    } else if name == "cyan"@ {
        Some("36"@)
    } else if name == "white"@ {
        Some("37"@)
    } else if name == "bright red"@ {
        Some("91"@)
    } else if name == "bright green"@ {
        Some("92"@)
    } else if name == "bright yellow"@ {
        Some("93"@)
    } else if name == "bright blue"@ {
        Some("94"@)
    } else if name == "bright magenta"@ {
        Some("95"@)
    } else if name == "bright cyan"@ {
        Some("96"@)
    } else {
        None
    }
}

/// The background parameter the styling crate writes for the color named
/// `name`, when it does not depend on the terminal.
pub open spec fn bg_code_of(name: Seq<char>) -> Option<Seq<char>> {
    if name == "black"@ {
        Some("40"@)
    } else if name == "red"@ {
        Some("41"@)
    } else if name == "green"@ {
        Some("42"@)
    } else if name == "yellow"@ {
        Some("43"@)
    } else if name == "blue"@ {
        Some("44"@)
    } else if name == "magenta"@ {
        Some("45"@)
    } else if name == "cyan"@ {
        Some("46"@)
    } else if name == "white"@ {
        Some("47"@)
    } else if name == "bright red"@ {
        Some("101"@)
    } else if name == "bright green"@ {
        Some("102"@)
    } else if name == "bright yellow"@ {
        Some("103"@)
    } else if name == "bright blue"@ {
        Some("104"@)
    } else if name == "bright magenta"@ {
        Some("105"@)
    } else if name == "bright cyan"@ {
        Some("106"@)
    } else {
        None
    }
}

/// The sequence `ESC [ params m`.
pub open spec fn sgr(params: Seq<char>) -> Seq<char> {
    seq!['\x1b', '['] + params + seq!['m']
}

/// Whether `r` renders `text` in the foreground color named `fg` (and the
/// background named `bg`, if any): the text itself when styling is off, else
/// the text between a style sequence and a reset, the sequence giving exactly
/// the colors' parameters where they do not depend on the terminal.
pub open spec fn painted_as(r: Seq<char>, text: Seq<char>, fg: Seq<char>, bg: Option<Seq<char>>) -> bool {
    &&& styled_as(r, text)
    &&& (!text.contains('\x1b') && r != text) ==> match (bg, fg_code_of(fg)) {
        (None, Some(f)) => r == sgr(f) + text + reset_seq(),
        (Some(b), Some(f)) => match bg_code_of(b) {
            Some(bc) => r == sgr(bc + seq![';'] + f) + text + reset_seq(),
            None => true,
        },
        _ => true,
    }
}

/// Whether `pre` is a select-graphic-rendition sequence: `ESC [`, digits and
/// semicolons, then `m`.
pub open spec fn is_sgr(pre: Seq<char>) -> bool {
    &&& pre.len() >= 3
    &&& pre[0] == '\x1b'
    &&& pre[1] == '['
    &&& pre.last() == 'm'
    &&& forall|k: int| 2 <= k < pre.len() - 1 ==> (('0' <= #[trigger] pre[k] && pre[k] <= '9') || pre[k] == ';')
}

/// What a styled rendering of the plain text `text` may be: the text itself when
/// styling is off, else the text between a style sequence and a reset.
pub open spec fn styled_as(r: Seq<char>, text: Seq<char>) -> bool {
    !text.contains('\x1b') ==> (r == text || exists|pre: Seq<char>| is_sgr(pre) && r == pre + text + reset_seq())
}

/// Relies on colored's `Colorize::color` (the name parsed by `Color::from_str`)
/// and its `Display`: the text, wrapped in a style sequence and a reset when
/// styling is on (the environment decides); the sequence is `ESC [ code m` with
/// the color's fixed code (`Color::to_fg_str`) for a named color.
#[verifier::external_body]
fn paint_fg_str(text: &str, fg: &str) -> (r: String)
    ensures
        painted_as(r@, text@, fg@, None),
{
    text.color(fg).to_string()
}

/// Relies on colored's `Colorize::color` and `Colorize::on_color` and their
/// `Display`: as for `paint_fg_str`, the sequence being `ESC [ bg ; fg m` for
/// named colors (`compute_style` writes the background first).
#[verifier::external_body]
fn paint_fg_bg_str(text: &str, fg: &str, bg: &str) -> (r: String)
    ensures
        painted_as(r@, text@, fg@, Some(bg@)),
{
    text.color(fg).on_color(bg).to_string()
}

/// `text` in the foreground color `fg`.
pub fn paint(text: &str, fg: Color) -> (r: Vec<char>)
    ensures
        styled_as(r@, text@),
        painted_as(r@, text@, name_of(fg), None),
{
    let s = paint_fg_str(text, fg.name());
    chars_of(s.as_str())
}

/// `text` in `fg` on `bg`.
pub fn paint_on(text: &str, fg: Color, bg: Color) -> (r: Vec<char>)
    ensures
        styled_as(r@, text@),
        painted_as(r@, text@, name_of(fg), Some(name_of(bg))),
{
    let s = paint_fg_bg_str(text, fg.name(), bg.name());
    chars_of(s.as_str())
}

/// The color of `t` in the memo: the latest entry for it.
pub open spec fn memo_lookup(m: Seq<(Seq<char>, Color)>, t: Seq<char>) -> Option<Color>
    decreases m.len(),
{
    if m.len() == 0 {
        None
    } else if m.last().0 == t {
        Some(m.last().1)
    } else {
        memo_lookup(m.drop_last(), t)
    }
}

/// Whether `i` is the first place of `c` in `p`.
pub open spec fn is_first_index(p: Seq<Color>, c: Color, i: int) -> bool {
    0 <= i < p.len() && p[i] == c && forall|j: int| 0 <= j < i ==> p[j] != c
}

/// The palette with `c` taken from its place and put at the back, the most
/// recently used end; unchanged when `c` is not in it.
pub open spec fn move_to_back(p: Seq<Color>, c: Color) -> Seq<Color> {
    if p.contains(c) {
        let i = choose|i: int| is_first_index(p, c, i);
        p.remove(i).push(c)
    } else {
        p
    }
}

/// The color that a lookup of `t` returns: its memoized color, else the front of
/// the palette, else white.
pub open spec fn assigned_color(m: Seq<(Seq<char>, Color)>, p: Seq<Color>, t: Seq<char>) -> Color {
    match memo_lookup(m, t) {
        Some(c) => c,
        None => if p.len() > 0 {
            p[0]
        } else {
            Color::White
        },
    }
}

/// The memo after a lookup of `t`: a fresh token is memoized with the palette's
/// front color.
pub open spec fn memo_after(m: Seq<(Seq<char>, Color)>, p: Seq<Color>, t: Seq<char>) -> Seq<(Seq<char>, Color)> {
    if memo_lookup(m, t) is None && p.len() > 0 {
        m.push((t, p[0]))
    } else {
        m
    }
}

/// The palette after a lookup of `t`: the returned color moved to the back.
pub open spec fn palette_after(m: Seq<(Seq<char>, Color)>, p: Seq<Color>, t: Seq<char>) -> Seq<Color> {
    move_to_back(p, assigned_color(m, p, t))
}

/// Colors for recurring tokens: a palette ordered from least to most recently
/// used, and the colors given so far.
pub struct ColorTable {
    pub palette: Vec<Color>,
    pub memo: Vec<(String, Color)>,
}

impl ColorTable {
    /// The memo as (token, color) pairs.
    pub open spec fn memo_view(&self) -> Seq<(Seq<char>, Color)> {
        self.memo@.map_values(|e: (String, Color)| (e.0@, e.1))
    }

    /// A table with the palette `palette` and the tokens of `seeded` given their
    /// fixed colors, which take no palette slot.
    pub fn new(palette: Vec<Color>, seeded: Vec<(String, Color)>) -> (r: ColorTable)
        ensures
            r.palette@ == palette@,
            r.memo@ == seeded@,
    {
        ColorTable { palette, memo: seeded }
    }

    /// The color memoized for `token`, if any.
    pub fn lookup(&self, token: &str) -> (r: Option<Color>)
        ensures
            r == memo_lookup(self.memo_view(), token@),
    {
        let ghost m = self.memo_view();
        let key = token.to_owned();
        let mut i: usize = self.memo.len();
        proof {
            assert(m.subrange(0, i as int) =~= m);
        }
        while i > 0
            invariant
                i <= self.memo@.len(),
                m == self.memo_view(),
                m.len() == self.memo@.len(),
                key@ == token@,
                memo_lookup(m, token@) == memo_lookup(m.subrange(0, i as int), token@),
            decreases i,
        {
            proof {
                assert(m.subrange(0, i as int).drop_last() =~= m.subrange(0, i - 1));
                assert(m[i - 1] == (self.memo@[i - 1].0@, self.memo@[i - 1].1));
            }
            if self.memo[i - 1].0 == key {
                return Some(self.memo[i - 1].1);
            }
            i -= 1;
        }
        proof {
            assert(m.subrange(0, 0) =~= Seq::<(Seq<char>, Color)>::empty());
        }
        None
    }

    /// Moves `c` to the back of the palette, if it stands there.
    fn touch(&mut self, c: Color)
        ensures
            final(self).palette@ == move_to_back(old(self).palette@, c),
            final(self).memo == old(self).memo,
    {
        let n = self.palette.len();
        let mut i: usize = 0;
        while i < n && self.palette[i] != c
            invariant
                i <= n,
                n == self.palette@.len(),
                self.palette@ == old(self).palette@,
                self.memo == old(self).memo,
                forall|j: int| 0 <= j < i ==> self.palette@[j] != c,
            decreases n - i,
        {
            i += 1;
        }
        if i < n {
            let ghost p = self.palette@;
            proof {
                assert(is_first_index(p, c, i as int));
                assert(p.contains(c));
                let k = choose|k: int| is_first_index(p, c, k);
                assert(k == i) by {
                    if k < i {
                        assert(p[k] != c);
                    }
                    if k > i {
                        assert(p[i as int] != c);
                    }
                }
            }
            self.palette.remove(i);
            self.palette.push(c);
        } else {
            proof {
                assert(!self.palette@.contains(c));
            }
        }
    }

    /// The color of `token`: its memoized color, or on a first sight the
    /// palette's least recently used color, memoized for it (white when the
    /// palette is empty, memoizing nothing). The returned color moves to the
    /// most recently used end of the palette.
    pub fn get_token_color(&mut self, token: &str) -> (r: Color)
        ensures
            r == assigned_color(old(self).memo_view(), old(self).palette@, token@),
            final(self).memo_view() == memo_after(old(self).memo_view(), old(self).palette@, token@),
            final(self).palette@ == palette_after(old(self).memo_view(), old(self).palette@, token@),
            unique_tokens(old(self).memo_view()) ==> unique_tokens(final(self).memo_view()),
    {
        proof {
            if unique_tokens(old(self).memo_view()) {
                lemma_memo_unique(old(self).memo_view(), old(self).palette@, token@);
            }
        }
        let found = self.lookup(token);
        let c = match found {
            Some(c) => c,
            None => {
                if self.palette.len() > 0 {
                    let c = self.palette[0];
                    let ghost old_memo = self.memo_view();
                    self.memo.push((token.to_owned(), c));
                    proof {
                        assert(self.memo_view() =~= old_memo.push((token@, c)));
                    }
                    c
                } else {
                    Color::White
                }
            },
        };
        self.touch(c);
        c
    }
}

/// Whether no token has two entries in the memo `m`.
pub open spec fn unique_tokens(m: Seq<(Seq<char>, Color)>) -> bool {
    forall|i: int, j: int| 0 <= i < j < m.len() ==> (#[trigger] m[i]).0 != (#[trigger] m[j]).0
}

proof fn lemma_lookup_none(m: Seq<(Seq<char>, Color)>, t: Seq<char>)
    requires
        memo_lookup(m, t) is None,
    ensures
        forall|i: int| 0 <= i < m.len() ==> (#[trigger] m[i]).0 != t,
    decreases m.len(),
{
    if m.len() > 0 {
        lemma_lookup_none(m.drop_last(), t);
        assert forall|i: int| 0 <= i < m.len() implies (#[trigger] m[i]).0 != t by {
            if i < m.len() - 1 {
                assert(m[i] == m.drop_last()[i]);
            }
        }
    }
}

/// A lookup keeps every token to one memo entry: a token is memoized only when
/// it has none.
pub proof fn lemma_memo_unique(m: Seq<(Seq<char>, Color)>, p: Seq<Color>, t: Seq<char>)
    requires
        unique_tokens(m),
    ensures
        unique_tokens(memo_after(m, p, t)),
{
    if memo_lookup(m, t) is None && p.len() > 0 {
        lemma_lookup_none(m, t);
        let n = m.push((t, p[0]));
        assert forall|i: int, j: int| 0 <= i < j < n.len() implies (#[trigger] n[i]).0 != (#[trigger] n[j]).0 by {
            if j == m.len() {
                assert(n[i] == m[i]);
            } else {
                assert(n[i] == m[i] && n[j] == m[j]);
            }
        }
    }
}

/// Looking the same token up twice in a row gives the same color both times.
pub proof fn lemma_lookup_twice_same(m: Seq<(Seq<char>, Color)>, p: Seq<Color>, t: Seq<char>)
    ensures
        assigned_color(memo_after(m, p, t), palette_after(m, p, t), t) == assigned_color(m, p, t),
{
    if memo_lookup(m, t) is None && p.len() == 0 {
        assert(palette_after(m, p, t) =~= p);
    }
}

/// Looking the tokens `ts` up in turn: the memo, the palette, and the colors
/// returned, in order.
pub open spec fn assign_all(m: Seq<(Seq<char>, Color)>, p: Seq<Color>, ts: Seq<Seq<char>>) -> (Seq<(Seq<char>, Color)>, Seq<Color>, Seq<Color>)
    decreases ts.len(),
{
    if ts.len() == 0 {
        (m, p, seq![])
    } else {
        let (memo1, pal1, cs) = assign_all(m, p, ts.drop_last());
        let t = ts.last();
        (memo_after(memo1, pal1, t), palette_after(memo1, pal1, t), cs.push(assigned_color(memo1, pal1, t)))
    }
}

/// The tokens `ts` paired with the colors `cs`.
pub open spec fn pairs(ts: Seq<Seq<char>>, cs: Seq<Color>) -> Seq<(Seq<char>, Color)> {
    Seq::new(ts.len(), |i: int| (ts[i], cs[i]))
}

proof fn lemma_lookup_past(m: Seq<(Seq<char>, Color)>, extra: Seq<(Seq<char>, Color)>, t: Seq<char>)
    requires
        forall|i: int| 0 <= i < extra.len() ==> (#[trigger] extra[i]).0 != t,
    ensures
        memo_lookup(m + extra, t) == memo_lookup(m, t),
    decreases extra.len(),
{
    if extra.len() > 0 {
        assert((m + extra).drop_last() =~= m + extra.drop_last());
        assert(extra.last() == extra[extra.len() - 1]);
        lemma_lookup_past(m, extra.drop_last(), t);
    } else {
        assert(m + extra =~= m);
    }
}

proof fn lemma_front_to_back(q: Seq<Color>)
    requires
        q.len() > 0,
    ensures
        move_to_back(q, q[0]) == q.subrange(1, q.len() as int).push(q[0]),
{
    assert(is_first_index(q, q[0], 0));
    assert(q.contains(q[0]));
    let k = choose|k: int| is_first_index(q, q[0], k);
    assert(k == 0) by {
        if k > 0 {
            assert(q[0] != q[0]);
        }
    }
    assert(q.remove(0) =~= q.subrange(1, q.len() as int));
}

proof fn lemma_assign_rotation(m: Seq<(Seq<char>, Color)>, p: Seq<Color>, ts: Seq<Seq<char>>, k: int)
    requires
        0 <= k <= ts.len() == p.len(),
        forall|i: int, j: int| 0 <= i < j < ts.len() ==> ts[i] != ts[j],
        forall|i: int| 0 <= i < ts.len() ==> memo_lookup(m, #[trigger] ts[i]) is None,
    ensures
        assign_all(m, p, ts.subrange(0, k)) == (
            m + pairs(ts.subrange(0, k), p.subrange(0, k)),
            p.subrange(k, p.len() as int) + p.subrange(0, k),
            p.subrange(0, k),
        ),
    decreases k,
{
    if k == 0 {
        assert(ts.subrange(0, 0) =~= Seq::<Seq<char>>::empty());
        assert(m + pairs(ts.subrange(0, 0), p.subrange(0, 0)) =~= m);
        assert(p.subrange(0, p.len() as int) + p.subrange(0, 0) =~= p);
        assert(p.subrange(0, 0) =~= Seq::<Color>::empty());
    } else {
        lemma_assign_rotation(m, p, ts, k - 1);
        let pre = ts.subrange(0, k);
        assert(pre.drop_last() =~= ts.subrange(0, k - 1));
        let t = ts[k - 1];
        assert(pre.last() == t);
        let memo1 = m + pairs(ts.subrange(0, k - 1), p.subrange(0, k - 1));
        let q = p.subrange(k - 1, p.len() as int) + p.subrange(0, k - 1);
        let extra = pairs(ts.subrange(0, k - 1), p.subrange(0, k - 1));
        assert forall|i: int| 0 <= i < extra.len() implies (#[trigger] extra[i]).0 != t by {
            assert(extra[i].0 == ts[i]);
        }
        lemma_lookup_past(m, extra, t);
        assert(memo_lookup(memo1, t) is None);
        assert(q[0] == p[k - 1]);
        assert(assigned_color(memo1, q, t) == p[k - 1]);
        lemma_front_to_back(q);
        assert(q.subrange(1, q.len() as int).push(q[0]) =~= p.subrange(k, p.len() as int) + p.subrange(0, k));
        assert(memo1.push((t, p[k - 1])) =~= m + pairs(ts.subrange(0, k), p.subrange(0, k)));
        assert(p.subrange(0, k - 1).push(p[k - 1]) =~= p.subrange(0, k));
    }
}

/// Palette exhaustion: when as many distinct fresh tokens as the palette has
/// colors are looked up in turn, each receives the next palette color and the
/// palette returns to its order; a further fresh token then receives the color
/// of the first of them, the least recently used.
pub proof fn lemma_palette_exhaustion(m: Seq<(Seq<char>, Color)>, p: Seq<Color>, ts: Seq<Seq<char>>, fresh: Seq<char>)
    requires
        p.len() > 0,
        ts.len() == p.len(),
        forall|i: int, j: int| 0 <= i < j < ts.len() ==> ts[i] != ts[j],
        forall|i: int| 0 <= i < ts.len() ==> memo_lookup(m, #[trigger] ts[i]) is None,
        forall|i: int| 0 <= i < ts.len() ==> #[trigger] ts[i] != fresh,
        memo_lookup(m, fresh) is None,
    ensures
        ({
            let (memo1, pal1, cs) = assign_all(m, p, ts);
            &&& cs == p
            &&& pal1 == p
            &&& assigned_color(memo1, pal1, fresh) == cs[0]
        }),
{
    lemma_assign_rotation(m, p, ts, ts.len() as int);
    assert(ts.subrange(0, ts.len() as int) =~= ts);
    assert(p.subrange(0, p.len() as int) =~= p);
    assert(p.subrange(p.len() as int, p.len() as int) + p =~= p);
    let extra = pairs(ts, p);
    assert forall|i: int| 0 <= i < extra.len() implies (#[trigger] extra[i]).0 != fresh by {
        assert(extra[i].0 == ts[i]);
    }
    lemma_lookup_past(m, extra, fresh);
}

/// The position of the latest `c` among the colors `cs` returned so far, or
/// `-1` when it was never returned.
pub open spec fn last_use(cs: Seq<Color>, c: Color) -> int
    decreases cs.len(),
{
    if cs.len() == 0 {
        -1
    } else if cs.last() == c {
        cs.len() - 1
    } else {
        last_use(cs.drop_last(), c)
    }
}

/// Whether the palette `p` is ordered from least to most recently returned.
pub open spec fn by_recency(p: Seq<Color>, cs: Seq<Color>) -> bool {
    forall|i: int, j: int| 0 <= i < j < p.len() ==> last_use(cs, #[trigger] p[i]) <= last_use(cs, #[trigger] p[j])
}

proof fn lemma_last_use_push(cs: Seq<Color>, c: Color, d: Color)
    ensures
        last_use(cs.push(c), d) == if d == c {
            cs.len() as int
        } else {
            last_use(cs, d)
        },
{
    assert(cs.push(c).drop_last() =~= cs);
}

proof fn lemma_last_use_bound(cs: Seq<Color>, d: Color)
    ensures
        -1 <= last_use(cs, d) < cs.len(),
    decreases cs.len(),
{
    if cs.len() > 0 {
        lemma_last_use_bound(cs.drop_last(), d);
    }
}

proof fn lemma_first_index_exists(q: Seq<Color>, c: Color, i: int)
    requires
        0 <= i < q.len(),
        q[i] == c,
    ensures
        exists|k: int| is_first_index(q, c, k),
    decreases i,
{
    if exists|j: int| 0 <= j < i && q[j] == c {
        let j = choose|j: int| 0 <= j < i && q[j] == c;
        lemma_first_index_exists(q, c, j);
    } else {
        assert(is_first_index(q, c, i));
    }
}

proof fn lemma_move_perm(q: Seq<Color>, c: Color, k: int)
    requires
        q.no_duplicates(),
        is_first_index(q, c, k),
    ensures
        q.remove(k).push(c).no_duplicates(),
        q.remove(k).push(c).to_set() == q.to_set(),
{
    let r = q.remove(k);
    let q2 = r.push(c);
    assert forall|i: int| 0 <= i < r.len() implies #[trigger] r[i] != c by {
        if i < k {
            assert(r[i] == q[i]);
        } else {
            assert(r[i] == q[i + 1]);
        }
    }
        assert forall|i: int, j: int| 0 <= i < j < q2.len() implies q2[i] != q2[j] by {
            if j < r.len() {
                let ii = if i < k { i } else { i + 1 };
                let jj = if j < k { j } else { j + 1 };
                assert(r[i] == q[ii] && r[j] == q[jj]);
            }
        }
        assert(q2.to_set() =~= q.to_set()) by {
            assert forall|x: Color| q.to_set().contains(x) implies q2.to_set().contains(x) by {
                let i = choose|i: int| 0 <= i < q.len() && q[i] == x;
                if i < k {
                    assert(q2[i] == x);
                } else if i == k {
                    assert(q2[r.len() as int] == x);
                } else {
                    assert(q2[i - 1] == x);
                }
            }
            assert forall|x: Color| q2.to_set().contains(x) implies q.to_set().contains(x) by {
                let i = choose|i: int| 0 <= i < q2.len() && q2[i] == x;
                if i == r.len() {
                    assert(q[k] == x);
                } else if i < k {
                    assert(q[i] == x);
                } else {
                    assert(q[i + 1] == x);
                }
            }
        }
}

proof fn lemma_step_recency(q: Seq<Color>, cs: Seq<Color>, c: Color)
    requires
        q.no_duplicates(),
        by_recency(q, cs),
    ensures
        move_to_back(q, c).no_duplicates(),
        move_to_back(q, c).to_set() == q.to_set(),
        by_recency(move_to_back(q, c), cs.push(c)),
{
    let n = cs.push(c);
    if q.contains(c) {
        let i0 = choose|i: int| 0 <= i < q.len() && q[i] == c;
        lemma_first_index_exists(q, c, i0);
        let k = choose|k: int| is_first_index(q, c, k);
        let r = q.remove(k);
        let q2 = r.push(c);
        assert(q2 == move_to_back(q, c));
        assert forall|i: int| 0 <= i < r.len() implies #[trigger] r[i] != c by {
            if i < k {
                assert(r[i] == q[i]);
            } else {
                assert(r[i] == q[i + 1]);
            }
        }
        lemma_move_perm(q, c, k);
        lemma_last_use_bound(cs, c);
        assert forall|i: int, j: int| 0 <= i < j < q2.len() implies last_use(n, #[trigger] q2[i]) <= last_use(n, #[trigger] q2[j]) by {
            lemma_last_use_push(cs, c, q2[i]);
            lemma_last_use_push(cs, c, q2[j]);
            if j == r.len() {
                lemma_last_use_bound(cs, q2[i]);
            } else {
                let ii = if i < k { i } else { i + 1 };
                let jj = if j < k { j } else { j + 1 };
                assert(r[i] == q[ii] && r[j] == q[jj]);
                assert(ii < jj);
            }
        }
    } else {
        assert(move_to_back(q, c) == q);
        assert forall|i: int, j: int| 0 <= i < j < q.len() implies last_use(n, #[trigger] q[i]) <= last_use(n, #[trigger] q[j]) by {
            lemma_last_use_push(cs, c, q[i]);
            lemma_last_use_push(cs, c, q[j]);
            assert(q[i] != c && q[j] != c);
        }
    }
}

proof fn lemma_history(m: Seq<(Seq<char>, Color)>, p: Seq<Color>, ts: Seq<Seq<char>>)
    requires
        p.no_duplicates(),
    ensures
        ({
            let (memo1, pal1, cs) = assign_all(m, p, ts);
            &&& pal1.no_duplicates()
            &&& pal1.to_set() == p.to_set()
            &&& by_recency(pal1, cs)
        }),
    decreases ts.len(),
{
    if ts.len() == 0 {
        assert forall|i: int, j: int| 0 <= i < j < p.len() implies last_use(seq![], #[trigger] p[i]) <= last_use(seq![], #[trigger] p[j]) by {
        }
    } else {
        lemma_history(m, p, ts.drop_last());
        let (memo1, pal1, cs) = assign_all(m, p, ts.drop_last());
        let t = ts.last();
        lemma_step_recency(pal1, cs, assigned_color(memo1, pal1, t));
    }
}

/// Palette exhaustion, for any history of lookups: starting from a palette of
/// distinct colors, the palette stays a reordering of those colors, ordered
/// from least to most recently returned; so a fresh token receives the palette
/// color whose latest return is the earliest.
pub proof fn lemma_fresh_token_gets_least_recent(m: Seq<(Seq<char>, Color)>, p: Seq<Color>, ts: Seq<Seq<char>>, fresh: Seq<char>)
    requires
        p.no_duplicates(),
        p.len() > 0,
    ensures
        ({
            let (memo1, pal1, cs) = assign_all(m, p, ts);
            &&& pal1.to_set() == p.to_set()
            &&& by_recency(pal1, cs)
            &&& memo_lookup(memo1, fresh) is None ==> ({
                let c = assigned_color(memo1, pal1, fresh);
                &&& c == pal1[0]
                &&& forall|d: Color| #[trigger] p.contains(d) ==> last_use(cs, c) <= last_use(cs, d)
            })
        }),
{
    lemma_history(m, p, ts);
    let (memo1, pal1, cs) = assign_all(m, p, ts);
    assert(p.contains(p[0]));
    assert(p.to_set().contains(p[0]));
    assert(pal1.len() > 0) by {
        if pal1.len() == 0 {
            assert(pal1.to_set().contains(p[0]));
        }
    }
    assert forall|d: Color| #[trigger] p.contains(d) implies last_use(cs, pal1[0]) <= last_use(cs, d) by {
        assert(p.to_set().contains(d));
        assert(pal1.to_set().contains(d));
        let j = choose|j: int| 0 <= j < pal1.len() && pal1[j] == d;
        if j > 0 {
            assert(last_use(cs, pal1[0]) <= last_use(cs, pal1[j]));
        }
    }
}

} // verus!
