use vstd::prelude::*;

use crate::ansi::joined;
use crate::color::{name_of, painted_as, assigned_color, memo_after, paint, paint_on, palette_after, styled_as, Color, ColorTable};
use crate::config::CliArgs;
use crate::level::{letter_of, LogLevel};
use crate::tags::TagFilter;
use crate::text::{append_chars, chars_of, string_of};
use crate::tracker::ProcessTracker;
use crate::wrap::{get_wrapped_indent, indent_outcome, spaces};

verus! {

/// An output: a console whose width is queried per line, or a sink of unbounded
/// width (`-1`) such as a file; `show_colors` keeps the escape sequences.
#[derive(Clone, Copy, Debug)]
pub struct Sink {
    pub width: i16,
    pub show_colors: bool,
}

/// The session's mutable state.
pub struct State {
    pub tracker: ProcessTracker,
    /// the tag of the latest record whose tag column was filled
    pub last_tag: Option<String>,
    /// the least severity shown
    pub log_level: LogLevel,
    pub colors: ColorTable,
    /// tag filters that drop a record
    pub ignore_filter: TagFilter,
    /// tag filters a record must pass, when set
    pub tag_filter: TagFilter,
}

impl State {
    /// The filters' memos are sound.
    pub open spec fn wf(&self) -> bool {
        self.ignore_filter.wf() && self.tag_filter.wf()
    }

    /// `self` is `other` but for the filters' memos.
    pub open spec fn same_as(&self, other: State) -> bool {
        &&& self.tracker == other.tracker
        &&& self.last_tag == other.last_tag
        &&& self.log_level == other.log_level
        &&& self.colors == other.colors
        &&& self.ignore_filter.patterns == other.ignore_filter.patterns
        &&& self.tag_filter.patterns == other.tag_filter.patterns
    }
}

/// The characters of an optional string.
pub open spec fn opt_view(o: Option<String>) -> Option<Seq<char>> {
    match o {
        Some(s) => Some(s@),
        None => None,
    }
}

/// What removing the escape sequences from `s` gives (the stripping crate's verdict).
pub uninterp spec fn stripped(s: Seq<char>) -> Seq<char>;

/// Whether `s` holds only newlines and printable characters (no C0 or C1
/// control character, hence no escape character).
pub open spec fn printable(s: Seq<char>) -> bool {
    forall|k: int| 0 <= k < s.len() ==> #[trigger] s[k] == '\n' || (' ' <= s[k] && !('\u{80}' <= s[k] && s[k] <= '\u{9f}'))
}

/// Relies on `strip_ansi_escapes::strip_str`: the text without its escape
/// sequences; its parser prints every character but the C0 and C1 controls and
/// writes a newline for `\n`, so printable text comes back unchanged.
#[verifier::external_body]
fn strip_escapes(s: &str) -> (r: String)
    ensures
        r@ == stripped(s@),
        printable(s@) ==> r@ == s@,
{
    strip_ansi_escapes::strip_str(s)
}

/// The text a sink receives for `token` before colors are dropped: reflowed when
/// asked for and the sink has a width.
pub open spec fn sink_buffer(sink: Sink, token: Seq<char>, wrap: bool, header_width: nat, fg: Color, bg: Color, b: Seq<char>) -> bool {
    if wrap && sink.width != -1 {
        indent_outcome(b, token, sink.show_colors, sink.width as int, header_width, fg, bg)
    } else {
        b == token
    }
}

/// The text a sink receives for `token`: its buffer, with escape sequences
/// stripped for a sink without colors.
pub open spec fn sink_piece(sink: Sink, token: Seq<char>, wrap: bool, header_width: nat, fg: Color, bg: Color, piece: Seq<char>) -> bool {
    exists|b: Seq<char>|
        #[trigger] sink_buffer(sink, token, wrap, header_width, fg, bg, b) && piece == (if sink.show_colors {
            b
        } else {
            stripped(b)
        }) && (!sink.show_colors && printable(b) ==> piece == b)
}

/// An unwrapped printable token reaches every sink as it is, colors kept or not.
pub proof fn lemma_plain_piece(sink: Sink, token: Seq<char>, wrap: bool, header_width: nat, fg: Color, bg: Color, piece: Seq<char>)
    requires
        sink_piece(sink, token, wrap, header_width, fg, bg, piece),
        !wrap || sink.width == -1,
        printable(token),
    ensures
        piece == token,
{
    let b = choose|b: Seq<char>|
        #[trigger] sink_buffer(sink, token, wrap, header_width, fg, bg, b) && piece == (if sink.show_colors {
            b
        } else {
            stripped(b)
        }) && (!sink.show_colors && printable(b) ==> piece == b);
    assert(b == token);
}

/// Whether each of `out` is `before` with the sink's piece for `token` appended.
pub open spec fn appended(
    before: Seq<String>,
    out: Seq<String>,
    sinks: Seq<Sink>,
    token: Seq<char>,
    wrap: bool,
    header_width: nat,
    fg: Color,
    bg: Color,
) -> bool {
    &&& out.len() == before.len() == sinks.len()
    &&& forall|k: int|
        0 <= k < sinks.len() ==> {
            &&& (#[trigger] out[k])@.len() >= before[k]@.len()
            &&& out[k]@.subrange(0, before[k]@.len() as int) == before[k]@
            &&& sink_piece(sinks[k], token, wrap, header_width, fg, bg, out[k]@.subrange(before[k]@.len() as int, out[k]@.len() as int))
        }
}

/// A token written to the sinks: its text, whether it is wrapped, and the
/// header width it is wrapped under.
pub type Token = (Seq<char>, bool, nat);

/// Whether `pieces` are, one for one, what a sink receives for the tokens `toks`.
pub open spec fn pieces_of(sink: Sink, toks: Seq<Token>, fg: Color, bg: Color, pieces: Seq<Seq<char>>) -> bool {
    &&& pieces.len() == toks.len()
    &&& forall|i: int| 0 <= i < toks.len() ==> sink_piece(sink, toks[i].0, toks[i].1, toks[i].2, fg, bg, #[trigger] pieces[i])
}

/// Whether `text` is what a sink receives for the tokens `toks` in order: the
/// concatenation of their pieces.
pub open spec fn rendered(sink: Sink, toks: Seq<Token>, fg: Color, bg: Color, text: Seq<char>) -> bool {
    exists|pieces: Seq<Seq<char>>| #[trigger] pieces_of(sink, toks, fg, bg, pieces) && text == joined(pieces)
}

/// Whether each of `out` is `before` followed by what its sink receives for `toks`.
pub open spec fn extends(before: Seq<String>, out: Seq<String>, sinks: Seq<Sink>, toks: Seq<Token>, fg: Color, bg: Color) -> bool {
    &&& out.len() == before.len() == sinks.len()
    &&& forall|k: int|
        0 <= k < sinks.len() ==> {
            &&& (#[trigger] out[k])@.len() >= before[k]@.len()
            &&& out[k]@.subrange(0, before[k]@.len() as int) == before[k]@
            &&& rendered(sinks[k], toks, fg, bg, out[k]@.subrange(before[k]@.len() as int, out[k]@.len() as int))
        }
}

pub proof fn lemma_rendered_push(sink: Sink, toks: Seq<Token>, fg: Color, bg: Color, text: Seq<char>, tok: Token, piece: Seq<char>)
    requires
        rendered(sink, toks, fg, bg, text),
        sink_piece(sink, tok.0, tok.1, tok.2, fg, bg, piece),
    ensures
        rendered(sink, toks.push(tok), fg, bg, text + piece),
{
    let pieces = choose|pieces: Seq<Seq<char>>| #[trigger] pieces_of(sink, toks, fg, bg, pieces) && text == joined(pieces);
    let grown = pieces.push(piece);
    let n = toks.push(tok);
    assert(grown.drop_last() =~= pieces);
    assert forall|i: int| 0 <= i < n.len() implies sink_piece(sink, n[i].0, n[i].1, n[i].2, fg, bg, #[trigger] grown[i]) by {
        if i < toks.len() {
            assert(n[i] == toks[i] && grown[i] == pieces[i]);
        }
    }
    assert(pieces_of(sink, n, fg, bg, grown));
    assert(joined(grown) == text + piece);
}

/// With nothing written, every output is its start.
pub proof fn lemma_extends_empty(before: Seq<String>, sinks: Seq<Sink>, fg: Color, bg: Color)
    requires
        before.len() == sinks.len(),
    ensures
        extends(before, before, sinks, seq![], fg, bg),
{
    assert forall|k: int| 0 <= k < sinks.len() implies {
        &&& (#[trigger] before[k])@.len() >= before[k]@.len()
        &&& before[k]@.subrange(0, before[k]@.len() as int) == before[k]@
        &&& rendered(sinks[k], seq![], fg, bg, before[k]@.subrange(before[k]@.len() as int, before[k]@.len() as int))
    } by {
        assert(before[k]@.subrange(0, before[k]@.len() as int) =~= before[k]@);
        let e: Seq<Seq<char>> = seq![];
        assert(pieces_of(sinks[k], seq![], fg, bg, e));
        assert(before[k]@.subrange(before[k]@.len() as int, before[k]@.len() as int) =~= joined(e));
    }
}

pub proof fn lemma_extends_push(
    base: Seq<String>,
    mid: Seq<String>,
    out: Seq<String>,
    sinks: Seq<Sink>,
    toks: Seq<Token>,
    token: Seq<char>,
    wrap: bool,
    header_width: nat,
    fg: Color,
    bg: Color,
)
    requires
        extends(base, mid, sinks, toks, fg, bg),
        appended(mid, out, sinks, token, wrap, header_width, fg, bg),
    ensures
        extends(base, out, sinks, toks.push((token, wrap, header_width)), fg, bg),
{
    assert forall|k: int| 0 <= k < sinks.len() implies {
        &&& (#[trigger] out[k])@.len() >= base[k]@.len()
        &&& out[k]@.subrange(0, base[k]@.len() as int) == base[k]@
        &&& rendered(sinks[k], toks.push((token, wrap, header_width)), fg, bg, out[k]@.subrange(base[k]@.len() as int, out[k]@.len() as int))
    } by {
        let b = base[k]@;
        let m = mid[k]@;
        let o = out[k]@;
        assert(m.len() >= b.len() && m.subrange(0, b.len() as int) == b);
        assert(o.len() >= m.len() && o.subrange(0, m.len() as int) == m);
        let rest = m.subrange(b.len() as int, m.len() as int);
        let piece = o.subrange(m.len() as int, o.len() as int);
        lemma_rendered_push(sinks[k], toks, fg, bg, rest, (token, wrap, header_width), piece);
        assert(o.subrange(b.len() as int, o.len() as int) =~= rest + piece);
        assert(o.subrange(0, b.len() as int) =~= b);
    }
}

/// Appends `token` to every sink's output, keeping track of the tokens written
/// since `base`; see `write_token`.
pub fn emit(
    token: &str,
    sinks: &[Sink],
    out: &mut Vec<String>,
    wrap: bool,
    header_width: usize,
    fg: Color,
    bg: Color,
    Ghost(base): Ghost<Seq<String>>,
    Ghost(toks): Ghost<Seq<Token>>,
)
    requires
        extends(base, old(out)@, sinks@, toks, fg, bg),
    ensures
        extends(base, final(out)@, sinks@, toks.push((token@, wrap, header_width as nat)), fg, bg),
        appended(old(out)@, final(out)@, sinks@, token@, wrap, header_width as nat, fg, bg),
{
    let ghost mid = out@;
    write_token(token, sinks, out, wrap, header_width, fg, bg);
    proof {
        lemma_extends_push(base, mid, out@, sinks@, toks, token@, wrap, header_width as nat, fg, bg);
    }
}

/// Appends `token` to the output of every sink: reflowed under a header
/// `header_width` wide when `wrap` is set and the sink has a width, and without
/// escape sequences for a sink without colors.
pub fn write_token(
    token: &str,
    sinks: &[Sink],
    out: &mut Vec<String>,
    wrap: bool,
    header_width: usize,
    level_foreground: Color,
    level_background: Color,
)
    requires
        old(out)@.len() == sinks@.len(),
    ensures
        appended(old(out)@, final(out)@, sinks@, token@, wrap, header_width as nat, level_foreground, level_background),
{
    let ghost before = out@;
    let mut next: Vec<String> = Vec::new();
    let mut k: usize = 0;
    while k < sinks.len()
        invariant
            k <= sinks@.len(),
            before.len() == sinks@.len(),
            out@ == before,
            next@.len() == k,
            forall|j: int|
                0 <= j < k ==> {
                    &&& (#[trigger] next@[j])@.len() >= before[j]@.len()
                    &&& next@[j]@.subrange(0, before[j]@.len() as int) == before[j]@
                    &&& sink_piece(sinks@[j], token@, wrap, header_width as nat, level_foreground, level_background, next@[j]@.subrange(before[j]@.len() as int, next@[j]@.len() as int))
                },
        decreases sinks@.len() - k,
    {
        let sink = sinks[k];
        let buffer = if wrap && sink.width != -1 {
            get_wrapped_indent(token, sink.show_colors, sink.width, header_width, level_foreground, level_background)
        } else {
            token.to_owned()
        };
        proof {
            assert(sink_buffer(sink, token@, wrap, header_width as nat, level_foreground, level_background, buffer@));
        }
        let piece = if sink.show_colors {
            buffer
        } else {
            strip_escapes(buffer.as_str())
        };
        let mut joined = chars_of(out[k].as_str());
        let pc = chars_of(piece.as_str());
        append_chars(&mut joined, &pc);
        let s = string_of(joined.as_slice());
        proof {
            assert(s@.subrange(0, before[k as int]@.len() as int) =~= before[k as int]@);
            assert(s@.subrange(before[k as int]@.len() as int, s@.len() as int) =~= piece@);
        }
        next.push(s);
        k += 1;
    }
    *out = next;
}

/// Whether each color-keeping sink's output ends in a newline.
pub open spec fn ends_in_newline(out: Seq<String>, sinks: Seq<Sink>) -> bool {
    forall|k: int| 0 <= k < sinks.len() && sinks[k].show_colors ==> (#[trigger] out[k])@.len() > 0 && out[k]@.last() == '\n'
}

/// After a newline was appended, each color-keeping sink's output ends in it.
pub proof fn lemma_newline_last(before: Seq<String>, out: Seq<String>, sinks: Seq<Sink>, width: nat, fg: Color, bg: Color)
    requires
        appended(before, out, sinks, "\n"@, false, width, fg, bg),
    ensures
        ends_in_newline(out, sinks),
{
    reveal_strlit("\n");
    assert forall|k: int| 0 <= k < sinks.len() && sinks[k].show_colors implies (#[trigger] out[k])@.len() > 0
        && out[k]@.last() == '\n' by {
        let piece = out[k]@.subrange(before[k]@.len() as int, out[k]@.len() as int);
        assert(sink_piece(sinks[k], "\n"@, false, width, fg, bg, piece));
        let b = choose|b: Seq<char>|
            #[trigger] sink_buffer(sinks[k], "\n"@, false, width, fg, bg, b) && piece == if sinks[k].show_colors {
                b
            } else {
                stripped(b)
            };
        assert(piece == "\n"@);
        assert(out[k]@.len() >= before[k]@.len());
        assert(piece.len() == out[k]@.len() - before[k]@.len());
        assert(out[k]@.last() == piece[0]);
    }
}

/// `v` cut to `w` characters, its last one an ellipsis, when it is longer.
pub open spec fn fit(v: Seq<char>, w: nat) -> Seq<char> {
    if v.len() <= w {
        v
    } else if w >= 1 {
        v.subrange(0, w - 1).push('\u{2026}')
    } else {
        seq![]
    }
}

/// `v` fitted to a column `w` wide and padded with spaces, on the left when
/// `right` is set.
pub open spec fn field_text(v: Seq<char>, w: nat, right: bool) -> Seq<char> {
    let d = fit(v, w);
    if d.len() >= w {
        d
    } else if right {
        spaces((w - d.len()) as nat) + d
    } else {
        d + spaces((w - d.len()) as nat)
    }
}

/// `v` fitted to a column `w` wide; see `field_text`.
pub fn field(v: &str, w: usize, right: bool) -> (r: Vec<char>)
    ensures
        r@ == field_text(v@, w as nat, right),
        r@.len() == w,
{
    let s = chars_of(v);
    let mut d: Vec<char> = Vec::new();
    if s.len() <= w {
        d = s;
    } else if w >= 1 {
        d = crate::text::slice_chars(&s, 0, w - 1);
        d.push('\u{2026}');
    }
    proof {
        assert(d@ =~= fit(v@, w as nat));
    }
    let ghost dv = d@;
    let fill = w - d.len();
    let mut pad: Vec<char> = Vec::new();
    let mut i: usize = 0;
    while i < fill
        invariant
            i <= fill,
            pad@ == spaces(i as nat),
        decreases fill - i,
    {
        pad.push(' ');
        i += 1;
        proof {
            assert(pad@ =~= spaces(i as nat));
        }
    }
    if right {
        append_chars(&mut pad, &d);
        proof {
            if dv.len() >= w {
                assert(pad@ =~= dv);
            }
        }
        pad
    } else {
        append_chars(&mut d, &pad);
        proof {
            if dv.len() >= w {
                assert(d@ =~= dv);
            }
        }
        d
    }
}

/// `text` painted in `c`, or left plain when colors are off.
pub open spec fn painted_or_plain(r: Seq<char>, text: Seq<char>, no_color: bool, c: Color) -> bool {
    if no_color {
        r == text
    } else {
        painted_as(r, text, name_of(c), None)
    }
}

fn paint_unless(text: &Vec<char>, c: Color, no_color: bool) -> (r: Vec<char>)
    ensures
        painted_or_plain(r@, text@, no_color, c),
{
    if no_color {
        text.clone()
    } else {
        paint(string_of(text.as_slice()).as_str(), c)
    }
}

/// Whether the tag column is filled for `tag` after the tag `last`: when the tag
/// changed, or always when asked.
pub open spec fn tag_shown(last: Option<Seq<char>>, tag: Seq<char>, always: bool) -> bool {
    last != Some(tag) || always
}

/// The last tag after a record with `tag` under a tag column `width` wide.
pub open spec fn last_tag_after(last: Option<Seq<char>>, tag: Seq<char>, width: nat) -> Option<Seq<char>> {
    if width > 0 {
        Some(tag)
    } else {
        last
    }
}

/// Two records in a row with the same tag: the first fills the tag column when
/// the tag changed, and the second fills it only when tags are always shown.
pub proof fn lemma_repeated_tag_blank(last: Option<Seq<char>>, tag: Seq<char>, width: nat, always: bool)
    requires
        width > 0,
        last != Some(tag),
    ensures
        tag_shown(last, tag, always),
        tag_shown(last_tag_after(last, tag, width), tag, always) == always,
{
}

impl State {
    /// The pid column for `owner`, or `None` when the column is off or the pid is
    /// empty; the pid's color comes from the color table.
    pub fn pid_column(&mut self, args: &CliArgs, owner: &str) -> (r: Option<Vec<char>>)
        ensures
            r is Some <==> (args.show_pid && owner@.len() > 0),
            r matches Some(t) ==> painted_or_plain(
                t@,
                field_text(owner@, args.pid_width as nat, false),
                args.no_color,
                assigned_color(old(self).colors.memo_view(), old(self).colors.palette@, owner@),
            ),
            r is Some ==> final(self).colors.memo_view() == memo_after(old(self).colors.memo_view(), old(self).colors.palette@, owner@),
            r is Some ==> final(self).colors.palette@ == palette_after(old(self).colors.memo_view(), old(self).colors.palette@, owner@),
            r is None ==> final(self).colors == old(self).colors,
            final(self).tracker == old(self).tracker,
            final(self).last_tag == old(self).last_tag,
            final(self).log_level == old(self).log_level,
            final(self).ignore_filter == old(self).ignore_filter,
            final(self).tag_filter == old(self).tag_filter,
    {
        if !args.show_pid || chars_of(owner).len() == 0 {
            return None;
        }
        let c = self.colors.get_token_color(owner);
        let text = field(owner, args.pid_width as usize, false);
        Some(paint_unless(&text, c, args.no_color))
    }
}

/// The package shown for `pid`: its owner, or `UNKNOWN(pid)`.
pub open spec fn package_name_of(t: ProcessTracker, pid: Seq<char>) -> Seq<char> {
    match t.owner_spec(pid) {
        Some(p) => p,
        None => "UNKNOWN("@ + pid + ")"@,
    }
}

/// The background of a record's severity badge.
pub open spec fn level_background_of(l: LogLevel) -> Color {
    match l {
        LogLevel::DEBUG => Color::BrightBlue,
        LogLevel::INFO => Color::BrightGreen,
        LogLevel::WARN => Color::BrightYellow,
        LogLevel::ERROR => Color::DarkOrange,
        LogLevel::FATAL => Color::BrightRed,
        LogLevel::VERBOSE => Color::BrightCyan,
    }
}

/// The background of the severity badge of `level`.
pub fn level_background(level: LogLevel) -> (c: Color)
    ensures
        c == level_background_of(level),
{
    match level {
        LogLevel::DEBUG => Color::BrightBlue,
        LogLevel::INFO => Color::BrightGreen,
        LogLevel::WARN => Color::BrightYellow,
        LogLevel::ERROR => Color::DarkOrange,
        LogLevel::FATAL => Color::BrightRed,
        LogLevel::VERBOSE => Color::BrightCyan,
    }
}

/// The severity badge text: the level's letter between spaces.
pub open spec fn badge_text(l: LogLevel) -> Seq<char> {
    seq![' ', letter_of(l), ' ']
}

/// The severity badge of `level`: black on the level's background, plain when
/// colors are off.
pub fn level_badge(level: LogLevel, no_color: bool) -> (r: Vec<char>)
    ensures
        no_color ==> r@ == badge_text(level),
        !no_color ==> painted_as(r@, badge_text(level), name_of(Color::Black), Some(name_of(level_background_of(level)))),
{
    let mut t: Vec<char> = Vec::new();
    t.push(' ');
    t.push(level.letter());
    t.push(' ');
    proof {
        assert(t@ =~= badge_text(level));
    }
    if no_color {
        t
    } else {
        paint_on(string_of(t.as_slice()).as_str(), Color::Black, level_background(level))
    }
}

impl State {
    /// The package column for `owner` (its package, or `UNKNOWN(owner)`), or
    /// `None` when the column is off or the pid is empty; the package's color
    /// comes from the color table.
    pub fn package_column(&mut self, args: &CliArgs, owner: &str) -> (r: Option<Vec<char>>)
        ensures
            r is Some <==> (args.show_package && owner@.len() > 0),
            r matches Some(t) ==> painted_or_plain(
                t@,
                field_text(package_name_of(old(self).tracker, owner@), args.package_width as nat, false),
                args.no_color,
                assigned_color(old(self).colors.memo_view(), old(self).colors.palette@, package_name_of(old(self).tracker, owner@)),
            ),
            r is Some ==> final(self).colors.memo_view() == memo_after(
                old(self).colors.memo_view(),
                old(self).colors.palette@,
                package_name_of(old(self).tracker, owner@),
            ),
            r is Some ==> final(self).colors.palette@ == palette_after(
                old(self).colors.memo_view(),
                old(self).colors.palette@,
                package_name_of(old(self).tracker, owner@),
            ),
            r is None ==> final(self).colors == old(self).colors,
            final(self).tracker == old(self).tracker,
            final(self).last_tag == old(self).last_tag,
            final(self).log_level == old(self).log_level,
            final(self).ignore_filter == old(self).ignore_filter,
            final(self).tag_filter == old(self).tag_filter,
    {
        if !args.show_package || chars_of(owner).len() == 0 {
            return None;
        }
        let name = match self.tracker.owner_of(owner) {
            Some(p) => p,
            None => {
                let mut n = chars_of("UNKNOWN(");
                append_chars(&mut n, &chars_of(owner));
                append_chars(&mut n, &chars_of(")"));
                string_of(n.as_slice())
            },
        };
        let c = self.colors.get_token_color(name.as_str());
        let text = field(name.as_str(), args.package_width as usize, false);
        Some(paint_unless(&text, c, args.no_color))
    }

    /// The tag column for `tag`, or `None` when the column is off (zero wide).
    /// The tag fills it when it differs from the last tag or tags are always
    /// shown (then it becomes the last tag and takes its color from the table);
    /// else the column is blank.
    pub fn tag_column(&mut self, args: &CliArgs, tag: &str) -> (r: Option<Vec<char>>)
        ensures
            r is Some <==> args.tag_width > 0,
            opt_view(final(self).last_tag) == last_tag_after(opt_view(old(self).last_tag), tag@, args.tag_width as nat),
            r matches Some(t) ==> if tag_shown(opt_view(old(self).last_tag), tag@, args.always_show_tags) {
                &&& painted_or_plain(
                    t@,
                    field_text(tag@, args.tag_width as nat, args.show_pid || args.show_package),
                    args.no_color,
                    assigned_color(old(self).colors.memo_view(), old(self).colors.palette@, tag@),
                )
                &&& final(self).colors.memo_view() == memo_after(old(self).colors.memo_view(), old(self).colors.palette@, tag@)
                &&& final(self).colors.palette@ == palette_after(old(self).colors.memo_view(), old(self).colors.palette@, tag@)
            } else {
                t@ == spaces(args.tag_width as nat) && final(self).colors == old(self).colors
            },
            r is None ==> final(self).colors == old(self).colors,
            final(self).tracker == old(self).tracker,
            final(self).log_level == old(self).log_level,
            final(self).ignore_filter == old(self).ignore_filter,
            final(self).tag_filter == old(self).tag_filter,
    {
        if args.tag_width == 0 {
            return None;
        }
        let w = args.tag_width as usize;
        let t = tag.to_owned();
        let same = match &self.last_tag {
            Some(l) => *l == t,
            None => false,
        };
        if !same || args.always_show_tags {
            self.last_tag = Some(tag.to_owned());
            let text = field(tag, w, args.show_pid || args.show_package);
            let c = self.colors.get_token_color(tag);
            Some(paint_unless(&text, c, args.no_color))
        } else {
            let mut blank: Vec<char> = Vec::new();
            let mut i: usize = 0;
            while i < w
                invariant
                    i <= w,
                    blank@ == spaces(i as nat),
                decreases w - i,
            {
                blank.push(' ');
                i += 1;
                proof {
                    assert(blank@ =~= spaces(i as nat));
                }
            }
            Some(blank)
        }
    }
}

/// Whether `part` is a column written as `field` (painted unless colors are
/// off) and a separating space, or nothing when the column is not shown.
pub open spec fn column_tokens(part: Seq<Token>, shown: bool, field: Seq<char>, no_color: bool, c: Color) -> bool {
    if shown {
        &&& part.len() == 2
        &&& painted_or_plain(part[0].0, field, no_color, c) && !part[0].1
        &&& part[1].0 == " "@ && !part[1].1
    } else {
        part.len() == 0
    }
}

/// Whether `part` is the tag column for `tag` after the tag `last`: the tag
/// fitted to the column (painted unless colors are off) when it is filled, else
/// blanks, then a separating space; nothing when the column is zero wide.
pub open spec fn tag_tokens(part: Seq<Token>, args: CliArgs, last: Option<Seq<char>>, tag: Seq<char>, c: Color) -> bool {
    if args.tag_width > 0 {
        &&& part.len() == 2
        &&& !part[0].1 && part[1].0 == " "@ && !part[1].1
        &&& if tag_shown(last, tag, args.always_show_tags) {
            painted_or_plain(
                part[0].0,
                field_text(tag, args.tag_width as nat, args.show_pid || args.show_package),
                args.no_color,
                c,
            )
        } else {
            part[0].0 == spaces(args.tag_width as nat)
        }
    } else {
        part.len() == 0
    }
}

/// Whether `part` is the severity badge of `level` and a separating space.
pub open spec fn badge_tokens(part: Seq<Token>, level: LogLevel, no_color: bool) -> bool {
    &&& part.len() == 2
    &&& !part[0].1 && part[1].0 == " "@ && !part[1].1
    &&& no_color ==> part[0].0 == badge_text(level)
    &&& !no_color ==> painted_as(part[0].0, badge_text(level), name_of(Color::Black), Some(name_of(level_background_of(level))))
}

/// The width a column adds to the header: its width and a space when shown.
pub open spec fn column_width(shown: bool, w: u8) -> nat {
    if shown {
        w as nat + 1
    } else {
        0
    }
}

/// The state fields that writing a column leaves alone.
pub open spec fn same_but_colors(a: State, b: State) -> bool {
    &&& a.tracker == b.tracker
    &&& a.log_level == b.log_level
    &&& a.ignore_filter == b.ignore_filter
    &&& a.tag_filter == b.tag_filter
}

proof fn lemma_two(toks: Seq<Token>, x: Token, y: Token)
    ensures
        toks.push(x).push(y) == toks + seq![x, y],
{
    assert(toks.push(x).push(y) =~= toks + seq![x, y]);
}

impl State {
    /// Writes the pid column and its separator when the column is on and the pid
    /// is not empty, advancing the header width by the column's width and one.
    pub fn write_pid(
        &mut self,
        args: &CliArgs,
        sinks: &[Sink],
        out: &mut Vec<String>,
        header_width: &mut usize,
        owner: &str,
        fg: Color,
        bg: Color,
        Ghost(base): Ghost<Seq<String>>,
        Ghost(toks): Ghost<Seq<Token>>,
    ) -> (part: Ghost<Seq<Token>>)
        requires
            extends(base, old(out)@, sinks@, toks, fg, bg),
            *old(header_width) + 256 <= usize::MAX,
        ensures
            extends(base, final(out)@, sinks@, toks + part@, fg, bg),
            column_tokens(
                part@,
                args.show_pid && owner@.len() > 0,
                field_text(owner@, args.pid_width as nat, false),
                args.no_color,
                assigned_color(old(self).colors.memo_view(), old(self).colors.palette@, owner@),
            ),
            *final(header_width) == *old(header_width) + column_width(args.show_pid && owner@.len() > 0, args.pid_width),
            !(args.show_pid && owner@.len() > 0) ==> final(out)@ == old(out)@,
            same_but_colors(*final(self), *old(self)),
            final(self).last_tag == old(self).last_tag,
            args.show_pid && owner@.len() > 0 ==> final(self).colors.memo_view() == memo_after(old(self).colors.memo_view(), old(self).colors.palette@, owner@),
            args.show_pid && owner@.len() > 0 ==> final(self).colors.palette@ == palette_after(old(self).colors.memo_view(), old(self).colors.palette@, owner@),
            !(args.show_pid && owner@.len() > 0) ==> final(self).colors == old(self).colors,
    {
        match self.pid_column(args, owner) {
            Some(t) => {
                let ts = string_of(t.as_slice());
                emit(ts.as_str(), sinks, out, false, *header_width, fg, bg, Ghost(base), Ghost(toks));
                let ghost t1 = toks.push((ts@, false, *header_width as nat));
                emit(" ", sinks, out, false, *header_width, fg, bg, Ghost(base), Ghost(t1));
                let ghost part = seq![(ts@, false, *header_width as nat), (" "@, false, *header_width as nat)];
                proof {
                    lemma_two(toks, part[0], part[1]);
                }
                *header_width = *header_width + args.pid_width as usize + 1;
                Ghost(part)
            },
            None => {
                proof {
                    assert(toks + Seq::<Token>::empty() =~= toks);
                }
                Ghost(Seq::<Token>::empty())
            },
        }
    }

    /// Writes the package column and its separator when the column is on and the
    /// pid is not empty, advancing the header width by the column's width and one.
    pub fn write_package_name(
        &mut self,
        args: &CliArgs,
        sinks: &[Sink],
        out: &mut Vec<String>,
        header_width: &mut usize,
        owner: &str,
        fg: Color,
        bg: Color,
        Ghost(base): Ghost<Seq<String>>,
        Ghost(toks): Ghost<Seq<Token>>,
    ) -> (part: Ghost<Seq<Token>>)
        requires
            extends(base, old(out)@, sinks@, toks, fg, bg),
            *old(header_width) + 256 <= usize::MAX,
        ensures
            extends(base, final(out)@, sinks@, toks + part@, fg, bg),
            column_tokens(
                part@,
                args.show_package && owner@.len() > 0,
                field_text(package_name_of(old(self).tracker, owner@), args.package_width as nat, false),
                args.no_color,
                assigned_color(old(self).colors.memo_view(), old(self).colors.palette@, package_name_of(old(self).tracker, owner@)),
            ),
            *final(header_width) == *old(header_width) + column_width(args.show_package && owner@.len() > 0, args.package_width),
            !(args.show_package && owner@.len() > 0) ==> final(out)@ == old(out)@,
            same_but_colors(*final(self), *old(self)),
            final(self).last_tag == old(self).last_tag,
            args.show_package && owner@.len() > 0 ==> final(self).colors.memo_view() == memo_after(
                old(self).colors.memo_view(),
                old(self).colors.palette@,
                package_name_of(old(self).tracker, owner@),
            ),
            args.show_package && owner@.len() > 0 ==> final(self).colors.palette@ == palette_after(
                old(self).colors.memo_view(),
                old(self).colors.palette@,
                package_name_of(old(self).tracker, owner@),
            ),
            !(args.show_package && owner@.len() > 0) ==> final(self).colors == old(self).colors,
    {
        match self.package_column(args, owner) {
            Some(t) => {
                let ts = string_of(t.as_slice());
                emit(ts.as_str(), sinks, out, false, *header_width, fg, bg, Ghost(base), Ghost(toks));
                let ghost t1 = toks.push((ts@, false, *header_width as nat));
                emit(" ", sinks, out, false, *header_width, fg, bg, Ghost(base), Ghost(t1));
                let ghost part = seq![(ts@, false, *header_width as nat), (" "@, false, *header_width as nat)];
                proof {
                    lemma_two(toks, part[0], part[1]);
                }
                *header_width = *header_width + args.package_width as usize + 1;
                Ghost(part)
            },
            None => {
                proof {
                    assert(toks + Seq::<Token>::empty() =~= toks);
                }
                Ghost(Seq::<Token>::empty())
            },
        }
    }

    /// Writes the tag column (the tag, or blanks when it repeats) and its
    /// separator when the column is not zero wide, advancing the header width by
    /// the column's width and one.
    pub fn write_tag(
        &mut self,
        args: &CliArgs,
        sinks: &[Sink],
        out: &mut Vec<String>,
        header_width: &mut usize,
        tag: &str,
        fg: Color,
        bg: Color,
        Ghost(base): Ghost<Seq<String>>,
        Ghost(toks): Ghost<Seq<Token>>,
    ) -> (part: Ghost<Seq<Token>>)
        requires
            extends(base, old(out)@, sinks@, toks, fg, bg),
            *old(header_width) + 256 <= usize::MAX,
        ensures
            extends(base, final(out)@, sinks@, toks + part@, fg, bg),
            tag_tokens(part@, *args, opt_view(old(self).last_tag), tag@, assigned_color(old(self).colors.memo_view(), old(self).colors.palette@, tag@)),
            *final(header_width) == *old(header_width) + column_width(args.tag_width > 0, args.tag_width),
            args.tag_width == 0 ==> final(out)@ == old(out)@,
            same_but_colors(*final(self), *old(self)),
            opt_view(final(self).last_tag) == last_tag_after(opt_view(old(self).last_tag), tag@, args.tag_width as nat),
            args.tag_width > 0 && tag_shown(opt_view(old(self).last_tag), tag@, args.always_show_tags) ==> final(self).colors.memo_view()
                == memo_after(old(self).colors.memo_view(), old(self).colors.palette@, tag@),
            args.tag_width > 0 && tag_shown(opt_view(old(self).last_tag), tag@, args.always_show_tags) ==> final(self).colors.palette@
                == palette_after(old(self).colors.memo_view(), old(self).colors.palette@, tag@),
            !(args.tag_width > 0 && tag_shown(opt_view(old(self).last_tag), tag@, args.always_show_tags)) ==> final(self).colors
                == old(self).colors,
    {
        match self.tag_column(args, tag) {
            Some(t) => {
                let ts = string_of(t.as_slice());
                emit(ts.as_str(), sinks, out, false, *header_width, fg, bg, Ghost(base), Ghost(toks));
                let ghost t1 = toks.push((ts@, false, *header_width as nat));
                emit(" ", sinks, out, false, *header_width, fg, bg, Ghost(base), Ghost(t1));
                let ghost part = seq![(ts@, false, *header_width as nat), (" "@, false, *header_width as nat)];
                proof {
                    lemma_two(toks, part[0], part[1]);
                }
                *header_width = *header_width + args.tag_width as usize + 1;
                Ghost(part)
            },
            None => {
                proof {
                    assert(toks + Seq::<Token>::empty() =~= toks);
                }
                Ghost(Seq::<Token>::empty())
            },
        }
    }
}

/// Writes the severity badge of `level` and its separator.
pub fn write_log_level(
    level: LogLevel,
    args: &CliArgs,
    sinks: &[Sink],
    out: &mut Vec<String>,
    header_width: usize,
    fg: Color,
    bg: Color,
    Ghost(base): Ghost<Seq<String>>,
    Ghost(toks): Ghost<Seq<Token>>,
) -> (part: Ghost<Seq<Token>>)
    requires
        extends(base, old(out)@, sinks@, toks, fg, bg),
    ensures
        extends(base, final(out)@, sinks@, toks + part@, fg, bg),
        badge_tokens(part@, level, args.no_color),
{
    let badge = string_of(level_badge(level, args.no_color).as_slice());
    emit(badge.as_str(), sinks, out, false, header_width, fg, bg, Ghost(base), Ghost(toks));
    let ghost t1 = toks.push((badge@, false, header_width as nat));
    emit(" ", sinks, out, false, header_width, fg, bg, Ghost(base), Ghost(t1));
    let ghost part = seq![(badge@, false, header_width as nat), (" "@, false, header_width as nat)];
    proof {
        lemma_two(toks, part[0], part[1]);
    }
    Ghost(part)
}

/// Writes the message, wrapped under a header `header_width` wide, and the
/// record's newline.
pub fn write_message(
    message: &str,
    sinks: &[Sink],
    out: &mut Vec<String>,
    header_width: usize,
    fg: Color,
    bg: Color,
    Ghost(base): Ghost<Seq<String>>,
    Ghost(toks): Ghost<Seq<Token>>,
)
    requires
        extends(base, old(out)@, sinks@, toks, fg, bg),
    ensures
        extends(
            base,
            final(out)@,
            sinks@,
            toks + seq![(message@, true, header_width as nat), ("\n"@, false, header_width as nat)],
            fg,
            bg,
        ),
        ends_in_newline(final(out)@, sinks@),
{
    emit(message, sinks, out, true, header_width, fg, bg, Ghost(base), Ghost(toks));
    let ghost t1 = toks.push((message@, true, header_width as nat));
    let ghost mid = out@;
    emit("\n", sinks, out, false, header_width, fg, bg, Ghost(base), Ghost(t1));
    proof {
        lemma_newline_last(mid, out@, sinks@, header_width as nat, fg, bg);
        lemma_two(toks, (message@, true, header_width as nat), ("\n"@, false, header_width as nat));
    }
}

} // verus!
