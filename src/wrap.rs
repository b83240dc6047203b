use vstd::prelude::*;

use crate::ansi::{
    active_codes, ansi_segments_of, get_active_codes_at_pos, joined, rebuild, rebuild_chunk,
    reset_seq, segments_of, strings_view, visible, visible_chars,
};
use crate::color::{paint_on, styled_as, Color};
use crate::text::{append_chars, chars_of, slice_chars, string_of};

verus! {

/// `s` with each tab replaced by four spaces.
pub open spec fn expand_tabs(s: Seq<char>) -> Seq<char>
    decreases s.len(),
{
    if s.len() == 0 {
        seq![]
    } else {
        expand_tabs(s.drop_last()) + if s.last() == '\t' {
            seq![' ', ' ', ' ', ' ']
        } else {
            seq![s.last()]
        }
    }
}

/// `n` spaces.
pub open spec fn spaces(n: nat) -> Seq<char> {
    Seq::new(n, |i: int| ' ')
}

/// The end of the chunk that starts at visible offset `c`.
pub open spec fn chunk_end(c: int, budget: int, n: int) -> int {
    if c + budget < n {
        c + budget
    } else {
        n
    }
}

/// One display line of the wrapped text `s`: the style in force where the chunk
/// starts, the chunk's visible characters with their sequences, a reset, and the
/// separator before the next chunk (`last` before the final one, else `mid`).
pub open spec fn chunk_text(s: Seq<char>, budget: nat, mid: Seq<char>, last: Seq<char>, c: int) -> Seq<char> {
    let plain = visible(s);
    let n = plain.len() as int;
    let segs = segments_of(s);
    let e = chunk_end(c, budget as int, n);
    let act = if c > 0 {
        active_codes(segs, c as nat)
    } else {
        seq![]
    };
    joined(act) + rebuild(plain.subrange(c, e), segs, c, e, e - c) + reset_seq() + if e < n {
        if e + budget >= n {
            last
        } else {
            mid
        }
    } else {
        seq![]
    }
}

/// The display lines of `s` from visible offset `c` on.
pub open spec fn wrap_from(s: Seq<char>, budget: nat, mid: Seq<char>, last: Seq<char>, c: int) -> Seq<char>
    decreases visible(s).len() - c,
{
    if budget == 0 || c < 0 || c >= visible(s).len() {
        seq![]
    } else if c + budget >= visible(s).len() {
        chunk_text(s, budget, mid, last, c)
    } else {
        chunk_text(s, budget, mid, last, c) + wrap_from(s, budget, mid, last, c + budget)
    }
}

/// `s` reflowed to `budget` visible characters a line: unchanged when the budget
/// is zero or the visible text fits.
pub open spec fn wrapped(s: Seq<char>, budget: nat, mid: Seq<char>, last: Seq<char>) -> Seq<char> {
    if budget == 0 || visible(s).len() <= budget {
        s
    } else {
        wrap_from(s, budget, mid, last, 0)
    }
}

fn reset_chars() -> (r: Vec<char>)
    ensures
        r@ == reset_seq(),
{
    let mut r: Vec<char> = Vec::new();
    r.push('\x1b');
    r.push('[');
    r.push('0');
    r.push('m');
    proof {
        assert(r@ =~= reset_seq());
    }
    r
}

/// `text` with each tab replaced by four spaces.
pub fn expand_tab_chars(text: &Vec<char>) -> (r: Vec<char>)
    ensures
        r@ == expand_tabs(text@),
{
    let mut r: Vec<char> = Vec::new();
    let mut i: usize = 0;
    while i < text.len()
        invariant
            i <= text@.len(),
            r@ == expand_tabs(text@.subrange(0, i as int)),
        decreases text@.len() - i,
    {
        proof {
            assert(text@.subrange(0, i + 1).drop_last() =~= text@.subrange(0, i as int));
        }
        if text[i] == '\t' {
            let ghost before = r@;
            r.push(' ');
            r.push(' ');
            r.push(' ');
            r.push(' ');
            proof {
                assert(r@ =~= before + seq![' ', ' ', ' ', ' ']);
            }
        } else {
            r.push(text[i]);
        }
        i += 1;
    }
    proof {
        assert(text@.subrange(0, text@.len() as int) =~= text@);
    }
    r
}

/// Reflows the colorized text `s` to `budget` visible characters a line. Each
/// line replays the style in force where it starts and ends with a reset; `mid`
/// separates lines when more than one follows, `last` comes before the final one.
pub fn wrap_chars(s: &Vec<char>, budget: usize, mid: &Vec<char>, last: &Vec<char>) -> (r: Vec<char>)
    ensures
        r@ == wrapped(s@, budget as nat, mid@, last@),
{
    let segs = ansi_segments_of(s);
    let plain = visible_chars(s);
    let n = plain.len();
    if budget == 0 || n <= budget {
        return s.clone();
    }
    let mut out: Vec<char> = Vec::new();
    let mut c: usize = 0;
    while c < n
        invariant
            n == visible(s@).len(),
            plain@ == visible(s@),
            crate::ansi::segments_view(segs@) == segments_of(s@),
            budget > 0,
            c <= n,
            out@ + wrap_from(s@, budget as nat, mid@, last@, c as int) == wrap_from(
                s@,
                budget as nat,
                mid@,
                last@,
                0,
            ),
        decreases n - c,
    {
        let e = if budget < n - c {
            c + budget
        } else {
            n
        };
        let chunk = slice_chars(&plain, c, e);
        let act = if c > 0 {
            get_active_codes_at_pos(segs.as_slice(), c)
        } else {
            Vec::new()
        };
        proof {
            if c == 0 {
                assert(strings_view(act@) =~= seq![]);
            }
        }
        let ghost before = out@;
        let piece = rebuild_chunk(&chunk, segs.as_slice(), c, e, act.as_slice());
        append_chars(&mut out, &piece);
        let reset = reset_chars();
        append_chars(&mut out, &reset);
        if e < n {
            if budget >= n - e {
                append_chars(&mut out, last);
            } else {
                append_chars(&mut out, mid);
            }
        }
        proof {
            assert(out@ =~= before + chunk_text(s@, budget as nat, mid@, last@, c as int));
            if e == n {
                assert(wrap_from(s@, budget as nat, mid@, last@, e as int) =~= seq![]);
            } else {
                assert(e == c + budget);
            }
            assert(out@ + wrap_from(s@, budget as nat, mid@, last@, e as int) =~= before + wrap_from(
                s@,
                budget as nat,
                mid@,
                last@,
                c as int,
            ));
        }
        c = e;
    }
    proof {
        assert(wrap_from(s@, budget as nat, mid@, last@, c as int) =~= seq![]);
        assert(out@ =~= out@ + wrap_from(s@, budget as nat, mid@, last@, c as int));
    }
    out
}

/// Reflows `text` to `budget` visible characters a line; see `wrap_chars`.
pub fn wrap_text(text: &str, budget: usize, mid: &str, last: &str) -> (r: String)
    ensures
        r@ == wrapped(text@, budget as nat, mid@, last@),
{
    let s = chars_of(text);
    let m = chars_of(mid);
    let l = chars_of(last);
    let r = wrap_chars(&s, budget, &m, &l);
    string_of(r.as_slice())
}

/// The connector drawn at the start of a continuation line: a rule that tells
/// a middle line from the final one, or blanks when foreground and background
/// coincide.
pub open spec fn connector(fg: Color, bg: Color, final_line: bool) -> Seq<char> {
    if fg == bg {
        seq![' ', ' ', ' ', ' ']
    } else if final_line {
        seq![' ', '\u{255a}', '\u{2550}']
    } else {
        seq![' ', '\u{2560}', '\u{2550}']
    }
}

/// `sep` is made of a newline, the margin (`indent` spaces, styled when
/// foreground and background coincide), the connector (styled when colors are
/// shown) and a space.
pub open spec fn separator_parts(
    sep: Seq<char>,
    margin: Seq<char>,
    conn: Seq<char>,
    indent: nat,
    fg: Color,
    bg: Color,
    show_colors: bool,
    final_line: bool,
) -> bool {
    &&& sep == seq!['\n'] + margin + conn + seq![' ']
    &&& if fg == bg {
        styled_as(margin, spaces(indent))
    } else {
        margin == spaces(indent)
    }
    &&& if show_colors {
        styled_as(conn, connector(fg, bg, final_line))
    } else {
        conn == connector(fg, bg, final_line)
    }
}

/// Whether `sep` is a separator before a continuation line; see `separator_parts`.
pub open spec fn is_separator(sep: Seq<char>, indent: nat, fg: Color, bg: Color, show_colors: bool, final_line: bool) -> bool {
    exists|margin: Seq<char>, conn: Seq<char>|
        #[trigger] separator_parts(sep, margin, conn, indent, fg, bg, show_colors, final_line)
}

/// The width of the margin of a continuation line under a header of `header_width`.
pub open spec fn indent_of(header_width: nat) -> nat {
    if header_width >= 5 {
        (header_width - 5) as nat
    } else {
        0
    }
}

/// The visible characters a line holds on a console `width` wide after a header.
pub open spec fn budget_of(width: int, header_width: nat) -> nat {
    if width > header_width {
        (width - header_width) as nat
    } else {
        0
    }
}

fn space_chars(n: usize) -> (r: Vec<char>)
    ensures
        r@ == spaces(n as nat),
{
    let mut r: Vec<char> = Vec::new();
    let mut i: usize = 0;
    while i < n
        invariant
            i <= n,
            r@ == spaces(i as nat),
        decreases n - i,
    {
        r.push(' ');
        i += 1;
        proof {
            assert(r@ =~= spaces(i as nat));
        }
    }
    r
}

fn connector_chars(fg: Color, bg: Color, final_line: bool) -> (r: Vec<char>)
    ensures
        r@ == connector(fg, bg, final_line),
{
    let mut r: Vec<char> = Vec::new();
    if fg == bg {
        r.push(' ');
        r.push(' ');
        r.push(' ');
        r.push(' ');
    } else if final_line {
        r.push(' ');
        r.push('\u{255a}');
        r.push('\u{2550}');
    } else {
        r.push(' ');
        r.push('\u{2560}');
        r.push('\u{2550}');
    }
    proof {
        assert(r@ =~= connector(fg, bg, final_line));
    }
    r
}

/// The separator before a continuation line; see `separator_parts`.
pub fn separator(indent: usize, fg: Color, bg: Color, show_colors: bool, final_line: bool) -> (r: Vec<char>)
    ensures
        is_separator(r@, indent as nat, fg, bg, show_colors, final_line),
{
    let blank = space_chars(indent);
    let margin = if fg == bg {
        paint_on(string_of(blank.as_slice()).as_str(), fg, bg)
    } else {
        blank
    };
    let plain_conn = connector_chars(fg, bg, final_line);
    let conn = if show_colors {
        paint_on(string_of(plain_conn.as_slice()).as_str(), fg, bg)
    } else {
        plain_conn
    };
    let mut r: Vec<char> = Vec::new();
    r.push('\n');
    append_chars(&mut r, &margin);
    append_chars(&mut r, &conn);
    r.push(' ');
    proof {
        assert(r@ =~= seq!['\n'] + margin@ + conn@ + seq![' ']);
        assert(separator_parts(r@, margin@, conn@, indent as nat, fg, bg, show_colors, final_line));
    }
    r
}

/// `r` is `message` with tabs expanded and wrapped with the separators `mid` and `last`, which have the separator shape.
pub open spec fn wrap_outcome(
    r: Seq<char>,
    message: Seq<char>,
    budget: nat,
    indent: nat,
    fg: Color,
    bg: Color,
    show_colors: bool,
    mid: Seq<char>,
    last: Seq<char>,
) -> bool {
    &&& is_separator(mid, indent, fg, bg, show_colors, false)
    &&& is_separator(last, indent, fg, bg, show_colors, true)
    &&& r == wrapped(expand_tabs(message), budget, mid, last)
}

/// What reflowing `message` for a console `width` wide gives; see `get_wrapped_indent`.
pub open spec fn indent_outcome(
    r: Seq<char>,
    message: Seq<char>,
    show_colors: bool,
    width: int,
    header_width: nat,
    fg: Color,
    bg: Color,
) -> bool {
    &&& width == -1 ==> r == message
    &&& width < -1 ==> r == expand_tabs(message)
    &&& width >= 0 ==> exists|mid: Seq<char>, last: Seq<char>|
        #[trigger] wrap_outcome(
            r,
            message,
            budget_of(width, header_width),
            indent_of(header_width),
            fg,
            bg,
            show_colors,
            mid,
            last,
        )
}

/// The message reflowed for a console `width` wide (`-1`: a sink of unbounded
/// width, which gets the message unchanged) under a header `header_width` wide:
/// tabs expanded, then wrapped to what is left of the width, with continuation
/// lines indented under the header.
///
/// The visible text that chunks are cut from comes from the same escape-sequence
/// scan (`ansi_segments_of`, `visible_chars`) that places the sequences back, so
/// offsets and characters always agree; a general-purpose stripper also drops
/// other control characters and non-`ESC [` escapes, which would shift the
/// offsets of the sequences put back. Colorless sinks are stripped afterwards,
/// by the stripping crate (see `write_token`).
pub fn get_wrapped_indent(
    message: &str,
    show_colors: bool,
    width: i16,
    header_width: usize,
    level_foreground: Color,
    level_background: Color,
) -> (r: String)
    ensures
        indent_outcome(r@, message@, show_colors, width as int, header_width as nat, level_foreground, level_background),
{
    if width == -1 {
        return message.to_owned();
    }
    let text = expand_tab_chars(&chars_of(message));
    if width < 0 {
        return string_of(text.as_slice());
    }
    let w: usize = width as usize;
    let budget: usize = if w > header_width {
        w - header_width
    } else {
        0
    };
    let indent: usize = if header_width >= 5 {
        header_width - 5
    } else {
        0
    };
    let mid = separator(indent, level_foreground, level_background, show_colors, false);
    let last = separator(indent, level_foreground, level_background, show_colors, true);
    let out = wrap_chars(&text, budget, &mid, &last);
    proof {
        assert(wrap_outcome(
            out@,
            message@,
            budget_of(width as int, header_width as nat),
            indent_of(header_width as nat),
            level_foreground,
            level_background,
            show_colors,
            mid@,
            last@,
        ));
    }
    string_of(out.as_slice())
}

} // verus!
