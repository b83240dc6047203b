use vstd::prelude::*;

use crate::ansi::{joined, strings_view};
use crate::classify::{
    LogRecord,
    get_started_process, is_native_tags_line, is_noise, is_record_of, parse_log_line, record_fields,
    started_fields,
};
use crate::color::{name_of, paint, paint_on, painted_as, styled_as, Color};
use crate::config::CliArgs;
use crate::level::{level_of, rank_of, LogLevel};
use crate::render::{
    emit, ends_in_newline, extends, lemma_extends_empty, lemma_newline_last, level_background, opt_view,
    write_log_level, write_message, Sink, State, Token,
};
use crate::color::{assigned_color, memo_after, palette_after};
use crate::scan::{has_lit_at, lit_at, span, span_end, CharClass};
use crate::tags::filter_takes;
use crate::text::{append_chars, chars_of, slice_chars, string_of};
use crate::tracker::{dead_process, get_dead_process, without_pid, ProcessTracker};
use crate::trim::trimmed;
use crate::wrap::spaces;

verus! {

/// The record a line holds: (level, tag, pid, message), trimmed.
pub open spec fn record_view(line: Seq<char>) -> Option<(LogLevel, Seq<char>, Seq<char>, Seq<char>)> {
    match record_fields(line) {
        Some((c, tag, pid, msg)) => match level_of(c) {
            Some(l) => Some((l, trimmed(tag), trimmed(pid), trimmed(msg))),
            None => None,
        },
        None => None,
    }
}

/// The start of interest that a line reports: (pid, package).
pub open spec fn start_event(t: ProcessTracker, line: Seq<char>) -> Option<(Seq<char>, Seq<char>)> {
    match started_fields(line) {
        Some((pid, _, _, pkg, _)) => if t.interesting(pkg) {
            Some((pid, pkg))
        } else {
            None
        },
        None => None,
    }
}

/// The end of a tracked process of interest that a record line reports.
pub open spec fn death_event(t: ProcessTracker, line: Seq<char>) -> Option<(Seq<char>, Seq<char>)> {
    match record_view(line) {
        Some((_, tag, _, msg)) => dead_process(t, tag, msg),
        None => None,
    }
}

/// Whether a record passes the filters: its process is tracked (unless all are
/// shown), its level reaches the threshold, no ignore filter takes its tag, and
/// the tag filters, if set, take it.
pub open spec fn passes_filters(st: State, args: CliArgs, level: LogLevel, tag: Seq<char>, pid: Seq<char>) -> bool {
    &&& args.all || st.tracker.owner_spec(pid) is Some
    &&& rank_of(level) >= rank_of(st.log_level)
    &&& !filter_takes(st.ignore_filter.patterns, tag)
    &&& !(st.tag_filter.patterns is Some && !filter_takes(st.tag_filter.patterns, tag))
}

/// The record that a line shows, if it passes the filters and reports no start
/// or end of interest.
pub open spec fn shown_record(st: State, args: CliArgs, line: Seq<char>) -> Option<(LogLevel, Seq<char>, Seq<char>, Seq<char>)> {
    if is_noise(line) || start_event(st.tracker, line) is Some || death_event(st.tracker, line) is Some {
        None
    } else {
        match record_view(line) {
            Some((l, tag, pid, msg)) => if passes_filters(st, args, l, tag, pid) {
                Some((l, tag, pid, msg))
            } else {
                None
            },
            None => None,
        }
    }
}

/// Whether every output is empty.
pub open spec fn all_empty(out: Seq<String>) -> bool {
    forall|k: int| 0 <= k < out.len() ==> (#[trigger] out[k])@.len() == 0
}

/// `n` empty outputs.
fn empty_outputs(n: usize) -> (r: Vec<String>)
    ensures
        r@.len() == n,
        all_empty(r@),
{
    let mut r: Vec<String> = Vec::new();
    let mut i: usize = 0;
    while i < n
        invariant
            i <= n,
            r@.len() == i,
            all_empty(r@),
        decreases n - i,
    {
        r.push(String::new());
        i += 1;
    }
    r
}

/// The width of the colored block that lines a banner under a header
/// `header_width` wide.
pub open spec fn block_width(header_width: nat) -> nat {
    if header_width >= 1 {
        (header_width - 1) as nat
    } else {
        0
    }
}

/// The colored block that lines a banner: one less space than the header is wide.
fn banner_spaces(header_width: usize, c: Color) -> (r: String)
    ensures
        styled_as(r@, spaces(block_width(header_width as nat))),
{
    let n: usize = if header_width >= 1 {
        header_width - 1
    } else {
        0
    };
    let mut s: Vec<char> = Vec::new();
    let mut i: usize = 0;
    while i < n
        invariant
            i <= n,
            s@ == spaces(i as nat),
        decreases n - i,
    {
        s.push(' ');
        i += 1;
        proof {
            assert(s@ =~= spaces(i as nat));
        }
    }
    let p = paint_on(string_of(s.as_slice()).as_str(), c, c);
    string_of(p.as_slice())
}

/// Whether `t` is a banner's lining block.
pub open spec fn block_token(t: Token, header_width: nat) -> bool {
    !t.1 && styled_as(t.0, spaces(block_width(header_width)))
}

/// Whether `t` is a bare newline.
pub open spec fn newline_token(t: Token) -> bool {
    t.0 == "\n"@ && !t.1
}

/// `t` is ` Process PKG created for TARGET` and a newline, the names styled as `a`, `b`.
pub open spec fn created_parts(t: Seq<char>, pkg: Seq<char>, target: Seq<char>, a: Seq<char>, b: Seq<char>) -> bool {
    styled_as(a, pkg) && styled_as(b, target) && t == " Process "@ + a + " created for "@ + b + "\n"@
}

/// `t` is ` PID: P   UID: U   GIDs: G`, the values styled as `a`, `b`, `c`.
pub open spec fn ids_parts(t: Seq<char>, pid: Seq<char>, uid: Seq<char>, gids: Seq<char>, a: Seq<char>, b: Seq<char>, c: Seq<char>) -> bool {
    styled_as(a, pid) && styled_as(b, uid) && styled_as(c, gids) && t == " PID: "@ + a + "   UID: "@ + b + "   GIDs: "@
        + c
}

/// `t` is ` Process NAME (PID: P) ended` and a newline, the values styled as `a`, `b`.
pub open spec fn ended_parts(t: Seq<char>, name: Seq<char>, pid: Seq<char>, a: Seq<char>, b: Seq<char>) -> bool {
    styled_as(a, name) && styled_as(b, pid) && t == " Process "@ + a + " (PID: "@ + b + ") ended\n"@
}

/// The tokens of a start banner for (pid, uid, gids, package, target): blocks
/// and newlines around the wrapped creation line and the wrapped ids line.
pub open spec fn start_banner(toks: Seq<Token>, f: (Seq<char>, Seq<char>, Seq<char>, Seq<char>, Seq<char>), header_width: nat) -> bool {
    &&& toks.len() == 9
    &&& block_token(toks[0], header_width) && newline_token(toks[1]) && block_token(toks[2], header_width)
    &&& (exists|a: Seq<char>, b: Seq<char>| #[trigger] created_parts(toks[3].0, f.3, f.4, a, b))
    &&& toks[3].1 && toks[3].2 == header_width
    &&& block_token(toks[4], header_width)
    &&& (exists|a: Seq<char>, b: Seq<char>, c: Seq<char>| #[trigger] ids_parts(toks[5].0, f.0, f.1, f.2, a, b, c))
    &&& toks[5].1 && toks[5].2 == header_width
    &&& newline_token(toks[6]) && block_token(toks[7], header_width) && newline_token(toks[8])
}

/// The tokens of a death banner for `pid` of `name`: blocks and newlines around
/// the wrapped end line.
pub open spec fn death_banner(toks: Seq<Token>, pid: Seq<char>, name: Seq<char>, header_width: nat) -> bool {
    &&& toks.len() == 6
    &&& block_token(toks[0], header_width) && newline_token(toks[1]) && block_token(toks[2], header_width)
    &&& (exists|a: Seq<char>, b: Seq<char>| #[trigger] ended_parts(toks[3].0, name, pid, a, b))
    &&& toks[3].1 && toks[3].2 == header_width
    &&& block_token(toks[4], header_width) && newline_token(toks[5])
}

impl State {
    /// On a start of interest in `line`: attributes the pid to the package, makes it
    /// the app's pid, forgets the last tag and writes a green banner. Returns
    /// whether it did.
    pub fn write_started_process(&mut self, line: &str, sinks: &[Sink], out: &mut Vec<String>, header_width: usize) -> (r: bool)
        requires
            old(out)@.len() == sinks@.len(),
        ensures
            final(out)@.len() == sinks@.len(),
            r == start_event(old(self).tracker, line@) is Some,
            r ==> ({
                let (pid, pkg) = start_event(old(self).tracker, line@)->0;
                &&& final(self).tracker.owners_view() == without_pid(old(self).tracker.owners_view(), pid).push((pid, pkg))
                &&& opt_view(final(self).tracker.app_pid) == Some(pid)
                &&& final(self).tracker.named_processes == old(self).tracker.named_processes
                &&& final(self).tracker.catchall_package == old(self).tracker.catchall_package
                &&& final(self).last_tag is None
            }),
            r ==> exists|toks: Seq<Token>|
                #[trigger] start_banner(toks, started_fields(line@)->0, header_width as nat) && extends(
                    old(out)@,
                    final(out)@,
                    sinks@,
                    toks,
                    Color::Green,
                    Color::Green,
                ),
            r ==> ends_in_newline(final(out)@, sinks@),
            !r ==> *final(self) == *old(self) && final(out)@ == old(out)@,
            final(self).log_level == old(self).log_level,
            final(self).colors == old(self).colors,
            final(self).ignore_filter == old(self).ignore_filter,
            final(self).tag_filter == old(self).tag_filter,
    {
        let started = match get_started_process(line) {
            Some(x) => x,
            None => return false,
        };
        let (pid, uid, gids, package, target) = started;
        if !self.tracker.is_interesting(&package) {
            return false;
        }
        self.tracker.track(pid.as_str(), package.as_str());
        self.tracker.app_pid = Some(pid.clone());
        let spaces = banner_spaces(header_width, Color::Green);
        let pa = paint(package.as_str(), Color::Yellow);
        let pb = paint(target.as_str(), Color::Yellow);
        let mut created = chars_of(" Process ");
        append_chars(&mut created, &pa);
        append_chars(&mut created, &chars_of(" created for "));
        append_chars(&mut created, &pb);
        append_chars(&mut created, &chars_of("\n"));
        let created = string_of(created.as_slice());
        proof {
            assert(created_parts(created@, package@, target@, pa@, pb@));
        }
        let ia = paint(pid.as_str(), Color::Yellow);
        let ib = paint(uid.as_str(), Color::Yellow);
        let ic = paint(gids.as_str(), Color::Yellow);
        let mut ids = chars_of(" PID: ");
        append_chars(&mut ids, &ia);
        append_chars(&mut ids, &chars_of("   UID: "));
        append_chars(&mut ids, &ib);
        append_chars(&mut ids, &chars_of("   GIDs: "));
        append_chars(&mut ids, &ic);
        let ids = string_of(ids.as_slice());
        proof {
            assert(ids_parts(ids@, pid@, uid@, gids@, ia@, ib@, ic@));
        }
        let g = Color::Green;
        let ghost base = out@;
        let ghost hw = header_width as nat;
        proof {
            lemma_extends_empty(base, sinks@, g, g);
        }
        let ghost t0: Seq<Token> = seq![];
        emit(spaces.as_str(), sinks, out, false, header_width, g, g, Ghost(base), Ghost(t0));
        let ghost t1 = t0.push((spaces@, false, hw));
        emit("\n", sinks, out, false, header_width, g, g, Ghost(base), Ghost(t1));
        let ghost t2 = t1.push(("\n"@, false, hw));
        emit(spaces.as_str(), sinks, out, false, header_width, g, g, Ghost(base), Ghost(t2));
        let ghost t3 = t2.push((spaces@, false, hw));
        emit(created.as_str(), sinks, out, true, header_width, g, g, Ghost(base), Ghost(t3));
        let ghost t4 = t3.push((created@, true, hw));
        emit(spaces.as_str(), sinks, out, false, header_width, g, g, Ghost(base), Ghost(t4));
        let ghost t5 = t4.push((spaces@, false, hw));
        emit(ids.as_str(), sinks, out, true, header_width, g, g, Ghost(base), Ghost(t5));
        let ghost t6 = t5.push((ids@, true, hw));
        emit("\n", sinks, out, false, header_width, g, g, Ghost(base), Ghost(t6));
        let ghost t7 = t6.push(("\n"@, false, hw));
        emit(spaces.as_str(), sinks, out, false, header_width, g, g, Ghost(base), Ghost(t7));
        let ghost t8 = t7.push((spaces@, false, hw));
        let ghost mid = out@;
        emit("\n", sinks, out, false, header_width, g, g, Ghost(base), Ghost(t8));
        let ghost t9 = t8.push(("\n"@, false, hw));
        proof {
            lemma_newline_last(mid, out@, sinks@, hw, g, g);
            assert(started_fields(line@)->0 == (pid@, uid@, gids@, package@, target@));
            let sp: Token = (spaces@, false, hw);
            let nl: Token = ("\n"@, false, hw);
            assert(t9 =~= seq![sp, nl, sp, (created@, true, hw), sp, (ids@, true, hw), nl, sp, nl]);
            assert(block_token(sp, hw));
            assert(newline_token(nl));
            assert(created_parts(t9[3].0, package@, target@, pa@, pb@));
            assert(ids_parts(t9[5].0, pid@, uid@, gids@, ia@, ib@, ic@));
            let f = started_fields(line@)->0;
            assert(t9.len() == 9);
            assert(block_token(t9[0], hw) && newline_token(t9[1]) && block_token(t9[2], hw));
            assert(created_parts(t9[3].0, f.3, f.4, pa@, pb@));
            assert(t9[3].1 && t9[3].2 == hw);
            assert(block_token(t9[4], hw));
            assert(ids_parts(t9[5].0, f.0, f.1, f.2, ia@, ib@, ic@));
            assert(t9[5].1 && t9[5].2 == hw);
            assert(newline_token(t9[6]) && block_token(t9[7], hw) && newline_token(t9[8]));
            assert(start_banner(t9, f, hw));
        }
        self.last_tag = None;
        true
    }

    /// On the end of a tracked process of interest reported by a record with
    /// `tag` and `message`: forgets the pid, forgets the last tag and writes a red
    /// banner. Returns whether it did.
    pub fn write_dead_process(&mut self, tag: &str, message: &str, sinks: &[Sink], out: &mut Vec<String>, header_width: usize) -> (r: bool)
        requires
            old(out)@.len() == sinks@.len(),
        ensures
            final(out)@.len() == sinks@.len(),
            r == dead_process(old(self).tracker, tag@, message@) is Some,
            r ==> ({
                let (pid, _) = dead_process(old(self).tracker, tag@, message@)->0;
                &&& final(self).tracker.owners_view() == without_pid(old(self).tracker.owners_view(), pid)
                &&& final(self).tracker.app_pid == old(self).tracker.app_pid
                &&& final(self).tracker.named_processes == old(self).tracker.named_processes
                &&& final(self).tracker.catchall_package == old(self).tracker.catchall_package
                &&& final(self).last_tag is None
            }),
            r ==> ({
                let (pid, name) = dead_process(old(self).tracker, tag@, message@)->0;
                exists|toks: Seq<Token>|
                    #[trigger] death_banner(toks, pid, name, header_width as nat) && extends(
                        old(out)@,
                        final(out)@,
                        sinks@,
                        toks,
                        Color::Red,
                        Color::Red,
                    )
            }),
            r ==> ends_in_newline(final(out)@, sinks@),
            !r ==> *final(self) == *old(self) && final(out)@ == old(out)@,
            final(self).log_level == old(self).log_level,
            final(self).colors == old(self).colors,
            final(self).ignore_filter == old(self).ignore_filter,
            final(self).tag_filter == old(self).tag_filter,
    {
        let (pid, name) = match get_dead_process(tag, message, &self.tracker) {
            Some(x) => x,
            None => return false,
        };
        self.tracker.forget(pid.as_str());
        let spaces = banner_spaces(header_width, Color::Red);
        let ea = paint(name.as_str(), Color::Yellow);
        let eb = paint(pid.as_str(), Color::Yellow);
        let mut ended = chars_of(" Process ");
        append_chars(&mut ended, &ea);
        append_chars(&mut ended, &chars_of(" (PID: "));
        append_chars(&mut ended, &eb);
        append_chars(&mut ended, &chars_of(") ended\n"));
        let ended = string_of(ended.as_slice());
        proof {
            assert(ended_parts(ended@, name@, pid@, ea@, eb@));
        }
        let red = Color::Red;
        let ghost base = out@;
        let ghost hw = header_width as nat;
        proof {
            lemma_extends_empty(base, sinks@, red, red);
        }
        let ghost t0: Seq<Token> = seq![];
        emit(spaces.as_str(), sinks, out, false, header_width, red, red, Ghost(base), Ghost(t0));
        let ghost t1 = t0.push((spaces@, false, hw));
        emit("\n", sinks, out, false, header_width, red, red, Ghost(base), Ghost(t1));
        let ghost t2 = t1.push(("\n"@, false, hw));
        emit(spaces.as_str(), sinks, out, false, header_width, red, red, Ghost(base), Ghost(t2));
        let ghost t3 = t2.push((spaces@, false, hw));
        emit(ended.as_str(), sinks, out, true, header_width, red, red, Ghost(base), Ghost(t3));
        let ghost t4 = t3.push((ended@, true, hw));
        emit(spaces.as_str(), sinks, out, false, header_width, red, red, Ghost(base), Ghost(t4));
        let ghost t5 = t4.push((spaces@, false, hw));
        let ghost mid = out@;
        emit("\n", sinks, out, false, header_width, red, red, Ghost(base), Ghost(t5));
        let ghost t6 = t5.push(("\n"@, false, hw));
        proof {
            lemma_newline_last(mid, out@, sinks@, hw, red, red);
            let sp: Token = (spaces@, false, hw);
            let nl: Token = ("\n"@, false, hw);
            assert(t6 =~= seq![sp, nl, sp, (ended@, true, hw), sp, nl]);
            assert(block_token(sp, hw));
            assert(newline_token(nl));
            assert(ended_parts(t6[3].0, name@, pid@, ea@, eb@));
            assert(death_banner(t6, pid@, name@, hw));
        }
        self.last_tag = None;
        true
    }
}

/// Where the strict-mode highlight applies to `m`: the ends of the lead-in,
/// of the duration marker and of the duration (`N ms`).
pub open spec fn strict_mode_split(m: Seq<char>) -> Option<(int, int, int)> {
    let a = "StrictMode policy violation"@.len() as int;
    let b = a + "; ~duration="@.len();
    let d = span(m, b, CharClass::Digit);
    if lit_at(m, 0, "StrictMode policy violation"@) && lit_at(m, a, "; ~duration="@) && d > b && lit_at(
        m,
        d,
        " ms"@,
    ) {
        Some((a, b, d + " ms"@.len()))
    } else {
        None
    }
}

/// `r` is `m` with `m[a..b]` and `m[b..c]` replaced by their styled renderings
/// `styled_a` and `styled_b`.
pub open spec fn highlighted(r: Seq<char>, m: Seq<char>, a: int, b: int, c: int, styled_a: Seq<char>, styled_b: Seq<char>) -> bool {
    &&& painted_as(styled_a, m.subrange(a, b), name_of(Color::Red), None)
    &&& painted_as(styled_b, m.subrange(b, c), name_of(Color::Yellow), None)
    &&& r == m.subrange(0, a) + styled_a + styled_b + m.subrange(c, m.len() as int)
}

/// `r` is `m` with the strict-mode duration marker painted red and the duration
/// yellow, when the highlight applies; else `m` itself.
pub open spec fn strict_mode_outcome(r: Seq<char>, m: Seq<char>) -> bool {
    match strict_mode_split(m) {
        Some((a, b, c)) => exists|styled_a: Seq<char>, styled_b: Seq<char>| #[trigger] highlighted(r, m, a, b, c, styled_a, styled_b),
        None => r == m,
    }
}

fn strict_bounds(m: &Vec<char>) -> (r: Option<(usize, usize, usize)>)
    ensures
        r matches Some(q) ==> strict_mode_split(m@) == Some((q.0 as int, q.1 as int, q.2 as int)) && q.0 <= q.1 <= q.2
            <= m@.len(),
        r is None ==> strict_mode_split(m@) is None,
{
    proof {
        reveal_strlit("StrictMode policy violation");
        reveal_strlit("; ~duration=");
        reveal_strlit(" ms");
    }
    let n = m.len();
    if !has_lit_at(m, 0, "StrictMode policy violation") {
        return None;
    }
    let a: usize = 27;
    if !has_lit_at(m, a, "; ~duration=") {
        return None;
    }
    let b: usize = a + 12;
    let d = span_end(m, b, CharClass::Digit);
    if d <= b || !has_lit_at(m, d, " ms") {
        return None;
    }
    Some((a, b, d + 3))
}

/// `m` with `m[a..b]` and `m[c..e]` replaced by `x` and `y`.
fn splice(m: &Vec<char>, a: usize, b: usize, x: &Vec<char>, c: usize, e: usize, y: &Vec<char>) -> (r: Vec<char>)
    requires
        a <= b <= c <= e <= m@.len(),
    ensures
        r@ == m@.subrange(0, a as int) + x@ + m@.subrange(b as int, c as int) + y@ + m@.subrange(e as int, m@.len() as int),
{
    let mut r = slice_chars(m, 0, a);
    append_chars(&mut r, x);
    append_chars(&mut r, &slice_chars(m, b, c));
    append_chars(&mut r, y);
    append_chars(&mut r, &slice_chars(m, e, m.len()));
    r
}

/// `message` with the strict-mode duration marker and duration replaced by
/// `marker` and `duration` where the highlight applies; else `message`.
pub fn splice_strict_mode(message: &str, marker: &str, duration: &str) -> (r: String)
    ensures
        strict_mode_split(message@) matches Some((a, b, c)) ==> r@ == message@.subrange(0, a) + marker@ + duration@
            + message@.subrange(c, message@.len() as int),
        strict_mode_split(message@) is None ==> r@ == message@,
{
    let m = chars_of(message);
    match strict_bounds(&m) {
        Some((a, b, c)) => {
            let r = splice(&m, a, b, &chars_of(marker), b, c, &chars_of(duration));
            proof {
                assert(m@.subrange(b as int, b as int) =~= Seq::<char>::empty());
                assert(r@ =~= m@.subrange(0, a as int) + marker@ + duration@ + m@.subrange(c as int, m@.len() as int));
            }
            string_of(r.as_slice())
        },
        None => message.to_owned(),
    }
}

fn strict_mode_rule(m: &Vec<char>) -> (r: Vec<char>)
    ensures
        strict_mode_outcome(r@, m@),
{
    let (a, b, c) = match strict_bounds(m) {
        Some(q) => q,
        None => return m.clone(),
    };
    let styled_a = paint(string_of(slice_chars(m, a, b).as_slice()).as_str(), Color::Red);
    let styled_b = paint(string_of(slice_chars(m, b, c).as_slice()).as_str(), Color::Yellow);
    let r = splice(m, a, b, &styled_a, b, c, &styled_b);
    proof {
        assert(m@.subrange(b as int, b as int) =~= Seq::<char>::empty());
        assert(r@ =~= m@.subrange(0, a as int) + styled_a@ + styled_b@ + m@.subrange(c as int, m@.len() as int));
        assert(highlighted(r@, m@, a as int, b as int, c as int, styled_a@, styled_b@));
        assert(exists|alt_a: Seq<char>, alt_b: Seq<char>| #[trigger] highlighted(r@, m@, a as int, b as int, c as int, alt_a, alt_b));
        let sp = strict_mode_split(m@)->0;
        assert(sp.0 == a && sp.1 == b && sp.2 == c);
    }
    r
}

/// Where a run of digits then any one character, followed by `x`, ends when it
/// starts at `j` (the digits run as far as they can; failing that, their last
/// one stands for the character): the index where `x` starts, or `-1`.
pub open spec fn digits_then_any(s: Seq<char>, j: int, x: Seq<char>) -> int {
    let d = span(s, j, CharClass::Digit);
    if d > j && d < s.len() && s[d] != '\n' && lit_at(s, d + 1, x) {
        d + 1
    } else if d > j + 1 && lit_at(s, d, x) {
        d
    } else {
        -1
    }
}

/// The end of the collector kind at the start of `m` (`GC_` and one of the
/// kinds, then a space), or `-1`.
pub open spec fn gc_head_end(m: Seq<char>) -> int {
    let k = "GC_"@.len() as int;
    if !lit_at(m, 0, "GC_"@) {
        -1
    } else if lit_at(m, k, "CONCURRENT "@) {
        k + "CONCURRENT "@.len()
    } else if lit_at(m, k, "FOR_ALLOC "@) {
        k + "FOR_ALLOC "@.len()
    } else if lit_at(m, k, "FOR_MALLOC "@) {
        k + "FOR_MALLOC "@.len()
    } else if lit_at(m, k, "EXTERNAL_ALLOC "@) {
        k + "EXTERNAL_ALLOC "@.len()
    } else if lit_at(m, k, "EXPLICIT "@) {
        k + "EXPLICIT "@.len()
    } else {
        -1
    }
}

/// Where the collector highlight applies to `m`: the ends of the kind, of the
/// freed amount, of the heap figures and of the pause times.
pub open spec fn gc_split(m: Seq<char>) -> Option<(int, int, int, int)> {
    let a = gc_head_end(m);
    let b0 = a + "freed "@.len();
    let b1 = if 0 <= b0 < m.len() && m[b0] == '<' {
        b0 + 1
    } else {
        b0
    };
    let b = digits_then_any(m, b1, ", "@);
    let c0 = b + ", "@.len();
    let c1 = span(m, c0, CharClass::Digit);
    let c2 = c1 + "% free "@.len();
    let x = digits_then_any(m, c2, "/"@);
    let y = digits_then_any(m, x + 1, ", "@);
    let c = y + ", "@.len();
    let f0 = c + "paused "@.len();
    let f1 = span(m, f0, CharClass::Digit);
    let f2 = f1 + "ms"@.len();
    let g = span(m, f2 + 1, CharClass::Digit);
    let e = if lit_at(m, f2, "+"@) && g > f2 + 1 && lit_at(m, g, "ms"@) {
        g + "ms"@.len()
    } else {
        f2
    };
    if a > 0 && lit_at(m, a, "freed "@) && b >= 0 && c1 > c0 && lit_at(m, c1, "% free "@) && x >= 0 && y >= 0
        && lit_at(m, c, "paused "@) && f1 > f0 && lit_at(m, f1, "ms"@) {
        Some((a, b, c, e))
    } else {
        None
    }
}

/// `r` is `m` with `m[a..b]` and `m[c..e]` replaced by their styled renderings.
pub open spec fn gc_highlighted(r: Seq<char>, m: Seq<char>, a: int, b: int, c: int, e: int, styled_a: Seq<char>, styled_c: Seq<char>) -> bool {
    &&& painted_as(styled_a, m.subrange(a, b), name_of(Color::Green), None)
    &&& painted_as(styled_c, m.subrange(c, e), name_of(Color::Yellow), None)
    &&& r == m.subrange(0, a) + styled_a + m.subrange(b, c) + styled_c + m.subrange(e, m.len() as int)
}

/// `r` is `m` with the freed amount painted green and the pause times yellow,
/// when the collector highlight applies; else `m` itself.
pub open spec fn gc_outcome(r: Seq<char>, m: Seq<char>) -> bool {
    match gc_split(m) {
        Some((a, b, c, e)) => exists|styled_a: Seq<char>, styled_c: Seq<char>| #[trigger] gc_highlighted(r, m, a, b, c, e, styled_a, styled_c),
        None => r == m,
    }
}

fn digits_any(s: &Vec<char>, j: usize, x: &str) -> (r: Option<usize>)
    requires
        j <= s@.len(),
    ensures
        r matches Some(v) ==> digits_then_any(s@, j as int, x@) == v && v <= s@.len(),
        r is None ==> digits_then_any(s@, j as int, x@) == -1,
{
    let n = s.len();
    let d = span_end(s, j, CharClass::Digit);
    if d > j && d < n && s[d] != '\n' && has_lit_at(s, d + 1, x) {
        Some(d + 1)
    } else if d > j && d - j > 1 && has_lit_at(s, d, x) {
        Some(d)
    } else {
        None
    }
}

fn gc_head(m: &Vec<char>) -> (r: Option<usize>)
    ensures
        r matches Some(v) ==> gc_head_end(m@) == v && v > 0 && v <= m@.len(),
        r is None ==> gc_head_end(m@) == -1,
{
    proof {
        reveal_strlit("GC_");
        reveal_strlit("CONCURRENT ");
        reveal_strlit("FOR_ALLOC ");
        reveal_strlit("FOR_MALLOC ");
        reveal_strlit("EXTERNAL_ALLOC ");
        reveal_strlit("EXPLICIT ");
    }
    let n = m.len();
    if !has_lit_at(m, 0, "GC_") {
        None
    } else if has_lit_at(m, 3, "CONCURRENT ") {
        Some(14)
    } else if has_lit_at(m, 3, "FOR_ALLOC ") {
        Some(13)
    } else if has_lit_at(m, 3, "FOR_MALLOC ") {
        Some(14)
    } else if has_lit_at(m, 3, "EXTERNAL_ALLOC ") {
        Some(18)
    } else if has_lit_at(m, 3, "EXPLICIT ") {
        Some(12)
    } else {
        None
    }
}

fn gc_bounds(m: &Vec<char>) -> (r: Option<(usize, usize, usize, usize)>)
    ensures
        r matches Some(q) ==> gc_split(m@) == Some((q.0 as int, q.1 as int, q.2 as int, q.3 as int)) && q.0 <= q.1
            <= q.2 <= q.3 <= m@.len(),
        r is None ==> gc_split(m@) is None,
{
    proof {
        reveal_strlit("freed ");
        reveal_strlit(", ");
        reveal_strlit("% free ");
        reveal_strlit("/");
        reveal_strlit("paused ");
        reveal_strlit("ms");
        reveal_strlit("+");
    }
    let n = m.len();
    let a = match gc_head(m) {
        Some(v) => v,
        None => return None,
    };
    if !has_lit_at(m, a, "freed ") {
        return None;
    }
    let b0 = a + 6;
    let b1 = if b0 < n && m[b0] == '<' {
        b0 + 1
    } else {
        b0
    };
    let b = match digits_any(m, b1, ", ") {
        Some(v) => v,
        None => return None,
    };
    let c0 = b + 2;
    let c1 = span_end(m, c0, CharClass::Digit);
    if c1 <= c0 || !has_lit_at(m, c1, "% free ") {
        return None;
    }
    let c2 = c1 + 7;
    let x = match digits_any(m, c2, "/") {
        Some(v) => v,
        None => return None,
    };
    let y = match digits_any(m, x + 1, ", ") {
        Some(v) => v,
        None => return None,
    };
    let c = y + 2;
    if !has_lit_at(m, c, "paused ") {
        return None;
    }
    let f0 = c + 7;
    let f1 = span_end(m, f0, CharClass::Digit);
    if f1 <= f0 || !has_lit_at(m, f1, "ms") {
        return None;
    }
    let f2 = f1 + 2;
    let mut e = f2;
    if has_lit_at(m, f2, "+") {
        let g = span_end(m, f2 + 1, CharClass::Digit);
        if g > f2 + 1 && has_lit_at(m, g, "ms") {
            e = g + 2;
        }
    }
    Some((a, b, c, e))
}

/// `message` with the collector's freed amount and pause times replaced by
/// `freed` and `paused` where the highlight applies; else `message`.
pub fn splice_gc(message: &str, freed: &str, paused: &str) -> (r: String)
    ensures
        gc_split(message@) matches Some((a, b, c, e)) ==> r@ == message@.subrange(0, a) + freed@ + message@.subrange(b, c)
            + paused@ + message@.subrange(e, message@.len() as int),
        gc_split(message@) is None ==> r@ == message@,
{
    let m = chars_of(message);
    match gc_bounds(&m) {
        Some((a, b, c, e)) => {
            let r = splice(&m, a, b, &chars_of(freed), c, e, &chars_of(paused));
            string_of(r.as_slice())
        },
        None => message.to_owned(),
    }
}

fn gc_rule(m: &Vec<char>) -> (r: Vec<char>)
    ensures
        gc_outcome(r@, m@),
{
    let (a, b, c, e) = match gc_bounds(m) {
        Some(q) => q,
        None => return m.clone(),
    };
    let styled_a = paint(string_of(slice_chars(m, a, b).as_slice()).as_str(), Color::Green);
    let styled_c = paint(string_of(slice_chars(m, c, e).as_slice()).as_str(), Color::Yellow);
    let r = splice(m, a, b, &styled_a, c, e, &styled_c);
    proof {
        assert(gc_highlighted(r@, m@, a as int, b as int, c as int, e as int, styled_a@, styled_c@));
        assert(exists|alt_a: Seq<char>, alt_c: Seq<char>|
            #[trigger] gc_highlighted(r@, m@, a as int, b as int, c as int, e as int, alt_a, alt_c));
        let sp = gc_split(m@)->0;
        assert(sp.0 == a && sp.1 == b && sp.2 == c && sp.3 == e);
    }
    r
}

/// What the in-message highlights make of `m`: the strict-mode rule, then the
/// collector rule when `gc` is set.
pub open spec fn rules_outcome(r: Seq<char>, m: Seq<char>, gc: bool, mid: Seq<char>) -> bool {
    &&& strict_mode_outcome(mid, m)
    &&& if gc {
        gc_outcome(r, mid)
    } else {
        r == mid
    }
}

/// The message with the in-message highlights applied: the strict-mode rule
/// paints the duration marker and the duration, and when `gc_color` is set the
/// collector rule paints the freed amount and the pause times; the text itself
/// is not changed.
pub fn apply_message_rules(args: &CliArgs, message: &str) -> (r: String)
    ensures
        exists|mid: Seq<char>| #[trigger] rules_outcome(r@, message@, args.gc_color, mid),
{
    let m = chars_of(message);
    let mid = strict_mode_rule(&m);
    let r = if args.gc_color {
        gc_rule(&mid)
    } else {
        mid.clone()
    };
    proof {
        assert(rules_outcome(r@, message@, args.gc_color, mid@));
    }
    string_of(r.as_slice())
}

proof fn lemma_record_view(line: Seq<char>, r: Option<crate::classify::LogRecord>)
    requires
        r is Some <==> crate::classify::is_record_line(line),
        r is Some ==> is_record_of(line, r->0),
    ensures
        r matches Some(x) ==> record_view(line) == Some((x.level, x.tag@, x.owner@, x.message@)),
        r is None ==> record_view(line) is None,
{
}

/// Whether each output is what its sink receives for the tokens `toks`.
pub open spec fn rendered_all(out: Seq<String>, sinks: Seq<Sink>, toks: Seq<Token>, fg: Color, bg: Color) -> bool {
    &&& out.len() == sinks.len()
    &&& forall|k: int| 0 <= k < sinks.len() ==> crate::render::rendered(sinks[k], toks, fg, bg, (#[trigger] out[k])@)
}

proof fn lemma_rendered_all(base: Seq<String>, out: Seq<String>, sinks: Seq<Sink>, toks: Seq<Token>, fg: Color, bg: Color)
    requires
        all_empty(base),
        extends(base, out, sinks, toks, fg, bg),
    ensures
        rendered_all(out, sinks, toks, fg, bg),
{
    assert forall|k: int| 0 <= k < sinks.len() implies crate::render::rendered(sinks[k], toks, fg, bg, (#[trigger] out[k])@) by {
        assert(base[k]@.len() == 0);
        assert(out[k]@.subrange(0, out[k]@.len() as int) =~= out[k]@);
    }
}

/// The header width in front of a banner: the pid and package columns when on,
/// the tag column and the badge.
pub open spec fn banner_width(args: CliArgs) -> nat {
    (if args.show_pid {
        args.pid_width as nat
    } else {
        0nat
    }) + (if args.show_package {
        args.package_width as nat
    } else {
        0nat
    }) + 2 + args.tag_width as nat + 5
}

/// Whether the pid column is written for `pid`.
pub open spec fn pid_on(args: CliArgs, pid: Seq<char>) -> bool {
    args.show_pid && pid.len() > 0
}

/// Whether the package column is written for `pid`.
pub open spec fn package_on(args: CliArgs, pid: Seq<char>) -> bool {
    args.show_package && pid.len() > 0
}

/// Whether the tag column is filled with `tag` after the tag `last`.
pub open spec fn tag_filled(args: CliArgs, last: Option<Seq<char>>, tag: Seq<char>) -> bool {
    args.tag_width > 0 && crate::render::tag_shown(last, tag, args.always_show_tags)
}

/// The header width a record's message is wrapped under: each shown column's
/// width and one, and the badge.
pub open spec fn record_header_width(args: CliArgs, pid: Seq<char>) -> nat {
    crate::render::column_width(pid_on(args, pid), args.pid_width) + crate::render::column_width(package_on(args, pid), args.package_width)
        + crate::render::column_width(args.tag_width > 0, args.tag_width) + 5
}

/// Whether `t` is the message `msg` with its highlights applied.
pub open spec fn message_token(t: Token, msg: Seq<char>, gc: bool) -> bool {
    exists|mid: Seq<char>| #[trigger] rules_outcome(t.0, msg, gc, mid)
}

/// The tokens of a shown record, in order: the pid, package and tag columns with
/// their separators (those shown), the badge and its separator, the highlighted
/// message wrapped under the header, and the newline.
pub open spec fn record_tokens(
    toks: Seq<Token>,
    st: State,
    args: CliArgs,
    level: LogLevel,
    tag: Seq<char>,
    pid: Seq<char>,
    msg: Seq<char>,
) -> bool {
    let a: int = if pid_on(args, pid) { 2 } else { 0 };
    let b: int = a + if package_on(args, pid) { 2int } else { 0int };
    let c: int = b + if args.tag_width > 0 { 2int } else { 0int };
    let name = crate::render::package_name_of(st.tracker, pid);
    let s0 = (st.colors.memo_view(), st.colors.palette@);
    let s1 = color_step(s0.0, s0.1, pid, pid_on(args, pid));
    let s2 = color_step(s1.0, s1.1, name, package_on(args, pid));
    &&& toks.len() == c + 4
    &&& crate::render::column_tokens(
        toks.subrange(0, a),
        pid_on(args, pid),
        crate::render::field_text(pid, args.pid_width as nat, false),
        args.no_color,
        assigned_color(s0.0, s0.1, pid),
    )
    &&& crate::render::column_tokens(
        toks.subrange(a, b),
        package_on(args, pid),
        crate::render::field_text(name, args.package_width as nat, false),
        args.no_color,
        assigned_color(s1.0, s1.1, name),
    )
    &&& crate::render::tag_tokens(toks.subrange(b, c), args, opt_view(st.last_tag), tag, assigned_color(s2.0, s2.1, tag))
    &&& crate::render::badge_tokens(toks.subrange(c, c + 2), level, args.no_color)
    &&& message_token(toks[c + 2], msg, args.gc_color)
    &&& toks[c + 2].1 && toks[c + 2].2 == record_header_width(args, pid)
    &&& newline_token(toks[c + 3])
}

/// The color table after a lookup of `t` when `on`, else unchanged.
pub open spec fn color_step(m: Seq<(Seq<char>, Color)>, p: Seq<Color>, t: Seq<char>, on: bool) -> (Seq<(Seq<char>, Color)>, Seq<Color>) {
    if on {
        (memo_after(m, p, t), palette_after(m, p, t))
    } else {
        (m, p)
    }
}

/// The color table after a shown record: lookups of the pid, the package name
/// and the tag, for the columns written with a color.
pub open spec fn record_colors(st: State, args: CliArgs, tag: Seq<char>, pid: Seq<char>) -> (Seq<(Seq<char>, Color)>, Seq<Color>) {
    let s1 = color_step(st.colors.memo_view(), st.colors.palette@, pid, pid_on(args, pid));
    let s2 = color_step(s1.0, s1.1, crate::render::package_name_of(st.tracker, pid), package_on(args, pid));
    color_step(s2.0, s2.1, tag, tag_filled(args, opt_view(st.last_tag), tag))
}

impl State {
    /// Writes the record `rec` to the (empty) outputs: its header columns, badge,
    /// highlighted and wrapped message, and newline.
    pub fn write_record(&mut self, rec: &LogRecord, args: &CliArgs, sinks: &[Sink], out: &mut Vec<String>)
        requires
            old(out)@.len() == sinks@.len(),
            all_empty(old(out)@),
        ensures
            final(self).tracker == old(self).tracker,
            final(self).log_level == old(self).log_level,
            final(self).ignore_filter == old(self).ignore_filter,
            final(self).tag_filter == old(self).tag_filter,
            opt_view(final(self).last_tag) == crate::render::last_tag_after(opt_view(old(self).last_tag), rec.tag@, args.tag_width as nat),
            (final(self).colors.memo_view(), final(self).colors.palette@) == record_colors(*old(self), *args, rec.tag@, rec.owner@),
            exists|toks: Seq<Token>|
                #[trigger] record_tokens(toks, *old(self), *args, rec.level, rec.tag@, rec.owner@, rec.message@) && rendered_all(
                    final(out)@,
                    sinks@,
                    toks,
                    Color::Black,
                    crate::render::level_background_of(rec.level),
                ),
            ends_in_newline(final(out)@, sinks@),
    {
        let ghost st0 = *self;
        let ghost base = out@;
        let fg = Color::Black;
        let bg = level_background(rec.level);
        proof {
            lemma_extends_empty(base, sinks@, fg, bg);
        }
        let mut width: usize = 0;
        let ghost t0: Seq<Token> = seq![];
        let Ghost(pp) = self.write_pid(args, sinks, out, &mut width, rec.owner.as_str(), fg, bg, Ghost(base), Ghost(t0));
        let ghost st1 = *self;
        let ghost t1 = t0 + pp;
        let Ghost(kp) = self.write_package_name(args, sinks, out, &mut width, rec.owner.as_str(), fg, bg, Ghost(base), Ghost(t1));
        let ghost st2 = *self;
        let ghost t2 = t1 + kp;
        let Ghost(tp) = self.write_tag(args, sinks, out, &mut width, rec.tag.as_str(), fg, bg, Ghost(base), Ghost(t2));
        let ghost t3 = t2 + tp;
        let Ghost(bp) = write_log_level(rec.level, args, sinks, out, width, fg, bg, Ghost(base), Ghost(t3));
        let ghost t4 = t3 + bp;
        width = width + 5;
        let message = apply_message_rules(args, rec.message.as_str());
        write_message(message.as_str(), sinks, out, width, fg, bg, Ghost(base), Ghost(t4));
        proof {
            let t5 = t4 + seq![(message@, true, width as nat), ("\n"@, false, width as nat)];
            lemma_rendered_all(base, out@, sinks@, t5, fg, bg);
            let a = pp.len() as int;
            let b = a + kp.len();
            let c = b + tp.len();
            assert(t0 + pp =~= pp);
            assert(t5.subrange(0, a) =~= pp);
            assert(t5.subrange(a, b) =~= kp);
            assert(t5.subrange(b, c) =~= tp);
            assert(t5.subrange(c, c + 2) =~= bp);
            assert(t5[c + 2] == (message@, true, width as nat));
            assert(t5[c + 3] == ("\n"@, false, width as nat));
            let mid = choose|mid: Seq<char>| #[trigger] rules_outcome(message@, rec.message@, args.gc_color, mid);
            assert(rules_outcome(t5[c + 2].0, rec.message@, args.gc_color, mid));
            assert(st1.tracker == st0.tracker && st1.last_tag == st0.last_tag);
            assert(st2.tracker == st0.tracker && st2.last_tag == st0.last_tag);
            assert(width as nat == record_header_width(*args, rec.owner@));
            assert(newline_token(t5[c + 3]));
            let pid = rec.owner@;
            assert(a == if pid_on(*args, pid) { 2int } else { 0int });
            assert(b == a + if package_on(*args, pid) { 2int } else { 0int });
            assert(c == b + if args.tag_width > 0 { 2int } else { 0int });
            assert(t5.len() == c + 4);
            let name = crate::render::package_name_of(st0.tracker, pid);
            let s0 = (st0.colors.memo_view(), st0.colors.palette@);
            let s1 = color_step(s0.0, s0.1, pid, pid_on(*args, pid));
            let s2 = color_step(s1.0, s1.1, name, package_on(*args, pid));
            assert((st1.colors.memo_view(), st1.colors.palette@) == s1);
            assert((st2.colors.memo_view(), st2.colors.palette@) == s2);
            assert(crate::render::badge_tokens(t5.subrange(c, c + 2), rec.level, args.no_color));
            assert(t5[c + 2].1 && t5[c + 2].2 == record_header_width(*args, pid));
            assert(message_token(t5[c + 2], rec.message@, args.gc_color));
            assert(record_tokens(t5, st0, *args, rec.level, rec.tag@, rec.owner@, rec.message@));
        }
    }

    /// Handles one line of the log stream and returns what each sink gets.
    ///
    /// A tag-probe line is dropped. A start of interest is tracked and shown as a
    /// green banner; else the end of a tracked process of interest is untracked
    /// and shown as a red banner; else a record that passes the filters is shown
    /// under its header (pid, package, tag columns and severity badge) with its
    /// message highlighted and wrapped, ending in a newline; anything else is
    /// dropped.
    pub fn write_log_line(&mut self, line: &str, args: &CliArgs, sinks: &[Sink]) -> (out: Vec<String>)
        requires
            old(self).wf(),
        ensures
            final(self).wf(),
            out@.len() == sinks@.len(),
            final(self).log_level == old(self).log_level,
            final(self).ignore_filter.patterns == old(self).ignore_filter.patterns,
            final(self).tag_filter.patterns == old(self).tag_filter.patterns,
            old(self).ignore_filter.patterns is None ==> final(self).ignore_filter == old(self).ignore_filter,
            old(self).tag_filter.patterns is None ==> final(self).tag_filter == old(self).tag_filter,
            is_noise(line@) ==> *final(self) == *old(self) && all_empty(out@),
            !is_noise(line@) ==> match start_event(old(self).tracker, line@) {
                Some((pid, pkg)) => {
                    &&& final(self).tracker.owners_view() == without_pid(old(self).tracker.owners_view(), pid).push((pid, pkg))
                    &&& opt_view(final(self).tracker.app_pid) == Some(pid)
                    &&& final(self).last_tag is None
                    &&& final(self).colors == old(self).colors
                    &&& exists|toks: Seq<Token>|
                        #[trigger] start_banner(toks, started_fields(line@)->0, banner_width(*args)) && rendered_all(
                            out@,
                            sinks@,
                            toks,
                            Color::Green,
                            Color::Green,
                        )
                },
                None => match death_event(old(self).tracker, line@) {
                    Some((pid, name)) => {
                        &&& final(self).tracker.owners_view() == without_pid(old(self).tracker.owners_view(), pid)
                        &&& final(self).tracker.app_pid == old(self).tracker.app_pid
                        &&& final(self).last_tag is None
                        &&& final(self).colors == old(self).colors
                        &&& exists|toks: Seq<Token>|
                            #[trigger] death_banner(toks, pid, name, banner_width(*args)) && rendered_all(
                                out@,
                                sinks@,
                                toks,
                                Color::Red,
                                Color::Red,
                            )
                    },
                    None => match shown_record(*old(self), *args, line@) {
                        Some((level, tag, pid, msg)) => {
                            &&& final(self).tracker == old(self).tracker
                            &&& opt_view(final(self).last_tag) == crate::render::last_tag_after(
                                opt_view(old(self).last_tag),
                                tag,
                                args.tag_width as nat,
                            )
                            &&& (final(self).colors.memo_view(), final(self).colors.palette@) == record_colors(
                                *old(self),
                                *args,
                                tag,
                                pid,
                            )
                            &&& exists|toks: Seq<Token>|
                                #[trigger] record_tokens(toks, *old(self), *args, level, tag, pid, msg) && rendered_all(
                                    out@,
                                    sinks@,
                                    toks,
                                    Color::Black,
                                    crate::render::level_background_of(level),
                                )
                            &&& ends_in_newline(out@, sinks@)
                        },
                        None => final(self).same_as(*old(self)) && all_empty(out@),
                    },
                },
            },
    {
        let mut out = empty_outputs(sinks.len());
        if is_native_tags_line(line) {
            return out;
        }
        let ghost base = out@;
        let mut header_width: usize = 0;
        if args.show_pid {
            header_width = header_width + args.pid_width as usize;
        }
        if args.show_package {
            header_width = header_width + args.package_width as usize;
        }
        header_width = header_width + 2 + args.tag_width as usize + 5;
        if self.write_started_process(line, sinks, &mut out, header_width) {
            proof {
                let toks = choose|toks: Seq<Token>|
                    #[trigger] start_banner(toks, started_fields(line@)->0, header_width as nat) && extends(
                        base,
                        out@,
                        sinks@,
                        toks,
                        Color::Green,
                        Color::Green,
                    );
                lemma_rendered_all(base, out@, sinks@, toks, Color::Green, Color::Green);
                assert(start_banner(toks, started_fields(line@)->0, banner_width(*args)));
            }
            return out;
        }
        let record = parse_log_line(line);
        proof {
            lemma_record_view(line@, record);
        }
        let rec = match record {
            Some(r) => r,
            None => return out,
        };
        let ghost before_dead = *self;
        if self.write_dead_process(rec.tag.as_str(), rec.message.as_str(), sinks, &mut out, header_width) {
            proof {
                let (pid, name) = dead_process(before_dead.tracker, rec.tag@, rec.message@)->0;
                let toks = choose|toks: Seq<Token>|
                    #[trigger] death_banner(toks, pid, name, header_width as nat) && extends(
                        base,
                        out@,
                        sinks@,
                        toks,
                        Color::Red,
                        Color::Red,
                    );
                lemma_rendered_all(base, out@, sinks@, toks, Color::Red, Color::Red);
                assert(death_banner(toks, pid, name, banner_width(*args)));
            }
            return out;
        }
        if !args.all && !self.tracker.is_tracked(rec.owner.as_str()) {
            return out;
        }
        if !rec.level.at_least(self.log_level) {
            return out;
        }
        if self.ignore_filter.takes(rec.tag.as_str()) {
            return out;
        }
        if self.tag_filter.is_set() && !self.tag_filter.takes(rec.tag.as_str()) {
            return out;
        }
        proof {
            assert(out@ == base);
        }
        let ghost st_f = *self;
        self.write_record(&rec, args, sinks, &mut out);
        proof {
            let st_o = *old(self);
            assert(st_f.tracker == st_o.tracker && st_f.last_tag == st_o.last_tag && st_f.colors == st_o.colors);
            assert(shown_record(st_o, *args, line@) == Some((rec.level, rec.tag@, rec.owner@, rec.message@)));
            let toks = choose|toks: Seq<Token>|
                #[trigger] record_tokens(toks, st_f, *args, rec.level, rec.tag@, rec.owner@, rec.message@) && rendered_all(
                    out@,
                    sinks@,
                    toks,
                    Color::Black,
                    crate::render::level_background_of(rec.level),
                );
            assert(record_tokens(toks, st_o, *args, rec.level, rec.tag@, rec.owner@, rec.message@));
            assert(record_colors(st_f, *args, rec.tag@, rec.owner@) == record_colors(st_o, *args, rec.tag@, rec.owner@));
        }
        out
    }
}

/// A record shown with every column off, colors off, no highlight applying and
/// a printable message reaches each sink of unbounded width as exactly the
/// severity badge, a space, the message and a newline.
pub proof fn lemma_plain_record_text(
    toks: Seq<Token>,
    st: State,
    args: CliArgs,
    level: LogLevel,
    tag: Seq<char>,
    pid: Seq<char>,
    msg: Seq<char>,
    out: Seq<String>,
    sinks: Seq<Sink>,
    bg: Color,
    k: int,
)
    requires
        record_tokens(toks, st, args, level, tag, pid, msg),
        rendered_all(out, sinks, toks, Color::Black, bg),
        !args.show_pid,
        !args.show_package,
        args.tag_width == 0,
        args.no_color,
        !args.gc_color,
        strict_mode_split(msg) is None,
        crate::render::printable(msg),
        0 <= k < sinks.len(),
        sinks[k].width == -1,
    ensures
        out[k]@ == crate::render::badge_text(level) + " "@ + msg + "\n"@,
{
    reveal_strlit(" ");
    reveal_strlit("\n");
    assert(toks.len() == 4);
    assert(toks.subrange(0, 2) =~= seq![toks[0], toks[1]]);
    let mid = choose|mid: Seq<char>| #[trigger] rules_outcome(toks[2].0, msg, args.gc_color, mid);
    assert(toks[2].0 == msg);
    let pieces = choose|pieces: Seq<Seq<char>>|
        #[trigger] crate::render::pieces_of(sinks[k], toks, Color::Black, bg, pieces) && out[k]@ == joined(pieces);
    let badge = crate::render::badge_text(level);
    assert(crate::render::printable(badge));
    assert(crate::render::printable(" "@));
    assert(crate::render::printable("\n"@));
    crate::render::lemma_plain_piece(sinks[k], toks[0].0, toks[0].1, toks[0].2, Color::Black, bg, pieces[0]);
    crate::render::lemma_plain_piece(sinks[k], toks[1].0, toks[1].1, toks[1].2, Color::Black, bg, pieces[1]);
    crate::render::lemma_plain_piece(sinks[k], toks[2].0, toks[2].1, toks[2].2, Color::Black, bg, pieces[2]);
    crate::render::lemma_plain_piece(sinks[k], toks[3].0, toks[3].1, toks[3].2, Color::Black, bg, pieces[3]);
    reveal_with_fuel(joined, 5);
    assert(pieces.drop_last().drop_last().drop_last().drop_last() =~= Seq::<Seq<char>>::empty());
}

} // verus!
