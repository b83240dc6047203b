use vstd::prelude::*;

use crate::level::{level_of, LogLevel};
use crate::scan::{lemma_span_bounds, has_lit_at, has_newline, lit_at, span, span_end, CharClass};
use crate::text::{chars_of, slice_chars, string_of};
use crate::trim::{trim_chars, trimmed};

verus! {

/// A structured log line: `LEVEL/TAG( PID): MESSAGE`.
#[derive(Clone, Debug)]
pub struct LogRecord {
    pub level: LogLevel,
    pub tag: String,
    pub owner: String,
    pub message: String,
}

/// Whether `s` holds `lit` anywhere.
pub open spec fn holds_lit(s: Seq<char>, lit: Seq<char>) -> bool {
    exists|i: int| lit_at(s, i, lit)
}

/// Whether `line` is the native tag-enablement probe, which is dropped.
pub open spec fn is_noise(line: Seq<char>) -> bool {
    holds_lit(line, "nativeGetEnabledTags"@)
}

/// Whether `line` is the native tag-enablement probe, which carries nothing.
pub fn is_native_tags_line(line: &str) -> (b: bool)
    ensures
        b == is_noise(line@),
{
    let s = chars_of(line);
    proof {
        reveal_strlit("nativeGetEnabledTags");
    }
    let mut i: usize = 0;
    while i < s.len()
        invariant
            i <= s@.len(),
            s@ == line@,
            forall|k: int| 0 <= k < i ==> !lit_at(s@, k, "nativeGetEnabledTags"@),
        decreases s@.len() - i,
    {
        if has_lit_at(&s, i, "nativeGetEnabledTags") {
            proof {
                assert(lit_at(line@, i as int, "nativeGetEnabledTags"@));
            }
            return true;
        }
        i += 1;
    }
    proof {
        assert forall|k: int| !lit_at(s@, k, "nativeGetEnabledTags"@) by {
            if k >= s@.len() && lit_at(s@, k, "nativeGetEnabledTags"@) {
                assert(k + "nativeGetEnabledTags"@.len() <= s@.len());
                assert(s@.subrange(k, k + "nativeGetEnabledTags"@.len()).len() == 0);
            }
        }
    }
    false
}

/// Whether the tail of a record stands at `k`: `(`, spaces, the pid's digits, `): `.
pub open spec fn pid_close_at(s: Seq<char>, k: int) -> bool {
    let j = span(s, k + 1, CharClass::Space);
    let m = span(s, j, CharClass::Digit);
    0 <= k < s.len() && s[k] == '(' && m > j && lit_at(s, m, "): "@)
}

/// The first place from `k` on where the tail of a record stands.
pub open spec fn first_pid_close(s: Seq<char>, k: int) -> Option<int>
    decreases s.len() - k,
{
    if k < 0 || k >= s.len() {
        None
    } else if pid_close_at(s, k) {
        Some(k)
    } else {
        first_pid_close(s, k + 1)
    }
}

/// The raw fields of a record line (letter, tag, pid, message), untrimmed; the
/// tag is the shortest non-empty text before a well-formed tail.
pub open spec fn record_fields(s: Seq<char>) -> Option<(char, Seq<char>, Seq<char>, Seq<char>)> {
    if s.len() >= 3 && 'A' <= s[0] && s[0] <= 'Z' && s[1] == '/' && !s.contains('\n') {
        match first_pid_close(s, 3) {
            Some(k) => {
                let j = span(s, k + 1, CharClass::Space);
                let m = span(s, j, CharClass::Digit);
                Some((s[0], s.subrange(2, k), s.subrange(j, m), s.subrange(m + "): "@.len(), s.len() as int)))
            },
            None => None,
        }
    } else {
        None
    }
}

/// Whether `r` is the record that `line` holds: a known level, and the fields
/// with surrounding white space removed.
pub open spec fn is_record_of(line: Seq<char>, r: LogRecord) -> bool {
    match record_fields(line) {
        Some((c, tag, pid, msg)) => level_of(c) == Some(r.level) && r.tag@ == trimmed(tag) && r.owner@
            == trimmed(pid) && r.message@ == trimmed(msg),
        None => false,
    }
}

/// Whether `line` is a record line with a known level letter.
pub open spec fn is_record_line(line: Seq<char>) -> bool {
    match record_fields(line) {
        Some((c, _, _, _)) => level_of(c) is Some,
        None => false,
    }
}

fn pid_close(s: &Vec<char>, k: usize) -> (b: bool)
    requires
        k < s@.len(),
    ensures
        b == pid_close_at(s@, k as int),
{
    let n = s.len();
    if s[k] != '(' {
        return false;
    }
    let j = span_end(s, k + 1, CharClass::Space);
    let m = span_end(s, j, CharClass::Digit);
    m > j && has_lit_at(s, m, "): ")
}

/// The record that `line` holds, or `None` when it is not a record line.
pub fn parse_log_line(line: &str) -> (r: Option<LogRecord>)
    ensures
        r is Some <==> is_record_line(line@),
        r is Some ==> is_record_of(line@, r->0),
{
    let s = chars_of(line);
    let n = s.len();
    if n < 3 || !('A' <= s[0] && s[0] <= 'Z') || s[1] != '/' || has_newline(&s) {
        return None;
    }
    let mut k: usize = 3;
    while k < n && !pid_close(&s, k)
        invariant
            3 <= k <= n,
            n == s@.len(),
            first_pid_close(s@, 3) == first_pid_close(s@, k as int),
        decreases n - k,
    {
        k += 1;
    }
    if k >= n {
        return None;
    }
    let j = span_end(&s, k + 1, CharClass::Space);
    let m = span_end(&s, j, CharClass::Digit);
    proof {
        lemma_span_bounds(s@, k + 1, CharClass::Space);
        lemma_span_bounds(s@, j as int, CharClass::Digit);
    }
    let m3 = match opt_lit(&s, m, "): ") {
        Some(v) => v,
        None => return None,
    };
    let level = match LogLevel::from_letter(s[0]) {
        Some(l) => l,
        None => {
            return None;
        },
    };
    let tag = trim_chars(&slice_chars(&s, 2, k));
    let owner = trim_chars(&slice_chars(&s, j, m));
    let message = trim_chars(&slice_chars(&s, m3, n));
    Some(
        LogRecord {
            level,
            tag: string_of(tag.as_slice()),
            owner: string_of(owner.as_slice()),
            message: string_of(message.as_slice()),
        },
    )
}

/// The marker that start lines carry before their fields.
pub open spec fn start_marker() -> Seq<char> {
    ": Start proc "@
}

/// The generic start shape at `i`: `: Start proc PID:PACKAGE/ID for ... {TARGET}`
/// to the end of the line; yields (pid, package, target).
pub open spec fn generic_start_at(s: Seq<char>, i: int) -> Option<(Seq<char>, Seq<char>, Seq<char>)> {
    let d0 = i + start_marker().len();
    let d1 = span(s, d0, CharClass::Digit);
    let pkg_at = d1 + 1;
    let pkg_end = span(s, pkg_at, CharClass::Package);
    let id_at = pkg_end + 1;
    let id_end = span(s, id_at, CharClass::LowerDigit);
    let r0 = id_end + " for "@.len();
    if lit_at(s, i, start_marker()) && d1 > d0 && lit_at(s, d1, ":"@) && pkg_end > pkg_at && lit_at(s, pkg_end, "/"@)
        && id_end > id_at && lit_at(s, id_end, " for "@) && s.len() > 0 && s.last() == '}' {
        match first_lit(s, r0, " {"@) {
            Some(b) => if b + 2 <= s.len() - 1 {
                Some((s.subrange(d0, d1), s.subrange(pkg_at, pkg_end), s.subrange(b + 2, s.len() - 1)))
            } else {
                None
            },
            None => None,
        }
    } else {
        None
    }
}

/// The first place from `k` on where `lit` stands.
pub open spec fn first_lit(s: Seq<char>, k: int, lit: Seq<char>) -> Option<int>
    decreases s.len() - k,
{
    if k < 0 || k >= s.len() {
        None
    } else if lit_at(s, k, lit) {
        Some(k)
    } else {
        first_lit(s, k + 1, lit)
    }
}

/// The start shape with ids at `i`: `: Start proc PACKAGE for KIND TARGET: pid=PID
/// uid=UID gids=GIDS`; yields (pid, uid, gids, package, target).
pub open spec fn ugid_start_at(s: Seq<char>, i: int) -> Option<(Seq<char>, Seq<char>, Seq<char>, Seq<char>, Seq<char>)> {
    let pkg_at = i + start_marker().len();
    let pkg_end = span(s, pkg_at, CharClass::Package);
    let t0 = pkg_end + " for "@.len();
    let a = span(s, t0, CharClass::Lower);
    let t1 = a + 1;
    let c = span(s, t1, CharClass::NotColon);
    let d0 = c + ": pid="@.len();
    let d1 = span(s, d0, CharClass::Digit);
    let u0 = d1 + " uid="@.len();
    let u1 = span(s, u0, CharClass::Digit);
    let g0 = u1 + " gids="@.len();
    if lit_at(s, i, start_marker()) && pkg_end > pkg_at && lit_at(s, pkg_end, " for "@) && a > t0 && lit_at(s, a, " "@)
        && c > t1 && lit_at(s, c, ": pid="@) && d1 > d0 && lit_at(s, d1, " uid="@) && u1 > u0 && lit_at(
        s,
        u1,
        " gids="@,
    ) {
        Some(
            (
                s.subrange(d0, d1),
                s.subrange(u0, u1),
                s.subrange(g0, s.len() as int),
                s.subrange(pkg_at, pkg_end),
                s.subrange(t0, c),
            ),
        )
    } else {
        None
    }
}

/// The latest place at or before `i` where the generic start shape stands.
pub open spec fn last_generic_start(s: Seq<char>, i: int) -> Option<(Seq<char>, Seq<char>, Seq<char>)>
    decreases i + 1,
{
    if i < 0 {
        None
    } else {
        match generic_start_at(s, i) {
            Some(x) => Some(x),
            None => last_generic_start(s, i - 1),
        }
    }
}

/// The latest place at or before `i` where the start shape with ids stands.
pub open spec fn last_ugid_start(s: Seq<char>, i: int) -> Option<(Seq<char>, Seq<char>, Seq<char>, Seq<char>, Seq<char>)>
    decreases i + 1,
{
    if i < 0 {
        None
    } else {
        match ugid_start_at(s, i) {
            Some(x) => Some(x),
            None => last_ugid_start(s, i - 1),
        }
    }
}

/// The legacy runtime start line: `E/dalvikvm( PID): >>>>> PACKAGE [ userId:0 |
/// appId:APPID ]`; yields (pid, app id, package).
pub open spec fn runtime_start(s: Seq<char>) -> Option<(Seq<char>, Seq<char>, Seq<char>)> {
    let w0 = "E/dalvikvm("@.len() as int;
    let w1 = span(s, w0, CharClass::Blank);
    let d1 = span(s, w1, CharClass::Digit);
    let pkg_at = d1 + "): >>>>> "@.len();
    let pkg_end = span(s, pkg_at, CharClass::Package);
    let a0 = pkg_end + " [ userId:0 | appId:"@.len();
    let a1 = span(s, a0, CharClass::Digit);
    if lit_at(s, 0, "E/dalvikvm("@) && d1 > w1 && lit_at(s, d1, "): >>>>> "@) && pkg_end > pkg_at && lit_at(
        s,
        pkg_end,
        " [ userId:0 | appId:"@,
    ) && a1 > a0 && lit_at(s, a1, " ]"@) && a1 + 2 == s.len() {
        Some((s.subrange(w1, d1), s.subrange(a0, a1), s.subrange(pkg_at, pkg_end)))
    } else {
        None
    }
}

/// The start event that `line` reports, as (pid, uid, gids, package, target):
/// the first of the three start shapes that matches, with what a shape lacks
/// empty. Numbers are ASCII digits and blanks ASCII white space (see `CharClass`).
pub open spec fn started_fields(line: Seq<char>) -> Option<(Seq<char>, Seq<char>, Seq<char>, Seq<char>, Seq<char>)> {
    if line.contains('\n') {
        None
    } else {
        match last_generic_start(line, line.len() - 1) {
            Some((pid, pkg, target)) => Some((pid, seq![], seq![], pkg, target)),
            None => match last_ugid_start(line, line.len() - 1) {
                Some(x) => Some(x),
                None => match runtime_start(line) {
                    Some((pid, app, pkg)) => Some((pid, app, seq![], pkg, seq![])),
                    None => None,
                },
            },
        }
    }
}

fn opt_lit(s: &Vec<char>, i: usize, lit: &str) -> (r: Option<usize>)
    ensures
        r is Some <==> lit_at(s@, i as int, lit@),
        r is Some ==> r->0 == i + lit@.len(),
{
    let l = chars_of(lit);
    let n = s.len();
    if has_lit_at(s, i, lit) {
        Some(i + l.len())
    } else {
        None
    }
}

fn find_lit(s: &Vec<char>, k: usize, lit: &str) -> (r: Option<usize>)
    ensures
        r matches Some(b) ==> first_lit(s@, k as int, lit@) == Some(b as int),
        r is None ==> first_lit(s@, k as int, lit@) is None,
{
    let n = s.len();
    let mut b: usize = k;
    while b < n
        invariant
            k <= b,
            n == s@.len(),
            first_lit(s@, k as int, lit@) == first_lit(s@, b as int, lit@),
        decreases n - b,
    {
        if has_lit_at(s, b, lit) {
            return Some(b);
        }
        b += 1;
    }
    None
}

fn generic_start(s: &Vec<char>, i: usize) -> (r: Option<(Vec<char>, Vec<char>, Vec<char>)>)
    requires
        i <= s@.len(),
    ensures
        r matches Some(x) ==> generic_start_at(s@, i as int) == Some((x.0@, x.1@, x.2@)),
        r is None ==> generic_start_at(s@, i as int) is None,
{
    proof {
        reveal_strlit(": Start proc ");
        reveal_strlit(":");
        reveal_strlit("/");
        reveal_strlit(" for ");
        reveal_strlit(" {");
    }
    let n = s.len();
    let d0 = match opt_lit(s, i, ": Start proc ") {
        Some(v) => v,
        None => return None,
    };
    let d1 = span_end(s, d0, CharClass::Digit);
    if d1 <= d0 {
        return None;
    }
    let pkg_at = match opt_lit(s, d1, ":") {
        Some(v) => v,
        None => return None,
    };
    let pkg_end = span_end(s, pkg_at, CharClass::Package);
    if pkg_end <= pkg_at {
        return None;
    }
    let id_at = match opt_lit(s, pkg_end, "/") {
        Some(v) => v,
        None => return None,
    };
    let id_end = span_end(s, id_at, CharClass::LowerDigit);
    if id_end <= id_at {
        return None;
    }
    let r0 = match opt_lit(s, id_end, " for ") {
        Some(v) => v,
        None => return None,
    };
    if n == 0 || s[n - 1] != '}' {
        return None;
    }
    match find_lit(s, r0, " {") {
        Some(b) => {
            proof {
                lemma_first_lit_bound(s@, r0 as int, " {"@);
            }
            if b < n && n - b >= 3 {
                Some((slice_chars(s, d0, d1), slice_chars(s, pkg_at, pkg_end), slice_chars(s, b + 2, n - 1)))
            } else {
                None
            }
        },
        None => None,
    }
}

proof fn lemma_first_lit_bound(s: Seq<char>, k: int, lit: Seq<char>)
    ensures
        first_lit(s, k, lit) matches Some(b) ==> k <= b < s.len(),
    decreases s.len() - k,
{
    if 0 <= k < s.len() && !lit_at(s, k, lit) {
        lemma_first_lit_bound(s, k + 1, lit);
    }
}

fn ugid_start(s: &Vec<char>, i: usize) -> (r: Option<(Vec<char>, Vec<char>, Vec<char>, Vec<char>, Vec<char>)>)
    requires
        i <= s@.len(),
    ensures
        r matches Some(x) ==> ugid_start_at(s@, i as int) == Some((x.0@, x.1@, x.2@, x.3@, x.4@)),
        r is None ==> ugid_start_at(s@, i as int) is None,
{
    proof {
        reveal_strlit(": Start proc ");
        reveal_strlit(" for ");
        reveal_strlit(" ");
        reveal_strlit(": pid=");
        reveal_strlit(" uid=");
        reveal_strlit(" gids=");
    }
    let n = s.len();
    let pkg_at = match opt_lit(s, i, ": Start proc ") {
        Some(v) => v,
        None => return None,
    };
    let pkg_end = span_end(s, pkg_at, CharClass::Package);
    if pkg_end <= pkg_at {
        return None;
    }
    let t0 = match opt_lit(s, pkg_end, " for ") {
        Some(v) => v,
        None => return None,
    };
    let a = span_end(s, t0, CharClass::Lower);
    if a <= t0 {
        return None;
    }
    let t1 = match opt_lit(s, a, " ") {
        Some(v) => v,
        None => return None,
    };
    let c = span_end(s, t1, CharClass::NotColon);
    if c <= t1 {
        return None;
    }
    let d0 = match opt_lit(s, c, ": pid=") {
        Some(v) => v,
        None => return None,
    };
    let d1 = span_end(s, d0, CharClass::Digit);
    if d1 <= d0 {
        return None;
    }
    let u0 = match opt_lit(s, d1, " uid=") {
        Some(v) => v,
        None => return None,
    };
    let u1 = span_end(s, u0, CharClass::Digit);
    if u1 <= u0 {
        return None;
    }
    let g0 = match opt_lit(s, u1, " gids=") {
        Some(v) => v,
        None => return None,
    };
    Some(
        (
            slice_chars(s, d0, d1),
            slice_chars(s, u0, u1),
            slice_chars(s, g0, n),
            slice_chars(s, pkg_at, pkg_end),
            slice_chars(s, t0, c),
        ),
    )
}

fn runtime_start_fields(s: &Vec<char>) -> (r: Option<(Vec<char>, Vec<char>, Vec<char>)>)
    ensures
        r matches Some(x) ==> runtime_start(s@) == Some((x.0@, x.1@, x.2@)),
        r is None ==> runtime_start(s@) is None,
{
    proof {
        reveal_strlit("E/dalvikvm(");
        reveal_strlit("): >>>>> ");
        reveal_strlit(" [ userId:0 | appId:");
        reveal_strlit(" ]");
    }
    let n = s.len();
    let w0 = match opt_lit(s, 0, "E/dalvikvm(") {
        Some(v) => v,
        None => return None,
    };
    let w1 = span_end(s, w0, CharClass::Blank);
    let d1 = span_end(s, w1, CharClass::Digit);
    if d1 <= w1 {
        return None;
    }
    let pkg_at = match opt_lit(s, d1, "): >>>>> ") {
        Some(v) => v,
        None => return None,
    };
    let pkg_end = span_end(s, pkg_at, CharClass::Package);
    if pkg_end <= pkg_at {
        return None;
    }
    let a0 = match opt_lit(s, pkg_end, " [ userId:0 | appId:") {
        Some(v) => v,
        None => return None,
    };
    let a1 = span_end(s, a0, CharClass::Digit);
    if a1 <= a0 {
        return None;
    }
    let e = match opt_lit(s, a1, " ]") {
        Some(v) => v,
        None => return None,
    };
    if e != n {
        return None;
    }
    Some((slice_chars(s, w1, d1), slice_chars(s, a0, a1), slice_chars(s, pkg_at, pkg_end)))
}

/// The process start that `line` reports, as (pid, uid, gids, package, target),
/// or `None` when it matches none of the start shapes.
pub fn get_started_process(line: &str) -> (r: Option<(String, String, String, String, String)>)
    ensures
        r matches Some(x) ==> started_fields(line@) == Some((x.0@, x.1@, x.2@, x.3@, x.4@)),
        r is None ==> started_fields(line@) is None,
{
    let s = chars_of(line);
    if has_newline(&s) {
        return None;
    }
    let n = s.len();
    let mut i: usize = n;
    while i > 0
        invariant
            i <= n,
            n == s@.len(),
            s@ == line@,
            !s@.contains('\n'),
            last_generic_start(s@, n - 1) == last_generic_start(s@, i - 1),
        decreases i,
    {
        if let Some(x) = generic_start(&s, i - 1) {
            return Some((string_of(x.0.as_slice()), String::new(), String::new(), string_of(x.1.as_slice()), string_of(x.2.as_slice())));
        }
        i -= 1;
    }
    let mut i: usize = n;
    while i > 0
        invariant
            i <= n,
            n == s@.len(),
            last_ugid_start(s@, n - 1) == last_ugid_start(s@, i - 1),
            last_generic_start(s@, n - 1) is None,
            s@ == line@,
            !s@.contains('\n'),
        decreases i,
    {
        if let Some(x) = ugid_start(&s, i - 1) {
            return Some((string_of(x.0.as_slice()), string_of(x.1.as_slice()), string_of(x.2.as_slice()), string_of(x.3.as_slice()), string_of(x.4.as_slice())));
        }
        i -= 1;
    }
    match runtime_start_fields(&s) {
        Some(x) => Some((string_of(x.0.as_slice()), string_of(x.1.as_slice()), String::new(), string_of(x.2.as_slice()), String::new())),
        None => None,
    }
}

/// The kill shape: `Killing PID:PACKAGE/ID: REASON`; yields (pid, package).
/// As in every end shape, the pid is ASCII digits (see `CharClass`).
pub open spec fn kill_fields(s: Seq<char>) -> Option<(Seq<char>, Seq<char>)> {
    let d0 = "Killing "@.len() as int;
    let d1 = span(s, d0, CharClass::Digit);
    let pkg_at = d1 + 1;
    let pkg_end = span(s, pkg_at, CharClass::Package);
    let c0 = pkg_end + 1;
    let c1 = span(s, c0, CharClass::NotColon);
    if lit_at(s, 0, "Killing "@) && d1 > d0 && lit_at(s, d1, ":"@) && pkg_end > pkg_at && lit_at(s, pkg_end, "/"@) && c1
        > c0 && lit_at(s, c1, ": "@) && !s.contains('\n') {
        Some((s.subrange(d0, d1), s.subrange(pkg_at, pkg_end)))
    } else {
        None
    }
}

/// The leave shape: `No longer want PACKAGE (pid PID): REASON`; yields (pid, package).
pub open spec fn leave_fields(s: Seq<char>) -> Option<(Seq<char>, Seq<char>)> {
    let pkg_at = "No longer want "@.len() as int;
    let pkg_end = span(s, pkg_at, CharClass::Package);
    let d0 = pkg_end + " (pid "@.len();
    let d1 = span(s, d0, CharClass::Digit);
    if lit_at(s, 0, "No longer want "@) && pkg_end > pkg_at && lit_at(s, pkg_end, " (pid "@) && d1 > d0 && lit_at(
        s,
        d1,
        "): "@,
    ) && !s.contains('\n') {
        Some((s.subrange(d0, d1), s.subrange(pkg_at, pkg_end)))
    } else {
        None
    }
}

/// The death shape: `Process PACKAGE (pid PID) has died`, with at most one more
/// character; yields (pid, package).
pub open spec fn death_fields(s: Seq<char>) -> Option<(Seq<char>, Seq<char>)> {
    let pkg_at = "Process "@.len() as int;
    let pkg_end = span(s, pkg_at, CharClass::Package);
    let d0 = pkg_end + " (pid "@.len();
    let d1 = span(s, d0, CharClass::Digit);
    let e = d1 + ") has died"@.len();
    if lit_at(s, 0, "Process "@) && pkg_end > pkg_at && lit_at(s, pkg_end, " (pid "@) && d1 > d0 && lit_at(
        s,
        d1,
        ") has died"@,
    ) && s.len() <= e + 1 && !s.contains('\n') {
        Some((s.subrange(d0, d1), s.subrange(pkg_at, pkg_end)))
    } else {
        None
    }
}

/// The (pid, package) of the kill shape in `message`, if it has it.
pub fn parse_kill(message: &str) -> (r: Option<(String, String)>)
    ensures
        r matches Some(x) ==> kill_fields(message@) == Some((x.0@, x.1@)),
        r is None ==> kill_fields(message@) is None,
{
    let s = chars_of(message);
    proof {
        reveal_strlit("Killing ");
        reveal_strlit(":");
        reveal_strlit("/");
        reveal_strlit(": ");
    }
    let n = s.len();
    if has_newline(&s) {
        return None;
    }
    let d0 = match opt_lit(&s, 0, "Killing ") {
        Some(v) => v,
        None => return None,
    };
    let d1 = span_end(&s, d0, CharClass::Digit);
    if d1 <= d0 {
        return None;
    }
    let pkg_at = match opt_lit(&s, d1, ":") {
        Some(v) => v,
        None => return None,
    };
    let pkg_end = span_end(&s, pkg_at, CharClass::Package);
    if pkg_end <= pkg_at {
        return None;
    }
    let c0 = match opt_lit(&s, pkg_end, "/") {
        Some(v) => v,
        None => return None,
    };
    let c1 = span_end(&s, c0, CharClass::NotColon);
    if c1 <= c0 || !has_lit_at(&s, c1, ": ") {
        return None;
    }
    Some((string_of(slice_chars(&s, d0, d1).as_slice()), string_of(slice_chars(&s, pkg_at, pkg_end).as_slice())))
}

/// The (pid, package) of the leave shape in `message`, if it has it.
pub fn parse_leave(message: &str) -> (r: Option<(String, String)>)
    ensures
        r matches Some(x) ==> leave_fields(message@) == Some((x.0@, x.1@)),
        r is None ==> leave_fields(message@) is None,
{
    let s = chars_of(message);
    let n = s.len();
    if has_newline(&s) {
        return None;
    }
    let pkg_at = match opt_lit(&s, 0, "No longer want ") {
        Some(v) => v,
        None => return None,
    };
    let pkg_end = span_end(&s, pkg_at, CharClass::Package);
    if pkg_end <= pkg_at {
        return None;
    }
    let d0 = match opt_lit(&s, pkg_end, " (pid ") {
        Some(v) => v,
        None => return None,
    };
    let d1 = span_end(&s, d0, CharClass::Digit);
    if d1 <= d0 || !has_lit_at(&s, d1, "): ") {
        return None;
    }
    Some((string_of(slice_chars(&s, d0, d1).as_slice()), string_of(slice_chars(&s, pkg_at, pkg_end).as_slice())))
}

/// The (pid, package) of the death shape in `message`, if it has it.
pub fn parse_death(message: &str) -> (r: Option<(String, String)>)
    ensures
        r matches Some(x) ==> death_fields(message@) == Some((x.0@, x.1@)),
        r is None ==> death_fields(message@) is None,
{
    let s = chars_of(message);
    let n = s.len();
    if has_newline(&s) {
        return None;
    }
    let pkg_at = match opt_lit(&s, 0, "Process ") {
        Some(v) => v,
        None => return None,
    };
    let pkg_end = span_end(&s, pkg_at, CharClass::Package);
    if pkg_end <= pkg_at {
        return None;
    }
    let d0 = match opt_lit(&s, pkg_end, " (pid ") {
        Some(v) => v,
        None => return None,
    };
    let d1 = span_end(&s, d0, CharClass::Digit);
    if d1 <= d0 {
        return None;
    }
    let e = match opt_lit(&s, d1, ") has died") {
        Some(v) => v,
        None => return None,
    };
    if n - e > 1 {
        return None;
    }
    Some((string_of(slice_chars(&s, d0, d1).as_slice()), string_of(slice_chars(&s, pkg_at, pkg_end).as_slice())))
}

} // verus!
