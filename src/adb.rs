use vstd::prelude::*;

use crate::ansi::strings_view;
use crate::config::{adb_state_of, AdbDevice, AdbState};
use crate::scan::{lemma_span_bounds, has_lit_at, has_newline, lit_at, span, span_end, CharClass};
use crate::text::{chars_of, slice_chars, string_of};
use crate::tracker::contains_string;
use crate::trim::{trim_chars, trimmed};

verus! {

/// The end of a word and the blanks after it, starting at `i`; `-1` when there
/// is no word there or no blank after it.
pub open spec fn word_gap(s: Seq<char>, i: int) -> int {
    let w = span(s, i, CharClass::Word);
    let g = span(s, w, CharClass::Blank);
    if i >= 0 && w > i && g > w {
        g
    } else {
        -1
    }
}

/// The (pid, process name) of a line of the process table (ASCII words and
/// blanks, see `CharClass`): seven words with
/// blanks between, the pid the second; then a one-character state, a blank and
/// the name.
pub open spec fn process_fields(s: Seq<char>) -> Option<(Seq<char>, Seq<char>)> {
    let a1 = word_gap(s, 0);
    let a2 = word_gap(s, a1);
    let a3 = word_gap(s, a2);
    let a4 = word_gap(s, a3);
    let a5 = word_gap(s, a4);
    let a6 = word_gap(s, a5);
    let a7 = word_gap(s, a6);
    if a1 >= 0 && a2 >= 0 && a3 >= 0 && a4 >= 0 && a5 >= 0 && a6 >= 0 && a7 >= 0 && a7 + 2 <= s.len()
        && crate::scan::in_class(CharClass::Word, s[a7]) && crate::scan::in_class(CharClass::Blank, s[a7 + 1])
        && !s.contains('\n') {
        Some((s.subrange(a1, span(s, a1, CharClass::Word)), s.subrange(a7 + 2, s.len() as int)))
    } else {
        None
    }
}

fn gap(s: &Vec<char>, i: usize) -> (r: Option<usize>)
    requires
        i <= s@.len(),
    ensures
        r matches Some(g) ==> word_gap(s@, i as int) == g && g <= s@.len(),
        r is None ==> word_gap(s@, i as int) == -1,
{
    let w = span_end(s, i, CharClass::Word);
    let g = span_end(s, w, CharClass::Blank);
    if w > i && g > w {
        Some(g)
    } else {
        None
    }
}

/// The (pid, process name) of a line of the process table, if it has the shape;
/// see `process_fields`.
pub fn parse_process_line(line: &str) -> (r: Option<(String, String)>)
    ensures
        r matches Some(x) ==> process_fields(line@) == Some((x.0@, x.1@)),
        r is None ==> process_fields(line@) is None,
{
    let s = chars_of(line);
    let n = s.len();
    if has_newline(&s) {
        return None;
    }
    let a1 = match gap(&s, 0) {
        Some(v) => v,
        None => return None,
    };
    let a2 = match gap(&s, a1) {
        Some(v) => v,
        None => return None,
    };
    let a3 = match gap(&s, a2) {
        Some(v) => v,
        None => return None,
    };
    let a4 = match gap(&s, a3) {
        Some(v) => v,
        None => return None,
    };
    let a5 = match gap(&s, a4) {
        Some(v) => v,
        None => return None,
    };
    let a6 = match gap(&s, a5) {
        Some(v) => v,
        None => return None,
    };
    let a7 = match gap(&s, a6) {
        Some(v) => v,
        None => return None,
    };
    if n < 2 || a7 > n - 2 || !crate::scan::class_has(CharClass::Word, s[a7]) || !crate::scan::class_has(
        CharClass::Blank,
        s[a7 + 1],
    ) {
        return None;
    }
    let pid_end = span_end(&s, a1, CharClass::Word);
    proof {
        lemma_span_bounds(s@, a1 as int, CharClass::Word);
    }
    Some((string_of(slice_chars(&s, a1, pid_end).as_slice()), string_of(slice_chars(&s, a7 + 2, n).as_slice())))
}

/// The (pid, process) pairs of the process table lines `lines` that are kept:
/// all of them when `all` is set, else those of a process among `catchall`.
pub open spec fn kept_processes(lines: Seq<Seq<char>>, catchall: Seq<Seq<char>>, all: bool) -> Seq<(Seq<char>, Seq<char>)>
    decreases lines.len(),
{
    if lines.len() == 0 {
        seq![]
    } else {
        let rest = kept_processes(lines.drop_last(), catchall, all);
        match process_fields(lines.last()) {
            Some((pid, name)) => if all || catchall.contains(name) {
                rest.push((pid, name))
            } else {
                rest
            },
            None => rest,
        }
    }
}

/// The processes of the process table `lines` to track at the start; see
/// `kept_processes`.
pub fn process_owners(lines: &[String], catchall: &[String], all: bool) -> (r: Vec<(String, String)>)
    ensures
        r@.map_values(|e: (String, String)| (e.0@, e.1@)) == kept_processes(strings_view(lines@), strings_view(catchall@), all),
{
    let ghost lv = strings_view(lines@);
    let mut r: Vec<(String, String)> = Vec::new();
    let mut i: usize = 0;
    while i < lines.len()
        invariant
            i <= lines@.len(),
            lv == strings_view(lines@),
            r@.map_values(|e: (String, String)| (e.0@, e.1@)) == kept_processes(lv.subrange(0, i as int), strings_view(catchall@), all),
        decreases lines@.len() - i,
    {
        proof {
            assert(lv.subrange(0, i + 1).drop_last() =~= lv.subrange(0, i as int));
            assert(lv.subrange(0, i + 1).last() == lines@[i as int]@);
        }
        if let Some(x) = parse_process_line(lines[i].as_str()) {
            if all || contains_string(catchall, &x.1) {
                let ghost before = r@.map_values(|e: (String, String)| (e.0@, e.1@));
                let ghost xv = (x.0@, x.1@);
                r.push(x);
                proof {
                    assert(r@.map_values(|e: (String, String)| (e.0@, e.1@)) =~= before.push(xv));
                }
            }
        }
        i += 1;
    }
    proof {
        assert(lv.subrange(0, lines@.len() as int) =~= lv);
    }
    r
}

/// The (serial, state word) of a line of the device listing: the trimmed line's
/// first word, and what follows the blanks after it.
pub open spec fn device_fields(line: Seq<char>) -> Option<(Seq<char>, Seq<char>)> {
    let t = trimmed(line);
    let w = span(t, 0, CharClass::NotBlank);
    let g = span(t, w, CharClass::Blank);
    if t.len() > 0 && w < t.len() {
        Some((t.subrange(0, w), t.subrange(g, t.len() as int)))
    } else {
        None
    }
}

/// The device that a line of the device listing names, or `None` for a blank
/// line, a line with no state, or an unknown state.
pub fn parse_device_line(line: &str) -> (r: Option<AdbDevice>)
    ensures
        r matches Some(d) ==> device_fields(line@) matches Some((id, st)) && d.device_id@ == id && adb_state_of(st)
            == Some(d.device_state),
        r is None ==> device_fields(line@) is None || (device_fields(line@) matches Some((_, st)) && adb_state_of(st) is None),
{
    let t = trim_chars(&chars_of(line));
    let n = t.len();
    let w = span_end(&t, 0, CharClass::NotBlank);
    if n == 0 || w >= n {
        return None;
    }
    let g = span_end(&t, w, CharClass::Blank);
    proof {
        lemma_span_bounds(t@, w as int, CharClass::Blank);
    }
    let id = string_of(slice_chars(&t, 0, w).as_slice());
    let st = string_of(slice_chars(&t, g, n).as_slice());
    match AdbState::parse(st.as_str()) {
        Some(state) => Some(AdbDevice { device_id: id, device_state: state }),
        None => None,
    }
}

/// The catch-all packages among `packages`: those without a `:`.
pub open spec fn catchall_of(packages: Seq<Seq<char>>) -> Seq<Seq<char>>
    decreases packages.len(),
{
    if packages.len() == 0 {
        seq![]
    } else {
        let rest = catchall_of(packages.drop_last());
        let p = packages.last();
        if span(p, 0, CharClass::NotColon) < p.len() {
            rest
        } else {
            rest.push(p)
        }
    }
}

/// The named processes among `packages`: those with a `:`, a trailing `:` removed.
pub open spec fn named_of(packages: Seq<Seq<char>>) -> Seq<Seq<char>>
    decreases packages.len(),
{
    if packages.len() == 0 {
        seq![]
    } else {
        let rest = named_of(packages.drop_last());
        let p = packages.last();
        if span(p, 0, CharClass::NotColon) < p.len() {
            rest.push(
                if p.last() == ':' {
                    p.drop_last()
                } else {
                    p
                },
            )
        } else {
            rest
        }
    }
}

/// Splits the packages of interest into catch-all packages (no `:`) and named
/// processes (`package:process`, a trailing `:` removed).
pub fn split_packages(packages: &[String]) -> (r: (Vec<String>, Vec<String>))
    ensures
        strings_view(r.0@) == catchall_of(strings_view(packages@)),
        strings_view(r.1@) == named_of(strings_view(packages@)),
{
    let ghost pv = strings_view(packages@);
    let mut catchall: Vec<String> = Vec::new();
    let mut named: Vec<String> = Vec::new();
    let mut i: usize = 0;
    while i < packages.len()
        invariant
            i <= packages@.len(),
            pv == strings_view(packages@),
            strings_view(catchall@) == catchall_of(pv.subrange(0, i as int)),
            strings_view(named@) == named_of(pv.subrange(0, i as int)),
        decreases packages@.len() - i,
    {
        proof {
            assert(pv.subrange(0, i + 1).drop_last() =~= pv.subrange(0, i as int));
            assert(pv.subrange(0, i + 1).last() == packages@[i as int]@);
        }
        let s = chars_of(packages[i].as_str());
        let c = span_end(&s, 0, CharClass::NotColon);
        if c < s.len() {
            let n = s.len();
            let name = if s[n - 1] == ':' {
                slice_chars(&s, 0, n - 1)
            } else {
                s.clone()
            };
            proof {
                if s@.last() == ':' {
                    assert(name@ =~= s@.drop_last());
                }
            }
            let ghost before = strings_view(named@);
            named.push(string_of(name.as_slice()));
            proof {
                assert(strings_view(named@) =~= before.push(name@));
            }
        } else {
            let ghost before = strings_view(catchall@);
            catchall.push(packages[i].clone());
            proof {
                assert(strings_view(catchall@) =~= before.push(packages@[i as int]@));
            }
        }
        i += 1;
    }
    proof {
        assert(pv.subrange(0, packages@.len() as int) =~= pv);
    }
    (catchall, named)
}

/// The end of the process record at `i` (`ProcessRecord{ID PID:PACKAGE/USER}`,
/// the id and pid run together or apart) and its package; `None` when there is
/// none.
pub open spec fn record_at(s: Seq<char>, i: int) -> Option<(int, Seq<char>)> {
    let a = i + "ProcessRecord{"@.len();
    let w = span(s, a, CharClass::Word);
    let g = span(s, w, CharClass::Ws);
    let d0 = if g > w {
        g
    } else {
        w - 1
    };
    let d1 = if g > w {
        span(s, g, CharClass::Digit)
    } else {
        w
    };
    let pkg_at = d1 + 1;
    let pkg_end = span(s, pkg_at, CharClass::AlphaDot);
    let id_end = span(s, pkg_end + 1, CharClass::Word);
    if lit_at(s, i, "ProcessRecord{"@) && w > a && d0 > a && d1 > d0 && crate::scan::is_digit(s[d0]) && lit_at(
        s,
        d1,
        ":"@,
    ) && pkg_end > pkg_at && lit_at(s, pkg_end, "/"@) && id_end > pkg_end + 1 && lit_at(s, id_end, "}"@) {
        Some((id_end + 1, s.subrange(pkg_at, pkg_end)))
    } else {
        None
    }
}

proof fn lemma_record_at_advances(s: Seq<char>, i: int)
    requires
        0 <= i <= s.len(),
        record_at(s, i) is Some,
    ensures
        ({
            let (e, _) = record_at(s, i)->0;
            i < e <= s.len()
        }),
{
    reveal_strlit("ProcessRecord{");
    reveal_strlit(":");
    reveal_strlit("/");
    reveal_strlit("}");
    let a = i + "ProcessRecord{"@.len();
    lemma_span_bounds(s, a, CharClass::Word);
    let w = span(s, a, CharClass::Word);
    lemma_span_bounds(s, w, CharClass::Ws);
    let g = span(s, w, CharClass::Ws);
    if g > w {
        lemma_span_bounds(s, g, CharClass::Digit);
    }
    let d1 = if g > w {
        span(s, g, CharClass::Digit)
    } else {
        w
    };
    lemma_span_bounds(s, d1 + 1, CharClass::AlphaDot);
    let pkg_end = span(s, d1 + 1, CharClass::AlphaDot);
    lemma_span_bounds(s, pkg_end + 1, CharClass::Word);
}

/// The packages of the records from `j` on, up to the closing `]`; `None` when
/// the list is malformed.
pub open spec fn records_from(s: Seq<char>, j: int) -> Option<Seq<Seq<char>>>
    decreases s.len() - j,
    via records_from_decreases
{
    if 0 <= j <= s.len() && lit_at(s, j, "ProcessRecord{"@) {
        match record_at(s, j) {
            Some((e, pkg)) => match records_from(s, span(s, e, CharClass::Ws)) {
                Some(ps) => Some(seq![pkg] + ps),
                None => None,
            },
            None => None,
        }
    } else if lit_at(s, j, "]"@) {
        Some(seq![])
    } else {
        None
    }
}

#[via_fn]
proof fn records_from_decreases(s: Seq<char>, j: int) {
    if 0 <= j <= s.len() && lit_at(s, j, "ProcessRecord{"@) && record_at(s, j) is Some {
        lemma_record_at_advances(s, j);
        let (e, _) = record_at(s, j)->0;
        lemma_span_bounds(s, e, CharClass::Ws);
    }
}

/// The packages of the visible-activities block at `i`, if one stands there
/// with at least one record.
pub open spec fn block_at(s: Seq<char>, i: int) -> Option<Seq<Seq<char>>> {
    let j = span(s, i + "VisibleActivityProcess:["@.len(), CharClass::Ws);
    if lit_at(s, i, "VisibleActivityProcess:["@) && lit_at(s, j, "ProcessRecord{"@) {
        records_from(s, j)
    } else {
        None
    }
}

/// The packages of the first visible-activities block from `i` on.
pub open spec fn first_block(s: Seq<char>, i: int) -> Option<Seq<Seq<char>>>
    decreases s.len() - i,
{
    if i < 0 || i >= s.len() {
        None
    } else {
        match block_at(s, i) {
            Some(ps) => Some(ps),
            None => first_block(s, i + 1),
        }
    }
}

fn record_here(s: &Vec<char>, i: usize) -> (r: Option<(usize, Vec<char>)>)
    requires
        i <= s@.len(),
    ensures
        r matches Some(x) ==> record_at(s@, i as int) == Some((x.0 as int, x.1@)) && i < x.0 <= s@.len(),
        r is None ==> record_at(s@, i as int) is None,
{
    proof {
        reveal_strlit("ProcessRecord{");
        reveal_strlit(":");
        reveal_strlit("/");
        reveal_strlit("}");
    }
    let n = s.len();
    if !has_lit_at(s, i, "ProcessRecord{") {
        return None;
    }
    let a = i + 14;
    let w = span_end(s, a, CharClass::Word);
    let g = span_end(s, w, CharClass::Ws);
    if w <= a {
        return None;
    }
    let (d0, d1) = if g > w {
        (g, span_end(s, g, CharClass::Digit))
    } else {
        (w - 1, w)
    };
    if d0 <= a || d1 <= d0 || !crate::scan::class_has(CharClass::Digit, s[d0]) || !has_lit_at(s, d1, ":") {
        return None;
    }
    let pkg_at = d1 + 1;
    let pkg_end = span_end(s, pkg_at, CharClass::AlphaDot);
    if pkg_end <= pkg_at || !has_lit_at(s, pkg_end, "/") {
        return None;
    }
    let id_end = span_end(s, pkg_end + 1, CharClass::Word);
    if id_end <= pkg_end + 1 || !has_lit_at(s, id_end, "}") {
        return None;
    }
    Some((id_end + 1, slice_chars(s, pkg_at, pkg_end)))
}

fn records_here(s: &Vec<char>, j0: usize) -> (r: Option<Vec<String>>)
    requires
        j0 <= s@.len(),
    ensures
        r matches Some(v) ==> records_from(s@, j0 as int) == Some(strings_view(v@)),
        r is None ==> records_from(s@, j0 as int) is None,
{
    proof {
        reveal_strlit("]");
    }
    let n = s.len();
    let mut acc: Vec<String> = Vec::new();
    let mut j: usize = j0;
    loop
        invariant
            j0 <= j <= n,
            n == s@.len(),
            records_from(s@, j0 as int) == match records_from(s@, j as int) {
                Some(ps) => Some(strings_view(acc@) + ps),
                None => None,
            },
        decreases n - j,
    {
        if has_lit_at(s, j, "ProcessRecord{") {
            match record_here(s, j) {
                Some((e, pkg)) => {
                    let k = span_end(s, e, CharClass::Ws);
                    let ghost before = strings_view(acc@);
                    acc.push(string_of(pkg.as_slice()));
                    proof {
                        assert(strings_view(acc@) =~= before.push(pkg@));
                        match records_from(s@, k as int) {
                            Some(ps) => {
                                assert(strings_view(acc@) + ps =~= before + (seq![pkg@] + ps));
                            },
                            None => {},
                        }
                    }
                    j = k;
                },
                None => return None,
            }
        } else if has_lit_at(s, j, "]") {
            proof {
                assert(strings_view(acc@) + Seq::<Seq<char>>::empty() =~= strings_view(acc@));
            }
            return Some(acc);
        } else {
            return None;
        }
    }
}

/// The packages of the first visible-activities block of an activity dump, or
/// `None` when it has none.
pub fn visible_packages(dump: &str) -> (r: Option<Vec<String>>)
    ensures
        r matches Some(v) ==> first_block(dump@, 0) == Some(strings_view(v@)),
        r is None ==> first_block(dump@, 0) is None,
{
    proof {
        reveal_strlit("VisibleActivityProcess:[");
        reveal_strlit("ProcessRecord{");
    }
    let s = chars_of(dump);
    let n = s.len();
    let mut i: usize = 0;
    while i < n
        invariant
            i <= n,
            n == s@.len(),
            s@ == dump@,
            first_block(s@, 0) == first_block(s@, i as int),
        decreases n - i,
    {
        proof {
            reveal_strlit("VisibleActivityProcess:[");
            reveal_strlit("ProcessRecord{");
        }
        if has_lit_at(&s, i, "VisibleActivityProcess:[") {
            let j = span_end(&s, i + 24, CharClass::Ws);
            if has_lit_at(&s, j, "ProcessRecord{") {
                proof {
                    lemma_span_bounds(s@, i + 24, CharClass::Ws);
                }
                if let Some(v) = records_here(&s, j) {
                    return Some(v);
                }
            }
        }
        i += 1;
    }
    None
}

} // verus!
