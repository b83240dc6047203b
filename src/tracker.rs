use vstd::prelude::*;

use crate::ansi::strings_view;
use crate::classify::{death_fields, kill_fields, leave_fields, parse_death, parse_kill, parse_leave};
use crate::scan::{span, span_end, CharClass};
use crate::text::{chars_of, slice_chars, string_of};

verus! {

/// The package that owns `pid`: the latest entry for it.
pub open spec fn owner_lookup(m: Seq<(Seq<char>, Seq<char>)>, pid: Seq<char>) -> Option<Seq<char>>
    decreases m.len(),
{
    if m.len() == 0 {
        None
    } else if m.last().0 == pid {
        Some(m.last().1)
    } else {
        owner_lookup(m.drop_last(), pid)
    }
}

/// The entries of `m` but those for `pid`.
pub open spec fn without_pid(m: Seq<(Seq<char>, Seq<char>)>, pid: Seq<char>) -> Seq<(Seq<char>, Seq<char>)>
    decreases m.len(),
{
    if m.len() == 0 {
        seq![]
    } else if m.last().0 == pid {
        without_pid(m.drop_last(), pid)
    } else {
        without_pid(m.drop_last(), pid).push(m.last())
    }
}

/// Whether no pid has two entries in `m`.
pub open spec fn unique_pids(m: Seq<(Seq<char>, Seq<char>)>) -> bool {
    forall|i: int, j: int| 0 <= i < j < m.len() ==> (#[trigger] m[i]).0 != (#[trigger] m[j]).0
}

proof fn lemma_without_pid_keys(m: Seq<(Seq<char>, Seq<char>)>, pid: Seq<char>)
    ensures
        forall|i: int| 0 <= i < without_pid(m, pid).len() ==> (#[trigger] without_pid(m, pid)[i]).0 != pid
            && exists|j: int| 0 <= j < m.len() && m[j] == without_pid(m, pid)[i],
    decreases m.len(),
{
    if m.len() > 0 {
        lemma_without_pid_keys(m.drop_last(), pid);
        let w = without_pid(m, pid);
        let w0 = without_pid(m.drop_last(), pid);
        assert forall|i: int| 0 <= i < w.len() implies (#[trigger] w[i]).0 != pid && exists|j: int| 0 <= j < m.len() && m[j] == w[i] by {
            if i < w0.len() {
                assert(w[i] == w0[i]);
                let j = choose|j: int| 0 <= j < m.drop_last().len() && m.drop_last()[j] == w0[i];
                assert(m[j] == w[i]);
            } else {
                assert(m[m.len() - 1] == w[i]);
            }
        }
    }
}

proof fn lemma_without_pid_order(m: Seq<(Seq<char>, Seq<char>)>, pid: Seq<char>)
    requires
        unique_pids(m),
    ensures
        unique_pids(without_pid(m, pid)),
    decreases m.len(),
{
    if m.len() > 0 {
        let init = m.drop_last();
        assert forall|i: int, j: int| 0 <= i < j < init.len() implies (#[trigger] init[i]).0 != (#[trigger] init[j]).0 by {
            assert(init[i] == m[i] && init[j] == m[j]);
        }
        lemma_without_pid_order(init, pid);
        lemma_without_pid_keys(init, pid);
        let w = without_pid(m, pid);
        let w0 = without_pid(init, pid);
        if m.last().0 != pid {
            assert forall|i: int, j: int| 0 <= i < j < w.len() implies (#[trigger] w[i]).0 != (#[trigger] w[j]).0 by {
                if j == w.len() - 1 {
                    assert(w[i] == w0[i]);
                    let k = choose|k: int| 0 <= k < init.len() && init[k] == w0[i];
                    assert(m[k] == init[k]);
                    assert(m[m.len() - 1] == w[j]);
                } else {
                    assert(w[i] == w0[i] && w[j] == w0[j]);
                }
            }
        }
    }
}

/// Tracking a pid keeps every pid to one entry.
pub proof fn lemma_track_unique(m: Seq<(Seq<char>, Seq<char>)>, pid: Seq<char>, package: Seq<char>)
    requires
        unique_pids(m),
    ensures
        unique_pids(without_pid(m, pid).push((pid, package))),
        unique_pids(without_pid(m, pid)),
{
    lemma_without_pid_order(m, pid);
    lemma_without_pid_keys(m, pid);
    let w = without_pid(m, pid);
    let n = w.push((pid, package));
    assert forall|i: int, j: int| 0 <= i < j < n.len() implies (#[trigger] n[i]).0 != (#[trigger] n[j]).0 by {
        if j == w.len() {
            assert(n[i] == w[i]);
        } else {
            assert(n[i] == w[i] && n[j] == w[j]);
        }
    }
}

/// Forgetting a pid untracks it and leaves every other pid's owner as it was.
pub proof fn lemma_without_pid(m: Seq<(Seq<char>, Seq<char>)>, pid: Seq<char>, k: Seq<char>)
    ensures
        owner_lookup(without_pid(m, pid), k) == if k == pid {
            None
        } else {
            owner_lookup(m, k)
        },
    decreases m.len(),
{
    if m.len() > 0 {
        lemma_without_pid(m.drop_last(), pid, k);
        if m.last().0 != pid {
            assert(without_pid(m, pid).drop_last() =~= without_pid(m.drop_last(), pid));
        }
    }
}

/// Tracking `pid` as owned by `package` makes `package` its owner and leaves every
/// other pid's owner as it was.
pub proof fn lemma_track_lookup(m: Seq<(Seq<char>, Seq<char>)>, pid: Seq<char>, package: Seq<char>, k: Seq<char>)
    ensures
        owner_lookup(without_pid(m, pid).push((pid, package)), k) == if k == pid {
            Some(package)
        } else {
            owner_lookup(m, k)
        },
{
    let m2 = without_pid(m, pid).push((pid, package));
    assert(m2.drop_last() =~= without_pid(m, pid));
    lemma_without_pid(m, pid, k);
}

/// Whether `token` is among `v`.
pub fn contains_string(v: &[String], token: &String) -> (b: bool)
    ensures
        b == strings_view(v@).contains(token@),
{
    let mut i: usize = 0;
    while i < v.len()
        invariant
            i <= v@.len(),
            forall|k: int| 0 <= k < i ==> v@[k]@ != token@,
        decreases v@.len() - i,
    {
        if v[i] == *token {
            proof {
                assert(strings_view(v@)[i as int] == token@);
            }
            return true;
        }
        i += 1;
    }
    proof {
        if strings_view(v@).contains(token@) {
            let k = choose|k: int| 0 <= k < strings_view(v@).len() && strings_view(v@)[k] == token@;
            assert(v@[k]@ == token@);
        }
    }
    false
}

/// Whether a package or process name is of interest: every name when no filter
/// is set; else a name listed among the named processes, or one whose package
/// (the part before the first `:`) is among the catch-all packages.
pub open spec fn matching_package(token: Seq<char>, named: Seq<Seq<char>>, catchall: Seq<Seq<char>>) -> bool {
    if named.len() == 0 && catchall.len() == 0 {
        true
    } else if named.contains(token) {
        true
    } else {
        let c = span(token, 0, CharClass::NotColon);
        if c < token.len() {
            catchall.contains(token.subrange(0, c))
        } else {
            catchall.contains(token)
        }
    }
}

/// Whether `token` names a package or process of interest; see `matching_package`.
pub fn is_matching_package(token: &String, named_processes: &[String], catchall_package: &[String]) -> (b: bool)
    ensures
        b == matching_package(token@, strings_view(named_processes@), strings_view(catchall_package@)),
{
    if catchall_package.len() == 0 && named_processes.len() == 0 {
        return true;
    }
    if contains_string(named_processes, token) {
        return true;
    }
    let s = chars_of(token.as_str());
    let c = span_end(&s, 0, CharClass::NotColon);
    if c < s.len() {
        let head = string_of(slice_chars(&s, 0, c).as_slice());
        contains_string(catchall_package, &head)
    } else {
        contains_string(catchall_package, token)
    }
}

/// Which processes belong to which packages, and which packages are of interest.
pub struct ProcessTracker {
    /// pid and owning package, the latest entry for a pid standing
    pub owners: Vec<(String, String)>,
    /// exact `package:process` names of interest
    pub named_processes: Vec<String>,
    /// packages of interest with all their processes
    pub catchall_package: Vec<String>,
    /// the pid of the latest start of interest
    pub app_pid: Option<String>,
}

impl ProcessTracker {
    /// The (pid, package) entries.
    pub open spec fn owners_view(&self) -> Seq<(Seq<char>, Seq<char>)> {
        self.owners@.map_values(|e: (String, String)| (e.0@, e.1@))
    }

    /// The package that owns `pid`.
    pub open spec fn owner_spec(&self, pid: Seq<char>) -> Option<Seq<char>> {
        owner_lookup(self.owners_view(), pid)
    }

    /// Whether `token` names a package or process of interest.
    pub open spec fn interesting(&self, token: Seq<char>) -> bool {
        matching_package(token, strings_view(self.named_processes@), strings_view(self.catchall_package@))
    }

    /// A tracker that knows the processes of `owners` (pid, package) at the start.
    pub fn new(owners: Vec<(String, String)>, named_processes: Vec<String>, catchall_package: Vec<String>) -> (r: ProcessTracker)
        ensures
            r.owners@ == owners@,
            r.named_processes@ == named_processes@,
            r.catchall_package@ == catchall_package@,
            r.app_pid is None,
    {
        ProcessTracker { owners, named_processes, catchall_package, app_pid: None }
    }

    /// The package that owns `pid`, if it is tracked.
    pub fn owner_of(&self, pid: &str) -> (r: Option<String>)
        ensures
            r matches Some(p) ==> self.owner_spec(pid@) == Some(p@),
            r is None ==> self.owner_spec(pid@) is None,
    {
        let ghost m = self.owners_view();
        let key = pid.to_owned();
        let mut i: usize = self.owners.len();
        proof {
            assert(m.subrange(0, i as int) =~= m);
        }
        while i > 0
            invariant
                i <= self.owners@.len(),
                m == self.owners_view(),
                m.len() == self.owners@.len(),
                key@ == pid@,
                owner_lookup(m, pid@) == owner_lookup(m.subrange(0, i as int), pid@),
            decreases i,
        {
            proof {
                assert(m.subrange(0, i as int).drop_last() =~= m.subrange(0, i - 1));
                assert(m[i - 1] == (self.owners@[i - 1].0@, self.owners@[i - 1].1@));
            }
            if self.owners[i - 1].0 == key {
                return Some(self.owners[i - 1].1.clone());
            }
            i -= 1;
        }
        proof {
            assert(m.subrange(0, 0) =~= Seq::<(Seq<char>, Seq<char>)>::empty());
        }
        None
    }

    /// Whether `pid` is attributed to a package.
    pub fn is_tracked(&self, pid: &str) -> (b: bool)
        ensures
            b == self.owner_spec(pid@) is Some,
    {
        self.owner_of(pid).is_some()
    }

    /// Whether `token` names a package or process of interest.
    pub fn is_interesting(&self, token: &String) -> (b: bool)
        ensures
            b == self.interesting(token@),
    {
        is_matching_package(token, self.named_processes.as_slice(), self.catchall_package.as_slice())
    }

    /// Drops every entry for `pid`.
    pub fn forget(&mut self, pid: &str)
        ensures
            final(self).owners_view() == without_pid(old(self).owners_view(), pid@),
            unique_pids(old(self).owners_view()) ==> unique_pids(final(self).owners_view()),
            final(self).named_processes == old(self).named_processes,
            final(self).catchall_package == old(self).catchall_package,
            final(self).app_pid == old(self).app_pid,
    {
        let ghost m = self.owners_view();
        let key = pid.to_owned();
        let mut kept: Vec<(String, String)> = Vec::new();
        let mut i: usize = 0;
        while i < self.owners.len()
            invariant
                i <= self.owners@.len(),
                m == self.owners_view(),
                m.len() == self.owners@.len(),
                key@ == pid@,
                kept@.map_values(|e: (String, String)| (e.0@, e.1@)) == without_pid(m.subrange(0, i as int), pid@),
            decreases self.owners@.len() - i,
        {
            proof {
                assert(m.subrange(0, i + 1).drop_last() =~= m.subrange(0, i as int));
                assert(m[i as int] == (self.owners@[i as int].0@, self.owners@[i as int].1@));
            }
            if self.owners[i].0 != key {
                let ghost before = kept@;
                kept.push((self.owners[i].0.clone(), self.owners[i].1.clone()));
                proof {
                    assert(kept@.map_values(|e: (String, String)| (e.0@, e.1@)) =~= before.map_values(
                        |e: (String, String)| (e.0@, e.1@),
                    ).push(m[i as int]));
                }
            }
            i += 1;
        }
        proof {
            assert(m.subrange(0, i as int) =~= m);
            if unique_pids(m) {
                lemma_track_unique(m, pid@, seq![]);
            }
        }
        self.owners = kept;
    }

    /// Attributes `pid` to `package`, replacing what it had.
    pub fn track(&mut self, pid: &str, package: &str)
        ensures
            final(self).owners_view() == without_pid(old(self).owners_view(), pid@).push((pid@, package@)),
            unique_pids(old(self).owners_view()) ==> unique_pids(final(self).owners_view()),
            final(self).named_processes == old(self).named_processes,
            final(self).catchall_package == old(self).catchall_package,
            final(self).app_pid == old(self).app_pid,
    {
        self.forget(pid);
        let ghost before = self.owners_view();
        self.owners.push((pid.to_owned(), package.to_owned()));
        proof {
            assert(self.owners_view() =~= before.push((pid@, package@)));
            if unique_pids(old(self).owners_view()) {
                lemma_track_unique(old(self).owners_view(), pid@, package@);
            }
        }
    }
}

/// The tag under which the system's activity manager reports process ends.
pub open spec fn manager_tag() -> Seq<char> {
    "ActivityManager"@
}

/// Whether an ended process (pid, package) is one to act on: its package is of
/// interest and its pid is tracked.
pub open spec fn death_accepted(t: ProcessTracker, x: (Seq<char>, Seq<char>)) -> bool {
    t.interesting(x.1) && t.owner_spec(x.0) is Some
}

/// The process end that a record with `tag` and `message` reports, if it is one
/// to act on: the kill, leave and death shapes tried in turn, under the activity
/// manager's tag only.
pub open spec fn dead_process(t: ProcessTracker, tag: Seq<char>, message: Seq<char>) -> Option<(Seq<char>, Seq<char>)> {
    if tag != manager_tag() {
        None
    } else {
        match kill_fields(message) {
            Some(x) if death_accepted(t, x) => Some(x),
            _ => match leave_fields(message) {
                Some(x) if death_accepted(t, x) => Some(x),
                _ => match death_fields(message) {
                    Some(x) if death_accepted(t, x) => Some(x),
                    _ => None,
                },
            },
        }
    }
}

/// The process end (pid, package) that a record with `tag` and `message`
/// reports, if it is one to act on; see `dead_process`.
pub fn get_dead_process(tag: &str, message: &str, tracker: &ProcessTracker) -> (r: Option<(String, String)>)
    ensures
        r matches Some(x) ==> dead_process(*tracker, tag@, message@) == Some((x.0@, x.1@)),
        r is None ==> dead_process(*tracker, tag@, message@) is None,
{
    let t = tag.to_owned();
    let manager = "ActivityManager".to_owned();
    if t != manager {
        return None;
    }
    if let Some(x) = parse_kill(message) {
        if tracker.is_interesting(&x.1) && tracker.is_tracked(x.0.as_str()) {
            return Some(x);
        }
    }
    if let Some(x) = parse_leave(message) {
        if tracker.is_interesting(&x.1) && tracker.is_tracked(x.0.as_str()) {
            return Some(x);
        }
    }
    if let Some(x) = parse_death(message) {
        if tracker.is_interesting(&x.1) && tracker.is_tracked(x.0.as_str()) {
            return Some(x);
        }
    }
    None
}

} // verus!
