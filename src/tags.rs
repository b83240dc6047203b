use vstd::prelude::*;

use crate::ansi::strings_view;
use crate::classify::holds_lit;
use crate::scan::{has_lit_at, lit_at};
use crate::text::{chars_of, string_of};
use crate::trim::{trim_chars, trimmed};

verus! {

/// Whether the pattern `p` compiles (the regular-expression crate's verdict).
pub uninterp spec fn pattern_compiles(p: Seq<char>) -> bool;

/// Whether the compiled pattern `p` matches somewhere in `hay`.
pub uninterp spec fn pattern_finds(p: Seq<char>, hay: Seq<char>) -> bool;

/// Relies on `regex::Regex::new`, which compiles the pattern or fails, and on
/// `regex::Regex::is_match`, which tells whether the compiled pattern matches
/// anywhere in the haystack.
#[verifier::external_body]
fn regex_search(pattern: &str, haystack: &str) -> (r: Option<bool>)
    ensures
        r is Some <==> pattern_compiles(pattern@),
        r matches Some(b) ==> b == pattern_finds(pattern@, haystack@),
{
    match regex::Regex::new(pattern) {
        Ok(re) => Some(re.is_match(haystack)),
        Err(_) => None,
    }
}

/// The characters that mark a tag filter as a pattern rather than a literal.
pub open spec fn is_pattern_char(c: char) -> bool {
    c == '.' || c == '*' || c == '+' || c == '?' || c == '[' || c == ']' || c == '{' || c == '}' || c
        == '(' || c == ')' || c == '|' || c == '\\' || c == '^' || c == '$'
}

/// Whether the filter `f` holds a pattern character.
pub open spec fn looks_like_pattern(f: Seq<char>) -> bool {
    exists|k: int| 0 <= k < f.len() && is_pattern_char(#[trigger] f[k])
}

/// A pattern anchored at the start of the tag.
pub open spec fn anchored(f: Seq<char>) -> Seq<char> {
    if f.len() > 0 && f[0] == '^' {
        f
    } else {
        seq!['^'] + f
    }
}

/// Whether `tag` passes the one filter `raw` (trimmed first): a pattern must
/// compile and match from the tag's start; a literal must occur in the tag.
pub open spec fn tag_matches_filter(tag: Seq<char>, raw: Seq<char>) -> bool {
    let f = trimmed(raw);
    if looks_like_pattern(f) {
        pattern_compiles(anchored(f)) && pattern_finds(anchored(f), tag)
    } else {
        holds_lit(tag, f)
    }
}

/// Whether `tag` passes one of the filters `tags`.
pub open spec fn matching_tag(tag: Seq<char>, tags: Seq<Seq<char>>) -> bool {
    exists|i: int| 0 <= i < tags.len() && tag_matches_filter(tag, #[trigger] tags[i])
}

fn pattern_like(f: &Vec<char>) -> (b: bool)
    ensures
        b == looks_like_pattern(f@),
{
    let mut i: usize = 0;
    while i < f.len()
        invariant
            i <= f@.len(),
            forall|k: int| 0 <= k < i ==> !is_pattern_char(f@[k]),
        decreases f@.len() - i,
    {
        let c = f[i];
        if c == '.' || c == '*' || c == '+' || c == '?' || c == '[' || c == ']' || c == '{' || c == '}'
            || c == '(' || c == ')' || c == '|' || c == '\\' || c == '^' || c == '$' {
            return true;
        }
        i += 1;
    }
    false
}

fn holds_chars(hay: &Vec<char>, f: &Vec<char>) -> (b: bool)
    ensures
        b == holds_lit(hay@, f@),
{
    let fs = string_of(f.as_slice());
    let mut i: usize = 0;
    while i <= hay.len()
        invariant
            fs@ == f@,
            forall|k: int| 0 <= k < i ==> !lit_at(hay@, k, f@),
        decreases hay@.len() + 1 - i,
    {
        if has_lit_at(hay, i, fs.as_str()) {
            return true;
        }
        if i == hay.len() {
            proof {
                assert forall|k: int| !lit_at(hay@, k, f@) by {
                    if k > hay@.len() {
                        assert(!lit_at(hay@, k, f@));
                    }
                }
            }
            return false;
        }
        i += 1;
    }
    false
}

/// Whether `tag` passes the filter `raw`; see `tag_matches_filter`.
pub fn is_matching_filter(tag: &str, raw: &String) -> (b: bool)
    ensures
        b == tag_matches_filter(tag@, raw@),
{
    let f = trim_chars(&chars_of(raw.as_str()));
    if pattern_like(&f) {
        let pattern: Vec<char> = if f.len() > 0 && f[0] == '^' {
            f
        } else {
            let mut p: Vec<char> = Vec::new();
            p.push('^');
            crate::text::append_chars(&mut p, &f);
            proof {
                assert(p@ =~= seq!['^'] + f@);
            }
            p
        };
        let ps = string_of(pattern.as_slice());
        match regex_search(ps.as_str(), tag) {
            Some(b) => b,
            None => false,
        }
    } else {
        holds_chars(&chars_of(tag), &f)
    }
}

/// Whether `tag` passes one of the filters `tags`; see `matching_tag`.
pub fn is_matching_tag(tag: &str, tags: &[String]) -> (b: bool)
    ensures
        b == matching_tag(tag@, strings_view(tags@)),
{
    let mut i: usize = 0;
    while i < tags.len()
        invariant
            i <= tags@.len(),
            forall|k: int| 0 <= k < i ==> !tag_matches_filter(tag@, #[trigger] strings_view(tags@)[k]),
        decreases tags@.len() - i,
    {
        if is_matching_filter(tag, &tags[i]) {
            proof {
                assert(tag_matches_filter(tag@, strings_view(tags@)[i as int]));
            }
            return true;
        }
        i += 1;
    }
    false
}

/// A tag filter list with the verdicts given so far, so that each tag is judged
/// once: `None` is no filter.
pub struct TagFilter {
    pub patterns: Option<Vec<String>>,
    pub verdicts: Vec<(String, bool)>,
}

/// Whether the filter list `patterns` (if any) takes `tag`.
pub open spec fn filter_takes(patterns: Option<Vec<String>>, tag: Seq<char>) -> bool {
    match patterns {
        Some(v) => matching_tag(tag, strings_view(v@)),
        None => false,
    }
}

impl TagFilter {
    /// Every memoized verdict is the filter's verdict on its tag.
    pub open spec fn wf(&self) -> bool {
        forall|i: int|
            0 <= i < self.verdicts@.len() ==> (#[trigger] self.verdicts@[i]).1 == filter_takes(
                self.patterns,
                self.verdicts@[i].0@,
            )
    }

    /// A filter for the list `patterns`, with no verdict given yet.
    pub fn new(patterns: Option<Vec<String>>) -> (r: TagFilter)
        ensures
            r.wf(),
            r.patterns == patterns,
    {
        TagFilter { patterns, verdicts: Vec::new() }
    }

    /// Whether a list is set.
    pub fn is_set(&self) -> (b: bool)
        ensures
            b == self.patterns is Some,
    {
        self.patterns.is_some()
    }

    /// Whether the list takes `tag`; a tag seen before is answered from the memo.
    pub fn takes(&mut self, tag: &str) -> (b: bool)
        requires
            old(self).wf(),
        ensures
            final(self).wf(),
            final(self).patterns == old(self).patterns,
            b == filter_takes(old(self).patterns, tag@),
            old(self).patterns is None ==> *final(self) == *old(self),
    {
        if self.patterns.is_none() {
            return false;
        }
        let key = tag.to_owned();
        let mut i: usize = 0;
        while i < self.verdicts.len()
            invariant
                i <= self.verdicts@.len(),
                self.wf(),
                self.patterns == old(self).patterns,
                key@ == tag@,
            decreases self.verdicts@.len() - i,
        {
            if self.verdicts[i].0 == key {
                proof {
                    assert(self.verdicts@[i as int].1 == filter_takes(self.patterns, self.verdicts@[i as int].0@));
                }
                return self.verdicts[i].1;
            }
            i += 1;
        }
        let b = match &self.patterns {
            Some(v) => is_matching_tag(tag, v.as_slice()),
            None => false,
        };
        self.verdicts.push((key, b));
        proof {
            assert forall|k: int| 0 <= k < self.verdicts@.len() implies (#[trigger] self.verdicts@[k]).1
                == filter_takes(self.patterns, self.verdicts@[k].0@) by {
                if k < self.verdicts@.len() - 1 {
                    assert(self.verdicts@[k] == old(self).verdicts@[k]);
                }
            }
        }
        b
    }
}

} // verus!
