//! Incremental search: find the next entry whose lowercased name contains
//! the lowercased pattern, scanning circularly from the cursor.

use vstd::prelude::*;
use vstd::string::StringExecFns;
use crate::state::{App, DirEntryInfo};
use crate::textutil::{contains_sub, has_substring, lower_of, to_lower};

verus! {

/// An entry matches when its lowercased name contains the lowered pattern.
pub open spec fn entry_matches(e: DirEntryInfo, pat_low: Seq<char>) -> bool {
    has_substring(lower_of(e.name@), pat_low)
}

/// The index visited at step `p` of a circular scan of `len` entries from
/// `start`: forward or backward, wrapping once.
pub open spec fn scan_idx(start: int, p: int, len: int, backwards: bool) -> int {
    if backwards {
        if p <= start {
            start - p
        } else {
            start + len - p
        }
    } else {
        if start + p < len {
            start + p
        } else {
            start + p - len
        }
    }
}

/// The first match of a circular scan from `start`, if any: the index of the
/// earliest step whose entry matches.
pub open spec fn spec_find_match(
    entries: Seq<DirEntryInfo>,
    start: int,
    pat_low: Seq<char>,
    backwards: bool,
    p: int,
) -> Option<int>
    decreases entries.len() - p,
{
    if p < 0 || p >= entries.len() {
        None
    } else if entry_matches(entries[scan_idx(start, p, entries.len() as int, backwards)], pat_low) {
        Some(scan_idx(start, p, entries.len() as int, backwards))
    } else {
        spec_find_match(entries, start, pat_low, backwards, p + 1)
    }
}

impl App {
    /// Search the entry list circularly from `start` for the first entry
    /// whose lowercased name contains the lowercased pattern; an empty list
    /// or pattern finds nothing.
    pub fn find_match_from(&self, start: usize, pat: &str, backwards: bool) -> (r: Option<usize>)
        requires
            self.wf(),
            self.current_entries@.len() == 0 || start < self.current_entries@.len(),
        ensures
            ({
                let found = spec_find_match(
                    self.current_entries@,
                    start as int,
                    lower_of(pat@),
                    backwards,
                    0,
                );
                if self.current_entries@.len() == 0 || pat@.len() == 0 {
                    r is None
                } else {
                    match r {
                        Some(i) => found == Some(i as int),
                        None => found is None,
                    }
                }
            }),
    {
        let len = self.current_entries.len();
        if len == 0 || pat.unicode_len() == 0 {
            return None;
        }
        let pat_l = to_lower(pat);
        let mut p: usize = 0;
        while p < len
            invariant
                self.wf(),
                len == self.current_entries@.len(),
                0 < len,
                start < len,
                pat@.len() > 0,
                pat_l@ == lower_of(pat@),
                p <= len,
                spec_find_match(self.current_entries@, start as int, lower_of(pat@), backwards, 0)
                    == spec_find_match(
                    self.current_entries@,
                    start as int,
                    lower_of(pat@),
                    backwards,
                    p as int,
                ),
            decreases len - p,
        {
            let idx: usize = if backwards {
                if p <= start {
                    start - p
                } else {
                    len - (p - start)
                }
            } else {
                if p < len - start {
                    start + p
                } else {
                    p - (len - start)
                }
            };
            proof {
                assert(idx as int == scan_idx(start as int, p as int, len as int, backwards));
            }
            let low_name = to_lower(self.current_entries[idx].name.as_str());
            if contains_sub(low_name.as_str(), pat_l.as_str()) {
                proof {
                    assert(entry_matches(self.current_entries@[idx as int], lower_of(pat@)));
                    assert(spec_find_match(
                        self.current_entries@,
                        start as int,
                        lower_of(pat@),
                        backwards,
                        p as int,
                    ) == Some(idx as int));
                }
                return Some(idx);
            }
            p += 1;
        }
        None
    }

    /// Re-run the live search for pattern `q` from the cursor (inclusive):
    /// the cursor moves to the first match when one exists. Reports whether
    /// the selection changed, so the caller refreshes the preview.
    pub fn update_search_live(&mut self, q: &str) -> (moved: bool)
        requires
            old(self).wf(),
        ensures
            final(self).wf(),
            !moved ==> *final(self) == *old(self),
            moved ==> ({
                let start = match old(self).selected_index {
                    Some(i) => i as int,
                    None => 0,
                };
                let found = spec_find_match(
                    old(self).current_entries@,
                    start,
                    lower_of(q@),
                    false,
                    0,
                );
                &&& found matches Some(i) && final(self).selected_index == Some(i as usize)
                &&& *final(self) == (App {
                    selected_index: final(self).selected_index,
                    ..*old(self)
                })
            }),
            moved == (q@.len() > 0 && old(self).current_entries@.len() > 0 && spec_find_match(
                old(self).current_entries@,
                match old(self).selected_index {
                    Some(i) => i as int,
                    None => 0,
                },
                lower_of(q@),
                false,
                0,
            ) is Some),
    {
        if q.unicode_len() == 0 {
            return false;
        }
        let len = self.current_entries.len();
        if len == 0 {
            return false;
        }
        let start = match self.selected_index {
            Some(i) => i,
            None => 0,
        };
        match self.find_match_from(start, q, false) {
            Some(i) => {
                self.selected_index = Some(i);
                proof {
                    let found = spec_find_match(
                        old(self).current_entries@,
                        start as int,
                        lower_of(q@),
                        false,
                        0,
                    );
                    lemma_find_match_in_bounds(
                        old(self).current_entries@,
                        start as int,
                        lower_of(q@),
                        false,
                        0,
                    );
                }
                true
            },
            None => false,
        }
    }
}

/// A found match is an in-bounds index of a matching entry.
pub proof fn lemma_find_match_in_bounds(
    entries: Seq<DirEntryInfo>,
    start: int,
    pat_low: Seq<char>,
    backwards: bool,
    p: int,
)
    requires
        0 <= start < entries.len() || entries.len() == 0,
    ensures
        match spec_find_match(entries, start, pat_low, backwards, p) {
            Some(i) => 0 <= i < entries.len() && entry_matches(entries[i], pat_low),
            None => true,
        },
    decreases entries.len() - p,
{
    if 0 <= p < entries.len() {
        if !entry_matches(entries[scan_idx(start, p, entries.len() as int, backwards)], pat_low) {
            lemma_find_match_in_bounds(entries, start, pat_low, backwards, p + 1);
        }
    }
}

} // verus!
