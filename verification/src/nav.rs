//! Directory navigation: the path model (slash-separated, normalized, no
//! trailing slash except the root), session bootstrap, and re-seating the
//! cursor after the entry lists are rebuilt.

use vstd::prelude::*;
use vstd::string::StringExecFns;
use vstd::string::StrSliceExecFns;
use crate::state::{App, Config, DirEntryInfo, NavPending, Overlay, PreviewState, InfoMode,
    DisplayMode, SortKey};
use crate::keyseq::KeyState;
use crate::entries::{sort_entries, sorted_entries};

verus! {

/// The index of the last slash in `p`, or minus one.
pub open spec fn last_slash_at(p: Seq<char>) -> int
    decreases p.len(),
{
    if p.len() == 0 {
        -1
    } else if p[p.len() - 1] == '/' {
        p.len() - 1
    } else {
        last_slash_at(p.drop_last())
    }
}

proof fn lemma_last_slash_bounds(p: Seq<char>)
    ensures
        -1 <= last_slash_at(p) < p.len(),
        last_slash_at(p) >= 0 ==> p[last_slash_at(p)] == '/',
        forall|j: int| last_slash_at(p) < j < p.len() ==> p[j] != '/',
    decreases p.len(),
{
    if p.len() > 0 && p[p.len() - 1] != '/' {
        lemma_last_slash_bounds(p.drop_last());
        assert forall|j: int| last_slash_at(p) < j < p.len() implies p[j] != '/' by {
            if j < p.len() - 1 {
                assert(p.drop_last()[j] == p[j]);
            }
        }
        if last_slash_at(p) >= 0 {
            assert(p.drop_last()[last_slash_at(p)] == p[last_slash_at(p)]);
        }
    }
}

/// The parent directory of `p`, if it has one: the text before the last
/// slash (the root for a top-level entry, nothing for the root itself or a
/// path without slashes).
pub open spec fn spec_parent(p: Seq<char>) -> Option<Seq<char>> {
    let i = last_slash_at(p);
    if i < 0 {
        None
    } else if i == 0 {
        if p.len() == 1 {
            None
        } else {
            Some(seq!['/'])
        }
    } else {
        Some(p.subrange(0, i))
    }
}

/// The final component of `p`: the text after the last slash, or the whole
/// path when it has none; nothing when `p` ends in a slash.
pub open spec fn spec_file_name(p: Seq<char>) -> Option<Seq<char>> {
    let i = last_slash_at(p);
    if p.len() == 0 || i == p.len() - 1 {
        None
    } else {
        Some(p.subrange(i + 1, p.len() as int))
    }
}

/// `dir` with `name` appended as one more component.
pub open spec fn spec_join(dir: Seq<char>, name: Seq<char>) -> Seq<char> {
    if dir.len() > 0 && dir[dir.len() - 1] == '/' {
        dir + name
    } else {
        dir + seq!['/'] + name
    }
}

/// Find the last slash in `p`.
pub fn find_last_slash(p: &str) -> (r: Option<usize>)
    ensures
        match r {
            Some(i) => i as int == last_slash_at(p@),
            None => last_slash_at(p@) == -1,
        },
{
    proof {
        lemma_last_slash_bounds(p@);
    }
    let n = p.unicode_len();
    let mut i: usize = n;
    while i > 0
        invariant
            n == p@.len(),
            i <= n,
            forall|j: int| i <= j < n ==> p@[j] != '/',
        decreases i,
    {
        if p.get_char(i - 1) == '/' {
            proof {
                lemma_last_slash_bounds(p@);
                let ls = last_slash_at(p@);
                if ls < i - 1 {
                    assert(p@[i - 1] != '/');
                }
                if ls > i - 1 {
                    assert(p@[ls] != '/');
                }
            }
            return Some(i - 1);
        }
        i -= 1;
    }
    proof {
        lemma_last_slash_bounds(p@);
        if last_slash_at(p@) >= 0 {
            assert(p@[last_slash_at(p@)] != '/');
        }
    }
    None
}

/// The parent directory of `p`, per the session's path model.
pub fn parent_of(p: &str) -> (r: Option<String>)
    ensures
        match r {
            Some(q) => spec_parent(p@) == Some(q@),
            None => spec_parent(p@) is None,
        },
{
    let n = p.unicode_len();
    match find_last_slash(p) {
        None => None,
        Some(i) => {
            if i == 0 {
                if n == 1 {
                    None
                } else {
                    let mut root = String::new();
                    crate::textutil::push_char(&mut root, '/');
                    proof {
                        assert(root@ =~= seq!['/']);
                    }
                    Some(root)
                }
            } else {
                proof {
                    lemma_last_slash_bounds(p@);
                }
                Some(p.substring_char(0, i).to_owned())
            }
        },
    }
}

/// The final component of `p`, per the session's path model.
pub fn file_name_of(p: &str) -> (r: Option<String>)
    ensures
        match r {
            Some(q) => spec_file_name(p@) == Some(q@),
            None => spec_file_name(p@) is None,
        },
{
    let n = p.unicode_len();
    if n == 0 {
        return None;
    }
    proof {
        lemma_last_slash_bounds(p@);
    }
    match find_last_slash(p) {
        None => Some(p.substring_char(0, n).to_owned()),
        Some(i) => {
            if i == n - 1 {
                None
            } else {
                Some(p.substring_char(i + 1, n).to_owned())
            }
        },
    }
}

/// Append `name` to `dir` as one more path component.
pub fn join_path(dir: &str, name: &str) -> (r: String)
    ensures
        r@ == spec_join(dir@, name@),
{
    let n = dir.unicode_len();
    let mut r = dir.to_owned();
    if n == 0 || dir.get_char(n - 1) != '/' {
        crate::textutil::push_char(&mut r, '/');
        proof {
            assert(r@ =~= dir@ + seq!['/']);
        }
    }
    r.append(name);
    proof {
        if dir@.len() > 0 && dir@[dir@.len() - 1] == '/' {
        } else {
            assert(dir@ + seq!['/'] + name@ =~= (dir@ + seq!['/']) + name@);
        }
    }
    r
}

/// Law: descending into a component and ascending again is a round trip.
/// For a normalized directory `dir` and a component `name` without slashes,
/// the joined path's parent is `dir` again and its final component is
/// `name`: ascending from the joined path computes the directory it was
/// entered from and remembers the component's name, so the cursor can be
/// re-seated on the entry named `name` when it still exists.
pub proof fn lemma_descend_ascend_round_trip(dir: Seq<char>, name: Seq<char>)
    requires
        name.len() > 0,
        forall|j: int| 0 <= j < name.len() ==> name[j] != '/',
        dir.len() > 0,
        dir[dir.len() - 1] == '/' ==> dir =~= seq!['/'],
    ensures
        spec_parent(spec_join(dir, name)) == Some(dir),
        spec_file_name(spec_join(dir, name)) == Some(name),
{
    let p = spec_join(dir, name);
    if dir.len() == 1 && dir[0] == '/' {
        assert(p =~= seq!['/'] + name);
        assert(last_slash_at(p) == 0) by {
            lemma_last_slash_no_slash_suffix(p, 0);
        }
        assert(p.subrange(1, p.len() as int) =~= name);
        assert(Some(p.subrange(1, p.len() as int)) == Some(name));
        assert(seq!['/'] =~= dir);
    } else {
        assert(dir[dir.len() - 1] != '/');
        assert(p =~= dir + seq!['/'] + name);
        assert(p[dir.len() as int] == '/');
        assert(last_slash_at(p) == dir.len()) by {
            lemma_last_slash_no_slash_suffix(p, dir.len() as int);
        }
        assert(p.subrange(0, dir.len() as int) =~= dir);
        assert(p.subrange(dir.len() as int + 1, p.len() as int) =~= name);
    }
}

/// If `p[i]` is a slash and nothing after it is, the last slash is at `i`.
proof fn lemma_last_slash_no_slash_suffix(p: Seq<char>, i: int)
    requires
        0 <= i < p.len(),
        p[i] == '/',
        forall|j: int| i < j < p.len() ==> p[j] != '/',
    ensures
        last_slash_at(p) == i,
    decreases p.len(),
{
    if p.len() - 1 == i {
    } else {
        assert(p[p.len() - 1] != '/');
        assert(p.drop_last()[i] == p[i]);
        assert forall|j: int| i < j < p.drop_last().len() implies p.drop_last()[j] != '/' by {
            assert(p.drop_last()[j] == p[j]);
        }
        lemma_last_slash_no_slash_suffix(p.drop_last(), i);
    }
}

/// Whether some entry's path equals `p`.
pub open spec fn path_in(entries: Seq<DirEntryInfo>, p: Seq<char>) -> bool {
    exists|k: int| 0 <= k < entries.len() && entries[k].path@ == p
}

/// The paths of `sel` whose entry is still listed, in order.
pub open spec fn keep_present(sel: Seq<String>, entries: Seq<DirEntryInfo>) -> Seq<String>
    decreases sel.len(),
{
    if sel.len() == 0 {
        Seq::<String>::empty()
    } else if path_in(entries, sel[0]@) {
        seq![sel[0]] + keep_present(sel.skip(1), entries)
    } else {
        keep_present(sel.skip(1), entries)
    }
}

proof fn lemma_keep_present_snoc(sel: Seq<String>, x: String, entries: Seq<DirEntryInfo>)
    ensures
        path_in(entries, x@) ==> keep_present(sel.push(x), entries) == keep_present(
            sel,
            entries,
        ).push(x),
        !path_in(entries, x@) ==> keep_present(sel.push(x), entries) == keep_present(sel, entries),
    decreases sel.len(),
{
    if sel.len() == 0 {
        assert(sel.push(x)[0] == x);
        assert(sel.push(x).skip(1) =~= Seq::<String>::empty());
        assert(keep_present(Seq::<String>::empty(), entries) =~= Seq::<String>::empty());
        if path_in(entries, x@) {
            assert(keep_present(sel.push(x), entries) =~= seq![x]);
            assert(keep_present(sel, entries).push(x) =~= seq![x]);
        }
    } else {
        assert(sel.push(x)[0] == sel[0]);
        assert(sel.push(x).skip(1) =~= sel.skip(1).push(x));
        lemma_keep_present_snoc(sel.skip(1), x, entries);
        if path_in(entries, x@) {
            if path_in(entries, sel[0]@) {
                assert(seq![sel[0]] + keep_present(sel.skip(1), entries).push(x) =~= (seq![sel[0]]
                    + keep_present(sel.skip(1), entries)).push(x));
            }
        }
    }
}

/// Whether some listed entry has path `p`.
pub fn path_in_exec(entries: &Vec<DirEntryInfo>, p: &String) -> (r: bool)
    ensures
        r == path_in(entries@, p@),
{
    let mut k: usize = 0;
    while k < entries.len()
        invariant
            k <= entries@.len(),
            forall|j: int| 0 <= j < k ==> entries@[j].path@ != p@,
        decreases entries@.len() - k,
    {
        if entries[k].path == *p {
            return true;
        }
        k += 1;
    }
    false
}

/// The first index whose entry is named `name`, if any.
pub fn position_of_name(entries: &Vec<DirEntryInfo>, name: &String) -> (r: Option<usize>)
    ensures
        match r {
            Some(i) => i < entries@.len() && entries@[i as int].name@ == name@ && (forall|j: int|
                0 <= j < i ==> entries@[j].name@ != name@),
            None => forall|j: int| 0 <= j < entries@.len() ==> entries@[j].name@ != name@,
        },
{
    let mut k: usize = 0;
    while k < entries.len()
        invariant
            k <= entries@.len(),
            forall|j: int| 0 <= j < k ==> entries@[j].name@ != name@,
        decreases entries@.len() - k,
    {
        if entries[k].name == *name {
            return Some(k);
        }
        k += 1;
    }
    None
}

impl App {
    /// Start a session: entries are sorted into the initial listing order
    /// (directories first, case-insensitive names), the cursor sits on the
    /// first entry when there is one, and everything else is empty or off.
    pub fn new(cwd: String, current_raw: Vec<DirEntryInfo>, parent_raw: Vec<DirEntryInfo>) -> (r:
        App)
        ensures
            r.wf(),
            r.cwd == cwd,
            r.current_entries@.to_multiset() == current_raw@.to_multiset(),
            sorted_entries(r.current_entries@),
            r.parent_entries@.to_multiset() == parent_raw@.to_multiset(),
            sorted_entries(r.parent_entries@),
            r.current_entries@.len() > 0 ==> r.selected_index == Some(0usize),
            r.current_entries@.len() == 0 ==> r.selected_index is None,
            r.overlay matches Overlay::Idle,
            !r.should_quit,
            r.preview.static_lines@.len() == 0 && r.preview.cache_key is None
                && r.preview.cache_lines is None && r.preview.content is None,
            r.recent_messages@.len() == 0,
            r.selected@.len() == 0,
            r.clipboard is None,
            r.sort_key == SortKey::Name,
            !r.sort_reverse,
            r.info_mode == InfoMode::Off,
            r.display_mode == DisplayMode::Absolute,
            r.search_query is None,
            r.marks@.len() == 0,
            !r.pending_mark,
            !r.pending_goto,
            r.running_preview is None,
            r.command_names@.len() == 0,
            r.nav matches NavPending::Keep,
            !r.previewer_configured,
            !r.force_full_redraw,
            r.keys.maps@.len() == 0 && r.keys.pending@.len() == 0 && r.keys.last_at is None,
    {
        let mut current = current_raw;
        sort_entries(&mut current);
        let mut parent = parent_raw;
        sort_entries(&mut parent);
        let selected_index = if current.len() > 0 {
            Some(0usize)
        } else {
            None
        };
        App {
            cwd,
            current_entries: current,
            parent_entries: parent,
            selected_index,
            preview: PreviewState::default(),
            recent_messages: Vec::new(),
            overlay: Overlay::Idle,
            config: Config::default(),
            keys: KeyState::new(),
            force_full_redraw: false,
            selected: Vec::new(),
            clipboard: None,
            sort_key: SortKey::Name,
            sort_reverse: false,
            info_mode: InfoMode::Off,
            display_mode: DisplayMode::Absolute,
            should_quit: false,
            search_query: None,
            marks: Vec::new(),
            pending_mark: false,
            pending_goto: false,
            running_preview: None,
            command_names: Vec::new(),
            nav: NavPending::Keep,
            previewer_configured: false,
        }
    }

    /// Install freshly listed entries. The cursor is re-seated as the pending
    /// navigation asks: reset to the top after descending; onto the first
    /// entry carrying the remembered name after ascending (the top if it is
    /// gone); otherwise clamped to the new list. The multi-selection keeps
    /// exactly the paths that are still listed.
    pub fn apply_lists(&mut self, current: Vec<DirEntryInfo>, parent: Vec<DirEntryInfo>)
        requires
            old(self).wf(),
        ensures
            final(self).wf(),
            final(self).current_entries == current,
            final(self).parent_entries == parent,
            final(self).nav matches NavPending::Keep,
            final(self).selected@ == keep_present(old(self).selected@, current@),
            match old(self).nav {
                NavPending::ResetSelection => final(self).selected_index == (if current@.len() > 0 {
                    Some(0usize)
                } else {
                    None
                }),
                NavPending::Reselect { name } => {
                    if exists|k: int| 0 <= k < current@.len() && current@[k].name@ == name@ {
                        final(self).selected_index matches Some(i) && i < current@.len()
                            && current@[i as int].name@ == name@ && forall|j: int|
                            0 <= j < i ==> current@[j].name@ != name@
                    } else {
                        final(self).selected_index == (if current@.len() > 0 {
                            Some(0usize)
                        } else {
                            None
                        })
                    }
                },
                NavPending::Keep => final(self).selected_index == (match old(self).selected_index {
                    Some(i) => if i < current@.len() {
                        Some(i)
                    } else if current@.len() > 0 {
                        Some((current@.len() - 1) as usize)
                    } else {
                        None
                    },
                    None => None,
                }),
            },
            *final(self) == (App {
                current_entries: final(self).current_entries,
                parent_entries: final(self).parent_entries,
                selected_index: final(self).selected_index,
                selected: final(self).selected,
                nav: NavPending::Keep,
                ..*old(self)
            }),
    {
        let new_index: Option<usize> = match &self.nav {
            NavPending::ResetSelection => {
                if current.len() > 0 {
                    Some(0)
                } else {
                    None
                }
            },
            NavPending::Reselect { name } => {
                match position_of_name(&current, name) {
                    Some(i) => Some(i),
                    None => {
                        if current.len() > 0 {
                            Some(0)
                        } else {
                            None
                        }
                    },
                }
            },
            NavPending::Keep => {
                match self.selected_index {
                    Some(i) => {
                        if i < current.len() {
                            Some(i)
                        } else if current.len() > 0 {
                            Some(current.len() - 1)
                        } else {
                            None
                        }
                    },
                    None => None,
                }
            },
        };
        let mut kept: Vec<String> = Vec::new();
        let mut s: usize = 0;
        proof {
            assert(self.selected@.subrange(0, 0) =~= Seq::<String>::empty());
        }
        while s < self.selected.len()
            invariant
                s <= self.selected@.len(),
                kept@ == keep_present(self.selected@.subrange(0, s as int), current@),
            decreases self.selected@.len() - s,
        {
            proof {
                assert(self.selected@.subrange(0, s as int + 1) =~= self.selected@.subrange(
                    0,
                    s as int,
                ).push(self.selected@[s as int]));
                lemma_keep_present_snoc(
                    self.selected@.subrange(0, s as int),
                    self.selected@[s as int],
                    current@,
                );
            }
            if path_in_exec(&current, &self.selected[s]) {
                let p = self.selected[s].clone();
                kept.push(p);
            }
            s += 1;
        }
        proof {
            assert(self.selected@.subrange(0, self.selected@.len() as int) =~= self.selected@);
        }
        self.current_entries = current;
        self.parent_entries = parent;
        self.selected_index = new_index;
        self.selected = kept;
        self.nav = NavPending::Keep;
    }
}

} // verus!
