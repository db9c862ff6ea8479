//! The session state: directory entries, selection, overlays, preview state,
//! marks, clipboard, and configuration, with the invariants that every
//! handler preserves.

use vstd::prelude::*;
use vstd::string::StringExecFns;
use crate::keyseq::KeyState;
use crate::textutil::{spec_trim, spec_lines, remove_char, trim_spaces, split_lines, strip_char, lower_of, push_char, to_lower};

verus! {

/// One directory entry, an immutable snapshot at read time. Paths are plain
/// strings; timestamps are seconds so the logic can order and render them.
pub struct DirEntryInfo {
    pub name: String,
    pub path: String,
    pub is_dir: bool,
    pub size: u64,
    pub mtime: Option<u64>,
    pub ctime: Option<u64>,
}

/// One selectable theme file, by name and path; parsing the file is the
/// caller's concern.
pub struct ThemePickerEntry {
    pub name: String,
    pub path: String,
}

/// The theme picker overlay: its entries, the hovered index, and the theme
/// path to restore on cancel.
pub struct ThemePickerState {
    pub entries: Vec<ThemePickerEntry>,
    pub selected: usize,
    pub original_theme_path: Option<String>,
}

/// Which overlay owns keyboard focus; at most one is active. `Idle` is the
/// default navigation state with no overlay open.
pub enum Overlay {
    Idle,
    WhichKey { prefix: String },
    Messages,
    Output { title: String, lines: Vec<String> },
    ThemePicker(Box<ThemePickerState>),
    Prompt(Box<PromptState>),
    Confirm(Box<ConfirmState>),
    CommandPane(Box<CommandPaneState>),
}

/// Dynamic preview content: text lines, or an image to render by path.
pub enum PreviewContent {
    Text(Vec<String>),
    Image(String),
}

/// The preview pane's state: the static snapshot and the viewport-bound
/// cache. `cache_key` is `Some` only when `cache_lines` and `content` reflect
/// exactly that `(path, width, height)`.
pub struct PreviewState {
    pub static_lines: Vec<String>,
    pub cache_key: Option<(String, u16, u16)>,
    pub cache_lines: Option<Vec<String>>,
    pub content: Option<PreviewContent>,
}

impl Default for PreviewState {
    /// An empty preview: no snapshot, no cache, no content.
    fn default() -> (r: PreviewState)
        ensures
            r.static_lines@.len() == 0,
            r.cache_key is None,
            r.cache_lines is None,
            r.content is None,
    {
        PreviewState { static_lines: Vec::new(), cache_key: None, cache_lines: None, content: None }
    }
}

/// What a prompt overlay commits on Enter.
pub enum PromptKind {
    AddEntry,
    RenameEntry { from: String },
    RenameMany { items: Vec<String>, pre: String, suf: String },
}

/// A single-line text prompt; the cursor is a character index into `input`.
pub struct PromptState {
    pub title: String,
    pub input: String,
    pub cursor: usize,
    pub kind: PromptKind,
}

/// Whether clipboard items are to be copied or moved.
#[derive(Clone, Copy, PartialEq, Eq, Structural, Debug)]
pub enum ClipboardOp {
    Copy,
    Move,
}

/// The clipboard: one operation over a list of paths, replaced wholesale.
pub struct Clipboard {
    pub op: ClipboardOp,
    pub items: Vec<String>,
}

/// What a confirm overlay authorizes.
pub enum ConfirmKind {
    DeleteSelected(Vec<String>),
}

/// A yes/no modal carrying a typed payload.
pub struct ConfirmState {
    pub title: String,
    pub question: String,
    pub default_yes: bool,
    pub kind: ConfirmKind,
}

/// The command pane (`:` command line or `/` search); the cursor is a
/// character index into `input`.
pub struct CommandPaneState {
    pub prompt: String,
    pub input: String,
    pub cursor: usize,
    pub show_suggestions: bool,
}

/// Which metadata column the listing shows.
#[derive(Clone, Copy, PartialEq, Eq, Structural, Debug)]
pub enum InfoMode {
    Off,
    Size,
    Created,
    Modified,
}

/// How sizes and dates are rendered.
#[derive(Clone, Copy, PartialEq, Eq, Structural, Debug)]
pub enum DisplayMode {
    Absolute,
    Friendly,
}

/// The key the listing is ordered by.
#[derive(Clone, Copy, PartialEq, Eq, Structural, Debug)]
pub enum SortKey {
    Name,
    Size,
    MTime,
    CTime,
}

#[verifier::external_type_specification]
#[verifier::external_body]
#[verifier::reject_recursive_types(T)]
pub struct ExReceiver<T>(std::sync::mpsc::Receiver<T>);

/// A live streaming preview: the receiving end of the channel its background
/// reader feeds. Its presence preempts all other preview computation.
pub struct RunningPreview {
    pub rx: std::sync::mpsc::Receiver<Option<String>>,
}

/// Key-handling configuration.
pub struct KeysConfig {
    pub sequence_timeout_ms: u64,
}

/// Display configuration the session logic reads. Theme contents are the
/// caller's concern; the logic tracks only the selected theme file's path.
pub struct UiConfig {
    pub show_hidden: bool,
    pub date_format: Option<String>,
    pub theme_path: Option<String>,
    pub header_left: Option<String>,
    pub header_right: Option<String>,
}

/// Session configuration.
pub struct Config {
    pub ui: UiConfig,
    pub keys: KeysConfig,
}

impl Default for Config {
    /// Everything off or unset; the chord timeout starts at one second.
    fn default() -> (r: Config)
        ensures
            !r.ui.show_hidden,
            r.ui.date_format is None,
            r.ui.theme_path is None,
            r.ui.header_left is None,
            r.ui.header_right is None,
            r.keys.sequence_timeout_ms == 1000,
    {
        Config {
            ui: UiConfig {
                show_hidden: false,
                date_format: None,
                theme_path: None,
                header_left: None,
                header_right: None,
            },
            keys: KeysConfig { sequence_timeout_ms: 1000 },
        }
    }
}


impl Clone for DirEntryInfo {
    fn clone(&self) -> (r: Self)
        ensures
            r == *self,
    {
        DirEntryInfo {
            name: self.name.clone(),
            path: self.path.clone(),
            is_dir: self.is_dir,
            size: self.size,
            mtime: self.mtime,
            ctime: self.ctime,
        }
    }
}

impl Clone for ThemePickerEntry {
    fn clone(&self) -> (r: Self)
        ensures
            r == *self,
    {
        ThemePickerEntry { name: self.name.clone(), path: self.path.clone() }
    }
}

impl Clone for KeysConfig {
    fn clone(&self) -> (r: Self)
        ensures
            r == *self,
    {
        KeysConfig { sequence_timeout_ms: self.sequence_timeout_ms }
    }
}

impl Clone for UiConfig {
    fn clone(&self) -> (r: Self)
        ensures
            r == *self,
    {
        UiConfig {
            show_hidden: self.show_hidden,
            date_format: self.date_format.clone(),
            theme_path: self.theme_path.clone(),
            header_left: self.header_left.clone(),
            header_right: self.header_right.clone(),
        }
    }
}

impl Clone for Config {
    fn clone(&self) -> (r: Self)
        ensures
            r == *self,
    {
        Config { ui: self.ui.clone(), keys: self.keys.clone() }
    }
}

/// `v` clamped to the range from zero to `hi`.
pub open spec fn spec_clamp(v: int, hi: int) -> int {
    if v < 0 {
        0
    } else if v > hi {
        hi
    } else {
        v
    }
}

/// After the entry lists are rebuilt, how the cursor is re-seated.
pub enum NavPending {
    Keep,
    ResetSelection,
    Reselect { name: String },
}

/// The session state all handlers read and mutate.
pub struct App {
    pub cwd: String,
    pub current_entries: Vec<DirEntryInfo>,
    pub parent_entries: Vec<DirEntryInfo>,
    pub selected_index: Option<usize>,
    pub preview: PreviewState,
    pub recent_messages: Vec<String>,
    pub overlay: Overlay,
    pub config: Config,
    pub keys: KeyState,
    pub force_full_redraw: bool,
    pub selected: Vec<String>,
    pub clipboard: Option<Clipboard>,
    pub sort_key: SortKey,
    pub sort_reverse: bool,
    pub info_mode: InfoMode,
    pub display_mode: DisplayMode,
    pub should_quit: bool,
    pub search_query: Option<String>,
    pub marks: Vec<(char, String)>,
    pub pending_mark: bool,
    pub pending_goto: bool,
    pub running_preview: Option<RunningPreview>,
    pub command_names: Vec<String>,
    pub nav: NavPending,
    pub previewer_configured: bool,
}

impl App {
    /// The selection is `None` or in bounds; overlay cursors sit inside
    /// their inputs; the theme picker hovers an existing entry; the resolver
    /// tables are consistent.
    pub open spec fn wf(&self) -> bool {
        &&& match self.selected_index {
            Some(i) => i < self.current_entries@.len(),
            None => true,
        }
        &&& match self.overlay {
            Overlay::Prompt(st) => st.cursor <= st.input@.len(),
            Overlay::CommandPane(st) => st.cursor <= st.input@.len(),
            Overlay::ThemePicker(st) => st.entries@.len() > 0 ==> st.selected
                < st.entries@.len(),
            _ => true,
        }
        &&& self.keys.wf()
    }

    /// The currently selected entry, if any.
    pub open spec fn spec_selected_entry(&self) -> Option<DirEntryInfo> {
        match self.selected_index {
            Some(i) => if i < self.current_entries@.len() {
                Some(self.current_entries@[i as int])
            } else {
                None
            },
            None => None,
        }
    }

    /// The currently selected entry, if any.
    pub fn selected_entry(&self) -> (r: Option<&DirEntryInfo>)
        requires
            self.wf(),
        ensures
            match r {
                Some(e) => self.spec_selected_entry() == Some(*e),
                None => self.spec_selected_entry() is None,
            },
    {
        match self.selected_index {
            Some(i) => Some(&self.current_entries[i]),
            None => None,
        }
    }

    pub fn show_hidden(&self) -> (r: bool)
        ensures
            r == self.config.ui.show_hidden,
    {
        self.config.ui.show_hidden
    }

    pub fn get_date_format(&self) -> (r: Option<String>)
        ensures
            r == self.config.ui.date_format,
    {
        self.config.ui.date_format.clone()
    }

    pub fn set_force_full_redraw(&mut self, v: bool)
        ensures
            *final(self) == (App { force_full_redraw: v, ..*old(self) }),
    {
        self.force_full_redraw = v;
    }

    pub fn get_force_full_redraw(&self) -> (r: bool)
        ensures
            r == self.force_full_redraw,
    {
        self.force_full_redraw
    }

    pub fn get_show_messages(&self) -> (r: bool)
        ensures
            r == (self.overlay matches Overlay::Messages),
    {
        matches!(self.overlay, Overlay::Messages)
    }

    pub fn get_show_output(&self) -> (r: bool)
        ensures
            r == (self.overlay matches Overlay::Output { .. }),
    {
        matches!(self.overlay, Overlay::Output { .. })
    }

    pub fn get_show_whichkey(&self) -> (r: bool)
        ensures
            r == (self.overlay matches Overlay::WhichKey { .. }),
    {
        matches!(self.overlay, Overlay::WhichKey { .. })
    }

    /// The output overlay's title, or empty when it is not open.
    pub fn get_output_title(&self) -> (r: &str)
        ensures
            match self.overlay {
                Overlay::Output { title, .. } => r@ == title@,
                _ => r@ == Seq::<char>::empty(),
            },
    {
        proof {
            reveal_strlit("");
            assert(""@ =~= Seq::<char>::empty());
        }
        if let Overlay::Output { ref title, .. } = self.overlay {
            title.as_str()
        } else {
            ""
        }
    }

    pub fn get_list_selected_index(&self) -> (r: Option<usize>)
        ensures
            r == self.selected_index,
    {
        self.selected_index
    }

    pub fn get_quit(&self) -> (r: bool)
        ensures
            r == self.should_quit,
    {
        self.should_quit
    }

    pub fn get_sort_reverse(&self) -> (r: bool)
        ensures
            r == self.sort_reverse,
    {
        self.sort_reverse
    }

    pub fn set_sort_reverse(&mut self, v: bool)
        ensures
            *final(self) == (App { sort_reverse: v, ..*old(self) }),
    {
        self.sort_reverse = v;
    }

    pub fn get_display_mode(&self) -> (r: DisplayMode)
        ensures
            r == self.display_mode,
    {
        self.display_mode
    }

    pub fn get_info_mode(&self) -> (r: InfoMode)
        ensures
            r == self.info_mode,
    {
        self.info_mode
    }

    pub fn get_entry(&self, idx: usize) -> (r: Option<DirEntryInfo>)
        ensures
            idx < self.current_entries@.len() ==> r == Some(self.current_entries@[idx as int]),
            idx >= self.current_entries@.len() ==> r is None,
    {
        if idx < self.current_entries.len() {
            Some(self.current_entries[idx].clone())
        } else {
            None
        }
    }

    pub fn get_sort_key(&self) -> (r: SortKey)
        ensures
            r == self.sort_key,
    {
        self.sort_key
    }

    pub fn set_config(&mut self, cfg: Config)
        ensures
            *final(self) == (App { config: cfg, ..*old(self) }),
    {
        self.config = cfg;
    }

    pub fn get_config(&mut self) -> (r: Config)
        ensures
            *final(self) == *old(self),
            r == final(self).config,
    {
        self.config.clone()
    }

    pub fn get_cwd_path(&self) -> (r: String)
        ensures
            r@ == self.cwd@,
    {
        self.cwd.clone()
    }

    pub fn preview_line_count(&self) -> (r: usize)
        ensures
            r == self.preview.static_lines@.len(),
    {
        self.preview.static_lines.len()
    }

    pub fn recent_messages_len(&self) -> (r: usize)
        ensures
            r == self.recent_messages@.len(),
    {
        self.recent_messages.len()
    }

    /// Record a transient message: the trimmed text is appended unless empty,
    /// only the most recent hundred are kept, and a redraw is forced.
    pub fn add_message(&mut self, msg: &str)
        ensures
            spec_trim(msg@).len() == 0 ==> *final(self) == *old(self),
            spec_trim(msg@).len() > 0 ==> {
                let appended = old(self).recent_messages@.push(
                    final(self).recent_messages@.last(),
                );
                &&& final(self).recent_messages@.last()@ == spec_trim(msg@)
                &&& final(self).recent_messages@ == appended.skip(
                    if appended.len() > 100 { appended.len() - 100 } else { 0 },
                )
                &&& *final(self) == (App {
                    recent_messages: final(self).recent_messages,
                    force_full_redraw: true,
                    ..*old(self)
                })
            },
    {
        let m = trim_spaces(msg);
        if m.as_str().unicode_len() == 0 {
            return;
        }
        self.recent_messages.push(m);
        if self.recent_messages.len() > 100 {
            let ghost before = self.recent_messages@;
            let mut kept: Vec<String> = Vec::new();
            let start = self.recent_messages.len() - 100;
            let mut i = start;
            while i < self.recent_messages.len()
                invariant
                    self.recent_messages@ == before,
                    start == before.len() - 100,
                    start <= i <= before.len(),
                    kept@ =~= before.subrange(start as int, i as int),
                decreases self.recent_messages@.len() - i,
            {
                kept.push(self.recent_messages[i].clone());
                i += 1;
            }
            proof {
                assert(kept@ =~= before.skip(start as int));
            }
            self.recent_messages = kept;
        }
        self.force_full_redraw = true;
        proof {
            let appended = old(self).recent_messages@.push(self.recent_messages@.last());
            assert(self.recent_messages@ =~= appended.skip(
                if appended.len() > 100 { appended.len() - 100 } else { 0 },
            ));
        }
    }

    /// Drop all transient messages; a redraw is forced only if there was one.
    pub fn clear_recent_messages(&mut self)
        ensures
            old(self).recent_messages@.len() == 0 ==> *final(self) == *old(self),
            old(self).recent_messages@.len() > 0 ==> *final(self) == (App {
                recent_messages: final(self).recent_messages,
                force_full_redraw: true,
                ..*old(self)
            }) && final(self).recent_messages@.len() == 0,
    {
        if self.recent_messages.len() > 0 {
            self.recent_messages = Vec::new();
            self.force_full_redraw = true;
        }
    }

    /// Open the output overlay on `text`, split into lines with carriage
    /// returns removed, and force a redraw.
    pub fn display_output(&mut self, title: &str, text: &str)
        ensures
            final(self).overlay matches Overlay::Output { title: t, lines: ls } && t@ == title@
                && ls@.len() == spec_lines(remove_char(text@, '\r')).len()
                && (forall|j: int| 0 <= j < ls@.len() ==> ls@[j]@ == #[trigger] spec_lines(
                remove_char(text@, '\r'),
            )[j]),
            *final(self) == (App {
                overlay: final(self).overlay,
                force_full_redraw: true,
                ..*old(self)
            }),
    {
        let cleaned = strip_char(text, '\r');
        let lines = split_lines(cleaned.as_str());
        self.overlay = Overlay::Output { title: title.to_owned(), lines };
        self.force_full_redraw = true;
    }

    /// Move the theme picker cursor by `delta`, clamped to the entry list.
    pub fn theme_picker_move(&mut self, delta: i64)
        requires
            old(self).wf(),
        ensures
            final(self).wf(),
            match old(self).overlay {
                Overlay::ThemePicker(st) => if st.entries@.len() == 0 {
                    *final(self) == *old(self)
                } else {
                    &&& final(self).overlay matches Overlay::ThemePicker(st2) && st2.entries
                        == st.entries && st2.original_theme_path == st.original_theme_path
                        && st2.selected as int == spec_clamp(
                        st.selected + delta,
                        st.entries@.len() - 1,
                    )
                    &&& *final(self) == (App {
                        overlay: final(self).overlay,
                        force_full_redraw: true,
                        ..*old(self)
                    })
                },
                _ => *final(self) == *old(self),
            },
    {
        if let Overlay::ThemePicker(st) = &mut self.overlay {
            if st.entries.len() == 0 {
                return;
            }
            let max_idx = st.entries.len() - 1;
            let moved: i128 = st.selected as i128 + delta as i128;
            let clamped: usize = if moved < 0 {
                0
            } else if moved > max_idx as i128 {
                max_idx
            } else {
                moved as usize
            };
            st.selected = clamped;
            self.force_full_redraw = true;
        }
    }

    /// Commit the hovered theme: the configured theme path becomes the
    /// hovered entry's path and the overlay closes. The caller loads the
    /// file itself.
    pub fn confirm_theme_picker(&mut self)
        requires
            old(self).wf(),
        ensures
            final(self).wf(),
            match old(self).overlay {
                Overlay::ThemePicker(st) => {
                    &&& final(self).overlay matches Overlay::Idle
                    &&& final(self).force_full_redraw
                    &&& st.entries@.len() > 0 ==> final(self).config.ui.theme_path == Some(
                        st.entries@[st.selected as int].path,
                    )
                    &&& st.entries@.len() == 0 ==> final(self).config.ui.theme_path == old(
                        self,
                    ).config.ui.theme_path
                },
                _ => *final(self) == *old(self),
            },
    {
        let mut new_path: Option<String> = None;
        let mut was_picker = false;
        if let Overlay::ThemePicker(st) = &self.overlay {
            was_picker = true;
            if st.entries.len() > 0 {
                new_path = Some(st.entries[st.selected].path.clone());
            }
        }
        if was_picker {
            self.overlay = Overlay::Idle;
            if let Some(p) = new_path {
                self.config.ui.theme_path = Some(p);
            }
            self.force_full_redraw = true;
        }
    }

    /// Cancel the theme picker: restore the theme path captured when the
    /// overlay opened and close it.
    pub fn cancel_theme_picker(&mut self)
        requires
            old(self).wf(),
        ensures
            final(self).wf(),
            match old(self).overlay {
                Overlay::ThemePicker(st) => (final(self).overlay matches Overlay::Idle)
                    && final(self).config.ui.theme_path == st.original_theme_path
                    && final(self).force_full_redraw,
                _ => *final(self) == *old(self),
            },
    {
        let mut restore: Option<Option<String>> = None;
        if let Overlay::ThemePicker(st) = &self.overlay {
            restore = Some(st.original_theme_path.clone());
        }
        if let Some(orig) = restore {
            self.overlay = Overlay::Idle;
            self.config.ui.theme_path = orig;
            self.force_full_redraw = true;
        }
    }

    /// The output overlay's text: its lines joined with newlines, or empty
    /// when it is not open.
    pub fn get_output_text(&self) -> (r: String)
        ensures
            match self.overlay {
                Overlay::Output { lines, .. } => r@ == join_lines(
                    lines@.map_values(|l: String| l@),
                    lines@.len() as int,
                ),
                _ => r@ == Seq::<char>::empty(),
            },
    {
        if let Overlay::Output { lines, .. } = &self.overlay {
            let ghost ls = lines@.map_values(|l: String| l@);
            let mut out = String::new();
            let mut i: usize = 0;
            while i < lines.len()
                invariant
                    ls == lines@.map_values(|l: String| l@),
                    i <= lines@.len(),
                    out@ == join_lines(ls, i as int),
                decreases lines@.len() - i,
            {
                let ghost before = out@;
                if i > 0 {
                    push_char(&mut out, '\n');
                }
                out.append(lines[i].as_str());
                proof {
                    if i == 0 {
                        assert(out@ =~= ls[0]);
                    } else {
                        assert(out@ =~= before + seq!['\n'] + ls[i as int]);
                    }
                }
                i += 1;
            }
            out
        } else {
            String::new()
        }
    }

    pub fn is_theme_picker_active(&self) -> (r: bool)
        ensures
            r == (self.overlay matches Overlay::ThemePicker(_)),
    {
        matches!(self.overlay, Overlay::ThemePicker(_))
    }
}

/// The first `i` lines joined with newlines between them.
pub open spec fn join_lines(ls: Seq<Seq<char>>, i: int) -> Seq<char>
    decreases i,
{
    if i <= 0 {
        Seq::<char>::empty()
    } else if i == 1 {
        ls[0]
    } else {
        join_lines(ls, i - 1) + seq!['\n'] + ls[i - 1]
    }
}

/// A theme file offers `name` when its extension is `lua` and its stem
/// equals `name`, both compared case-insensitively.
pub open spec fn theme_file_matches(f: (String, String), name: Seq<char>) -> bool {
    lower_of(f.1@) == "lua"@ && lower_of(f.0@) == lower_of(name)
}

/// Pick the theme file for `name` from `(stem, extension)` candidates: the
/// first whose extension is `lua` and whose stem matches, case-insensitively.
pub fn find_theme_match(files: &Vec<(String, String)>, name: &str) -> (r: Option<usize>)
    ensures
        match r {
            Some(i) => i < files@.len() && theme_file_matches(files@[i as int], name@) && (forall|
                j: int,
            | 0 <= j < i ==> !theme_file_matches(#[trigger] files@[j], name@)),
            None => forall|j: int|
                0 <= j < files@.len() ==> !theme_file_matches(#[trigger] files@[j], name@),
        },
{
    let target = to_lower(name);
    let lua = "lua".to_owned();
    let mut k: usize = 0;
    while k < files.len()
        invariant
            target@ == lower_of(name@),
            lua@ == "lua"@,
            k <= files@.len(),
            forall|j: int| 0 <= j < k ==> !theme_file_matches(#[trigger] files@[j], name@),
        decreases files@.len() - k,
    {
        let ext_low = to_lower(files[k].1.as_str());
        if ext_low == lua {
            let stem_low = to_lower(files[k].0.as_str());
            if stem_low == target {
                return Some(k);
            }
        }
        k += 1;
    }
    None
}

} // verus!
