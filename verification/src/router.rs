//! The modal input router: one entry point for every key event, branching on
//! the active overlay. Each branch is a relation between the state before
//! and after the event, plus the side effects the caller must perform.

use vstd::prelude::*;
use vstd::string::StringExecFns;
use crate::keyseq::{
    feed, lookup_action, spec_feed_seq, spec_is_prefix, spec_lookup, FeedOutcome, KeyState,
};
use crate::nav::{spec_file_name, spec_join, spec_parent, file_name_of, join_path, parent_of};
use crate::prompt::{
    apply_rename_template, has_prefix, parse_template, spec_renamed, spec_template_split,
    starts_with_chars,
};
use crate::search::spec_find_match;
use crate::state::{
    spec_clamp, App, CommandPaneState, ConfirmKind, ConfirmState, NavPending, Overlay, PromptKind,
    PromptState, ThemePickerState,
};
use crate::textutil::{
    clone_string_vec, common_affixes, lower_of, push_char, spec_prefix_fold, spec_trim,
    trim_spaces,
};

verus! {

/// One physical key, normalized.
#[derive(Clone, Copy, PartialEq, Eq, Structural)]
pub enum Key {
    Char(char),
    Enter,
    Esc,
    Backspace,
    Left,
    Right,
    Up,
    Down,
    Home,
    End,
    Tab,
    PageUp,
    PageDown,
    Other,
}

/// Modifier state of a key event.
#[derive(Clone, Copy, PartialEq, Eq, Structural)]
pub struct Modifiers {
    pub control: bool,
    pub alt: bool,
    pub sup: bool,
}

impl Modifiers {
    pub open spec fn spec_none() -> Modifiers {
        Modifiers { control: false, alt: false, sup: false }
    }

    /// No modifier is held.
    pub fn is_none(&self) -> (r: bool)
        ensures
            r == (*self == Modifiers::spec_none()),
    {
        !self.control && !self.alt && !self.sup
    }
}

/// One key event; only presses are processed.
#[derive(Clone, Copy, PartialEq, Eq, Structural)]
pub struct KeyEvent {
    pub code: Key,
    pub mods: Modifiers,
    pub is_press: bool,
}

/// What the caller must do after a routing step: the router never touches
/// the filesystem, processes, or the scripting engine itself.
pub enum Effect {
    /// Create an empty file at `path`.
    CreateFile { path: String },
    /// Create the directory `path` and its missing parents.
    CreateDirAll { path: String },
    /// Rename `from` to `to`; on success call `confirm_rename`.
    Rename { from: String, to: String },
    /// Delete the file or directory at `path`.
    DeletePath { path: String },
    /// Dispatch the named action through the scripting collaborator.
    DispatchAction { name: String },
    /// Execute the command line through the command collaborator.
    ExecuteCommand { line: String },
    /// Load and apply the theme file at `path`.
    LoadTheme { path: String },
    /// Re-list the working directory and its parent, then `apply_lists`.
    RefreshLists,
    /// Re-run the preview decision (`refresh_preview`).
    RefreshPreview,
    /// Persist the mark table through the marks collaborator.
    PersistMarks,
}

/// The chord token for one character key: the bare character, or a bracketed
/// form carrying the dominant modifier.
pub open spec fn spec_token(ch: char, m: Modifiers) -> Seq<char> {
    if m.control {
        seq!['<', 'C', '-', ch, '>']
    } else if m.alt {
        seq!['<', 'A', '-', ch, '>']
    } else if m.sup {
        seq!['<', 'D', '-', ch, '>']
    } else {
        seq![ch]
    }
}

/// Build the chord token for one character key.
pub fn build_token(ch: char, m: Modifiers) -> (r: String)
    ensures
        r@ == spec_token(ch, m),
{
    let mut r = String::new();
    if m.control || m.alt || m.sup {
        push_char(&mut r, '<');
        if m.control {
            push_char(&mut r, 'C');
        } else if m.alt {
            push_char(&mut r, 'A');
        } else {
            push_char(&mut r, 'D');
        }
        push_char(&mut r, '-');
        push_char(&mut r, ch);
        push_char(&mut r, '>');
        proof {
            if m.control {
                assert(r@ =~= spec_token(ch, m));
            } else if m.alt {
                assert(r@ =~= spec_token(ch, m));
            } else {
                assert(r@ =~= spec_token(ch, m));
            }
        }
    } else {
        push_char(&mut r, ch);
        proof {
            assert(r@ =~= spec_token(ch, m));
        }
    }
    r
}

impl App {
    /// Record the working directory under `ch`: an existing slot for `ch` is
    /// overwritten, otherwise a new one is appended.
    pub fn add_mark(&mut self, ch: char)
        requires
            old(self).wf(),
        ensures
            final(self).wf(),
            *final(self) == (App { marks: final(self).marks, ..*old(self) }),
            final(self).marks@.len() >= 1,
            exists|k: int|
                0 <= k < final(self).marks@.len() && (#[trigger] final(self).marks@[k]).0 == ch
                    && final(self).marks@[k].1@ == old(self).cwd@,
            forall|k: int|
                0 <= k < old(self).marks@.len() && (#[trigger] old(self).marks@[k]).0 != ch
                    ==> final(self).marks@[k] == old(self).marks@[k],
    {
        let cwd = self.cwd.clone();
        let mut k: usize = 0;
        while k < self.marks.len()
            invariant
                old(self).wf(),
                *self == *old(self),
                cwd == old(self).cwd,
                k <= self.marks@.len(),
                forall|j: int| 0 <= j < k ==> (#[trigger] self.marks@[j]).0 != ch,
            decreases self.marks@.len() - k,
        {
            if self.marks[k].0 == ch {
                self.marks.set(k, (ch, cwd));
                proof {
                    assert((final(self).marks@[k as int]).0 == ch);
                }
                return;
            }
            k += 1;
        }
        self.marks.push((ch, cwd));
        proof {
            assert((final(self).marks@[final(self).marks@.len() - 1]).0 == ch);
        }
    }

    /// Jump to the directory recorded under `ch`, when one is recorded: the
    /// working directory changes and the cursor will reset to the top once
    /// the new listing arrives.
    pub fn goto_mark(&mut self, ch: char) -> (moved: bool)
        requires
            old(self).wf(),
        ensures
            final(self).wf(),
            !moved ==> *final(self) == *old(self) && (forall|k: int|
                0 <= k < old(self).marks@.len() ==> (#[trigger] old(self).marks@[k]).0 != ch),
            moved ==> ({
                &&& exists|k: int|
                    0 <= k < old(self).marks@.len() && (#[trigger] old(self).marks@[k]).0 == ch
                        && final(self).cwd@ == old(self).marks@[k].1@
                &&& final(self).nav matches NavPending::ResetSelection
                &&& *final(self) == (App {
                    cwd: final(self).cwd,
                    nav: NavPending::ResetSelection,
                    ..*old(self)
                })
            }),
    {
        let mut k: usize = 0;
        while k < self.marks.len()
            invariant
                old(self).wf(),
                *self == *old(self),
                k <= self.marks@.len(),
                forall|j: int| 0 <= j < k ==> (#[trigger] self.marks@[j]).0 != ch,
            decreases self.marks@.len() - k,
        {
            if self.marks[k].0 == ch {
                let target = self.marks[k].1.clone();
                self.cwd = target;
                self.nav = NavPending::ResetSelection;
                return true;
            }
            k += 1;
        }
        false
    }

    /// After a rename the caller performed succeeded, keep the renamed item
    /// selected: `from` in the multi-selection is replaced by `to`.
    pub fn confirm_rename(&mut self, from: &String, to: String)
        requires
            old(self).wf(),
        ensures
            final(self).wf(),
            *final(self) == (App { selected: final(self).selected, ..*old(self) }),
            final(self).selected@.len() == old(self).selected@.len(),
            forall|k: int|
                0 <= k < old(self).selected@.len() ==> final(self).selected@[k] == (if old(
                    self,
                ).selected@[k]@ == from@ {
                    to
                } else {
                    old(self).selected@[k]
                }),
    {
        let mut k: usize = 0;
        while k < self.selected.len()
            invariant
                old(self).wf(),
                self.selected@.len() == old(self).selected@.len(),
                *self == (App { selected: self.selected, ..*old(self) }),
                k <= self.selected@.len(),
                forall|j: int|
                    0 <= j < k ==> self.selected@[j] == (if old(self).selected@[j]@ == from@ {
                        to
                    } else {
                        old(self).selected@[j]
                    }),
                forall|j: int|
                    k <= j < self.selected@.len() ==> self.selected@[j] == old(self).selected@[j],
            decreases self.selected@.len() - k,
        {
            if self.selected[k] == *from {
                let t = to.clone();
                self.selected.set(k, t);
            }
            k += 1;
        }
    }
}

/// The theme picker branch: arrows and `j`/`k` move the hover clamped,
/// page keys move by five, Enter commits the hovered theme (the caller loads
/// it), Esc restores the theme captured at open time; anything else is
/// ignored. No other part of the state reacts.
pub open spec fn theme_picker_rel(
    pre: App,
    post: App,
    st: Box<ThemePickerState>,
    key: KeyEvent,
    effects: Seq<Effect>,
) -> bool {
    match key.code {
        Key::Esc => {
            &&& post.overlay matches Overlay::Idle
            &&& post.config.ui.theme_path == st.original_theme_path
            &&& post.force_full_redraw
            &&& effects.len() == 0
        },
        Key::Enter => {
            &&& post.overlay matches Overlay::Idle
            &&& post.force_full_redraw
            &&& if st.entries@.len() > 0 {
                post.config.ui.theme_path == Some(st.entries@[st.selected as int].path)
                    && effects.len() == 1 && (effects[0] matches Effect::LoadTheme { path }
                    && path@ == st.entries@[st.selected as int].path@)
            } else {
                post.config.ui.theme_path == pre.config.ui.theme_path && effects.len() == 0
            }
        },
        Key::Up | Key::Char('k') => picker_moved(pre, post, st, -1, effects),
        Key::Down | Key::Char('j') => picker_moved(pre, post, st, 1, effects),
        Key::PageUp => picker_moved(pre, post, st, -5, effects),
        Key::PageDown => picker_moved(pre, post, st, 5, effects),
        _ => post == pre && effects.len() == 0,
    }
}

/// The picker hover moved by `delta`, clamped; nothing else changed.
pub open spec fn picker_moved(
    pre: App,
    post: App,
    st: Box<ThemePickerState>,
    delta: int,
    effects: Seq<Effect>,
) -> bool {
    &&& effects.len() == 0
    &&& if st.entries@.len() == 0 {
        post == pre
    } else {
        post.overlay matches Overlay::ThemePicker(st2) && st2.entries == st.entries
            && st2.original_theme_path == st.original_theme_path && st2.selected as int
            == spec_clamp(st.selected + delta, st.entries@.len() - 1) && post == (App {
            overlay: post.overlay,
            force_full_redraw: true,
            ..pre
        })
    }
}

/// Route one key while the theme picker owns input.
pub fn handle_theme_picker_key(app: &mut App, key: KeyEvent) -> (effects: Vec<Effect>)
    requires
        old(app).wf(),
        old(app).overlay matches Overlay::ThemePicker(_),
    ensures
        final(app).wf(),
        ({
            let st = old(app).overlay->ThemePicker_0;
            theme_picker_rel(*old(app), *final(app), st, key, effects@)
        }),
{
    let mut effects: Vec<Effect> = Vec::new();
    match key.code {
        Key::Esc => {
            app.cancel_theme_picker();
        },
        Key::Enter => {
            let mut hovered: Option<String> = None;
            if let Overlay::ThemePicker(st) = &app.overlay {
                if st.entries.len() > 0 {
                    hovered = Some(st.entries[st.selected].path.clone());
                }
            }
            app.confirm_theme_picker();
            if let Some(path) = hovered {
                effects.push(Effect::LoadTheme { path });
            }
        },
        Key::Up | Key::Char('k') => {
            app.theme_picker_move(-1);
        },
        Key::Down | Key::Char('j') => {
            app.theme_picker_move(1);
        },
        Key::PageUp => {
            app.theme_picker_move(-5);
        },
        Key::PageDown => {
            app.theme_picker_move(5);
        },
        _ => {},
    }
    effects
}

/// The confirm branch: `y`/`Y`, or Enter when the default is yes, commits
/// the carried payload (each listed path is deleted and the lists refresh);
/// Esc, `n`/`N`, or anything else cancels. Either way the overlay closes and
/// a redraw is forced.
pub open spec fn confirm_rel(
    pre: App,
    post: App,
    st: Box<ConfirmState>,
    key: KeyEvent,
    effects: Seq<Effect>,
) -> bool {
    let commit = match key.code {
        Key::Enter => st.default_yes,
        Key::Char('y') | Key::Char('Y') => true,
        _ => false,
    };
    &&& post.overlay matches Overlay::Idle
    &&& post.force_full_redraw
    &&& post == (App { overlay: post.overlay, force_full_redraw: true, ..pre })
    &&& if commit {
        match st.kind {
            ConfirmKind::DeleteSelected(items) => effects =~= Seq::new(
                items@.len(),
                |j: int| Effect::DeletePath { path: items@[j] },
            ).push(Effect::RefreshLists),
        }
    } else {
        effects.len() == 0
    }
}

/// Route one key while the confirm overlay owns input.
pub fn handle_confirm_key(app: &mut App, key: KeyEvent) -> (effects: Vec<Effect>)
    requires
        old(app).wf(),
        old(app).overlay matches Overlay::Confirm(_),
    ensures
        final(app).wf(),
        ({
            let st = old(app).overlay->Confirm_0;
            confirm_rel(*old(app), *final(app), st, key, effects@)
        }),
{
    let mut effects: Vec<Effect> = Vec::new();
    let commit = match key.code {
        Key::Enter => {
            if let Overlay::Confirm(st) = &app.overlay {
                st.default_yes
            } else {
                false
            }
        },
        Key::Char(c) => c == 'y' || c == 'Y',
        _ => false,
    };
    let mut doomed: Option<Vec<String>> = None;
    if commit {
        if let Overlay::Confirm(st) = &app.overlay {
            let ConfirmKind::DeleteSelected(items) = &st.kind;
            doomed = Some(crate::textutil::clone_string_vec(items));
        }
    }
    app.overlay = Overlay::Idle;
    app.force_full_redraw = true;
    if let Some(items) = doomed {
        let ghost items0 = items@;
        let mut k: usize = 0;
        while k < items.len()
            invariant
                items@ == items0,
                k <= items@.len(),
                effects@ =~= Seq::new(k as nat, |j: int| Effect::DeletePath { path: items0[j] }),
            decreases items@.len() - k,
        {
            let p = items[k].clone();
            effects.push(Effect::DeletePath { path: p });
            k += 1;
        }
        effects.push(Effect::RefreshLists);
    }
    effects
}

/// The one-shot mark / goto capture: the next character key records the
/// working directory under that letter (marks persist afterwards), or jumps
/// to the directory recorded under it; Esc cancels the capture; other keys
/// are ignored and the capture stays armed.
pub open spec fn capture_rel(pre: App, post: App, key: KeyEvent, effects: Seq<Effect>) -> bool {
    if pre.pending_mark {
        match key.code {
            Key::Char(ch) => {
                &&& !post.pending_mark
                &&& post == (App { pending_mark: false, marks: post.marks, ..pre })
                &&& exists|k: int|
                    0 <= k < post.marks@.len() && (#[trigger] post.marks@[k]).0 == ch
                        && post.marks@[k].1@ == pre.cwd@
                &&& effects.len() == 1 && effects[0] matches Effect::PersistMarks
            },
            Key::Esc => !post.pending_mark && post == (App { pending_mark: false, ..pre })
                && effects.len() == 0,
            _ => post == pre && effects.len() == 0,
        }
    } else {
        match key.code {
            Key::Char(ch) => {
                &&& !post.pending_goto
                &&& if exists|k: int| 0 <= k < pre.marks@.len() && (#[trigger] pre.marks@[k]).0
                    == ch {
                    &&& (exists|k: int|
                        0 <= k < pre.marks@.len() && (#[trigger] pre.marks@[k]).0 == ch
                            && post.cwd@ == pre.marks@[k].1@)
                    &&& post == (App {
                        pending_goto: false,
                        cwd: post.cwd,
                        nav: NavPending::ResetSelection,
                        ..pre
                    })
                    &&& effects =~= seq![Effect::RefreshLists, Effect::RefreshPreview]
                } else {
                    post == (App { pending_goto: false, ..pre }) && effects.len() == 0
                }
            },
            Key::Esc => !post.pending_goto && post == (App { pending_goto: false, ..pre })
                && effects.len() == 0,
            _ => post == pre && effects.len() == 0,
        }
    }
}

/// Route one key while a mark or goto capture is armed.
pub fn handle_capture_key(app: &mut App, key: KeyEvent) -> (effects: Vec<Effect>)
    requires
        old(app).wf(),
        old(app).pending_mark || old(app).pending_goto,
    ensures
        final(app).wf(),
        capture_rel(*old(app), *final(app), key, effects@),
{
    let mut effects: Vec<Effect> = Vec::new();
    if app.pending_mark {
        match key.code {
            Key::Char(ch) => {
                app.pending_mark = false;
                app.add_mark(ch);
                effects.push(Effect::PersistMarks);
            },
            Key::Esc => {
                app.pending_mark = false;
            },
            _ => {},
        }
    } else {
        match key.code {
            Key::Char(ch) => {
                app.pending_goto = false;
                if app.goto_mark(ch) {
                    effects.push(Effect::RefreshLists);
                    effects.push(Effect::RefreshPreview);
                    proof {
                        assert(effects@ =~= seq![Effect::RefreshLists, Effect::RefreshPreview]);
                    }
                }
            },
            Key::Esc => {
                app.pending_goto = false;
            },
            _ => {},
        }
    }
    effects
}

/// Appending one message as `add_message` does: the trimmed text is appended
/// unless empty, and only the most recent hundred are kept.
pub open spec fn noted(pre: App, post: App, m: Seq<char>) -> bool {
    if spec_trim(m).len() == 0 {
        post.recent_messages == pre.recent_messages
    } else {
        let appended = pre.recent_messages@.push(post.recent_messages@.last());
        &&& post.recent_messages@.last()@ == spec_trim(m)
        &&& post.recent_messages@ == appended.skip(
            if appended.len() > 100 {
                appended.len() - 100
            } else {
                0
            },
        )
    }
}

/// The items that have a final path component, in order.
pub open spec fn named_items(items: Seq<String>) -> Seq<String>
    decreases items.len(),
{
    if items.len() == 0 {
        Seq::<String>::empty()
    } else if spec_file_name(items[0]@) is Some {
        seq![items[0]] + named_items(items.skip(1))
    } else {
        named_items(items.skip(1))
    }
}

proof fn lemma_named_items_snoc(items: Seq<String>, x: String)
    ensures
        spec_file_name(x@) is Some ==> named_items(items.push(x)) == named_items(items).push(x),
        spec_file_name(x@) is None ==> named_items(items.push(x)) == named_items(items),
    decreases items.len(),
{
    if items.len() == 0 {
        assert(items.push(x)[0] == x);
        assert(items.push(x).skip(1) =~= Seq::<String>::empty());
        assert(named_items(Seq::<String>::empty()) =~= Seq::<String>::empty());
        if spec_file_name(x@) is Some {
            assert(named_items(items.push(x)) =~= seq![x]);
            assert(named_items(items).push(x) =~= seq![x]);
        }
    } else {
        assert(items.push(x)[0] == items[0]);
        assert(items.push(x).skip(1) =~= items.skip(1).push(x));
        lemma_named_items_snoc(items.skip(1), x);
        if spec_file_name(x@) is Some && spec_file_name(items[0]@) is Some {
            assert(seq![items[0]] + named_items(items.skip(1)).push(x) =~= (seq![items[0]]
                + named_items(items.skip(1))).push(x));
        }
    }
}

/// `e` renames `item` into the working directory under the validated
/// template: the original affixes are stripped from the item's name and the
/// new ones wrapped around the variable segment.
pub open spec fn rename_effect_ok(
    e: Effect,
    item: String,
    pre: Seq<char>,
    suf: Seq<char>,
    new_pre: Seq<char>,
    new_suf: Seq<char>,
    cwd: Seq<char>,
) -> bool {
    e matches Effect::Rename { from, to } && from@ == item@ && to@ == spec_join(
        cwd,
        spec_renamed(spec_file_name(item@)->Some_0, pre, suf, new_pre, new_suf),
    )
}

/// The prompt branch. Esc discards. Enter commits per prompt kind: add-entry
/// creates a file (or, with a trailing slash, a directory) named by the
/// trimmed input and refreshes; rename-one renames the carried source to the
/// trimmed input; rename-many validates that the template holds exactly one
/// placeholder and renames every carried item accordingly, or reports a
/// visible message and renames nothing. Editing keys move the cursor and
/// insert or delete one character; modified characters are never inserted.
pub open spec fn prompt_rel(
    pre: App,
    post: App,
    st: Box<PromptState>,
    key: KeyEvent,
    effects: Seq<Effect>,
) -> bool {
    match key.code {
        Key::Esc => {
            &&& post.overlay matches Overlay::Idle
            &&& post == (App { overlay: post.overlay, force_full_redraw: true, ..pre })
            &&& effects.len() == 0
        },
        Key::Enter => {
            &&& post.overlay matches Overlay::Idle
            &&& post.force_full_redraw
            &&& match st.kind {
                PromptKind::AddEntry => {
                    let name = spec_trim(st.input@);
                    &&& post == (App { overlay: post.overlay, force_full_redraw: true, ..pre })
                    &&& if name.len() == 0 {
                        effects.len() == 0
                    } else {
                        effects.len() == 2 && (if name[name.len() - 1] == '/' {
                            effects[0] matches Effect::CreateDirAll { path } && path@ == spec_join(
                                pre.cwd@,
                                name,
                            )
                        } else {
                            effects[0] matches Effect::CreateFile { path } && path@ == spec_join(
                                pre.cwd@,
                                name,
                            )
                        }) && effects[1] matches Effect::RefreshLists
                    }
                },
                PromptKind::RenameEntry { from } => {
                    let name = spec_trim(st.input@);
                    &&& post == (App { overlay: post.overlay, force_full_redraw: true, ..pre })
                    &&& if name.len() == 0 {
                        effects.len() == 0
                    } else {
                        effects.len() == 2 && (effects[0] matches Effect::Rename {
                            from: f,
                            to: t,
                        } && f@ == from@ && t@ == spec_join(pre.cwd@, name)) && (
                        effects[1] matches Effect::RefreshLists)
                    }
                },
                PromptKind::RenameMany { items, pre: opre, suf: osuf } => {
                    let tpl = spec_trim(st.input@);
                    match spec_template_split(tpl) {
                        Some(split) => {
                            let named = named_items(items@);
                            &&& post == (App {
                                overlay: post.overlay,
                                force_full_redraw: true,
                                ..pre
                            })
                            &&& effects.len() == named.len() + 1
                            &&& forall|j: int|
                                0 <= j < named.len() ==> rename_effect_ok(
                                    #[trigger] effects[j],
                                    named[j],
                                    opre@,
                                    osuf@,
                                    split.0,
                                    split.1,
                                    pre.cwd@,
                                )
                            &&& effects[effects.len() - 1] matches Effect::RefreshLists
                        },
                        None => {
                            &&& effects.len() == 0
                            &&& noted(
                                pre,
                                post,
                                "Rename: template must contain exactly one {} placeholder"@,
                            )
                            &&& post == (App {
                                overlay: post.overlay,
                                force_full_redraw: true,
                                recent_messages: post.recent_messages,
                                ..pre
                            })
                        },
                    }
                },
            }
        },
        Key::Backspace => edited_prompt(pre, post, st, effects, {
            if st.cursor > 0 {
                Some(
                    (
                        st.input@.subrange(0, st.cursor - 1) + st.input@.skip(st.cursor as int),
                        (st.cursor - 1) as int,
                    ),
                )
            } else {
                None
            }
        }),
        Key::Left => edited_prompt(pre, post, st, effects, {
            if st.cursor > 0 {
                Some((st.input@, (st.cursor - 1) as int))
            } else {
                None
            }
        }),
        Key::Right => edited_prompt(pre, post, st, effects, {
            if (st.cursor as int) < st.input@.len() {
                Some((st.input@, st.cursor + 1 as int))
            } else {
                None
            }
        }),
        Key::Home => edited_prompt(pre, post, st, effects, Some((st.input@, 0int))),
        Key::End => edited_prompt(pre, post, st, effects, Some((st.input@, st.input@.len() as int))),
        Key::Char(ch) => edited_prompt(pre, post, st, effects, {
            if !key.mods.control && !key.mods.alt && !key.mods.sup {
                Some(
                    (
                        st.input@.subrange(0, st.cursor as int).push(ch) + st.input@.skip(
                            st.cursor as int,
                        ),
                        st.cursor + 1 as int,
                    ),
                )
            } else {
                None
            }
        }),
        _ => post == pre && effects.len() == 0,
    }
}

/// The prompt stayed open with its input and cursor as given (or untouched
/// when the edit does not apply), and a redraw is forced on a change.
pub open spec fn edited_prompt(
    pre: App,
    post: App,
    st: Box<PromptState>,
    effects: Seq<Effect>,
    edit: Option<(Seq<char>, int)>,
) -> bool {
    &&& effects.len() == 0
    &&& match edit {
        Some(e) => {
            &&& post.overlay matches Overlay::Prompt(st2) && st2.input@ == e.0 && st2.cursor as int
                == e.1 && st2.title == st.title && st2.kind == st.kind
            &&& post == (App { overlay: post.overlay, force_full_redraw: true, ..pre })
        },
        None => post == pre,
    }
}

/// Route one key while a prompt owns input.
#[verifier::rlimit(60)]
pub fn handle_prompt_key(app: &mut App, key: KeyEvent) -> (effects: Vec<Effect>)
    requires
        old(app).wf(),
        old(app).overlay matches Overlay::Prompt(_),
    ensures
        final(app).wf(),
        ({
            let st = old(app).overlay->Prompt_0;
            prompt_rel(*old(app), *final(app), st, key, effects@)
        }),
{
    let mut effects: Vec<Effect> = Vec::new();
    match key.code {
        Key::Esc => {
            app.overlay = Overlay::Idle;
            app.force_full_redraw = true;
        },
        Key::Enter => {
            let mut add_name: Option<String> = None;
            let mut rename_pair: Option<(String, String)> = None;
            let mut many: Option<(Vec<String>, String, String, String, String)> = None;
            let mut bad_template = false;
            if let Overlay::Prompt(st) = &app.overlay {
                match &st.kind {
                    PromptKind::AddEntry => {
                        let name = trim_spaces(st.input.as_str());
                        if name.as_str().unicode_len() > 0 {
                            add_name = Some(name);
                        }
                    },
                    PromptKind::RenameEntry { from } => {
                        let name = trim_spaces(st.input.as_str());
                        if name.as_str().unicode_len() > 0 {
                            rename_pair = Some((from.clone(), name));
                        }
                    },
                    PromptKind::RenameMany { items, pre, suf } => {
                        let tpl = trim_spaces(st.input.as_str());
                        match parse_template(tpl.as_str()) {
                            Some((new_pre, new_suf)) => {
                                many = Some(
                                    (
                                        clone_string_vec(items),
                                        pre.clone(),
                                        suf.clone(),
                                        new_pre,
                                        new_suf,
                                    ),
                                );
                            },
                            None => {
                                bad_template = true;
                            },
                        }
                    },
                }
            }
            if let Some(name) = add_name {
                let n = name.as_str().unicode_len();
                let path = join_path(app.cwd.as_str(), name.as_str());
                if name.as_str().get_char(n - 1) == '/' {
                    effects.push(Effect::CreateDirAll { path });
                } else {
                    effects.push(Effect::CreateFile { path });
                }
                effects.push(Effect::RefreshLists);
            }
            if let Some((from, name)) = rename_pair {
                let to = join_path(app.cwd.as_str(), name.as_str());
                effects.push(Effect::Rename { from, to });
                effects.push(Effect::RefreshLists);
            }
            if let Some((items, opre, osuf, new_pre, new_suf)) = many {
                do_rename_many(app, &mut effects, &items, &opre, &osuf, &new_pre, &new_suf);
            }
            if bad_template {
                app.add_message("Rename: template must contain exactly one {} placeholder");
            }
            app.overlay = Overlay::Idle;
            app.force_full_redraw = true;
        },
        Key::Backspace => {
            let mut changed = false;
            if let Overlay::Prompt(st) = &mut app.overlay {
                if st.cursor > 0 {
                    st.backspace();
                    changed = true;
                }
            }
            if changed {
                app.force_full_redraw = true;
            }
        },
        Key::Left => {
            let mut changed = false;
            if let Overlay::Prompt(st) = &mut app.overlay {
                if st.cursor > 0 {
                    st.cursor = st.cursor - 1;
                    changed = true;
                }
            }
            if changed {
                app.force_full_redraw = true;
            }
        },
        Key::Right => {
            let mut changed = false;
            if let Overlay::Prompt(st) = &mut app.overlay {
                let n = st.input.as_str().unicode_len();
                if st.cursor < n {
                    st.cursor = st.cursor + 1;
                    changed = true;
                }
            }
            if changed {
                app.force_full_redraw = true;
            }
        },
        Key::Home => {
            if let Overlay::Prompt(st) = &mut app.overlay {
                st.cursor = 0;
            }
            app.force_full_redraw = true;
        },
        Key::End => {
            if let Overlay::Prompt(st) = &mut app.overlay {
                let n = st.input.as_str().unicode_len();
                st.cursor = n;
            }
            app.force_full_redraw = true;
        },
        Key::Char(ch) => {
            if !key.mods.control && !key.mods.alt && !key.mods.sup {
                if let Overlay::Prompt(st) = &mut app.overlay {
                    st.insert_char(ch);
                }
                app.force_full_redraw = true;
            }
        },
        _ => {},
    }
    effects
}

/// Emit the rename effects for every item that has a final path component.
fn do_rename_many(
    app: &App,
    effects: &mut Vec<Effect>,
    items: &Vec<String>,
    opre: &String,
    osuf: &String,
    new_pre: &String,
    new_suf: &String,
)
    requires
        old(effects)@.len() == 0,
    ensures
        ({
            let named = named_items(items@);
            &&& final(effects)@.len() == named.len() + 1
            &&& forall|j: int|
                0 <= j < named.len() ==> rename_effect_ok(
                    #[trigger] final(effects)@[j],
                    named[j],
                    opre@,
                    osuf@,
                    new_pre@,
                    new_suf@,
                    app.cwd@,
                )
            &&& final(effects)@[final(effects)@.len() - 1] matches Effect::RefreshLists
        }),
{
    let ghost mut named_done: Seq<String> = Seq::<String>::empty();
    proof {
        assert(items@.subrange(0, 0) =~= Seq::<String>::empty());
        assert(named_items(Seq::<String>::empty()) =~= Seq::<String>::empty());
    }
    let mut k: usize = 0;
    while k < items.len()
        invariant
            k <= items@.len(),
            named_done == named_items(items@.subrange(0, k as int)),
            effects@.len() == named_done.len(),
            forall|j: int|
                0 <= j < named_done.len() ==> rename_effect_ok(
                    #[trigger] effects@[j],
                    named_done[j],
                    opre@,
                    osuf@,
                    new_pre@,
                    new_suf@,
                    app.cwd@,
                ),
        decreases items@.len() - k,
    {
        proof {
            assert(items@.subrange(0, k as int + 1) =~= items@.subrange(0, k as int).push(
                items@[k as int],
            ));
            lemma_named_items_snoc(items@.subrange(0, k as int), items@[k as int]);
        }
        let item = &items[k];
        match file_name_of(item.as_str()) {
            Some(name) => {
                let new_name = apply_rename_template(
                    name.as_str(),
                    opre.as_str(),
                    osuf.as_str(),
                    new_pre.as_str(),
                    new_suf.as_str(),
                );
                let dst = join_path(app.cwd.as_str(), new_name.as_str());
                let from = item.clone();
                effects.push(Effect::Rename { from, to: dst });
                proof {
                    named_done = named_done.push(items@[k as int]);
                }
            },
            None => {},
        }
        k += 1;
    }
    proof {
        assert(items@.subrange(0, items@.len() as int) =~= items@);
    }
    effects.push(Effect::RefreshLists);
}

/// The commands that start with `pfx`, in table order.
pub open spec fn matching_commands(cmds: Seq<String>, pfx: Seq<char>) -> Seq<String>
    decreases cmds.len(),
{
    if cmds.len() == 0 {
        Seq::<String>::empty()
    } else if has_prefix(cmds[0]@, pfx) {
        seq![cmds[0]] + matching_commands(cmds.skip(1), pfx)
    } else {
        matching_commands(cmds.skip(1), pfx)
    }
}

proof fn lemma_matching_commands_snoc(cmds: Seq<String>, x: String, pfx: Seq<char>)
    ensures
        has_prefix(x@, pfx) ==> matching_commands(cmds.push(x), pfx) == matching_commands(
            cmds,
            pfx,
        ).push(x),
        !has_prefix(x@, pfx) ==> matching_commands(cmds.push(x), pfx) == matching_commands(
            cmds,
            pfx,
        ),
    decreases cmds.len(),
{
    if cmds.len() == 0 {
        assert(cmds.push(x)[0] == x);
        assert(cmds.push(x).skip(1) =~= Seq::<String>::empty());
        assert(matching_commands(Seq::<String>::empty(), pfx) =~= Seq::<String>::empty());
        if has_prefix(x@, pfx) {
            assert(matching_commands(cmds.push(x), pfx) =~= seq![x]);
            assert(matching_commands(cmds, pfx).push(x) =~= seq![x]);
        }
    } else {
        assert(cmds.push(x)[0] == cmds[0]);
        assert(cmds.push(x).skip(1) =~= cmds.skip(1).push(x));
        lemma_matching_commands_snoc(cmds.skip(1), x, pfx);
        if has_prefix(x@, pfx) && has_prefix(cmds[0]@, pfx) {
            assert(seq![cmds[0]] + matching_commands(cmds.skip(1), pfx).push(x) =~= (seq![cmds[0]]
                + matching_commands(cmds.skip(1), pfx)).push(x));
        }
    }
}

/// Collect the commands that start with `pfx`.
fn collect_matches(cmds: &Vec<String>, pfx: &String) -> (r: Vec<String>)
    ensures
        r@ == matching_commands(cmds@, pfx@),
{
    let mut r: Vec<String> = Vec::new();
    proof {
        assert(cmds@.subrange(0, 0) =~= Seq::<String>::empty());
        assert(matching_commands(Seq::<String>::empty(), pfx@) =~= Seq::<String>::empty());
    }
    let mut k: usize = 0;
    while k < cmds.len()
        invariant
            k <= cmds@.len(),
            r@ == matching_commands(cmds@.subrange(0, k as int), pfx@),
        decreases cmds@.len() - k,
    {
        proof {
            assert(cmds@.subrange(0, k as int + 1) =~= cmds@.subrange(0, k as int).push(
                cmds@[k as int],
            ));
            lemma_matching_commands_snoc(cmds@.subrange(0, k as int), cmds@[k as int], pfx@);
        }
        if starts_with_chars(cmds[k].as_str(), pfx.as_str()) {
            let c = cmds[k].clone();
            r.push(c);
        }
        k += 1;
    }
    proof {
        assert(cmds@.subrange(0, cmds@.len() as int) =~= cmds@);
    }
    r
}

/// The live incremental search after one edit of the `/` pattern: the cursor
/// moves to the first circular match of the edited pattern from the cursor,
/// when there is one, and the preview refreshes.
pub open spec fn live_search_rel(mid: App, post: App, q: Seq<char>, effects: Seq<Effect>) -> bool {
    let start = match mid.selected_index {
        Some(i) => i as int,
        None => 0,
    };
    let found = spec_find_match(mid.current_entries@, start, lower_of(q), false, 0);
    if q.len() > 0 && mid.current_entries@.len() > 0 && found is Some {
        &&& post.selected_index == Some(found->Some_0 as usize)
        &&& post == (App { selected_index: post.selected_index, ..mid })
        &&& effects =~= seq![Effect::RefreshPreview]
    } else {
        post == mid && effects.len() == 0
    }
}

/// The Tab arm of the command pane: with `:`, complete against the known
/// command set; a single match replaces the input, several extend it to
/// their longest common prefix, and the suggestion display turns on.
pub open spec fn cmd_tab_rel(
    pre: App,
    post: App,
    st: Box<CommandPaneState>,
    effects: Seq<Effect>,
) -> bool {
    if st.prompt@ == ":"@ {
        let pfx = spec_trim(st.input@);
        let ms = if pfx.len() == 0 {
            Seq::<String>::empty()
        } else {
            matching_commands(pre.command_names@, pfx)
        };
        &&& post.overlay matches Overlay::CommandPane(st2) && st2.prompt == st.prompt
            && st2.show_suggestions && (if ms.len() == 1 {
            st2.input == ms[0] && st2.cursor == ms[0]@.len()
        } else if ms.len() > 1 {
            let lcp = spec_prefix_fold(ms, ms.len() as int);
            if lcp.len() > pfx.len() {
                st2.input@ == lcp && st2.cursor == lcp.len()
            } else {
                st2.input == st.input && st2.cursor == st.cursor
            }
        } else {
            st2.input == st.input && st2.cursor == st.cursor
        })
        &&& post == (App { overlay: post.overlay, force_full_redraw: true, ..pre })
        &&& effects.len() == 0
    } else {
        post == pre && effects.len() == 0
    }
}

/// The Enter arm of the command pane: `/` commits the trimmed pattern as
/// the search query; `:` closes the pane first and then has the command
/// line executed; any other prompt just closes.
pub open spec fn cmd_enter_rel(
    pre: App,
    post: App,
    st: Box<CommandPaneState>,
    effects: Seq<Effect>,
) -> bool {
    &&& post.overlay matches Overlay::Idle
    &&& if st.prompt@ == "/"@ {
        let pat = spec_trim(st.input@);
        &&& (if pat.len() > 0 {
            post.search_query matches Some(qq) && qq@ == pat
        } else {
            post.search_query == pre.search_query
        })
        &&& post == (App { overlay: post.overlay, search_query: post.search_query, ..pre })
        &&& effects.len() == 0
    } else if st.prompt@ == ":"@ {
        &&& post == (App { overlay: post.overlay, ..pre })
        &&& effects.len() == 1 && (effects[0] matches Effect::ExecuteCommand { line } && line@
            == st.input@)
    } else {
        post == (App { overlay: post.overlay, ..pre }) && effects.len() == 0
    }
}

/// The Backspace arm of the command pane: delete before the cursor; an edit
/// of a `/` pattern re-runs the live search.
pub open spec fn cmd_backspace_rel(
    pre: App,
    post: App,
    st: Box<CommandPaneState>,
    effects: Seq<Effect>,
) -> bool {
    if st.cursor > 0 {
        let new_input = st.input@.subrange(0, st.cursor - 1) + st.input@.skip(st.cursor as int);
        &&& post.overlay matches Overlay::CommandPane(st2) && st2.input@ == new_input
            && st2.cursor == st.cursor - 1 && st2.prompt == st.prompt && st2.show_suggestions
            == st.show_suggestions
        &&& if st.prompt@ == "/"@ {
            exists|mid: App|
                (#[trigger] live_search_rel(mid, post, new_input, effects)) && mid == (App {
                    overlay: post.overlay,
                    ..pre
                })
        } else {
            post == (App { overlay: post.overlay, ..pre }) && effects.len() == 0
        }
    } else {
        post == pre && effects.len() == 0
    }
}

/// The character arm of the command pane: insert at the cursor unless a
/// modifier is held; an edit of a `/` pattern re-runs the live search.
pub open spec fn cmd_char_rel(
    pre: App,
    post: App,
    st: Box<CommandPaneState>,
    ch: char,
    mods: Modifiers,
    effects: Seq<Effect>,
) -> bool {
    if !mods.control && !mods.alt && !mods.sup {
        let new_input = st.input@.subrange(0, st.cursor as int).push(ch) + st.input@.skip(
            st.cursor as int,
        );
        &&& post.overlay matches Overlay::CommandPane(st2) && st2.input@ == new_input
            && st2.cursor == st.cursor + 1 && st2.prompt == st.prompt && st2.show_suggestions
            == st.show_suggestions
        &&& post.force_full_redraw
        &&& if st.prompt@ == "/"@ {
            exists|mid: App|
                (#[trigger] live_search_rel(mid, post, new_input, effects)) && mid == (App {
                    overlay: post.overlay,
                    force_full_redraw: true,
                    ..pre
                })
        } else {
            post == (App { overlay: post.overlay, force_full_redraw: true, ..pre })
                && effects.len() == 0
        }
    } else {
        post == pre && effects.len() == 0
    }
}

/// The command pane branch (`:` command line, `/` incremental search): Esc
/// discards; Tab completes; Enter commits; cursor keys move; characters
/// insert; every edit of a `/` pattern re-runs the live search.
pub open spec fn command_rel(
    pre: App,
    post: App,
    st: Box<CommandPaneState>,
    key: KeyEvent,
    effects: Seq<Effect>,
) -> bool {
    match key.code {
        Key::Esc => {
            &&& post.overlay matches Overlay::Idle
            &&& post == (App { overlay: post.overlay, ..pre })
            &&& effects.len() == 0
        },
        Key::Tab => cmd_tab_rel(pre, post, st, effects),
        Key::Enter => cmd_enter_rel(pre, post, st, effects),
        Key::Backspace => cmd_backspace_rel(pre, post, st, effects),
        Key::Left => {
            if st.cursor > 0 {
                &&& post.overlay matches Overlay::CommandPane(st2) && st2.input == st.input
                    && st2.cursor == st.cursor - 1 && st2.prompt == st.prompt
                    && st2.show_suggestions == st.show_suggestions
                &&& post == (App { overlay: post.overlay, ..pre })
                &&& effects.len() == 0
            } else {
                post == pre && effects.len() == 0
            }
        },
        Key::Right => {
            if (st.cursor as int) < st.input@.len() {
                &&& post.overlay matches Overlay::CommandPane(st2) && st2.input == st.input
                    && st2.cursor == st.cursor + 1 && st2.prompt == st.prompt
                    && st2.show_suggestions == st.show_suggestions
                &&& post == (App { overlay: post.overlay, force_full_redraw: true, ..pre })
                &&& effects.len() == 0
            } else {
                post == pre && effects.len() == 0
            }
        },
        Key::Home => {
            &&& post.overlay matches Overlay::CommandPane(st2) && st2.input == st.input
                && st2.cursor == 0 && st2.prompt == st.prompt && st2.show_suggestions
                == st.show_suggestions
            &&& post == (App { overlay: post.overlay, force_full_redraw: true, ..pre })
            &&& effects.len() == 0
        },
        Key::End => {
            &&& post.overlay matches Overlay::CommandPane(st2) && st2.input == st.input
                && st2.cursor == st.input@.len() && st2.prompt == st.prompt
                && st2.show_suggestions == st.show_suggestions
            &&& post == (App { overlay: post.overlay, force_full_redraw: true, ..pre })
            &&& effects.len() == 0
        },
        Key::Char(ch) => cmd_char_rel(pre, post, st, ch, key.mods, effects),
        _ => post == pre && effects.len() == 0,
    }
}

/// Complete the `:` command line against the known command set.
#[verifier::rlimit(60)]
fn cmd_tab(app: &mut App)
    requires
        old(app).wf(),
        old(app).overlay matches Overlay::CommandPane(_),
    ensures
        final(app).wf(),
        cmd_tab_rel(*old(app), *final(app), old(app).overlay->CommandPane_0, Seq::<Effect>::empty()),
{
    let colon = ":".to_owned();
    let mut is_colon = false;
    let mut prefix: Option<String> = None;
    if let Overlay::CommandPane(st) = &app.overlay {
        if st.prompt == colon {
            is_colon = true;
            prefix = Some(trim_spaces(st.input.as_str()));
        }
    }
    if is_colon {
        let pfx = match prefix {
            Some(p) => p,
            None => {
                proof {
                    assert(false);
                }
                unreached()
            },
        };
        let matches_found: Vec<String> = if pfx.as_str().unicode_len() == 0 {
            Vec::new()
        } else {
            collect_matches(&app.command_names, &pfx)
        };
        if matches_found.len() == 1 {
            let chosen = matches_found[0].clone();
            let chosen_len = chosen.as_str().unicode_len();
            if let Overlay::CommandPane(st) = &mut app.overlay {
                st.input = chosen;
                st.cursor = chosen_len;
                st.show_suggestions = true;
            }
        } else if matches_found.len() > 1 {
            let (lcp, _lcs) = common_affixes(&matches_found);
            let lcp_len = lcp.as_str().unicode_len();
            let pfx_len = pfx.as_str().unicode_len();
            if let Overlay::CommandPane(st) = &mut app.overlay {
                if lcp_len > pfx_len {
                    st.input = lcp;
                    st.cursor = lcp_len;
                }
                st.show_suggestions = true;
            }
        } else {
            if let Overlay::CommandPane(st) = &mut app.overlay {
                st.show_suggestions = true;
            }
        }
        app.force_full_redraw = true;
    }
}

/// Commit the command pane on Enter.
#[verifier::rlimit(60)]
fn cmd_enter(app: &mut App, effects: &mut Vec<Effect>)
    requires
        old(app).wf(),
        old(app).overlay matches Overlay::CommandPane(_),
        old(effects)@.len() == 0,
    ensures
        final(app).wf(),
        cmd_enter_rel(*old(app), *final(app), old(app).overlay->CommandPane_0, final(effects)@),
{
    let slash = "/".to_owned();
    let colon = ":".to_owned();
    let mut is_slash = false;
    let mut is_colon = false;
    let mut pat: Option<String> = None;
    let mut line: Option<String> = None;
    if let Overlay::CommandPane(st) = &app.overlay {
        if st.prompt == slash {
            is_slash = true;
            let p = trim_spaces(st.input.as_str());
            if p.as_str().unicode_len() > 0 {
                pat = Some(p);
            }
        } else if st.prompt == colon {
            is_colon = true;
            line = Some(st.input.clone());
        }
    }
    app.overlay = Overlay::Idle;
    if is_slash {
        if let Some(p) = pat {
            app.search_query = Some(p);
        }
    } else if is_colon {
        if let Some(l) = line {
            effects.push(Effect::ExecuteCommand { line: l });
        }
    }
}

/// Delete before the cursor in the command pane; re-run a `/` live search.
#[verifier::rlimit(60)]
fn cmd_backspace(app: &mut App, effects: &mut Vec<Effect>)
    requires
        old(app).wf(),
        old(app).overlay matches Overlay::CommandPane(_),
        old(effects)@.len() == 0,
    ensures
        final(app).wf(),
        cmd_backspace_rel(
            *old(app),
            *final(app),
            old(app).overlay->CommandPane_0,
            final(effects)@,
        ),
{
    let slash = "/".to_owned();
    let mut is_slash = false;
    let mut live: Option<String> = None;
    let mut changed = false;
    if let Overlay::CommandPane(st) = &mut app.overlay {
        if st.cursor > 0 {
            st.backspace();
            changed = true;
            if st.prompt == slash {
                is_slash = true;
                live = Some(st.input.clone());
            }
        }
    }
    if changed && is_slash {
        let q = match live {
            Some(q) => q,
            None => {
                proof {
                    assert(false);
                }
                unreached()
            },
        };
        let ghost mid = *app;
        if app.update_search_live(q.as_str()) {
            effects.push(Effect::RefreshPreview);
            proof {
                assert(effects@ =~= seq![Effect::RefreshPreview]);
            }
        }
        proof {
            assert(live_search_rel(mid, *app, q@, effects@));
        }
    }
}

/// Insert one character in the command pane; re-run a `/` live search.
#[verifier::rlimit(60)]
fn cmd_char(app: &mut App, effects: &mut Vec<Effect>, ch: char, mods: Modifiers)
    requires
        old(app).wf(),
        old(app).overlay matches Overlay::CommandPane(_),
        old(effects)@.len() == 0,
    ensures
        final(app).wf(),
        cmd_char_rel(
            *old(app),
            *final(app),
            old(app).overlay->CommandPane_0,
            ch,
            mods,
            final(effects)@,
        ),
{
    if !mods.control && !mods.alt && !mods.sup {
        let slash = "/".to_owned();
        let mut is_slash = false;
        let mut live: Option<String> = None;
        if let Overlay::CommandPane(st) = &mut app.overlay {
            st.insert_char(ch);
            if st.prompt == slash {
                is_slash = true;
                live = Some(st.input.clone());
            }
        }
        app.force_full_redraw = true;
        if is_slash {
            let q = match live {
                Some(q) => q,
                None => {
                    proof {
                        assert(false);
                    }
                    unreached()
                },
            };
            let ghost mid = *app;
            if app.update_search_live(q.as_str()) {
                effects.push(Effect::RefreshPreview);
                proof {
                    assert(effects@ =~= seq![Effect::RefreshPreview]);
                }
            }
            proof {
                assert(live_search_rel(mid, *app, q@, effects@));
            }
        }
    }
}

/// Route one key while the command pane owns input.
/// Route one key while the command pane owns input.
pub fn handle_command_pane_key(app: &mut App, key: KeyEvent) -> (effects: Vec<Effect>)
    requires
        old(app).wf(),
        old(app).overlay matches Overlay::CommandPane(_),
    ensures
        final(app).wf(),
        ({
            let st = old(app).overlay->CommandPane_0;
            command_rel(*old(app), *final(app), st, key, effects@)
        }),
{
    let mut effects: Vec<Effect> = Vec::new();
    match key.code {
        Key::Esc => {
            app.overlay = Overlay::Idle;
        },
        Key::Tab => {
            cmd_tab(app);
        },
        Key::Enter => {
            cmd_enter(app, &mut effects);
        },
        Key::Backspace => {
            cmd_backspace(app, &mut effects);
        },
        Key::Left => {
            if let Overlay::CommandPane(st) = &mut app.overlay {
                if st.cursor > 0 {
                    st.cursor = st.cursor - 1;
                }
            }
        },
        Key::Right => {
            let mut changed = false;
            if let Overlay::CommandPane(st) = &mut app.overlay {
                let n = st.input.as_str().unicode_len();
                if st.cursor < n {
                    st.cursor = st.cursor + 1;
                    changed = true;
                }
            }
            if changed {
                app.force_full_redraw = true;
            }
        },
        Key::Home => {
            if let Overlay::CommandPane(st) = &mut app.overlay {
                st.cursor = 0;
            }
            app.force_full_redraw = true;
        },
        Key::End => {
            if let Overlay::CommandPane(st) = &mut app.overlay {
                let n = st.input.as_str().unicode_len();
                st.cursor = n;
            }
            app.force_full_redraw = true;
        },
        Key::Char(ch) => {
            cmd_char(app, &mut effects, ch, key.mods);
        },
        _ => {},
    }
    effects
}

/// The resolver tables survive a feed; the accumulator was cleared and the
/// timestamp stamped.
pub open spec fn keys_cleared_fed(pre: KeyState, post: KeyState, now: u64) -> bool {
    &&& post.maps == pre.maps
    &&& post.lookup == pre.lookup
    &&& post.prefixes == pre.prefixes
    &&& post.last_at == Some(now)
    &&& post.pending@.len() == 0
}

/// The resolver tables survive a feed; the accumulator holds the chord and
/// the timestamp was stamped.
pub open spec fn keys_retained_fed(pre: KeyState, post: KeyState, seqv: Seq<char>, now: u64) -> bool {
    &&& post.maps == pre.maps
    &&& post.lookup == pre.lookup
    &&& post.prefixes == pre.prefixes
    &&& post.last_at == Some(now)
    &&& post.pending@ == seqv
}

/// A which-key hint closes; any other overlay stays.
pub open spec fn whichkey_closed(pre_overlay: Overlay, post_overlay: Overlay) -> bool {
    if pre_overlay matches Overlay::WhichKey { .. } {
        post_overlay matches Overlay::Idle
    } else {
        post_overlay == pre_overlay
    }
}

/// Only the fields the navigation branch may touch differ.
pub open spec fn nav_frame(pre: App, post: App) -> bool {
    post == (App {
        keys: post.keys,
        overlay: post.overlay,
        selected_index: post.selected_index,
        cwd: post.cwd,
        nav: post.nav,
        pending_mark: post.pending_mark,
        pending_goto: post.pending_goto,
        recent_messages: post.recent_messages,
        force_full_redraw: post.force_full_redraw,
        ..pre
    })
}

pub open spec fn same_listing_fields(pre: App, post: App) -> bool {
    post.selected_index == pre.selected_index && post.cwd == pre.cwd && post.nav == pre.nav
}

pub open spec fn same_capture_fields(pre: App, post: App) -> bool {
    post.pending_mark == pre.pending_mark && post.pending_goto == pre.pending_goto
}

pub open spec fn same_message_fields(pre: App, post: App) -> bool {
    post.recent_messages == pre.recent_messages && post.force_full_redraw
        == pre.force_full_redraw
}

/// The cursor moved one entry up, with a preview refresh, when it could.
pub open spec fn up_moved(pre: App, post: App, effects: Seq<Effect>) -> bool {
    match pre.selected_index {
        Some(i) => if i > 0 {
            post.selected_index == Some((i - 1) as usize) && effects =~= seq![
                Effect::RefreshPreview,
            ]
        } else {
            post.selected_index == pre.selected_index && effects.len() == 0
        },
        None => post.selected_index == pre.selected_index && effects.len() == 0,
    }
}

/// The cursor moved one entry down (or onto the first entry), with a
/// preview refresh, when it could.
pub open spec fn down_moved(pre: App, post: App, effects: Seq<Effect>) -> bool {
    match pre.selected_index {
        Some(i) => if i + 1 < pre.current_entries@.len() {
            post.selected_index == Some((i + 1) as usize) && effects =~= seq![
                Effect::RefreshPreview,
            ]
        } else {
            post.selected_index == pre.selected_index && effects.len() == 0
        },
        None => if pre.current_entries@.len() > 0 {
            post.selected_index == Some(0usize) && effects =~= seq![Effect::RefreshPreview]
        } else {
            post.selected_index == pre.selected_index && effects.len() == 0
        },
    }
}

/// Descent: a selected directory becomes the working directory, the cursor
/// will reset to the top once the new listing arrives, and the lists and
/// preview refresh.
pub open spec fn descended(pre: App, post: App, effects: Seq<Effect>) -> bool {
    match pre.spec_selected_entry() {
        Some(e) => if e.is_dir {
            &&& post.cwd == e.path
            &&& post.nav matches NavPending::ResetSelection
            &&& effects =~= seq![Effect::RefreshLists, Effect::RefreshPreview]
        } else {
            post.cwd == pre.cwd && post.nav == pre.nav && effects.len() == 0
        },
        None => post.cwd == pre.cwd && post.nav == pre.nav && effects.len() == 0,
    }
}

/// Ascent: the working directory becomes its parent, the departed
/// component's name is remembered so the cursor can be re-seated on it, and
/// the lists and preview refresh.
pub open spec fn ascended(pre: App, post: App, effects: Seq<Effect>) -> bool {
    match spec_parent(pre.cwd@) {
        Some(par) => {
            &&& post.cwd@ == par
            &&& match spec_file_name(pre.cwd@) {
                Some(n) => post.nav matches NavPending::Reselect { name } && name@ == n,
                None => post.nav == pre.nav,
            }
            &&& effects =~= seq![Effect::RefreshLists, Effect::RefreshPreview]
        },
        None => post.cwd == pre.cwd && post.nav == pre.nav && effects.len() == 0,
    }
}

/// The built-in fixed bindings a character reaches when the resolver
/// reports no match: arm a mark or goto capture, quit, move the cursor,
/// descend, or ascend.
pub open spec fn builtin_char_rel(
    pre: App,
    post: App,
    ch: char,
    mods: Modifiers,
    effects: Seq<Effect>,
    quit: bool,
) -> bool {
    &&& whichkey_closed(pre.overlay, post.overlay)
    &&& if ch == 'm' && mods == Modifiers::spec_none() {
        &&& post.pending_mark && post.pending_goto == pre.pending_goto
        &&& noted(pre, post, "Mark: type a letter to save this directory"@)
        &&& same_listing_fields(pre, post)
        &&& effects.len() == 0 && !quit
    } else if ch == '`' && mods == Modifiers::spec_none() {
        &&& post.pending_goto && post.pending_mark == pre.pending_mark
        &&& noted(pre, post, "Goto: type a letter to jump to its mark"@)
        &&& same_listing_fields(pre, post)
        &&& effects.len() == 0 && !quit
    } else if ch == 'q' {
        quit && same_listing_fields(pre, post) && same_capture_fields(pre, post)
            && same_message_fields(pre, post) && effects.len() == 0
    } else if ch == 'k' {
        up_moved(pre, post, effects) && post.cwd == pre.cwd && post.nav == pre.nav
            && same_capture_fields(pre, post) && same_message_fields(pre, post) && !quit
    } else if ch == 'j' {
        down_moved(pre, post, effects) && post.cwd == pre.cwd && post.nav == pre.nav
            && same_capture_fields(pre, post) && same_message_fields(pre, post) && !quit
    } else if ch == 'l' {
        descended(pre, post, effects) && post.selected_index == pre.selected_index
            && same_capture_fields(pre, post) && same_message_fields(pre, post) && !quit
    } else if ch == 'h' && mods == Modifiers::spec_none() {
        ascended(pre, post, effects) && post.selected_index == pre.selected_index
            && same_capture_fields(pre, post) && same_message_fields(pre, post) && !quit
    } else {
        same_listing_fields(pre, post) && same_capture_fields(pre, post)
            && same_message_fields(pre, post) && effects.len() == 0 && !quit
    }
}

/// One character key under no overlay: the token feeds the resolver. An
/// exact match dispatches the bound action and dismisses the which-key
/// hint; a valid prefix keeps gathering and shows the hint; anything else
/// clears the pending chord and falls through to the built-in bindings.
pub open spec fn char_nav_rel(
    pre: App,
    post: App,
    ch: char,
    mods: Modifiers,
    effects: Seq<Effect>,
    quit: bool,
    now: u64,
) -> bool {
    let timeout = pre.config.keys.sequence_timeout_ms;
    let seqv = spec_feed_seq(pre.keys.pending@, pre.keys.last_at, spec_token(ch, mods), now, timeout);
    let lu = spec_lookup(pre.keys.lookup@, seqv);
    if lu is Some {
        &&& keys_cleared_fed(pre.keys, post.keys, now)
        &&& whichkey_closed(pre.overlay, post.overlay)
        &&& effects.len() == 1 && (effects[0] matches Effect::DispatchAction { name } && name@
            == lu->Some_0)
        &&& !quit
        &&& same_listing_fields(pre, post) && same_capture_fields(pre, post)
            && same_message_fields(pre, post)
    } else if spec_is_prefix(pre.keys.lookup@, seqv) {
        &&& keys_retained_fed(pre.keys, post.keys, seqv, now)
        &&& post.overlay matches Overlay::WhichKey { prefix } && prefix@ == seqv
        &&& effects.len() == 0 && !quit
        &&& same_listing_fields(pre, post) && same_capture_fields(pre, post)
            && same_message_fields(pre, post)
    } else {
        &&& keys_cleared_fed(pre.keys, post.keys, now)
        &&& builtin_char_rel(pre, post, ch, mods, effects, quit)
    }
}

/// The default navigation branch: `?` toggles the which-key hint; a
/// character feeds the resolver and falls back to the built-in bindings;
/// Esc dispatches its binding if any, then cancels the pending chord and
/// closes any overlay; arrows and Enter/Backspace move, descend, or ascend.
pub open spec fn nav_rel(
    pre: App,
    post: App,
    key: KeyEvent,
    effects: Seq<Effect>,
    quit: bool,
    now: u64,
) -> bool {
    &&& nav_frame(pre, post)
    &&& match key.code {
        Key::Char(ch) => if ch == '?' {
            &&& (if pre.overlay matches Overlay::WhichKey { .. } {
                post.overlay matches Overlay::Idle
            } else {
                post.overlay matches Overlay::WhichKey { prefix } && prefix@
                    == pre.keys.pending@
            })
            &&& post.keys == pre.keys
            &&& same_listing_fields(pre, post) && same_capture_fields(pre, post)
                && same_message_fields(pre, post)
            &&& effects.len() == 0 && !quit
        } else {
            char_nav_rel(pre, post, ch, key.mods, effects, quit, now)
        },
        Key::Esc => {
            &&& post.keys.maps == pre.keys.maps && post.keys.lookup == pre.keys.lookup
                && post.keys.prefixes == pre.keys.prefixes && post.keys.last_at
                == pre.keys.last_at && post.keys.pending@.len() == 0
            &&& post.overlay matches Overlay::Idle
            &&& match spec_lookup(pre.keys.lookup@, "<Esc>"@) {
                Some(a) => effects.len() == 1 && (effects[0] matches Effect::DispatchAction {
                    name,
                } && name@ == a),
                None => effects.len() == 0,
            }
            &&& !quit
            &&& same_listing_fields(pre, post) && same_capture_fields(pre, post)
                && same_message_fields(pre, post)
        },
        Key::Up => post.keys == pre.keys && post.overlay == pre.overlay && up_moved(
            pre,
            post,
            effects,
        ) && post.cwd == pre.cwd && post.nav == pre.nav && same_capture_fields(pre, post)
            && same_message_fields(pre, post) && !quit,
        Key::Down => post.keys == pre.keys && post.overlay == pre.overlay && down_moved(
            pre,
            post,
            effects,
        ) && post.cwd == pre.cwd && post.nav == pre.nav && same_capture_fields(pre, post)
            && same_message_fields(pre, post) && !quit,
        Key::Enter | Key::Right => post.keys == pre.keys && post.overlay == pre.overlay
            && descended(pre, post, effects) && post.selected_index == pre.selected_index
            && same_capture_fields(pre, post) && same_message_fields(pre, post) && !quit,
        Key::Backspace | Key::Left => post.keys == pre.keys && post.overlay == pre.overlay
            && ascended(pre, post, effects) && post.selected_index == pre.selected_index
            && same_capture_fields(pre, post) && same_message_fields(pre, post) && !quit,
        _ => post == pre && effects.len() == 0 && !quit,
    }
}

/// The built-in bindings for a character the resolver did not match.
#[verifier::rlimit(60)]
fn builtin_char_key(app: &mut App, ch: char, mods: Modifiers) -> (r: (bool, Vec<Effect>))
    requires
        old(app).wf(),
        !(old(app).overlay matches Overlay::WhichKey { .. }),
    ensures
        final(app).wf(),
        final(app).keys == old(app).keys,
        nav_frame(*old(app), *final(app)),
        builtin_char_rel(*old(app), *final(app), ch, mods, r.1@, r.0),
{
    let mut effects: Vec<Effect> = Vec::new();
    let none_mods = !mods.control && !mods.alt && !mods.sup;
    if ch == 'm' && none_mods {
        app.pending_mark = true;
        app.add_message("Mark: type a letter to save this directory");
        return (false, effects);
    }
    if ch == '`' && none_mods {
        app.pending_goto = true;
        app.add_message("Goto: type a letter to jump to its mark");
        return (false, effects);
    }
    if ch == 'q' {
        return (true, effects);
    }
    if ch == 'k' {
        if let Some(sel) = app.selected_index {
            if sel > 0 {
                app.selected_index = Some(sel - 1);
                effects.push(Effect::RefreshPreview);
                proof {
                    assert(effects@ =~= seq![Effect::RefreshPreview]);
                }
            }
        }
        return (false, effects);
    }
    if ch == 'j' {
        let len = app.current_entries.len();
        match app.selected_index {
            Some(sel) => {
                if sel + 1 < len {
                    app.selected_index = Some(sel + 1);
                    effects.push(Effect::RefreshPreview);
                    proof {
                        assert(effects@ =~= seq![Effect::RefreshPreview]);
                    }
                }
            },
            None => {
                if len > 0 {
                    app.selected_index = Some(0);
                    effects.push(Effect::RefreshPreview);
                    proof {
                        assert(effects@ =~= seq![Effect::RefreshPreview]);
                    }
                }
            },
        }
        return (false, effects);
    }
    if ch == 'l' {
        descend_selected(app, &mut effects);
        return (false, effects);
    }
    if ch == 'h' && none_mods {
        ascend_parent(app, &mut effects);
        return (false, effects);
    }
    (false, effects)
}

/// Enter the selected directory, when a directory is selected.
fn descend_selected(app: &mut App, effects: &mut Vec<Effect>)
    requires
        old(app).wf(),
        old(effects)@.len() == 0,
    ensures
        final(app).wf(),
        descended(*old(app), *final(app), final(effects)@),
        *final(app) == (App { cwd: final(app).cwd, nav: final(app).nav, ..*old(app) }),
{
    let target: Option<String> = match app.selected_entry() {
        Some(e) => if e.is_dir {
            Some(e.path.clone())
        } else {
            None
        },
        None => None,
    };
    if let Some(path) = target {
        app.cwd = path;
        app.nav = NavPending::ResetSelection;
        effects.push(Effect::RefreshLists);
        effects.push(Effect::RefreshPreview);
        proof {
            assert(effects@ =~= seq![Effect::RefreshLists, Effect::RefreshPreview]);
        }
    }
}

/// Step up to the parent directory, remembering the departed component.
fn ascend_parent(app: &mut App, effects: &mut Vec<Effect>)
    requires
        old(app).wf(),
        old(effects)@.len() == 0,
    ensures
        final(app).wf(),
        ascended(*old(app), *final(app), final(effects)@),
        *final(app) == (App { cwd: final(app).cwd, nav: final(app).nav, ..*old(app) }),
{
    match parent_of(app.cwd.as_str()) {
        Some(par) => {
            let just_left = file_name_of(app.cwd.as_str());
            app.cwd = par;
            if let Some(name) = just_left {
                app.nav = NavPending::Reselect { name };
            }
            effects.push(Effect::RefreshLists);
            effects.push(Effect::RefreshPreview);
            proof {
                assert(effects@ =~= seq![Effect::RefreshLists, Effect::RefreshPreview]);
            }
        },
        None => {},
    }
}

/// Route one key in the default navigation state (no overlay or capture
/// owns input; `:` was intercepted by the caller).
#[verifier::rlimit(60)]
pub fn handle_nav_key(app: &mut App, key: KeyEvent, now_ms: u64) -> (r: (bool, Vec<Effect>))
    requires
        old(app).wf(),
        key.code != Key::Char(':'),
    ensures
        final(app).wf(),
        nav_rel(*old(app), *final(app), key, r.1@, r.0, now_ms),
{
    let mut effects: Vec<Effect> = Vec::new();
    match key.code {
        Key::Char(ch) => {
            if ch == '?' {
                let is_wk = matches!(app.overlay, Overlay::WhichKey { .. });
                if is_wk {
                    app.overlay = Overlay::Idle;
                } else {
                    let p = app.keys.pending.clone();
                    app.overlay = Overlay::WhichKey { prefix: p };
                }
                return (false, effects);
            }
            let timeout = app.config.keys.sequence_timeout_ms;
            let tok = build_token(ch, key.mods);
            let outcome = feed(&mut app.keys, tok.as_str(), now_ms, timeout);
            match outcome {
                FeedOutcome::Matched(action) => {
                    if matches!(app.overlay, Overlay::WhichKey { .. }) {
                        app.overlay = Overlay::Idle;
                    }
                    effects.push(Effect::DispatchAction { name: action });
                    (false, effects)
                },
                FeedOutcome::Prefix => {
                    let pfx = app.keys.pending.clone();
                    app.overlay = Overlay::WhichKey { prefix: pfx };
                    (false, effects)
                },
                FeedOutcome::NoMatch => {
                    if matches!(app.overlay, Overlay::WhichKey { .. }) {
                        app.overlay = Overlay::Idle;
                    }
                    builtin_char_key(app, ch, key.mods)
                },
            }
        },
        Key::Esc => {
            let esc = "<Esc>".to_owned();
            match lookup_action(&app.keys.lookup, &esc) {
                Some(a) => {
                    effects.push(Effect::DispatchAction { name: a });
                },
                None => {},
            }
            app.keys.pending = String::new();
            app.overlay = Overlay::Idle;
            (false, effects)
        },
        Key::Up => {
            if let Some(sel) = app.selected_index {
                if sel > 0 {
                    app.selected_index = Some(sel - 1);
                    effects.push(Effect::RefreshPreview);
                    proof {
                        assert(effects@ =~= seq![Effect::RefreshPreview]);
                    }
                }
            }
            (false, effects)
        },
        Key::Down => {
            let len = app.current_entries.len();
            match app.selected_index {
                Some(sel) => {
                    if sel + 1 < len {
                        app.selected_index = Some(sel + 1);
                        effects.push(Effect::RefreshPreview);
                        proof {
                            assert(effects@ =~= seq![Effect::RefreshPreview]);
                        }
                    }
                },
                None => {
                    if len > 0 {
                        app.selected_index = Some(0);
                        effects.push(Effect::RefreshPreview);
                        proof {
                            assert(effects@ =~= seq![Effect::RefreshPreview]);
                        }
                    }
                },
            }
            (false, effects)
        },
        Key::Enter | Key::Right => {
            descend_selected(app, &mut effects);
            (false, effects)
        },
        Key::Backspace | Key::Left => {
            ascend_parent(app, &mut effects);
            (false, effects)
        },
        _ => (false, effects),
    }
}

/// The command pane opened empty with the `:` prompt.
pub open spec fn opened_command(pre: App, post: App) -> bool {
    &&& post.overlay matches Overlay::CommandPane(st) && st.prompt@ == ":"@ && st.input@
        == Seq::<char>::empty() && st.cursor == 0 && !st.show_suggestions
    &&& post == (App { overlay: post.overlay, ..pre })
}

/// The single entry point for every key event: the active overlay (or a
/// pending capture) decides which branch owns the keystroke, in the same
/// precedence the session always uses. Returns whether the session should
/// end and the side effects the caller must perform.
pub fn handle_key(app: &mut App, key: KeyEvent, now_ms: u64) -> (r: (bool, Vec<Effect>))
    requires
        old(app).wf(),
    ensures
        final(app).wf(),
        !key.is_press ==> *final(app) == *old(app) && !r.0 && r.1@.len() == 0,
        key.is_press ==> match old(app).overlay {
            Overlay::ThemePicker(st) => theme_picker_rel(
                *old(app),
                *final(app),
                st,
                key,
                r.1@,
            ) && !r.0,
            Overlay::Prompt(st) => prompt_rel(*old(app), *final(app), st, key, r.1@) && !r.0,
            Overlay::CommandPane(st) => command_rel(*old(app), *final(app), st, key, r.1@)
                && !r.0,
            _ => {
                if key.code == Key::Char(':') {
                    opened_command(*old(app), *final(app)) && !r.0 && r.1@.len() == 0
                } else if old(app).pending_mark || old(app).pending_goto {
                    capture_rel(*old(app), *final(app), key, r.1@) && !r.0
                } else if old(app).overlay matches Overlay::Confirm(_) {
                    confirm_rel(
                        *old(app),
                        *final(app),
                        old(app).overlay->Confirm_0,
                        key,
                        r.1@,
                    ) && !r.0
                } else {
                    nav_rel(*old(app), *final(app), key, r.1@, r.0, now_ms)
                }
            },
        },
{
    if !key.is_press {
        return (false, Vec::new());
    }
    if matches!(app.overlay, Overlay::ThemePicker(_)) {
        let effects = handle_theme_picker_key(app, key);
        return (false, effects);
    }
    if matches!(app.overlay, Overlay::Prompt(_)) {
        let effects = handle_prompt_key(app, key);
        return (false, effects);
    }
    if matches!(app.overlay, Overlay::CommandPane(_)) {
        let effects = handle_command_pane_key(app, key);
        return (false, effects);
    }
    if key.code == Key::Char(':') {
        app.overlay = Overlay::CommandPane(
            Box::new(
                CommandPaneState {
                    prompt: ":".to_owned(),
                    input: String::new(),
                    cursor: 0,
                    show_suggestions: false,
                },
            ),
        );
        return (false, Vec::new());
    }
    if app.pending_mark || app.pending_goto {
        let effects = handle_capture_key(app, key);
        return (false, effects);
    }
    if matches!(app.overlay, Overlay::Confirm(_)) {
        let effects = handle_confirm_key(app, key);
        return (false, effects);
    }
    handle_nav_key(app, key, now_ms)
}

} // verus!
