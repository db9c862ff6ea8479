//! The preview pipeline: binary classification, the static snapshot, the
//! viewport-bound dynamic cache, and what the previewer collaborator is asked.

use vstd::prelude::*;
use vstd::string::StringExecFns;
use vstd::string::StrSliceExecFns;
use crate::state::{App, DirEntryInfo, PreviewContent, PreviewState};
use crate::textutil::{
    bytes_to_text, dec_digits, last_index_of, lemma_last_index_of_bounds, find_last_char,
    lossy_of, lower_of, remove_char, sanitize_line, spec_lines, spec_sanitize_char, split_lines,
    strip_char, to_lower, u64_to_dec,
};
use crate::nav::{spec_parent, spec_file_name, parent_of, file_name_of};

verus! {

/// How many lines the static directory snapshot and the file head keep.
pub const STATIC_PREVIEW_LINES_LIMIT: usize = 200;

/// How many lines a previewer command's output keeps.
pub const DYNAMIC_PREVIEW_LINES_LIMIT: usize = 1000;

/// Relies on std::str::from_utf8: it succeeds exactly on valid UTF-8.
#[verifier::external_body]
pub fn utf8_check(bytes: &[u8]) -> (r: bool)
    ensures
        r == vstd::utf8::valid_utf8(bytes@),
{
    std::str::from_utf8(bytes).is_ok()
}

/// A sampled prefix marks a file as binary when it holds a NUL byte or is
/// not valid UTF-8.
pub open spec fn spec_is_binary(sample: Seq<u8>) -> bool {
    sample.contains(0u8) || !vstd::utf8::valid_utf8(sample)
}

/// Classify a sampled prefix of a file as binary or text.
pub fn classify_binary(sample: &[u8]) -> (r: bool)
    ensures
        r == spec_is_binary(sample@),
{
    let mut i: usize = 0;
    while i < sample.len()
        invariant
            i <= sample@.len(),
            forall|j: int| 0 <= j < i ==> sample@[j] != 0u8,
        decreases sample@.len() - i,
    {
        if sample[i] == 0 {
            return true;
        }
        i += 1;
    }
    proof {
        assert(!sample@.contains(0u8));
    }
    !utf8_check(sample)
}

/// The character sequence of `s` with control characters neutralized.
pub open spec fn sanitize_seq(s: Seq<char>) -> Seq<char> {
    Seq::new(s.len(), |i: int| spec_sanitize_char(s[i]))
}

/// One line of the static directory snapshot: the entry's name, a trailing
/// slash for directories, control characters neutralized.
pub open spec fn spec_dir_line(e: DirEntryInfo) -> Seq<char> {
    if e.is_dir {
        sanitize_seq(e.name@ + seq!['/'])
    } else {
        sanitize_seq(e.name@)
    }
}

/// The three placeholder lines shown for a binary file.
pub open spec fn spec_binary_placeholder(size: u64) -> Seq<Seq<char>> {
    seq![
        "<binary file>"@,
        "size: "@ + dec_digits(size as nat) + " bytes"@,
        "tip: configure a previewer for this type"@,
    ]
}

/// Build the binary-file placeholder.
pub fn binary_placeholder(size: u64) -> (r: Vec<String>)
    ensures
        r@.len() == 3,
        forall|j: int| 0 <= j < 3 ==> r@[j]@ == #[trigger] spec_binary_placeholder(size)[j],
{
    let mut r: Vec<String> = Vec::new();
    r.push("<binary file>".to_owned());
    let mut size_line = "size: ".to_owned();
    let digits = u64_to_dec(size);
    size_line.append(digits.as_str());
    size_line.append(" bytes");
    r.push(size_line);
    r.push("tip: configure a previewer for this type".to_owned());
    r
}

/// What the next preview tick needs from outside, decided from the selection.
pub enum PreviewRequest {
    /// A live streaming preview owns the display: compute nothing.
    Suppressed,
    /// Nothing is selected; the snapshot and the cache were cleared.
    NothingSelected,
    /// A directory is selected: list it and hand the result back.
    ListDir { path: String },
    /// A file is selected: sample its head bytes and hand them back.
    ReadFile { path: String },
}

impl App {
    /// Decide this tick's static preview work. With a live stream running
    /// nothing happens; with nothing selected the snapshot and cache are
    /// cleared; otherwise the caller is asked to list the directory or read
    /// the file and hand the data to `apply_dir_preview` or
    /// `apply_file_preview`.
    pub fn refresh_preview(&mut self) -> (r: PreviewRequest)
        requires
            old(self).wf(),
        ensures
            final(self).wf(),
            old(self).running_preview is Some ==> *final(self) == *old(self) && (
            r matches PreviewRequest::Suppressed),
            old(self).running_preview is None ==> match old(self).spec_selected_entry() {
                None => {
                    &&& r matches PreviewRequest::NothingSelected
                    &&& final(self).preview.static_lines@.len() == 0
                    &&& final(self).preview.cache_key is None
                    &&& final(self).preview.cache_lines is None
                    &&& final(self).preview.content == old(self).preview.content
                    &&& *final(self) == (App { preview: final(self).preview, ..*old(self) })
                },
                Some(e) => *final(self) == *old(self) && if e.is_dir {
                    r matches PreviewRequest::ListDir { path } && path@ == e.path@
                } else {
                    r matches PreviewRequest::ReadFile { path } && path@ == e.path@
                },
            },
    {
        if self.running_preview.is_some() {
            return PreviewRequest::Suppressed;
        }
        let (is_dir, path) = match self.selected_entry() {
            Some(e) => (e.is_dir, e.path.clone()),
            None => {
                self.preview.static_lines = Vec::new();
                self.preview.cache_key = None;
                self.preview.cache_lines = None;
                return PreviewRequest::NothingSelected;
            },
        };
        if is_dir {
            PreviewRequest::ListDir { path }
        } else {
            PreviewRequest::ReadFile { path }
        }
    }

    /// Install the static snapshot for a listed directory: one line per
    /// entry, capped, sanitized; a read error renders as one diagnostic
    /// line. Directory snapshots are never cached.
    pub fn apply_dir_preview(&mut self, listing: Result<Vec<DirEntryInfo>, String>)
        ensures
            match listing {
                Ok(list) => {
                    let shown = if list@.len() < STATIC_PREVIEW_LINES_LIMIT as int {
                        list@.len() as int
                    } else {
                        STATIC_PREVIEW_LINES_LIMIT as int
                    };
                    &&& final(self).preview.static_lines@.len() == shown
                    &&& forall|j: int|
                        0 <= j < shown ==> final(self).preview.static_lines@[j]@
                            == spec_dir_line(#[trigger] list@[j])
                },
                Err(e) => final(self).preview.static_lines@.len() == 1
                    && final(self).preview.static_lines@[0]@ == "<error reading directory: "@ + e@
                    + ">"@,
            },
            final(self).preview.cache_key == old(self).preview.cache_key,
            final(self).preview.cache_lines == old(self).preview.cache_lines,
            final(self).preview.content == old(self).preview.content,
            *final(self) == (App { preview: final(self).preview, ..*old(self) }),
    {
        match listing {
            Ok(list) => {
                let mut lines: Vec<String> = Vec::new();
                let mut i: usize = 0;
                while i < list.len() && i < STATIC_PREVIEW_LINES_LIMIT
                    invariant
                        i <= list@.len(),
                        i <= STATIC_PREVIEW_LINES_LIMIT,
                        lines@.len() == i,
                        forall|j: int|
                            0 <= j < i ==> lines@[j]@ == spec_dir_line(#[trigger] list@[j]),
                    decreases list@.len() - i,
                {
                    let mut text = list[i].name.clone();
                    if list[i].is_dir {
                        crate::textutil::push_char(&mut text, '/');
                    }
                    let clean = sanitize_line(text.as_str());
                    proof {
                        assert(clean@ =~= sanitize_seq(text@));
                    }
                    lines.push(clean);
                    i += 1;
                }
                self.preview.static_lines = lines;
            },
            Err(e) => {
                let mut line = "<error reading directory: ".to_owned();
                line.append(e.as_str());
                crate::textutil::push_char(&mut line, '>');
                proof {
                    reveal_strlit(">");
                    assert(">"@ =~= seq!['>']);
                    assert(line@ =~= "<error reading directory: "@ + e@ + ">"@);
                }
                let mut lines: Vec<String> = Vec::new();
                lines.push(line);
                self.preview.static_lines = lines;
            },
        }
    }

    /// Install the static snapshot for a file and invalidate the dynamic
    /// cache. A binary sample renders the fixed three-line placeholder; a
    /// text file renders its head, decoded, split into lines, capped, and
    /// sanitized; a read error renders as one diagnostic line.
    pub fn apply_file_preview(&mut self, sample: &[u8], size: u64, head: Result<Vec<u8>, String>)
        ensures
            final(self).preview.cache_key is None,
            final(self).preview.cache_lines is None,
            final(self).preview.content == old(self).preview.content,
            *final(self) == (App { preview: final(self).preview, ..*old(self) }),
            spec_is_binary(sample@) ==> final(self).preview.static_lines@.len() == 3 && (forall|
                j: int,
            |
                0 <= j < 3 ==> final(self).preview.static_lines@[j]@
                    == #[trigger] spec_binary_placeholder(size)[j]),
            !spec_is_binary(sample@) ==> match head {
                Ok(bytes) => {
                    let all = spec_lines(remove_char(lossy_of(bytes@), '\r'));
                    let shown = if all.len() < STATIC_PREVIEW_LINES_LIMIT as int {
                        all.len() as int
                    } else {
                        STATIC_PREVIEW_LINES_LIMIT as int
                    };
                    &&& final(self).preview.static_lines@.len() == shown
                    &&& forall|j: int|
                        0 <= j < shown ==> final(self).preview.static_lines@[j]@ == sanitize_seq(
                            #[trigger] all[j],
                        )
                },
                Err(e) => final(self).preview.static_lines@.len() == 1
                    && final(self).preview.static_lines@[0]@ == "<error reading file: "@ + e@
                    + ">"@,
            },
    {
        if classify_binary(sample) {
            self.preview.static_lines = binary_placeholder(size);
        } else {
            match head {
                Ok(bytes) => {
                    let text = bytes_to_text(bytes.as_slice());
                    let cleaned = strip_char(text.as_str(), '\r');
                    let all = split_lines(cleaned.as_str());
                    let mut lines: Vec<String> = Vec::new();
                    let mut i: usize = 0;
                    while i < all.len() && i < STATIC_PREVIEW_LINES_LIMIT
                        invariant
                            i <= all@.len(),
                            i <= STATIC_PREVIEW_LINES_LIMIT,
                            lines@.len() == i,
                            forall|j: int|
                                0 <= j < all@.len() ==> all@[j]@ == #[trigger] spec_lines(
                                    remove_char(lossy_of(bytes@), '\r'),
                                )[j],
                            all@.len() == spec_lines(remove_char(lossy_of(bytes@), '\r')).len(),
                            forall|j: int|
                                0 <= j < i ==> lines@[j]@ == sanitize_seq(
                                    #[trigger] spec_lines(remove_char(lossy_of(bytes@), '\r'))[j],
                                ),
                        decreases all@.len() - i,
                    {
                        let clean = sanitize_line(all[i].as_str());
                        proof {
                            assert(clean@ =~= sanitize_seq(all@[i as int]@));
                        }
                        lines.push(clean);
                        i += 1;
                    }
                    self.preview.static_lines = lines;
                },
                Err(e) => {
                    let mut line = "<error reading file: ".to_owned();
                    line.append(e.as_str());
                    crate::textutil::push_char(&mut line, '>');
                    proof {
                        reveal_strlit(">");
                        assert(">"@ =~= seq!['>']);
                        assert(line@ =~= "<error reading file: "@ + e@ + ">"@);
                    }
                    let mut lines: Vec<String> = Vec::new();
                    lines.push(line);
                    self.preview.static_lines = lines;
                },
            }
        }
        self.preview.cache_key = None;
        self.preview.cache_lines = None;
    }
}

/// The file-name extension of `p`: the text after the last dot of its final
/// component, provided that dot is not the component's first character.
pub open spec fn spec_extension(p: Seq<char>) -> Option<Seq<char>> {
    match spec_file_name(p) {
        None => None,
        Some(f) => {
            let d = last_index_of(f, '.');
            if d <= 0 {
                None
            } else {
                Some(f.subrange(d + 1, f.len() as int))
            }
        },
    }
}

/// Whether the lowercased extension is a recognized image extension.
pub open spec fn spec_is_image(p: Seq<char>) -> bool {
    match spec_extension(p) {
        None => false,
        Some(e) => {
            let l = lower_of(e);
            ||| l == "jpg"@
            ||| l == "jpeg"@
            ||| l == "png"@
            ||| l == "gif"@
            ||| l == "bmp"@
            ||| l == "webp"@
            ||| l == "tiff"@
            ||| l == "tif"@
            ||| l == "ico"@
        },
    }
}

/// The file-name extension of `path`, if any.
pub fn extension_of(path: &str) -> (r: Option<String>)
    ensures
        match r {
            Some(e) => spec_extension(path@) == Some(e@),
            None => spec_extension(path@) is None,
        },
{
    match file_name_of(path) {
        None => None,
        Some(f) => {
            let n = f.as_str().unicode_len();
            match find_last_char(f.as_str(), '.') {
                None => None,
                Some(d) => {
                    if d == 0 {
                        None
                    } else {
                        proof {
                            lemma_last_index_of_bounds(f@, '.');
                        }
                        Some(f.as_str().substring_char(d + 1, n).to_owned())
                    }
                },
            }
        },
    }
}

/// Whether `path` names a file with a recognized image extension.
pub fn is_image_file(path: &str) -> (r: bool)
    ensures
        r == spec_is_image(path@),
{
    match extension_of(path) {
        None => false,
        Some(e) => {
            let l = to_lower(e.as_str());
            l == "jpg".to_owned() || l == "jpeg".to_owned() || l == "png".to_owned() || l
                == "gif".to_owned() || l == "bmp".to_owned() || l == "webp".to_owned() || l
                == "tiff".to_owned() || l == "tif".to_owned() || l == "ico".to_owned()
        },
    }
}

/// The context bundle a previewer is evaluated with.
pub struct PreviewerContext {
    pub current_file: String,
    pub current_file_dir: String,
    pub current_file_name: String,
    pub current_file_extension: String,
    pub is_binary: bool,
    pub preview_height: u16,
    pub preview_width: u16,
    pub preview_x: u16,
    pub preview_y: u16,
}

/// What the dynamic preview does for a file on a cache miss.
pub enum DynamicPreview {
    /// A recognized image: hand the path to the image renderer.
    Image { path: String },
    /// Ask the previewer collaborator with this context; a returned command's
    /// output goes through `command_output_lines` and `store_dynamic_preview`.
    Ask(PreviewerContext),
}

/// What one preview tick decides for the dynamic, viewport-bound preview.
pub enum PreviewPlan {
    /// Nothing is selected: render the static snapshot.
    Static,
    /// A directory is selected: list it fresh (never cached); the dynamic
    /// cache was cleared.
    DirListing { path: String },
    /// The cache holds exactly this selection and viewport: render
    /// `cache_lines` and `content` as they stand; nothing is recomputed.
    Cached,
    /// A file is selected and the cache does not match: sample the file's
    /// head bytes and continue with `previewer_step`.
    NeedsSample { path: String },
}

/// The cache key carries exactly this path and viewport.
pub open spec fn spec_key_matches(
    key: Option<(String, u16, u16)>,
    path: Seq<char>,
    width: u16,
    height: u16,
) -> bool {
    match key {
        Some(k) => k.0@ == path && k.1 == width && k.2 == height,
        None => false,
    }
}

/// The cache holds the selected file under exactly this viewport.
pub open spec fn spec_cache_hit(app: App, width: u16, height: u16) -> bool {
    match app.spec_selected_entry() {
        Some(e) => !e.is_dir && spec_key_matches(app.preview.cache_key, e.path@, width, height),
        None => false,
    }
}

/// The dynamic-preview decision: what `preview_plan` does to the state and
/// returns.
pub open spec fn spec_preview_plan(app: App, width: u16, height: u16) -> (App, PreviewPlan) {
    match app.spec_selected_entry() {
        None => (app, PreviewPlan::Static),
        Some(e) => if e.is_dir {
            (
                App {
                    preview: PreviewState {
                        static_lines: app.preview.static_lines,
                        cache_key: None,
                        cache_lines: None,
                        content: None,
                    },
                    ..app
                },
                PreviewPlan::DirListing { path: e.path },
            )
        } else if spec_key_matches(app.preview.cache_key, e.path@, width, height) {
            (app, PreviewPlan::Cached)
        } else {
            (app, PreviewPlan::NeedsSample { path: e.path })
        },
    }
}

impl App {
    /// Decide the dynamic preview for this tick and viewport. On a cache hit
    /// nothing changes and nothing is recomputed: the caller renders
    /// `cache_lines` and `content` as they stand. A directory clears the
    /// cache and is listed fresh. A file missing the cache asks the caller
    /// for its head bytes.
    pub fn preview_plan(&mut self, width: u16, height: u16) -> (r: PreviewPlan)
        requires
            old(self).wf(),
        ensures
            final(self).wf(),
            ({
                let (a, plan) = spec_preview_plan(*old(self), width, height);
                *final(self) == a && r == plan
            }),
    {
        let (is_dir, hit, path) = match self.selected_entry() {
            None => {
                return PreviewPlan::Static;
            },
            Some(e) => {
                let hit = if !e.is_dir {
                    match &self.preview.cache_key {
                        Some((p, cw, ch)) => *p == e.path && *cw == width && *ch == height,
                        None => false,
                    }
                } else {
                    false
                };
                (e.is_dir, hit, e.path.clone())
            },
        };
        if is_dir {
            self.preview.cache_key = None;
            self.preview.cache_lines = None;
            self.preview.content = None;
            PreviewPlan::DirListing { path }
        } else if hit {
            PreviewPlan::Cached
        } else {
            PreviewPlan::NeedsSample { path }
        }
    }

    /// Decide what the dynamic preview asks for a selected file whose head
    /// bytes were sampled: render a recognized image by path, or evaluate the
    /// previewer with the exact context bundle.
    pub fn previewer_step(&self, width: u16, height: u16, x: u16, y: u16, sample: &[u8]) -> (r:
        DynamicPreview)
        requires
            self.wf(),
            self.spec_selected_entry() matches Some(e) && !e.is_dir,
        ensures
            ({
                let e = self.spec_selected_entry()->Some_0;
                if spec_is_image(e.path@) {
                    r matches DynamicPreview::Image { path } && path@ == e.path@
                } else {
                    r matches DynamicPreview::Ask(ctx) && ctx.current_file@ == e.path@
                        && ctx.current_file_dir@ == (match spec_parent(e.path@) {
                        Some(d) => d,
                        None => "."@,
                    }) && ctx.current_file_name@ == (match spec_file_name(e.path@) {
                        Some(f) => f,
                        None => Seq::<char>::empty(),
                    }) && ctx.current_file_extension@ == (match spec_extension(e.path@) {
                        Some(x2) => x2,
                        None => Seq::<char>::empty(),
                    }) && ctx.is_binary == spec_is_binary(sample@) && ctx.preview_height == height
                        && ctx.preview_width == width && ctx.preview_x == x && ctx.preview_y == y
                }
            }),
    {
        let e = match self.selected_entry() {
            Some(e) => e,
            None => {
                proof {
                    assert(false);
                }
                unreached()
            },
        };
        let path = e.path.clone();
        if is_image_file(path.as_str()) {
            return DynamicPreview::Image { path };
        }
        let dir = match parent_of(path.as_str()) {
            Some(d) => d,
            None => ".".to_owned(),
        };
        let name = match file_name_of(path.as_str()) {
            Some(f) => f,
            None => String::new(),
        };
        let ext = match extension_of(path.as_str()) {
            Some(x2) => x2,
            None => String::new(),
        };
        let is_binary = classify_binary(sample);
        DynamicPreview::Ask(
            PreviewerContext {
                current_file: path,
                current_file_dir: dir,
                current_file_name: name,
                current_file_extension: ext,
                is_binary,
                preview_height: height,
                preview_width: width,
                preview_x: x,
                preview_y: y,
            },
        )
    }

    /// Cache the dynamic preview computed for the selected file under this
    /// viewport; the next `preview_plan` for the same selection and viewport
    /// hits the cache.
    pub fn store_dynamic_preview(
        &mut self,
        width: u16,
        height: u16,
        lines: Option<Vec<String>>,
        content: Option<PreviewContent>,
    )
        requires
            old(self).wf(),
            old(self).spec_selected_entry() matches Some(e) && !e.is_dir,
        ensures
            final(self).wf(),
            ({
                let e = old(self).spec_selected_entry()->Some_0;
                *final(self) == (App {
                    preview: PreviewState {
                        static_lines: old(self).preview.static_lines,
                        cache_key: Some((e.path, width, height)),
                        cache_lines: lines,
                        content: content,
                    },
                    ..*old(self)
                })
            }),
            spec_cache_hit(*final(self), width, height),
    {
        let e = match self.selected_entry() {
            Some(e) => e,
            None => {
                proof {
                    assert(false);
                }
                unreached()
            },
        };
        let path = e.path.clone();
        self.preview.cache_key = Some((path, width, height));
        self.preview.cache_lines = lines;
        self.preview.content = content;
    }
}

/// The combined output of a previewer command: stdout, then a newline and
/// stderr when stderr is not empty.
pub open spec fn spec_combined_output(out: Seq<u8>, err: Seq<u8>) -> Seq<u8> {
    if err.len() == 0 {
        out
    } else {
        out + seq![10u8] + err
    }
}

/// Turn a previewer command's captured output into display lines: stdout and
/// stderr combined, decoded, carriage returns removed, split into lines, and
/// capped at `limit`.
pub fn command_output_lines(stdout_bytes: &[u8], stderr_bytes: &[u8], limit: usize) -> (r: Vec<
    String,
>)
    ensures
        ({
            let full = spec_lines(
                remove_char(lossy_of(spec_combined_output(stdout_bytes@, stderr_bytes@)), '\r'),
            );
            &&& r@.len() == (if full.len() < limit as int {
                full.len() as int
            } else {
                limit as int
            })
            &&& forall|j: int| 0 <= j < r@.len() ==> r@[j]@ == #[trigger] full[j]
        }),
{
    let mut combined: Vec<u8> = Vec::new();
    let mut i: usize = 0;
    while i < stdout_bytes.len()
        invariant
            i <= stdout_bytes@.len(),
            combined@ =~= stdout_bytes@.subrange(0, i as int),
        decreases stdout_bytes@.len() - i,
    {
        combined.push(stdout_bytes[i]);
        i += 1;
    }
    proof {
        assert(combined@ =~= stdout_bytes@);
    }
    if stderr_bytes.len() > 0 {
        combined.push(10u8);
        let mut k: usize = 0;
        while k < stderr_bytes.len()
            invariant
                k <= stderr_bytes@.len(),
                combined@ =~= stdout_bytes@ + seq![10u8] + stderr_bytes@.subrange(0, k as int),
            decreases stderr_bytes@.len() - k,
        {
            combined.push(stderr_bytes[k]);
            k += 1;
        }
        proof {
            assert(combined@ =~= spec_combined_output(stdout_bytes@, stderr_bytes@));
        }
    }
    let text = bytes_to_text(combined.as_slice());
    let cleaned = strip_char(text.as_str(), '\r');
    let mut all = split_lines(cleaned.as_str());
    all.truncate(limit);
    all
}

/// Law: cache idempotence. On a cache hit the plan leaves the state
/// untouched and renders the cached content, so evaluating the preview again
/// for the same path and viewport, with no intervening selection, resize, or
/// store, sees the identical state, returns the identical cached content,
/// and never reaches the previewer collaborator.
pub proof fn lemma_cache_idempotent(app: App, width: u16, height: u16)
    requires
        spec_cache_hit(app, width, height),
    ensures
        ({
            let (a1, p1) = spec_preview_plan(app, width, height);
            let (a2, p2) = spec_preview_plan(a1, width, height);
            a1 == app && p1 == PreviewPlan::Cached && a2 == app && p2 == PreviewPlan::Cached
        }),
{
}

/// Law: a cleared cache key hits nothing. A selection change clears the key
/// (`apply_file_preview`, `refresh_preview`), after which no viewport hits
/// the cache: the next dynamic preview for a file recomputes from scratch.
pub proof fn lemma_selection_change_invalidates(app: App, width: u16, height: u16)
    requires
        app.preview.cache_key is None,
    ensures
        !spec_cache_hit(app, width, height),
        ({
            let (a1, p1) = spec_preview_plan(app, width, height);
            match app.spec_selected_entry() {
                Some(e) => !e.is_dir ==> p1 == (PreviewPlan::NeedsSample { path: e.path }),
                None => p1 == PreviewPlan::Static,
            }
        }),
{
}

} // verus!
