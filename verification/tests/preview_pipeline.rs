//! Preview pipeline behaviour: binary classification, the static snapshot,
//! the viewport-bound cache, and the streaming line protocol.

use lsv::preview::{
    binary_placeholder, classify_binary, command_output_lines, is_image_file, DynamicPreview,
    PreviewPlan, PreviewRequest,
};
use lsv::state::{App, DirEntryInfo, PreviewContent, RunningPreview};
use lsv::stream::{stream_messages, LineBuffer};

fn entry(name: &str, path: &str, is_dir: bool) -> DirEntryInfo {
    DirEntryInfo {
        name: name.to_string(),
        path: path.to_string(),
        is_dir,
        size: 0,
        mtime: None,
        ctime: None,
    }
}

fn file_app(name: &str, path: &str) -> App {
    App::new("/a".to_string(), vec![entry(name, path, false)], Vec::new())
}

#[test]
fn nul_byte_sample_is_binary() {
    assert!(classify_binary(&[b'a', 0, b'b']));
}

#[test]
fn invalid_utf8_sample_is_binary() {
    // No NUL byte, but not valid UTF-8: only the encoding check can flag it.
    assert!(classify_binary(&[0xff, 0xfe]));
}

#[test]
fn plain_text_sample_is_text() {
    assert!(!classify_binary(b"hello world\n"));
}

#[test]
fn binary_file_gets_exact_three_line_placeholder() {
    let lines = binary_placeholder(5);
    assert_eq!(lines.len(), 3);
    assert_eq!(lines[0], "<binary file>");
    assert_eq!(lines[1], "size: 5 bytes");
    assert_eq!(lines[2], "tip: configure a previewer for this type");
}

#[test]
fn binary_selection_renders_placeholder_and_clears_cache() {
    let mut app = file_app("blob.bin", "/a/blob.bin");
    app.preview.cache_key = Some(("/a/blob.bin".to_string(), 10, 10));
    let sample = [b'x', 0, b'y'];
    app.apply_file_preview(&sample, 4096, Ok(b"ignored".to_vec()));
    assert_eq!(app.preview.static_lines.len(), 3);
    assert_eq!(app.preview.static_lines[0], "<binary file>");
    assert_eq!(app.preview.static_lines[1], "size: 4096 bytes");
    assert_eq!(
        app.preview.static_lines[2],
        "tip: configure a previewer for this type"
    );
    assert!(app.preview.cache_key.is_none());
    // The next dynamic preview cannot hit the cache: it must ask for a
    // sample, never a previewer invocation straight from the cache.
    match app.preview_plan(10, 10) {
        PreviewPlan::NeedsSample { path } => assert_eq!(path, "/a/blob.bin"),
        _ => panic!("a cleared cache must force recomputation"),
    }
}

#[test]
fn text_file_head_is_split_capped_and_sanitized() {
    let mut app = file_app("t.txt", "/a/t.txt");
    app.apply_file_preview(b"plain", 5, Ok(b"one\r\ntwo\tx\nthr\x07ee".to_vec()));
    assert_eq!(app.preview.static_lines.len(), 3);
    assert_eq!(app.preview.static_lines[0], "one");
    assert_eq!(app.preview.static_lines[1], "two x");
    assert_eq!(app.preview.static_lines[2], "thr ee");
}

#[test]
fn file_read_error_renders_diagnostic_line() {
    let mut app = file_app("t.txt", "/a/t.txt");
    app.apply_file_preview(b"plain", 0, Err("denied".to_string()));
    assert_eq!(app.preview.static_lines.len(), 1);
    assert_eq!(app.preview.static_lines[0], "<error reading file: denied>");
}

#[test]
fn dir_listing_error_renders_diagnostic_line() {
    let mut app = App::new("/a".to_string(), vec![entry("d", "/a/d", true)], Vec::new());
    app.apply_dir_preview(Err("boom".to_string()));
    assert_eq!(app.preview.static_lines.len(), 1);
    assert_eq!(app.preview.static_lines[0], "<error reading directory: boom>");
}

#[test]
fn dir_listing_marks_directories_with_slash() {
    let mut app = App::new("/a".to_string(), vec![entry("d", "/a/d", true)], Vec::new());
    app.apply_dir_preview(Ok(vec![
        entry("sub", "/a/d/sub", true),
        entry("file", "/a/d/file", false),
    ]));
    assert_eq!(app.preview.static_lines.len(), 2);
    assert_eq!(app.preview.static_lines[0], "sub/");
    assert_eq!(app.preview.static_lines[1], "file");
}

#[test]
fn cache_hit_returns_identical_content_without_recomputation() {
    let mut app = file_app("t.txt", "/a/t.txt");
    // First evaluation misses and asks for a sample.
    match app.preview_plan(80, 24) {
        PreviewPlan::NeedsSample { path } => assert_eq!(path, "/a/t.txt"),
        _ => panic!("an empty cache must miss"),
    }
    let lines = vec!["rendered".to_string(), "output".to_string()];
    app.store_dynamic_preview(80, 24, Some(lines.clone()), Some(PreviewContent::Text(Vec::new())));
    // Repeated evaluation for the same (path, width, height) hits the cache
    // and returns byte-identical content, twice in a row.
    for _ in 0..2 {
        match app.preview_plan(80, 24) {
            PreviewPlan::Cached => {
                assert_eq!(app.preview.cache_lines.as_ref().unwrap(), &lines);
            }
            _ => panic!("an unchanged selection and viewport must hit the cache"),
        }
    }
}

#[test]
fn viewport_resize_misses_the_cache() {
    let mut app = file_app("t.txt", "/a/t.txt");
    app.store_dynamic_preview(80, 24, Some(vec!["x".to_string()]), None);
    match app.preview_plan(100, 24) {
        PreviewPlan::NeedsSample { .. } => {}
        _ => panic!("a resized viewport must miss the cache"),
    }
}

#[test]
fn selection_round_trip_invalidates_cache() {
    let a = entry("a.txt", "/a/a.txt", false);
    let b = entry("b.txt", "/a/b.txt", false);
    let mut app = App::new("/a".to_string(), vec![a, b], Vec::new());
    app.selected_index = Some(0);
    app.store_dynamic_preview(80, 24, Some(vec!["content of a".to_string()]), None);
    match app.preview_plan(80, 24) {
        PreviewPlan::Cached => {}
        _ => panic!("cache must hold for A"),
    }
    // Move to B: the refresh that follows the move clears the key.
    app.selected_index = Some(1);
    match app.refresh_preview() {
        PreviewRequest::ReadFile { path } => assert_eq!(path, "/a/b.txt"),
        _ => panic!("a selected file must be read"),
    }
    app.apply_file_preview(b"bb", 2, Ok(b"bb".to_vec()));
    // Back to A: the prior key is gone, so the pipeline recomputes.
    app.selected_index = Some(0);
    match app.preview_plan(80, 24) {
        PreviewPlan::NeedsSample { path } => assert_eq!(path, "/a/a.txt"),
        _ => panic!("after a selection round trip the cache must not hit"),
    }
}

#[test]
fn directory_selection_clears_dynamic_cache() {
    let mut app = App::new("/a".to_string(), vec![entry("d", "/a/d", true)], Vec::new());
    app.preview.cache_key = Some(("/a/old".to_string(), 80, 24));
    app.preview.cache_lines = Some(vec!["stale".to_string()]);
    match app.preview_plan(80, 24) {
        PreviewPlan::DirListing { path } => assert_eq!(path, "/a/d"),
        _ => panic!("a selected directory is listed fresh"),
    }
    assert!(app.preview.cache_key.is_none());
    assert!(app.preview.cache_lines.is_none());
}

#[test]
fn running_stream_suppresses_preview_recomputation() {
    let (_tx, rx) = std::sync::mpsc::channel::<Option<String>>();
    let mut app = file_app("t.txt", "/a/t.txt");
    app.running_preview = Some(RunningPreview { rx });
    match app.refresh_preview() {
        PreviewRequest::Suppressed => {}
        _ => panic!("a live stream owns the display"),
    }
}

#[test]
fn image_extensions_are_recognized_case_insensitively() {
    assert!(is_image_file("/a/photo.JPG"));
    assert!(is_image_file("/a/pic.png"));
    assert!(is_image_file("/a/anim.WebP"));
    assert!(!is_image_file("/a/notes.txt"));
    assert!(!is_image_file("/a/noextension"));
    assert!(!is_image_file("/a/.hidden"));
}

#[test]
fn previewer_context_carries_exact_fields() {
    let mut app = file_app("t.txt", "/a/t.txt");
    match app.preview_plan(80, 24) {
        PreviewPlan::NeedsSample { .. } => {}
        _ => panic!("must miss"),
    }
    match app.previewer_step(80, 24, 5, 1, b"text sample") {
        DynamicPreview::Ask(ctx) => {
            assert_eq!(ctx.current_file, "/a/t.txt");
            assert_eq!(ctx.current_file_dir, "/a");
            assert_eq!(ctx.current_file_name, "t.txt");
            assert_eq!(ctx.current_file_extension, "txt");
            assert!(!ctx.is_binary);
            assert_eq!(ctx.preview_width, 80);
            assert_eq!(ctx.preview_height, 24);
            assert_eq!(ctx.preview_x, 5);
            assert_eq!(ctx.preview_y, 1);
        }
        _ => panic!("a text file asks the previewer"),
    }
    let mut img = file_app("p.png", "/a/p.png");
    match img.preview_plan(80, 24) {
        PreviewPlan::NeedsSample { .. } => {}
        _ => panic!("must miss"),
    }
    match img.previewer_step(80, 24, 0, 0, b"\x89PNG") {
        DynamicPreview::Image { path } => assert_eq!(path, "/a/p.png"),
        _ => panic!("an image extension goes to the image renderer"),
    }
}

#[test]
fn command_output_combines_stdout_and_stderr() {
    let lines = command_output_lines(b"out1\nout2", b"err1", 1000);
    assert_eq!(lines, vec!["out1", "out2", "err1"]);
    let capped = command_output_lines(b"a\nb\nc\nd", b"", 2);
    assert_eq!(capped, vec!["a", "b"]);
    let no_err = command_output_lines(b"only\n", b"", 1000);
    assert_eq!(no_err, vec!["only"]);
}

#[test]
fn stream_yields_lines_then_remainder_then_sentinel() {
    // The channel protocol for `printf 'a\nb'`: "a" is newline-terminated,
    // "b" is the non-terminated remainder, then the sentinel.
    let msgs = stream_messages(b"a\nb", b"");
    assert_eq!(msgs.len(), 3);
    assert_eq!(msgs[0].as_deref(), Some("a"));
    assert_eq!(msgs[1].as_deref(), Some("b"));
    assert!(msgs[2].is_none());
}

#[test]
fn stream_orders_stdout_before_stderr() {
    let msgs = stream_messages(b"o1\no2\n", b"e1\n");
    assert_eq!(msgs.len(), 4);
    assert_eq!(msgs[0].as_deref(), Some("o1"));
    assert_eq!(msgs[1].as_deref(), Some("o2"));
    assert_eq!(msgs[2].as_deref(), Some("e1"));
    assert!(msgs[3].is_none());
}

#[test]
fn line_buffer_splits_across_chunks() {
    let mut buf = LineBuffer::new();
    let first = buf.push_bytes(b"hel");
    assert!(first.is_empty());
    let second = buf.push_bytes(b"lo\nwor");
    assert_eq!(second, vec!["hello"]);
    let third = buf.push_bytes(b"ld\n");
    assert_eq!(third, vec!["world"]);
    assert!(buf.flush().is_none());
}

#[test]
fn invalid_bytes_decode_to_replacement_character() {
    // If the decoding wrapper handed its bytes back unchanged this would
    // not produce the replacement character.
    let mut buf = LineBuffer::new();
    let lines = buf.push_bytes(&[0xff, b'\n']);
    assert_eq!(lines, vec!["\u{fffd}"]);
}
