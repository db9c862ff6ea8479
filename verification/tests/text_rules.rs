//! Text rules: affixes, templates, widths, decimal rendering, sorting, the
//! account-table parser, and theme file matching.

use lsv::entries::{entry_le_exec, sort_entries};
use lsv::owner::{clear_owner_cache, lookup_name_in_table, owner_string, parse_u32, OwnerCache};
use lsv::prompt::{apply_rename_template, parse_template};
use lsv::state::{find_theme_match, DirEntryInfo};
use lsv::textutil::{
    common_affixes, contains_sub, placeholders_in, sanitize_line, split_lines, trim_spaces,
    truncate_to_width, u64_to_dec,
};

#[test]
fn common_affixes_finds_shared_prefix_and_suffix() {
    let names = vec![
        "IMG_001.jpg".to_string(),
        "IMG_002.jpg".to_string(),
        "IMG_013.jpg".to_string(),
    ];
    let (pre, suf) = common_affixes(&names);
    assert_eq!(pre, "IMG_0");
    assert_eq!(suf, ".jpg");
    let empty: Vec<String> = Vec::new();
    assert_eq!(common_affixes(&empty), (String::new(), String::new()));
    let single = vec!["abc".to_string()];
    assert_eq!(common_affixes(&single), ("abc".to_string(), "abc".to_string()));
    let disjoint = vec!["abc".to_string(), "xyz".to_string()];
    assert_eq!(common_affixes(&disjoint), (String::new(), String::new()));
}

#[test]
fn template_validation_requires_exactly_one_placeholder() {
    assert_eq!(parse_template("pre{}post"), Some(("pre".to_string(), "post".to_string())));
    assert_eq!(parse_template("{}"), Some((String::new(), String::new())));
    assert_eq!(parse_template("no placeholder"), None);
    assert_eq!(parse_template("two{}here{}"), None);
    assert_eq!(parse_template(""), None);
}

#[test]
fn rename_template_strips_original_affixes() {
    // Original affixes IMG_ / .jpg; variable segment is kept.
    let renamed = apply_rename_template("IMG_001.jpg", "IMG_", ".jpg", "photo-", ".jpeg");
    assert_eq!(renamed, "photo-001.jpeg");
    // A name missing the prefix falls back to the whole name.
    let renamed = apply_rename_template("other.png", "IMG_", ".jpg", "x-", "");
    assert_eq!(renamed, "x-other.png");
}

#[test]
fn truncation_respects_display_width() {
    // A wide character counts two columns: "aあ" fills width three.
    assert_eq!(truncate_to_width("aあb", 3), "aあ");
    assert_eq!(truncate_to_width("aあb", 2), "a");
    assert_eq!(truncate_to_width("abc", 10), "abc");
    assert_eq!(truncate_to_width("abc", 0), "");
}

#[test]
fn sanitize_neutralizes_control_characters() {
    assert_eq!(sanitize_line("a\x07b\tc"), "a b c");
    assert_eq!(sanitize_line("plain"), "plain");
}

#[test]
fn decimal_rendering_is_exact() {
    assert_eq!(u64_to_dec(0), "0");
    assert_eq!(u64_to_dec(7), "7");
    assert_eq!(u64_to_dec(1048576), "1048576");
    assert_eq!(u64_to_dec(u64::MAX), "18446744073709551615");
}

#[test]
fn trim_and_split_behave_like_their_specs() {
    assert_eq!(trim_spaces("  x y \t"), "x y");
    assert_eq!(trim_spaces("   "), "");
    assert_eq!(split_lines("a\nb"), vec!["a", "b"]);
    assert_eq!(split_lines("a\n"), vec!["a"]);
    assert_eq!(split_lines("\n"), vec![""]);
    assert!(split_lines("").is_empty());
}

#[test]
fn substring_search_matches_anywhere() {
    assert!(contains_sub("hello world", "lo wo"));
    assert!(contains_sub("abc", ""));
    assert!(!contains_sub("abc", "abcd"));
    assert!(!contains_sub("abc", "x"));
}

fn entry(name: &str, is_dir: bool) -> DirEntryInfo {
    DirEntryInfo {
        name: name.to_string(),
        path: format!("/{}", name),
        is_dir,
        size: 0,
        mtime: None,
        ctime: None,
    }
}

#[test]
fn initial_sort_puts_directories_first_case_insensitively() {
    let mut v = vec![
        entry("zeta", false),
        entry("Alpha", false),
        entry("beta", true),
        entry("ALPHA_DIR", true),
    ];
    sort_entries(&mut v);
    let names: Vec<&str> = v.iter().map(|e| e.name.as_str()).collect();
    assert_eq!(names, vec!["ALPHA_DIR", "beta", "Alpha", "zeta"]);
    // The comparator itself folds case: "Alpha" orders before "zeta".
    assert!(entry_le_exec(&entry("Alpha", false), &entry("zeta", false)));
    assert!(!entry_le_exec(&entry("zeta", false), &entry("Alpha", false)));
}

#[test]
fn account_table_resolves_first_matching_line() {
    let table = "# comment\n\nroot:x:0:0:root:/root:/bin/sh\nuser:x:1000:1000::/home/user:/bin/sh";
    assert_eq!(lookup_name_in_table(table, 0).as_deref(), Some("root"));
    assert_eq!(lookup_name_in_table(table, 1000).as_deref(), Some("user"));
    assert_eq!(lookup_name_in_table(table, 42), None);
    // Malformed lines resolve nothing.
    assert_eq!(lookup_name_in_table("justtext", 0), None);
    assert_eq!(lookup_name_in_table("a:b", 0), None);
}

#[test]
fn decimal_parse_is_exact() {
    assert_eq!(parse_u32("0"), Some(0));
    assert_eq!(parse_u32("4294967295"), Some(u32::MAX));
    assert_eq!(parse_u32("4294967296"), None);
    assert_eq!(parse_u32(""), None);
    assert_eq!(parse_u32("12a"), None);
}

#[test]
fn owner_cache_remembers_until_cleared() {
    let mut cache = OwnerCache::new();
    assert!(cache.user_name(0).is_none());
    cache.remember_user(0, "root".to_string());
    cache.remember_group(0, "wheel".to_string());
    assert_eq!(cache.user_name(0).as_deref(), Some("root"));
    assert_eq!(cache.group_name(0).as_deref(), Some("wheel"));
    clear_owner_cache(&mut cache);
    assert!(cache.user_name(0).is_none());
    assert!(cache.group_name(0).is_none());
}

#[test]
fn owner_string_falls_back_to_numeric_ids() {
    assert_eq!(
        owner_string(0, 0, Some("root".to_string()), Some("wheel".to_string())),
        "root:wheel"
    );
    assert_eq!(owner_string(1000, 27, None, None), "1000:27");
    assert_eq!(owner_string(5, 0, None, Some("g".to_string())), "5:g");
}

#[test]
fn theme_match_is_case_insensitive_on_stem_and_extension() {
    let files = vec![
        ("notes".to_string(), "txt".to_string()),
        ("Gruvbox".to_string(), "LUA".to_string()),
        ("ocean".to_string(), "lua".to_string()),
    ];
    assert_eq!(find_theme_match(&files, "gruvbox"), Some(1));
    assert_eq!(find_theme_match(&files, "OCEAN"), Some(2));
    assert_eq!(find_theme_match(&files, "notes"), None);
    assert_eq!(find_theme_match(&files, "missing"), None);
}

#[test]
fn header_placeholders_are_collected_in_order() {
    assert_eq!(placeholders_in("{date} at {time} in {cwd}"), vec!["date", "time", "cwd"]);
    assert_eq!(placeholders_in("no braces"), Vec::<String>::new());
    assert_eq!(placeholders_in("empty {} skipped {x}"), vec!["x"]);
    assert_eq!(placeholders_in("unclosed { brace"), Vec::<String>::new());
}
