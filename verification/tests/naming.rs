use klipt::naming::{
    apply_naming_scheme, clean_stem, output_file_name, prepare_output, rename_target, resolve_output,
    strip_illegal,
};

/// A probe that reports exactly the listed paths as taken.
fn taken<'a>(paths: &'a [&'a str]) -> impl Fn(&str) -> bool + 'a {
    move |p: &str| paths.contains(&p)
}

fn nothing_taken(_p: &str) -> bool {
    false
}

#[test]
fn clean_stem_falls_back_when_empty_or_blank() {
    assert_eq!(clean_stem(None, "def"), "def");
    assert_eq!(clean_stem(Some("   "), "def"), "def");
    assert_eq!(clean_stem(Some(""), "def"), "def");
}

#[test]
fn clean_stem_strips_path_extension_and_illegal_chars() {
    // directory components dropped
    assert_eq!(clean_stem(Some("C:/evil/clip"), "def"), "clip");
    assert_eq!(clean_stem(Some("../../clip"), "def"), "clip");
    // trailing extension stripped
    assert_eq!(clean_stem(Some("clip.mp4"), "def"), "clip");
    // illegal filename chars removed
    assert_eq!(clean_stem(Some("a<b>c:d"), "def"), "abcd");
    // a name that is only illegal chars collapses to the default
    assert_eq!(clean_stem(Some("///"), "def"), "def");
}

#[test]
fn apply_naming_scheme_substitutes_tokens_and_defaults() {
    assert_eq!(apply_naming_scheme(None, "clip", "trim"), "clip_trim");
    assert_eq!(apply_naming_scheme(Some("   "), "clip", "small"), "clip_small");
    assert_eq!(apply_naming_scheme(Some("{name}-{action}-clip"), "raw", "gif"), "raw-gif-clip");
    // A scheme can drop a token entirely.
    assert_eq!(apply_naming_scheme(Some("{name}"), "raw", "trim"), "raw");
}

#[test]
fn apply_naming_scheme_strips_illegal_chars_and_separators() {
    assert_eq!(apply_naming_scheme(Some("../{name}/{action}"), "raw", "trim"), "..rawtrim");
    assert_eq!(apply_naming_scheme(Some("a:b*c{name}"), "raw", "trim"), "abcraw");
    // A scheme that collapses to nothing falls back to the default.
    assert_eq!(apply_naming_scheme(Some("///"), "raw", "trim"), "raw_trim");
}

#[test]
fn apply_naming_scheme_replaces_every_token_occurrence() {
    assert_eq!(apply_naming_scheme(Some("{name}{name}"), "a", "b"), "aa");
    assert_eq!(apply_naming_scheme(Some(" {action} "), "a", "gif"), "gif");
}

#[test]
fn rename_target_keeps_extension_and_strips_illegal_chars() {
    // Parent need not exist for the no-collision path.
    let out = rename_target("C:/clips/raw.mkv", "My Clip", nothing_taken).unwrap();
    assert!(out.ends_with("My Clip.mkv"), "got {out}");
    let out2 = rename_target("C:/clips/raw.mp4", "a<b>c:d", nothing_taken).unwrap();
    assert!(out2.ends_with("abcd.mp4"), "got {out2}");
}

#[test]
fn rename_target_rejects_blank_names() {
    assert!(rename_target("C:/clips/raw.mp4", "   ", nothing_taken).is_err());
    assert!(rename_target("C:/clips/raw.mp4", "///", nothing_taken).is_err());
}

#[test]
fn rename_target_names_its_errors() {
    assert_eq!(rename_target("C:/clips/raw.mp4", "", nothing_taken).unwrap_err(), "Please enter a valid name.");
    assert_eq!(rename_target("", "x", nothing_taken).unwrap_err(), "Could not resolve the clip's folder.");
}

#[test]
fn strip_illegal_removes_reserved_filename_characters() {
    assert_eq!(strip_illegal("a<b>c:d\"e/f\\g|h?i*j"), "abcdefghij");
    assert_eq!(strip_illegal("plain name"), "plain name");
}

#[test]
fn output_file_name_numbers_collisions_from_two() {
    assert_eq!(output_file_name("clip", "mp4", 1), "clip.mp4");
    assert_eq!(output_file_name("clip", "mp4", 2), "clip_2.mp4");
    assert_eq!(output_file_name("clip", "", 3), "clip_3");
    assert_eq!(output_file_name("clip", "", 1), "clip");
}

#[test]
fn prepare_output_rejects_non_positive_region() {
    let e = prepare_output("/tmp/a.mp4", false, None, "trim", "mp4", None, None, nothing_taken);
    assert_eq!(e.unwrap_err(), "End point must be after the start point.");
}

#[test]
fn prepare_output_builds_default_suffix_path() {
    let existing = ["dir/clip.mp4"];
    let out = prepare_output("dir/clip.mp4", true, None, "trim", "mp4", None, None, taken(&existing)).unwrap();
    assert!(out.ends_with("clip_trim.mp4"), "got {out}");
    assert_eq!(out, "dir/clip_trim.mp4");
}

#[test]
fn prepare_output_honours_output_dir_override() {
    let existing = ["src/clip.mp4"];
    let out = prepare_output("src/clip.mp4", true, None, "trim", "mp4", Some("dst"), None, taken(&existing)).unwrap();
    assert_eq!(out, "dst/clip_trim.mp4", "got {out}");
    // A blank override falls back to next-to-source.
    let out2 = prepare_output("src/clip.mp4", true, None, "trim", "mp4", Some("   "), None, taken(&existing)).unwrap();
    assert_eq!(out2, "src/clip_trim.mp4", "got {out2}");
}

#[test]
fn prepare_output_uses_naming_scheme_for_default_stem() {
    let existing = ["dir/raw.mp4"];
    let out = prepare_output("dir/raw.mp4", true, None, "small", "mp4", None, Some("{action}-{name}"), taken(&existing)).unwrap();
    assert!(out.ends_with("small-raw.mp4"), "got {out}");
    let named = prepare_output("dir/raw.mp4", true, Some("my clip"), "small", "mp4", None, Some("{action}-{name}"), taken(&existing)).unwrap();
    assert!(named.ends_with("my clip.mp4"), "got {named}");
}

#[test]
fn prepare_output_never_overwrites_an_existing_export() {
    let existing = ["dir/clip.mp4", "dir/clip_trim.mp4"];
    let out = prepare_output("dir/clip.mp4", true, None, "trim", "mp4", None, None, taken(&existing)).unwrap();
    assert_eq!(out, "dir/clip_trim_2.mp4");
}

#[test]
fn resolve_output_uses_bare_name_when_free() {
    let out = resolve_output("dir", "clip", "mp4", nothing_taken);
    assert_eq!(out, "dir/clip.mp4");
}

#[test]
fn resolve_output_avoids_collisions() {
    let existing = ["dir/clip.mp4", "dir/clip_2.mp4"];
    let out = resolve_output("dir", "clip", "mp4", taken(&existing));
    assert_eq!(out, "dir/clip_3.mp4");
}

#[test]
fn resolve_output_probes_each_candidate_in_order() {
    let asked = std::cell::RefCell::new(Vec::new());
    let existing = ["dir/clip.mp4", "dir/clip_2.mp4"];
    let out = resolve_output("dir", "clip", "mp4", |p: &str| {
        asked.borrow_mut().push(p.to_string());
        existing.contains(&p)
    });
    assert_eq!(out, "dir/clip_3.mp4");
    assert_eq!(*asked.borrow(), vec!["dir/clip.mp4", "dir/clip_2.mp4", "dir/clip_3.mp4"]);
}

#[test]
fn rename_target_is_noop_when_name_is_unchanged() {
    let existing = ["dir/clip.mp4"];
    // Renaming to the same stem returns the same path, not "clip_2.mp4".
    let out = rename_target("dir/clip.mp4", "clip", taken(&existing)).unwrap();
    assert_eq!(out, "dir/clip.mp4");
}

#[test]
fn rename_target_avoids_collisions_with_other_files() {
    let existing = ["dir/clip.mp4", "dir/taken.mp4"];
    // Renaming clip.mp4 to "taken" must not clobber the existing taken.mp4.
    let out = rename_target("dir/clip.mp4", "taken", taken(&existing)).unwrap();
    assert!(out.ends_with("taken_2.mp4"), "got {out}");
}

#[test]
fn rename_target_keeps_a_missing_extension_missing() {
    let out = rename_target("C:/clips/raw", "new", nothing_taken).unwrap();
    assert_eq!(out, "C:/clips/new");
    let existing = ["C:/clips/new"];
    let out2 = rename_target("C:/clips/raw", "new", taken(&existing)).unwrap();
    assert_eq!(out2, "C:/clips/new_2");
}

#[test]
fn apply_naming_scheme_substitutes_the_stem_token() {
    assert_eq!(apply_naming_scheme(Some("{stem}-{action}"), "raw", "trim"), "raw-trim");
    assert_eq!(apply_naming_scheme(Some("{stem}_{name}"), "a", "b"), "a_a");
    // `{ext}` and `{n}` are filled later, by `prepare_output`.
    assert_eq!(apply_naming_scheme(Some("{name}.{ext}"), "raw", "trim"), "raw.{ext}");
}

#[test]
fn prepare_output_fills_the_extension_token() {
    let existing = ["dir/raw.mp4"];
    let out = prepare_output("dir/raw.mp4", true, None, "small", "mp4", None, Some("{name}-{ext}"), taken(&existing)).unwrap();
    assert_eq!(out, "dir/raw-mp4.mp4");
    let gif = prepare_output("dir/raw.mp4", true, None, "gif", "gif", None, Some("{action} of {name} ({ext})"), taken(&existing)).unwrap();
    assert_eq!(gif, "dir/gif of raw (gif).gif");
}

#[test]
fn prepare_output_numbers_the_counter_token() {
    let existing = ["dir/raw.mp4"];
    let out = prepare_output("dir/raw.mp4", true, None, "trim", "mp4", None, Some("{name}_{n}"), taken(&existing)).unwrap();
    assert_eq!(out, "dir/raw_1.mp4");
    let existing = ["dir/raw.mp4", "dir/raw_1.mp4", "dir/raw_2.mp4"];
    let next = prepare_output("dir/raw.mp4", true, None, "trim", "mp4", None, Some("{name}_{n}"), taken(&existing)).unwrap();
    assert_eq!(next, "dir/raw_3.mp4");
    // Without `{n}` a collision gets the `_<n>` suffix as usual.
    let existing = ["dir/raw.mp4", "dir/trim-raw.mp4"];
    let plain = prepare_output("dir/raw.mp4", true, None, "trim", "mp4", None, Some("{action}-{name}"), taken(&existing)).unwrap();
    assert_eq!(plain, "dir/trim-raw_2.mp4");
}

#[test]
fn prepare_output_leaves_tokens_in_a_typed_name_alone() {
    let existing = ["dir/raw.mp4"];
    let out = prepare_output("dir/raw.mp4", true, Some("take {n} {ext}"), "trim", "mp4", None, Some("{name}_{n}"), taken(&existing)).unwrap();
    assert_eq!(out, "dir/take {n} {ext}.mp4");
}
