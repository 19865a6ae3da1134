use getlogs::extract::extract_logs;
use getlogs::extract::ExtractError;
use getlogs::extract::PatternKind;
use getlogs::NamedFile;
use std::io::Write;

fn file(name: &str, data: &[u8]) -> NamedFile {
    NamedFile { name: name.to_string(), data: data.to_vec() }
}

fn make_zip(entries: &[(&str, &[u8])]) -> Vec<u8> {
    let mut w = zip::ZipWriter::new(std::io::Cursor::new(Vec::new()));
    let opts = zip::write::SimpleFileOptions::default();
    for (name, data) in entries {
        w.start_file(*name, opts).unwrap();
        w.write_all(data).unwrap();
    }
    w.finish().unwrap().into_inner()
}

const LOG_PATTERN: &str = r".*\.(logcat|dlt)$";

#[test]
fn scenario_plain_file_and_archive_entry() {
    let files = vec![
        file("a.logcat", b"X"),
        file("b.zip", &make_zip(&[("c/d.dlt", b"Y")])),
    ];
    let out = extract_logs(&files, LOG_PATTERN, None).unwrap();
    assert_eq!(out.len(), 2);
    assert_eq!(out[0].name, "a.logcat");
    assert_eq!(out[0].data, b"X".to_vec());
    assert_eq!(out[1].name, "d.dlt");
    assert_eq!(out[1].data, b"Y".to_vec());
}

#[test]
fn corrupt_archive_fails_whole_extraction() {
    let mut bad = make_zip(&[("c/d.dlt", b"Y")]);
    bad.truncate(bad.len() / 2);
    let files = vec![file("ok.logcat", b"fine"), file("b.zip", &bad)];
    let err = extract_logs(&files, LOG_PATTERN, None).unwrap_err();
    match err {
        ExtractError::ArchiveError { name } => assert_eq!(name, "b.zip"),
        other => panic!("expected an archive error, got {:?}", other),
    }
}

#[test]
fn garbage_bytes_with_zip_extension_fail() {
    let files = vec![file("junk.zip", b"this is not an archive at all")];
    let err = extract_logs(&files, LOG_PATTERN, None).unwrap_err();
    assert!(matches!(err, ExtractError::ArchiveError { .. }));
}

#[test]
fn archive_pattern_falls_back_to_log_pattern() {
    let files = vec![file("b.zip", &make_zip(&[("x.logcat", b"L")]))];
    // No archive pattern: the log pattern decides, and x.logcat matches it.
    let out = extract_logs(&files, LOG_PATTERN, None).unwrap();
    assert_eq!(out.len(), 1);
    assert_eq!(out[0].name, "x.logcat");
    assert_eq!(out[0].data, b"L".to_vec());
    // A stricter explicit archive pattern excludes the same entry.
    let out = extract_logs(&files, LOG_PATTERN, Some(r".*\.dlt$")).unwrap();
    assert_eq!(out.len(), 0);
}

#[test]
fn invalid_log_pattern_is_rejected() {
    let files = vec![file("a.logcat", b"X")];
    let err = extract_logs(&files, "(", None).unwrap_err();
    match err {
        ExtractError::InvalidPattern { kind, pattern } => {
            assert_eq!(kind, PatternKind::Log);
            assert_eq!(pattern, "(");
        },
        other => panic!("expected an invalid pattern error, got {:?}", other),
    }
}

#[test]
fn invalid_archive_pattern_is_rejected() {
    let files = vec![file("a.logcat", b"X")];
    let err = extract_logs(&files, LOG_PATTERN, Some("[")).unwrap_err();
    match err {
        ExtractError::InvalidPattern { kind, pattern } => {
            assert_eq!(kind, PatternKind::Archive);
            assert_eq!(pattern, "[");
        },
        other => panic!("expected an invalid pattern error, got {:?}", other),
    }
}

#[test]
fn unmatched_files_contribute_nothing() {
    let files = vec![file("notes.txt", b"n"), file("image.png", b"p")];
    let out = extract_logs(&files, r".*\.dlt$", None).unwrap();
    assert_eq!(out.len(), 0);
}

#[test]
fn empty_source_directory_extracts_nothing() {
    let files: Vec<NamedFile> = Vec::new();
    let out = extract_logs(&files, LOG_PATTERN, None).unwrap();
    assert_eq!(out.len(), 0);
}

#[test]
fn archive_matching_log_pattern_is_copied_verbatim() {
    let data = make_zip(&[("inside.dlt", b"D")]);
    let files = vec![file("logs.zip", &data)];
    let out = extract_logs(&files, r".*\.zip$", None).unwrap();
    assert_eq!(out.len(), 1);
    assert_eq!(out[0].name, "logs.zip");
    assert_eq!(out[0].data, data);
}

#[test]
fn nested_archive_is_not_unpacked() {
    let inner = make_zip(&[("m.dlt", b"M")]);
    let outer = make_zip(&[("inner.zip", &inner)]);
    let files = vec![file("outer.zip", &outer)];
    let out = extract_logs(&files, r".*\.dlt$", None).unwrap();
    assert_eq!(out.len(), 0);
}

#[test]
fn entry_names_are_flattened_to_base_names() {
    let data = make_zip(&[("deep/path/log1.dlt", b"one"), ("log2.dlt", b"two")]);
    let files = vec![file("b.zip", &data)];
    let out = extract_logs(&files, r".*\.dlt$", None).unwrap();
    assert_eq!(out.len(), 2);
    assert_eq!(out[0].name, "log1.dlt");
    assert_eq!(out[0].data, b"one".to_vec());
    assert_eq!(out[1].name, "log2.dlt");
    assert_eq!(out[1].data, b"two".to_vec());
}

#[test]
fn colliding_names_are_written_in_source_order() {
    let files = vec![
        file("a.dlt", b"plain"),
        file("b.zip", &make_zip(&[("c/a.dlt", b"from archive")])),
    ];
    let out = extract_logs(&files, r".*\.dlt$", None).unwrap();
    assert_eq!(out.len(), 2);
    assert_eq!(out[0].name, "a.dlt");
    assert_eq!(out[0].data, b"plain".to_vec());
    assert_eq!(out[1].name, "a.dlt");
    assert_eq!(out[1].data, b"from archive".to_vec());
}

#[test]
fn bare_dot_zip_is_not_an_archive() {
    // A file named exactly ".zip" has no extension; it is skipped, not opened,
    // so its garbage content raises no error.
    let files = vec![file(".zip", b"garbage")];
    let out = extract_logs(&files, r".*\.dlt$", None).unwrap();
    assert_eq!(out.len(), 0);
}

#[test]
fn extension_match_is_case_sensitive() {
    let files = vec![file("b.ZIP", b"garbage")];
    let out = extract_logs(&files, r".*\.dlt$", None).unwrap();
    assert_eq!(out.len(), 0);
}

#[test]
fn extraction_is_idempotent_on_unchanged_sources() {
    let files = vec![
        file("a.logcat", b"X"),
        file("b.zip", &make_zip(&[("c/d.dlt", b"Y")])),
    ];
    let first = extract_logs(&files, LOG_PATTERN, None).unwrap();
    let second = extract_logs(&files, LOG_PATTERN, None).unwrap();
    assert_eq!(first.len(), second.len());
    for (a, b) in first.iter().zip(second.iter()) {
        assert_eq!(a.name, b.name);
        assert_eq!(a.data, b.data);
    }
}
