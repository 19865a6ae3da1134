use getlogs::archive::read_archive;
use getlogs::names::basename;
use getlogs::names::is_zip_file_name;
use std::io::Write;

#[test]
fn basename_strips_directories() {
    assert_eq!(basename("c/d.dlt"), "d.dlt");
    assert_eq!(basename("deep/path/log1.dlt"), "log1.dlt");
    assert_eq!(basename("plain.txt"), "plain.txt");
    assert_eq!(basename("dir/"), "");
    assert_eq!(basename(""), "");
}

#[test]
fn zip_extension_is_exact_and_case_sensitive() {
    assert!(is_zip_file_name("a.zip"));
    assert!(is_zip_file_name("x.b.zip"));
    assert!(!is_zip_file_name(".zip"));
    assert!(!is_zip_file_name("a.ZIP"));
    assert!(!is_zip_file_name("azip"));
    assert!(!is_zip_file_name("a.zip.txt"));
}

#[test]
fn read_archive_keeps_full_entry_names_and_contents() {
    let mut w = zip::ZipWriter::new(std::io::Cursor::new(Vec::new()));
    let opts = zip::write::SimpleFileOptions::default();
    w.start_file("c/d.dlt", opts).unwrap();
    w.write_all(b"Y").unwrap();
    w.start_file("top.txt", opts).unwrap();
    w.write_all(b"T").unwrap();
    let data = w.finish().unwrap().into_inner();

    let entries = read_archive(data).unwrap();
    assert_eq!(entries.len(), 2);
    assert_eq!(entries[0].name, "c/d.dlt");
    assert_eq!(entries[0].data, b"Y".to_vec());
    assert_eq!(entries[1].name, "top.txt");
    assert_eq!(entries[1].data, b"T".to_vec());
}

#[test]
fn read_archive_rejects_truncated_bytes() {
    let mut w = zip::ZipWriter::new(std::io::Cursor::new(Vec::new()));
    let opts = zip::write::SimpleFileOptions::default();
    w.start_file("c/d.dlt", opts).unwrap();
    w.write_all(b"some content that compresses").unwrap();
    let mut data = w.finish().unwrap().into_inner();
    data.truncate(data.len() / 2);
    assert!(read_archive(data).is_none());
}
