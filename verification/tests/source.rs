use std::io::Write;
use stgit::source::{
    copy_instead, download_file_name, file_url_path, is_empty_patch, mail_file_name, packing_of,
    select_source, unpack, ImportKind, ImportSource, Packing,
};

fn some(text: &str) -> Option<String> {
    Some(text.to_string())
}

#[test]
fn source_is_selected_by_the_options() {
    let kind = |series, mail, mbox| select_source(false, series, mail, mbox).kind;
    assert_eq!(kind(false, false, false), ImportKind::RawDiff);
    assert_eq!(kind(false, true, false), ImportKind::Mail);
    assert_eq!(kind(false, false, true), ImportKind::Mbox);
    assert_eq!(kind(true, false, false), ImportKind::Series);
    assert_eq!(kind(true, true, true), ImportKind::Series);
    assert_eq!(
        select_source(true, false, false, true),
        ImportSource { url: true, kind: ImportKind::Mbox }
    );
}

#[test]
fn packing_is_known_by_the_extension() {
    assert_eq!(packing_of(Some("gz")), Packing::Gzip);
    assert_eq!(packing_of(Some("bz2")), Packing::Bzip2);
    assert_eq!(packing_of(Some("patch")), Packing::Plain);
    assert_eq!(packing_of(Some("GZ")), Packing::Plain);
    assert_eq!(packing_of(Some("")), Packing::Plain);
    assert_eq!(packing_of(None), Packing::Plain);
}

#[test]
fn plain_bytes_are_left_as_they_are() {
    assert_eq!(unpack(Packing::Plain, b"diff --git".to_vec()), Some(b"diff --git".to_vec()));
    assert_eq!(unpack(Packing::Plain, vec![]), Some(vec![]));
}

#[test]
fn gzip_stream_is_unpacked() {
    let text = b"From: A <a@b>\n\nsubject\n---\ndiff --git a/a.txt b/a.txt\n".to_vec();
    let mut encoder = flate2::write::GzEncoder::new(Vec::new(), flate2::Compression::default());
    encoder.write_all(&text).unwrap();
    let packed = encoder.finish().unwrap();
    assert_ne!(packed, text);
    assert_eq!(unpack(Packing::Gzip, packed), Some(text));
    assert_eq!(unpack(Packing::Gzip, b"not gzip at all".to_vec()), None);
}

#[test]
fn bzip2_stream_is_unpacked() {
    let text = b"a patch, packed with bzip2\n".repeat(20);
    let mut encoder = bzip2::write::BzEncoder::new(Vec::new(), bzip2::Compression::default());
    encoder.write_all(&text).unwrap();
    let packed = encoder.finish().unwrap();
    assert_ne!(packed, text);
    assert_eq!(unpack(Packing::Bzip2, packed), Some(text));
    assert_eq!(unpack(Packing::Bzip2, b"not bzip2 at all".to_vec()), None);
}

#[test]
fn empty_patch_is_told_from_other_failures() {
    assert!(is_empty_patch("error: empty patch: 'stdin'"));
    assert!(is_empty_patch("fatal: error: empty patch"));
    assert!(!is_empty_patch("error: corrupt patch at line 3"));
    assert!(!is_empty_patch("error: empty patc"));
    assert!(!is_empty_patch(""));
}

#[test]
fn mail_files_are_numbered_with_four_digits() {
    assert_eq!(mail_file_name(1), "0001");
    assert_eq!(mail_file_name(42), "0042");
    assert_eq!(mail_file_name(9999), "9999");
    assert_eq!(mail_file_name(10000), "10000");
    assert_eq!(mail_file_name(0), "0000");
}

#[test]
fn download_is_named_after_the_last_segment() {
    assert_eq!(download_file_name(b"https://example.com/patches/fix.patch"), "fix.patch");
    assert_eq!(download_file_name(b"file:///tmp/p.patch"), "p.patch");
    assert_eq!(download_file_name(b"plain"), "plain");
    assert_eq!(download_file_name(b"https://example.com/dir/"), "");
    assert_eq!(download_file_name(b"https://example.com/\xff\xfe"), "patch");
    assert_eq!(download_file_name(b""), "");
}

#[test]
fn file_url_names_a_path() {
    assert_eq!(file_url_path("file:///tmp/p.patch"), some("/tmp/p.patch"));
    assert_eq!(file_url_path("file://"), some(""));
    assert_eq!(file_url_path("https://example.com/p"), None);
    assert_eq!(file_url_path("file:/x"), None);
}

#[test]
fn malformed_file_url_is_copied_instead() {
    assert_eq!(copy_instead("file:///tmp/p.patch", true), some("/tmp/p.patch"));
    assert_eq!(copy_instead("file:///tmp/p.patch", false), None);
    assert_eq!(copy_instead("https://example.com/p.patch", true), None);
}
