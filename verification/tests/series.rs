use stgit::series::{
    parse_series, read_series_line, series_archive, strip_level_message, Series, SeriesArchive,
    SeriesEntry, SeriesError, SeriesItem,
};

fn entry(name: &str, strip: Option<usize>) -> SeriesEntry {
    SeriesEntry { name: name.as_bytes().to_vec(), strip }
}

#[test]
fn archives_are_known_by_the_end_of_their_name() {
    assert_eq!(series_archive("patches.tar.gz"), SeriesArchive::TarGz);
    assert_eq!(series_archive("patches.tgz"), SeriesArchive::TarGz);
    assert_eq!(series_archive("PATCHES.TAR.GZ"), SeriesArchive::TarGz);
    assert_eq!(series_archive("patches.tar.bz2"), SeriesArchive::TarBz2);
    assert_eq!(series_archive("patches.Tar"), SeriesArchive::Tar);
    assert_eq!(series_archive("series"), SeriesArchive::Plain);
    assert_eq!(series_archive("patches.tar.xz"), SeriesArchive::Plain);
    assert_eq!(series_archive("tar"), SeriesArchive::Plain);
    assert_eq!(series_archive(".tar"), SeriesArchive::Tar);
    assert_eq!(series_archive(""), SeriesArchive::Plain);
}

#[test]
fn series_lists_patch_files_in_order() {
    let data = b"# a series\nfirst.patch\n\n  second.patch   -p0  # with strip\nthird.patch extra words\r\n#fourth.patch\nfifth.patch#-p2\n";
    assert_eq!(
        parse_series(data),
        Series {
            entries: vec![
                entry("first.patch", None),
                entry("second.patch", Some(0)),
                entry("third.patch", None),
                entry("fifth.patch", None),
            ],
            error: None,
        }
    );
}

#[test]
fn series_with_unsupported_strip_level_ends_there() {
    let series = parse_series(b"ok.patch\nfoo.patch -p2\nlater.patch\n");
    assert_eq!(series.entries, vec![entry("ok.patch", None)]);
    let error = series.error.unwrap();
    assert_eq!(error, SeriesError { name: b"foo.patch".to_vec(), extra: b"-p2".to_vec() });
    let message = error.message();
    assert_eq!(message, "Patch `foo.patch` has unsupported strip level \"-p2\"");
    assert!(message.contains("foo.patch"));
    assert!(message.contains("-p2"));
}

#[test]
fn series_line_with_unsupported_strip_changes_nothing() {
    let series = parse_series(b"foo.patch -p2");
    assert!(series.entries.is_empty());
    assert!(series.error.is_some());
}

#[test]
fn series_lines_are_read_one_by_one() {
    assert_eq!(read_series_line(b""), SeriesItem::Nothing);
    assert_eq!(read_series_line(b"   # only a comment"), SeriesItem::Nothing);
    assert_eq!(read_series_line(b"a.patch"), SeriesItem::Patch(b"a.patch", None));
    assert_eq!(read_series_line(b"a.patch -p0"), SeriesItem::Patch(b"a.patch", Some(0)));
    assert_eq!(read_series_line(b"a.patch -p1"), SeriesItem::BadStrip(b"a.patch", b"-p1"));
    assert_eq!(read_series_line(b"a.patch -p"), SeriesItem::BadStrip(b"a.patch", b"-p"));
    assert_eq!(read_series_line(b"a.patch -p00"), SeriesItem::BadStrip(b"a.patch", b"-p00"));
    assert_eq!(read_series_line(b"a.patch -R -p1"), SeriesItem::Patch(b"a.patch", None));
    assert_eq!(read_series_line(b"\xffa.patch"), SeriesItem::Patch(b"\xffa.patch", None));
}

#[test]
fn strip_level_message_names_file_and_level() {
    assert_eq!(
        strip_level_message("foo.patch", "-p2"),
        "Patch `foo.patch` has unsupported strip level \"-p2\""
    );
}
