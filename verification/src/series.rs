//! Series of patches: the file that lists them, and the archives that a
//! series may come in.

use vstd::prelude::*;
use vstd::slice::{slice_subrange, slice_to_vec};
use vstd::string::StringExecFns;
use vstd::utf8::encode_utf8;
use crate::bytestr::{
    bstr_fields, bstr_lossy, bstr_trim, fields, lines, lines_of, slice_views, to_str_lossy, trim,
};
use crate::headers::{find_first, first_occurrence, strip_prefix};
use crate::patchname::lower;
use crate::text::{bytes_eq, occurs, occurs_at, starts_with, to_chars};

verus! {

/// How a series comes: as a plain series file, or packed in an archive.
#[derive(Clone, Copy, Debug, PartialEq, Eq, Structural)]
pub enum SeriesArchive {
    Plain,
    Tar,
    TarGz,
    TarBz2,
}

/// `s` with its ASCII capitals turned into small letters.
pub open spec fn lower_text(s: Seq<char>) -> Seq<char> {
    Seq::new(s.len(), |i: int| lower(s[i]))
}

/// Whether `hay` ends with `suffix`.
pub open spec fn has_suffix(hay: Seq<char>, suffix: Seq<char>) -> bool {
    suffix.len() <= hay.len() && occurs_at(hay, suffix, hay.len() - suffix.len())
}

/// How the series in the file called `file_name` comes, by the end of the
/// name, whatever its case: `.tar.gz` and `.tgz`, `.tar.bz2`, and `.tar`
/// are archives; anything else is a series file.
pub open spec fn archive_of(file_name: Seq<char>) -> SeriesArchive {
    let name = lower_text(file_name);
    if has_suffix(name, ".tar.gz"@) || has_suffix(name, ".tgz"@) {
        SeriesArchive::TarGz
    } else if has_suffix(name, ".tar.bz2"@) {
        SeriesArchive::TarBz2
    } else if has_suffix(name, ".tar"@) {
        SeriesArchive::Tar
    } else {
        SeriesArchive::Plain
    }
}

fn ends_in(hay: &Vec<char>, suffix: &str) -> (r: bool)
    ensures
        r == has_suffix(hay@, suffix@),
{
    let tail = to_chars(suffix);
    if tail.len() > hay.len() {
        return false;
    }
    occurs(hay.as_slice(), tail.as_slice(), hay.len() - tail.len())
}

/// Tells how the series in the file called `file_name` comes.
pub fn series_archive(file_name: &str) -> (r: SeriesArchive)
    ensures
        r == archive_of(file_name@),
{
    let chars = to_chars(file_name);
    let mut name: Vec<char> = Vec::new();
    let mut i: usize = 0;
    while i < chars.len()
        invariant
            i <= chars.len(),
            name@.len() == i,
            forall|k: int| 0 <= k < i ==> name@[k] == lower(chars@[k]),
        decreases chars.len() - i,
    {
        let c = chars[i];
        if c >= 'A' && c <= 'Z' {
            name.push(((c as u8) + 32) as char);
        } else {
            name.push(c);
        }
        i = i + 1;
    }
    assert(name@ =~= lower_text(file_name@));
    if ends_in(&name, ".tar.gz") || ends_in(&name, ".tgz") {
        SeriesArchive::TarGz
    } else if ends_in(&name, ".tar.bz2") {
        SeriesArchive::TarBz2
    } else if ends_in(&name, ".tar") {
        SeriesArchive::Tar
    } else {
        SeriesArchive::Plain
    }
}

/// What a line of a series file says.
pub enum SeriesLine {
    /// Nothing: the line is empty, or a comment.
    Nothing,
    /// A patch file, and the strip level it is to be applied with, where
    /// the line gives one.
    Patch(Seq<u8>, Option<usize>),
    /// A patch file with a strip level that is not supported, as written.
    BadStrip(Seq<u8>, Seq<u8>),
}

/// `line` up to its first `#`.
pub open spec fn before_comment(line: Seq<u8>) -> Seq<u8> {
    match first_occurrence(line, encode_utf8("#"@)) {
        Some(i) => line.take(i),
        None => line,
    }
}

/// What the fields of a line of a series file say. The first field is the
/// patch file. A second field that starts with `-p` is the strip level, of
/// which only `-p0` is supported; any other second field is passed over.
#[verifier::opaque]
pub open spec fn series_fields(f: Seq<Seq<u8>>) -> SeriesLine {
    if f.len() == 0 {
        SeriesLine::Nothing
    } else if f.len() >= 2 && starts_with(f[1], encode_utf8("-p"@)) {
        if f[1] == encode_utf8("-p0"@) {
            SeriesLine::Patch(f[0], Some(0usize))
        } else {
            SeriesLine::BadStrip(f[0], f[1])
        }
    } else {
        SeriesLine::Patch(f[0], None)
    }
}

/// What the line `raw` of a series file says: what stands before its first
/// `#`, trimmed, is split into fields.
pub open spec fn series_line(raw: Seq<u8>) -> SeriesLine {
    let line = bstr_trim(before_comment(raw));
    if line.len() == 0 {
        SeriesLine::Nothing
    } else {
        series_fields(bstr_fields(line))
    }
}

/// A patch file that a series lists.
#[derive(Debug, PartialEq, Eq)]
pub struct SeriesEntry {
    /// The name of the file, relative to the series file.
    pub name: Vec<u8>,
    /// The strip level to apply the patch with, where the series gives one.
    pub strip: Option<usize>,
}

/// A line of a series file that cannot be followed.
#[derive(Debug, PartialEq, Eq)]
pub struct SeriesError {
    /// The name of the patch file.
    pub name: Vec<u8>,
    /// The strip level, as written.
    pub extra: Vec<u8>,
}

/// What a series file lists: the patch files up to the first line that
/// cannot be followed, and that line.
#[derive(Debug, PartialEq, Eq)]
pub struct Series {
    pub entries: Vec<SeriesEntry>,
    pub error: Option<SeriesError>,
}

/// What a series stands for.
pub struct SeriesView {
    pub entries: Seq<(Seq<u8>, Option<usize>)>,
    pub error: Option<(Seq<u8>, Seq<u8>)>,
}

/// The views of a list of series entries.
pub open spec fn series_entry_views(entries: Seq<SeriesEntry>) -> Seq<(Seq<u8>, Option<usize>)> {
    Seq::new(entries.len(), |i: int| (entries[i].name@, entries[i].strip))
}

impl View for Series {
    type V = SeriesView;

    open spec fn view(&self) -> SeriesView {
        SeriesView {
            entries: series_entry_views(self.entries@),
            error: match self.error {
                Some(e) => Some((e.name@, e.extra@)),
                None => None,
            },
        }
    }
}

/// What the lines `lines[from..]` of a series file add to the patch files
/// `entries` that the lines before them list.
pub open spec fn series_from(
    lines: Seq<Seq<u8>>,
    from: int,
    entries: Seq<(Seq<u8>, Option<usize>)>,
) -> SeriesView
    decreases lines.len() - from,
{
    if from < 0 || from >= lines.len() {
        SeriesView { entries, error: None }
    } else {
        match series_line(lines[from]) {
            SeriesLine::Nothing => series_from(lines, from + 1, entries),
            SeriesLine::Patch(name, strip) => series_from(
                lines,
                from + 1,
                entries.push((name, strip)),
            ),
            SeriesLine::BadStrip(name, extra) => SeriesView {
                entries,
                error: Some((name, extra)),
            },
        }
    }
}

/// What a series file lists.
pub open spec fn series_of(data: Seq<u8>) -> SeriesView {
    series_from(lines_of(data), 0, Seq::<(Seq<u8>, Option<usize>)>::empty())
}

/// What a line of a series file says, with the bytes it names.
#[derive(Debug, PartialEq, Eq)]
pub enum SeriesItem<'a> {
    Nothing,
    Patch(&'a [u8], Option<usize>),
    BadStrip(&'a [u8], &'a [u8]),
}

impl<'a> View for SeriesItem<'a> {
    type V = SeriesLine;

    open spec fn view(&self) -> SeriesLine {
        match self {
            SeriesItem::Nothing => SeriesLine::Nothing,
            SeriesItem::Patch(name, strip) => SeriesLine::Patch(name@, *strip),
            SeriesItem::BadStrip(name, extra) => SeriesLine::BadStrip(name@, extra@),
        }
    }
}

/// Tells what the fields of a line of a series file say.
pub fn read_series_fields<'a>(f: &Vec<&'a [u8]>) -> (r: SeriesItem<'a>)
    ensures
        r@ == series_fields(slice_views(f@)),
{
    reveal(series_fields);
    if f.len() == 0 {
        return SeriesItem::Nothing;
    }
    let name: &'a [u8] = f[0];
    assert(slice_views(f@)[0] == name@);
    if f.len() >= 2 {
        let extra: &'a [u8] = f[1];
        assert(slice_views(f@)[1] == extra@);
        if strip_prefix(extra, "-p".as_bytes()).is_some() {
            if bytes_eq(extra, "-p0".as_bytes()) {
                return SeriesItem::Patch(name, Some(0));
            } else {
                return SeriesItem::BadStrip(name, extra);
            }
        }
    }
    SeriesItem::Patch(name, None)
}

/// Tells what a line of a series file says.
pub fn read_series_line<'a>(raw: &'a [u8]) -> (r: SeriesItem<'a>)
    ensures
        r@ == series_line(raw@),
{
    let cut: &'a [u8] = match find_first(raw, "#".as_bytes()) {
        Some(i) => slice_subrange(raw, 0, i),
        None => raw,
    };
    let line = trim(cut);
    if line.len() == 0 {
        return SeriesItem::Nothing;
    }
    let f = fields(line);
    read_series_fields(&f)
}

/// Reads a series file: the patch files it lists, in order, up to the first
/// line that asks for a strip level other than `-p0`.
pub fn parse_series(data: &[u8]) -> (r: Series)
    ensures
        r@ == series_of(data@),
{
    let all = lines(data);
    let ghost ls = lines_of(data@);
    let mut entries: Vec<SeriesEntry> = Vec::new();
    let mut i: usize = 0;
    assert(series_entry_views(entries@) =~= Seq::<(Seq<u8>, Option<usize>)>::empty());
    while i < all.len()
        invariant
            i <= all.len(),
            slice_views(all@) == ls,
            ls == lines_of(data@),
            series_from(ls, i as int, series_entry_views(entries@)) == series_of(data@),
        decreases all.len() - i,
    {
        assert(ls[i as int] == all@[i as int]@);
        let ghost before = series_entry_views(entries@);
        match read_series_line(all[i]) {
            SeriesItem::Nothing => {},
            SeriesItem::Patch(name, strip) => {
                entries.push(SeriesEntry { name: slice_to_vec(name), strip });
                assert(series_entry_views(entries@) =~= before.push((name@, strip)));
            },
            SeriesItem::BadStrip(name, extra) => {
                let r = Series {
                    entries,
                    error: Some(SeriesError { name: slice_to_vec(name), extra: slice_to_vec(extra) }),
                };
                return r;
            },
        }
        i = i + 1;
    }
    Series { entries, error: None }
}

/// What to tell the user of a strip level that is not supported, given the
/// patch file and the strip level as text.
pub fn strip_level_message(name: &str, extra: &str) -> (r: String)
    ensures
        r@ == "Patch `"@ + name@ + "` has unsupported strip level \""@ + extra@ + "\""@,
{
    let mut out = String::from_str("Patch `");
    out.append(name);
    out.append("` has unsupported strip level \"");
    out.append(extra);
    out.append("\"");
    out
}

impl SeriesError {
    /// What to tell the user: the patch file and the strip level, as
    /// written, decoded as `bstr` decodes text.
    pub fn message(&self) -> (r: String)
        ensures
            r@ == "Patch `"@ + bstr_lossy(self.name@) + "` has unsupported strip level \""@
                + bstr_lossy(self.extra@) + "\""@,
    {
        let name = to_str_lossy(self.name.as_slice());
        let extra = to_str_lossy(self.extra.as_slice());
        strip_level_message(name.as_str(), extra.as_str())
    }
}

/// What the lines from `from` on add does not depend on what the lines
/// before them list: it comes after it.
pub proof fn lemma_series_from(
    lines: Seq<Seq<u8>>,
    from: int,
    entries: Seq<(Seq<u8>, Option<usize>)>,
)
    ensures
        series_from(lines, from, entries).entries == entries + series_from(
            lines,
            from,
            Seq::<(Seq<u8>, Option<usize>)>::empty(),
        ).entries,
        series_from(lines, from, entries).error == series_from(
            lines,
            from,
            Seq::<(Seq<u8>, Option<usize>)>::empty(),
        ).error,
    decreases lines.len() - from,
{
    let none = Seq::<(Seq<u8>, Option<usize>)>::empty();
    if from < 0 || from >= lines.len() {
        assert(entries + none =~= entries);
    } else {
        match series_line(lines[from]) {
            SeriesLine::Nothing => {
                lemma_series_from(lines, from + 1, entries);
                lemma_series_from(lines, from + 1, none);
            },
            SeriesLine::Patch(name, strip) => {
                lemma_series_from(lines, from + 1, entries.push((name, strip)));
                lemma_series_from(lines, from + 1, none.push((name, strip)));
                let rest = series_from(lines, from + 1, none).entries;
                assert(entries.push((name, strip)) + rest =~= entries + (none.push((name, strip))
                    + rest));
            },
            SeriesLine::BadStrip(name, extra) => {
                assert(entries + none =~= entries);
            },
        }
    }
}

/// A series lists its patch files in the order of its lines: what the
/// lines from `from` on list is what the line `from` lists, if anything,
/// and after it what the lines after it list. Comments and empty lines
/// list nothing, and nothing is listed from a line on that cannot be
/// followed.
pub proof fn lemma_series_order(lines: Seq<Seq<u8>>, from: int)
    requires
        0 <= from < lines.len(),
    ensures
        ({
            let none = Seq::<(Seq<u8>, Option<usize>)>::empty();
            let here = series_from(lines, from, none);
            let after = series_from(lines, from + 1, none);
            match series_line(lines[from]) {
                SeriesLine::Nothing => here == after,
                SeriesLine::Patch(name, strip) => here.entries == seq![(name, strip)]
                    + after.entries && here.error == after.error,
                SeriesLine::BadStrip(name, extra) => here.entries.len() == 0 && here.error == Some(
                    (name, extra),
                ),
            }
        }),
{
    let none = Seq::<(Seq<u8>, Option<usize>)>::empty();
    match series_line(lines[from]) {
        SeriesLine::Patch(name, strip) => {
            lemma_series_from(lines, from + 1, none.push((name, strip)));
            assert(none.push((name, strip)) =~= seq![(name, strip)]);
        },
        _ => {},
    }
}

} // verus!
