//! The sources of an import: what kind of input there is, how it is
//! packed, and what the files it passes through are called.

use std::io::Read;
use vstd::prelude::*;
use vstd::slice::slice_subrange;
use vstd::string::StringExecFns;
use vstd::utf8::{decode_utf8, encode_utf8, is_ascii_chars, is_ascii_chars_encode_utf8, valid_utf8};
use crate::bytestr::to_str;
use crate::patchname::{decimal, decimal_text};
use crate::text::{occurs, occurs_at, starts_with, str_eq, string_from_chars, string_of, to_chars};

verus! {

/// What kind of input an import reads.
#[derive(Clone, Copy, Debug, PartialEq, Eq, Structural)]
pub enum ImportKind {
    /// A diff, with or without a description above it.
    RawDiff,
    /// A single mail.
    Mail,
    /// A mailbox of mails.
    Mbox,
    /// A series file, or an archive that holds one.
    Series,
}

/// Where an import reads from, and what.
#[derive(Clone, Copy, Debug, PartialEq, Eq, Structural)]
pub struct ImportSource {
    /// Whether the input is fetched from a URL first.
    pub url: bool,
    /// What the input is.
    pub kind: ImportKind,
}

impl ImportSource {
    /// Whether a mail without `From` line is taken: where a single mail is
    /// asked for.
    pub fn missing_from_ok(&self) -> (r: bool)
        ensures
            r == (self.kind == ImportKind::Mail),
    {
        match self.kind {
            ImportKind::Mail => true,
            _ => false,
        }
    }
}

/// The source that the options of an import stand for: a series where that
/// is asked for, else a mail or a mailbox, else a diff.
pub fn select_source(url: bool, series: bool, mail: bool, mbox: bool) -> (r: ImportSource)
    ensures
        r.url == url,
        r.kind == if series {
            ImportKind::Series
        } else if mail {
            ImportKind::Mail
        } else if mbox {
            ImportKind::Mbox
        } else {
            ImportKind::RawDiff
        },
{
    let kind = if series {
        ImportKind::Series
    } else if mail {
        ImportKind::Mail
    } else if mbox {
        ImportKind::Mbox
    } else {
        ImportKind::RawDiff
    };
    ImportSource { url, kind }
}

/// How the bytes of a patch file are packed.
#[derive(Clone, Copy, Debug, PartialEq, Eq, Structural)]
pub enum Packing {
    Plain,
    Gzip,
    Bzip2,
}

/// How a patch file is packed, by the extension of its name: `gz` is gzip,
/// `bz2` is bzip2, and anything else, or no extension, is not packed.
pub fn packing_of(extension: Option<&str>) -> (r: Packing)
    ensures
        r == match extension {
            Some(e) => if e@ == "gz"@ {
                Packing::Gzip
            } else if e@ == "bz2"@ {
                Packing::Bzip2
            } else {
                Packing::Plain
            },
            None => Packing::Plain,
        },
{
    match extension {
        Some(e) => {
            if str_eq(e, "gz") {
                Packing::Gzip
            } else if str_eq(e, "bz2") {
                Packing::Bzip2
            } else {
                Packing::Plain
            }
        },
        None => Packing::Plain,
    }
}

/// What `flate2` unpacks from the gzip stream `data`; `None` where it
/// reports an error.
pub uninterp spec fn gzip_unpacked(data: Seq<u8>) -> Option<Seq<u8>>;

/// What `bzip2` unpacks from the bzip2 stream `data`; `None` where it
/// reports an error.
pub uninterp spec fn bzip2_unpacked(data: Seq<u8>) -> Option<Seq<u8>>;

/// Unpacks a gzip stream with `flate2`: `read::GzDecoder::new` over the
/// bytes, read to its end. What comes out depends on the bytes alone;
/// nothing more is claimed of it.
#[verifier::external_body]
fn gunzip(data: &[u8]) -> (r: Option<Vec<u8>>)
    ensures
        match r {
            Some(out) => gzip_unpacked(data@) == Some(out@),
            None => gzip_unpacked(data@) is None,
        },
{
    let mut out = Vec::new();
    match flate2::read::GzDecoder::new(data).read_to_end(&mut out) {
        Ok(_) => Some(out),
        Err(_) => None,
    }
}

/// Unpacks a bzip2 stream with `bzip2`: `read::BzDecoder::new` over the
/// bytes, read to its end. What comes out depends on the bytes alone;
/// nothing more is claimed of it.
#[verifier::external_body]
fn bunzip2(data: &[u8]) -> (r: Option<Vec<u8>>)
    ensures
        match r {
            Some(out) => bzip2_unpacked(data@) == Some(out@),
            None => bzip2_unpacked(data@) is None,
        },
{
    let mut out = Vec::new();
    match bzip2::read::BzDecoder::new(data).read_to_end(&mut out) {
        Ok(_) => Some(out),
        Err(_) => None,
    }
}

/// The bytes of a patch file once they are unpacked; `None` where they
/// cannot be.
pub open spec fn unpacked(packing: Packing, data: Seq<u8>) -> Option<Seq<u8>> {
    match packing {
        Packing::Plain => Some(data),
        Packing::Gzip => gzip_unpacked(data),
        Packing::Bzip2 => bzip2_unpacked(data),
    }
}

/// Unpacks the bytes of a patch file.
pub fn unpack(packing: Packing, data: Vec<u8>) -> (r: Option<Vec<u8>>)
    ensures
        match r {
            Some(out) => unpacked(packing, data@) == Some(out@),
            None => unpacked(packing, data@) is None,
        },
{
    match packing {
        Packing::Plain => Some(data),
        Packing::Gzip => gunzip(data.as_slice()),
        Packing::Bzip2 => bunzip2(data.as_slice()),
    }
}

/// Whether `text` holds `part` somewhere.
pub open spec fn holds(text: Seq<char>, part: Seq<char>) -> bool {
    exists|i: int| occurs_at(text, part, i)
}

/// Whether the failure of mailinfo that reads `error_text` only says that
/// the patch is empty, so that the import goes on with empty headers, an
/// empty message and an empty diff.
pub fn is_empty_patch(error_text: &str) -> (r: bool)
    ensures
        r == holds(error_text@, "error: empty patch"@),
{
    let text = to_chars(error_text);
    let part = to_chars("error: empty patch");
    if part.len() > text.len() {
        return false;
    }
    let last = text.len() - part.len();
    let mut i: usize = 0;
    loop
        invariant
            i <= last == text.len() - part.len(),
            text@ == error_text@,
            part@ == "error: empty patch"@,
            forall|j: int| 0 <= j < i ==> !occurs_at(text@, part@, j),
        decreases last - i,
    {
        if occurs(text.as_slice(), part.as_slice(), i) {
            return true;
        }
        if i == last {
            return false;
        }
        i = i + 1;
    }
}

/// The name of the file that holds the mail number `n` of a split mailbox:
/// the number in decimal, with zeros before it up to four digits.
pub open spec fn mail_name(n: nat) -> Seq<char> {
    let d = decimal(n);
    if d.len() >= 4 {
        d
    } else {
        Seq::new((4 - d.len()) as nat, |i: int| '0') + d
    }
}

/// The name of the file that holds the mail number `n` of a split mailbox.
pub fn mail_file_name(n: usize) -> (r: String)
    ensures
        r@ == mail_name(n as nat),
{
    let mut digits = decimal_text(n as u128);
    let mut out: Vec<char> = Vec::new();
    let ghost d = digits@;
    while out.len() + digits.len() < 4
        invariant
            digits@ == d,
            out@ == Seq::new(out@.len(), |i: int| '0'),
            out@.len() + d.len() <= 4 || out@.len() == 0,
        decreases 4 - out.len(),
    {
        out.push('0');
        assert(out@ =~= Seq::new(out@.len(), |i: int| '0'));
    }
    out.append(&mut digits);
    proof {
        if d.len() >= 4 {
            assert(out@ =~= d);
        }
    }
    string_from_chars(&out)
}

/// What follows the last `/` of `s`, or all of `s` where it has none.
pub open spec fn after_last_slash(s: Seq<u8>) -> Seq<u8>
    decreases s.len(),
{
    if s.len() == 0 {
        s
    } else if s.last() == 47 {
        Seq::<u8>::empty()
    } else {
        after_last_slash(s.drop_last()).push(s.last())
    }
}

/// The name under which what a URL points at is stored: the last segment
/// of the decoded URL, or `patch` where that segment is not UTF-8.
pub open spec fn download_name(decoded_url: Seq<u8>) -> Seq<char> {
    let segment = after_last_slash(decoded_url);
    if valid_utf8(segment) {
        decode_utf8(segment)
    } else {
        "patch"@
    }
}

/// The name under which what a URL points at is stored, given the URL with
/// its escapes decoded.
pub fn download_file_name(decoded_url: &[u8]) -> (r: String)
    ensures
        r@ == download_name(decoded_url@),
{
    let n = decoded_url.len();
    let mut start: usize = 0;
    let mut i: usize = 0;
    assert(decoded_url@.take(0) =~= Seq::<u8>::empty());
    assert(decoded_url@.subrange(0, 0) =~= Seq::<u8>::empty());
    while i < n
        invariant
            start <= i <= n == decoded_url.len(),
            decoded_url@.subrange(start as int, i as int) == after_last_slash(
                decoded_url@.take(i as int),
            ),
        decreases n - i,
    {
        proof {
            let next = decoded_url@.take(i + 1);
            assert(next.drop_last() =~= decoded_url@.take(i as int));
            assert(next.last() == decoded_url@[i as int]);
        }
        if decoded_url[i] == 47 {
            start = i + 1;
            assert(decoded_url@.subrange(start as int, start as int) =~= Seq::<u8>::empty());
        } else {
            assert(decoded_url@.subrange(start as int, i + 1) =~= decoded_url@.subrange(
                start as int,
                i as int,
            ).push(decoded_url@[i as int]));
        }
        i = i + 1;
    }
    assert(decoded_url@.take(n as int) =~= decoded_url@);
    let segment = slice_subrange(decoded_url, start, n);
    match to_str(segment) {
        Some(t) => t.to_owned(),
        None => String::from_str("patch"),
    }
}

/// The path that a `file://` URL names: what follows `file://`.
pub fn file_url_path(url: &str) -> (r: Option<String>)
    ensures
        match r {
            Some(p) => starts_with(url@, "file://"@) && p@ == url@.skip("file://"@.len() as int),
            None => !starts_with(url@, "file://"@),
        },
{
    let chars = to_chars(url);
    let scheme = to_chars("file://");
    if scheme.len() > chars.len() {
        return None;
    }
    if occurs(chars.as_slice(), scheme.as_slice(), 0) {
        let r = string_of(&chars, scheme.len(), chars.len());
        assert(chars@.subrange(scheme@.len() as int, chars@.len() as int) =~= url@.skip(
            scheme@.len() as int,
        ));
        Some(r)
    } else {
        None
    }
}

/// The file to copy in place of a download that failed: where the client
/// found the URL malformed and the URL is a `file://` one, the path it
/// names. Any other failure stands.
pub fn copy_instead(url: &str, url_malformed: bool) -> (r: Option<String>)
    ensures
        match r {
            Some(p) => url_malformed && starts_with(url@, "file://"@) && p@ == url@.skip(
                "file://"@.len() as int,
            ),
            None => !url_malformed || !starts_with(url@, "file://"@),
        },
{
    if url_malformed {
        file_url_path(url)
    } else {
        None
    }
}

/// The name of the file, at the top of the work tree, that takes the diff
/// of a patch that did not apply.
pub fn failed_patch_name() -> (r: &'static str)
    ensures
        r@ == ".stgit-failed.patch"@,
{
    ".stgit-failed.patch"
}

/// The bytes of two texts, one after the other, are the bytes of the one
/// and then the bytes of the other.
pub proof fn lemma_encode_concat(a: Seq<char>, b: Seq<char>)
    ensures
        encode_utf8(a + b) == encode_utf8(a) + encode_utf8(b),
    decreases a.len(),
{
    if a.len() == 0 {
        assert(a + b =~= b);
        assert(encode_utf8(a) + encode_utf8(b) =~= encode_utf8(b));
    } else {
        assert((a + b).drop_first() =~= a.drop_first() + b);
        assert((a + b)[0] == a[0]);
        lemma_encode_concat(a.drop_first(), b);
        assert(encode_utf8(a + b) =~= encode_utf8(a) + encode_utf8(b));
    }
}

/// What follows the last `/` is not changed by anything that stands
/// before and ends with a `/`.
pub proof fn lemma_after_slash(a: Seq<u8>, b: Seq<u8>)
    requires
        a.len() > 0,
        a.last() == 47,
    ensures
        after_last_slash(a + b) == after_last_slash(b),
    decreases b.len(),
{
    if b.len() == 0 {
        assert(a + b =~= a);
    } else {
        assert((a + b).drop_last() =~= a + b.drop_last());
        assert((a + b).last() == b.last());
        lemma_after_slash(a, b.drop_last());
    }
}

/// What a `file://` URL without escapes points at is stored under the name
/// of the file that it names: the download of the URL and the file at the
/// path after `file://` have the same name. So the import of the one is
/// named as the import of the other.
pub proof fn lemma_file_url_name(url: Seq<char>)
    requires
        starts_with(url, "file://"@),
    ensures
        download_name(encode_utf8(url)) == download_name(
            encode_utf8(url.skip("file://"@.len() as int)),
        ),
{
    reveal_strlit("file://");
    let scheme = "file://"@;
    let path = url.skip(scheme.len() as int);
    assert(scheme.len() == 7);
    assert(url.subrange(0, 7) == scheme);
    assert(url =~= scheme + path);
    lemma_encode_concat(scheme, path);
    assert(is_ascii_chars(scheme));
    is_ascii_chars_encode_utf8(scheme);
    assert(scheme[6] == '/');
    assert(encode_utf8(scheme)[6] == 47);
    lemma_after_slash(encode_utf8(scheme), encode_utf8(path));
}

} // verus!
