//! Byte strings that need not be UTF-8: lines, whitespace and searches, as
//! the `bstr` crate has them.

use bstr::ByteSlice;
use vstd::prelude::*;
use vstd::utf8::{decode_utf8, valid_utf8};
use crate::text::occurs_at;

verus! {

/// The views of a list of byte slices.
pub open spec fn slice_views(list: Seq<&[u8]>) -> Seq<Seq<u8>> {
    Seq::new(list.len(), |i: int| list[i]@)
}

/// The position of the first line feed of `s`, or the length of `s` where
/// it has none.
pub open spec fn first_newline(s: Seq<u8>) -> nat
    decreases s.len(),
{
    if s.len() == 0 {
        0
    } else if s[0] == 10 {
        0
    } else {
        1 + first_newline(s.drop_first())
    }
}

/// The lines of `s`, each with the line feed that ends it. A last line
/// without line feed counts where it is not empty. Joined, the lines give
/// `s` back.
pub open spec fn lines_with_terminator_of(s: Seq<u8>) -> Seq<Seq<u8>>
    decreases s.len(),
{
    if s.len() == 0 {
        Seq::<Seq<u8>>::empty()
    } else {
        let n = first_newline(s) as int;
        if n >= s.len() {
            seq![s]
        } else {
            seq![s.take(n + 1)] + lines_with_terminator_of(s.skip(n + 1))
        }
    }
}

/// A line without the line feed that ends it, nor the carriage return
/// before that line feed.
pub open spec fn without_terminator(line: Seq<u8>) -> Seq<u8> {
    if line.len() > 0 && line.last() == 10 {
        let cut = line.drop_last();
        if cut.len() > 0 && cut.last() == 13 {
            cut.drop_last()
        } else {
            cut
        }
    } else {
        line
    }
}

/// The lines of `s`, without what ends them.
pub open spec fn lines_of(s: Seq<u8>) -> Seq<Seq<u8>> {
    Seq::new(
        lines_with_terminator_of(s).len(),
        |i: int| without_terminator(lines_with_terminator_of(s)[i]),
    )
}

/// `s` without the white space at its two ends, as `bstr` finds it.
pub uninterp spec fn bstr_trim(s: Seq<u8>) -> Seq<u8>;

/// `s` without the white space at its start, as `bstr` finds it.
pub uninterp spec fn bstr_trim_start(s: Seq<u8>) -> Seq<u8>;

/// The fields of `s`: its parts between white space, as `bstr` finds them.
pub uninterp spec fn bstr_fields(s: Seq<u8>) -> Seq<Seq<u8>>;

/// The text of `s`, with the Unicode replacement character in place of what
/// is not UTF-8, as `bstr` decodes it.
pub uninterp spec fn bstr_lossy(s: Seq<u8>) -> Seq<char>;

/// `ByteSlice::lines_with_terminator` of `bstr`: the input is cut after each
/// line feed, and what follows the last line feed is a line of its own
/// unless it is empty.
#[verifier::external_body]
pub(crate) fn lines_with_terminator<'a>(data: &'a [u8]) -> (r: Vec<&'a [u8]>)
    ensures
        slice_views(r@) == lines_with_terminator_of(data@),
{
    data.lines_with_terminator().collect()
}

/// `ByteSlice::lines` of `bstr`: the lines of `lines_with_terminator`, each
/// without its line feed and without a carriage return just before it.
#[verifier::external_body]
pub(crate) fn lines<'a>(data: &'a [u8]) -> (r: Vec<&'a [u8]>)
    ensures
        slice_views(r@) == lines_of(data@),
{
    data.lines().collect()
}

/// `ByteSlice::trim` of `bstr`, which removes leading and trailing white
/// space in the sense of Unicode. The result is named, not described.
#[verifier::external_body]
pub(crate) fn trim<'a>(s: &'a [u8]) -> (r: &'a [u8])
    ensures
        r@ == bstr_trim(s@),
{
    s.trim()
}

/// `ByteSlice::trim_start` of `bstr`, which removes leading white space in
/// the sense of Unicode. The result is named, not described.
#[verifier::external_body]
pub(crate) fn trim_start<'a>(s: &'a [u8]) -> (r: &'a [u8])
    ensures
        r@ == bstr_trim_start(s@),
{
    s.trim_start()
}

/// `ByteSlice::fields` of `bstr`, which splits at runs of white space in
/// the sense of Unicode. The result is named, not described.
#[verifier::external_body]
pub(crate) fn fields<'a>(s: &'a [u8]) -> (r: Vec<&'a [u8]>)
    ensures
        slice_views(r@) == bstr_fields(s@),
{
    s.fields().collect()
}

/// `ByteSlice::to_str` of `bstr`: the bytes as text where they are UTF-8,
/// and an error, here `None`, where they are not.
#[verifier::external_body]
pub(crate) fn to_str<'a>(s: &'a [u8]) -> (r: Option<&'a str>)
    ensures
        r is Some <==> valid_utf8(s@),
        r matches Some(t) ==> t@ == decode_utf8(s@),
{
    s.to_str().ok()
}

/// `ByteSlice::to_str_lossy` of `bstr`, which decodes UTF-8 and puts the
/// replacement character where the bytes are none. The result is named, not
/// described.
#[verifier::external_body]
pub(crate) fn to_str_lossy(s: &[u8]) -> (r: String)
    ensures
        r@ == bstr_lossy(s@),
{
    s.to_str_lossy().into_owned()
}

/// `ByteSlice::find` of `bstr`: the position of the first occurrence of
/// `needle` in `hay`, and `None` where it does not occur.
#[verifier::external_body]
pub(crate) fn find(hay: &[u8], needle: &[u8]) -> (r: Option<usize>)
    ensures
        match r {
            Some(i) => occurs_at(hay@, needle@, i as int) && forall|j: int|
                0 <= j < i ==> !occurs_at(hay@, needle@, j),
            None => forall|j: int| !occurs_at(hay@, needle@, j),
        },
{
    hay.find(needle)
}

/// `ByteSlice::find_byteset` of `bstr`: the position of the first byte of
/// `hay` that is one of `set`, and `None` where `hay` has none.
#[verifier::external_body]
pub(crate) fn find_byteset(hay: &[u8], set: &[u8]) -> (r: Option<usize>)
    ensures
        match r {
            Some(i) => i < hay@.len() && set@.contains(hay@[i as int]) && forall|j: int|
                0 <= j < i ==> !set@.contains(hay@[j]),
            None => forall|j: int| 0 <= j < hay@.len() ==> !set@.contains(hay@[j]),
        },
{
    hay.find_byteset(set)
}

} // verus!
