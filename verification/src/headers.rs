//! The headers of a patch: author, date, subject and patch name, read from
//! the header block that git's mailinfo writes, or from the top of a patch
//! message.

use vstd::prelude::*;
use vstd::slice::slice_subrange;
use vstd::utf8::{decode_utf8, encode_utf8, valid_utf8};
use crate::bytestr::{
    bstr_trim, bstr_trim_start, find, lines, lines_of, lines_with_terminator,
    lines_with_terminator_of, slice_views, to_str, trim, trim_start,
};
use crate::text::{
    append_bytes, bytes_eq, find_char, first_index_of, occurs_at, opt_text, starts_with,
    string_of, to_chars,
};

verus! {

/// The headers of a patch, each of which may be missing.
#[derive(Debug, PartialEq, Eq)]
pub struct Headers {
    pub patchname: Option<String>,
    pub author_name: Option<String>,
    pub author_email: Option<String>,
    pub author_date: Option<String>,
    pub subject: Option<String>,
}

/// What a set of headers stands for.
pub struct HeadersView {
    pub patchname: Option<Seq<char>>,
    pub author_name: Option<Seq<char>>,
    pub author_email: Option<Seq<char>>,
    pub author_date: Option<Seq<char>>,
    pub subject: Option<Seq<char>>,
}

impl HeadersView {
    /// No header at all.
    pub open spec fn empty() -> HeadersView {
        HeadersView {
            patchname: None,
            author_name: None,
            author_email: None,
            author_date: None,
            subject: None,
        }
    }

    /// Whether one of author, email, date and subject is there.
    pub open spec fn has_mail_header(self) -> bool {
        self.author_name is Some || self.author_email is Some || self.author_date is Some
            || self.subject is Some
    }
}

impl View for Headers {
    type V = HeadersView;

    open spec fn view(&self) -> HeadersView {
        HeadersView {
            patchname: opt_text(self.patchname),
            author_name: opt_text(self.author_name),
            author_email: opt_text(self.author_email),
            author_date: opt_text(self.author_date),
            subject: opt_text(self.subject),
        }
    }
}

impl Default for Headers {
    fn default() -> (r: Headers)
        ensures
            r@ == HeadersView::empty(),
    {
        Headers {
            patchname: None,
            author_name: None,
            author_email: None,
            author_date: None,
            subject: None,
        }
    }
}

/// Why headers could not be read.
#[derive(Clone, Copy, Debug, PartialEq, Eq, Structural)]
pub enum HeaderError {
    /// A line of a mailinfo block has no `: ` in it.
    MissingSeparator,
    /// A line of a mailinfo block names a header other than `Author`,
    /// `Email`, `Date` and `Subject`.
    UnknownHeader,
    /// The value of a `Patch` header is not UTF-8.
    PatchNameNotUtf8,
    /// The value of a `From` or `Author` header is not UTF-8.
    AuthorNotUtf8,
    /// The value of a `From` or `Author` header is not `Name <email>`.
    MalformedAuthor,
    /// The subject line is not UTF-8.
    SubjectNotUtf8,
}

/// The position of the first occurrence of `needle` in `hay`.
#[verifier::opaque]
pub open spec fn first_occurrence(hay: Seq<u8>, needle: Seq<u8>) -> Option<int> {
    if exists|i: int| occurs_at(hay, needle, i) {
        Some(
            choose|i: int|
                occurs_at(hay, needle, i) && forall|j: int|
                    0 <= j < i ==> !occurs_at(hay, needle, j),
        )
    } else {
        None
    }
}

/// The position of the first occurrence of `needle` in `hay`.
pub fn find_first(hay: &[u8], needle: &[u8]) -> (r: Option<usize>)
    ensures
        match r {
            Some(i) => first_occurrence(hay@, needle@) == Some(i as int) && i + needle@.len()
                <= hay@.len(),
            None => first_occurrence(hay@, needle@) is None,
        },
{
    let r = find(hay, needle);
    proof {
        reveal(first_occurrence);
        match r {
            Some(i) => {
                assert(occurs_at(hay@, needle@, i as int));
                let c = choose|c: int|
                    occurs_at(hay@, needle@, c) && forall|j: int|
                        0 <= j < c ==> !occurs_at(hay@, needle@, j);
                assert(occurs_at(hay@, needle@, c));
                assert(c == i);
            },
            None => {},
        }
    }
    r
}

/// The text of `value` where it is UTF-8.
pub open spec fn text_of(value: Seq<u8>) -> Option<Seq<char>> {
    if valid_utf8(value) {
        Some(decode_utf8(value))
    } else {
        None
    }
}

fn owned_text(value: &[u8]) -> (r: Option<String>)
    ensures
        opt_text(r) == text_of(value@),
{
    match to_str(value) {
        Some(t) => Some(t.to_owned()),
        None => None,
    }
}

/// The headers after one more line of a mailinfo block. An empty line
/// changes nothing. Any other line is a header name, `: `, and a value: the
/// name must be one of the four, and a value that is not UTF-8 is passed
/// over.
#[verifier::opaque]
pub open spec fn mailinfo_line(h: HeadersView, line: Seq<u8>) -> Result<HeadersView, HeaderError> {
    let sep = encode_utf8(": "@);
    if line.len() == 0 {
        Ok(h)
    } else {
        match first_occurrence(line, sep) {
            None => Err(HeaderError::MissingSeparator),
            Some(i) => {
                let key = line.take(i);
                let value = text_of(line.skip(i + sep.len()));
                if key == encode_utf8("Author"@) {
                    Ok(
                        if value is Some {
                            HeadersView { author_name: value, ..h }
                        } else {
                            h
                        },
                    )
                } else if key == encode_utf8("Email"@) {
                    Ok(
                        if value is Some {
                            HeadersView { author_email: value, ..h }
                        } else {
                            h
                        },
                    )
                } else if key == encode_utf8("Date"@) {
                    Ok(
                        if value is Some {
                            HeadersView { author_date: value, ..h }
                        } else {
                            h
                        },
                    )
                } else if key == encode_utf8("Subject"@) {
                    Ok(
                        if value is Some {
                            HeadersView { subject: value, ..h }
                        } else {
                            h
                        },
                    )
                } else {
                    Err(HeaderError::UnknownHeader)
                }
            },
        }
    }
}

/// The headers after the lines `lines[from..]` of a mailinfo block, or the
/// fault of the first line that has one.
pub open spec fn mailinfo_lines(lines: Seq<Seq<u8>>, from: int, h: HeadersView) -> Result<
    HeadersView,
    HeaderError,
>
    decreases lines.len() - from,
{
    if from < 0 || from >= lines.len() {
        Ok(h)
    } else {
        match mailinfo_line(h, lines[from]) {
            Ok(next) => mailinfo_lines(lines, from + 1, next),
            Err(e) => Err(e),
        }
    }
}

/// What a mailinfo block says: its headers, `None` where it has none of
/// the four, or the fault of its first faulty line.
pub open spec fn mailinfo_headers(block: Seq<u8>) -> Result<Option<HeadersView>, HeaderError> {
    match mailinfo_lines(lines_of(block), 0, HeadersView::empty()) {
        Ok(h) => Ok(
            if h.has_mail_header() {
                Some(h)
            } else {
                None
            },
        ),
        Err(e) => Err(e),
    }
}

/// Whether `c` is a hexadecimal digit in ASCII.
pub open spec fn is_hex_byte(c: u8) -> bool {
    (48 <= c <= 57) || (97 <= c <= 102) || (65 <= c <= 70)
}

/// Whether `line` is `commit `, then hexadecimal digits only.
pub open spec fn is_commit_line(line: Seq<u8>) -> bool {
    let word = encode_utf8("commit "@);
    &&& starts_with(line, word)
    &&& forall|i: int| word.len() <= i < line.len() ==> is_hex_byte(#[trigger] line[i])
}

/// A byte with an ASCII capital turned into the small letter.
pub open spec fn lower_byte(c: u8) -> u8 {
    if 65 <= c <= 90 {
        (c + 32) as u8
    } else {
        c
    }
}

/// Whether two byte strings are the same but for the case of their ASCII
/// letters.
pub open spec fn same_ignoring_case(a: Seq<u8>, b: Seq<u8>) -> bool {
    &&& a.len() == b.len()
    &&& forall|i: int| 0 <= i < a.len() ==> lower_byte(#[trigger] a[i]) == lower_byte(b[i])
}

/// Whether two byte strings are the same but for the case of their ASCII
/// letters.
pub fn eq_ignore_case(a: &[u8], b: &[u8]) -> (r: bool)
    ensures
        r == same_ignoring_case(a@, b@),
{
    if a.len() != b.len() {
        return false;
    }
    let mut i: usize = 0;
    while i < a.len()
        invariant
            i <= a.len(),
            a.len() == b.len(),
            forall|j: int| 0 <= j < i ==> lower_byte(#[trigger] a@[j]) == lower_byte(b@[j]),
        decreases a.len() - i,
    {
        let x: u8 = if a[i] >= 65 && a[i] <= 90 {
            a[i] + 32
        } else {
            a[i]
        };
        let y: u8 = if b[i] >= 65 && b[i] <= 90 {
            b[i] + 32
        } else {
            b[i]
        };
        if x != y {
            return false;
        }
        i = i + 1;
    }
    true
}

/// What a line at the top of a patch message is.
pub enum LineKind {
    /// Nothing is left of the line once its white space is trimmed.
    Blank,
    /// `Patch:` with the name that follows it.
    Patch(Seq<u8>),
    /// `From:` or `Author:` with what follows it.
    Author(Seq<u8>),
    /// `Date:` with what follows it.
    Date(Seq<u8>),
    /// `commit` and an object id, as `git show` writes it.
    Commit,
    /// Anything else.
    Other,
}

/// What the trimmed line `line` is. A header is a key, a colon, and a value,
/// read without the white space before it; the key counts whatever its
/// case; a `Patch` header without a value is no header.
pub open spec fn line_kind(line: Seq<u8>) -> LineKind {
    if line.len() == 0 {
        LineKind::Blank
    } else {
        let colon = encode_utf8(":"@);
        let header = match first_occurrence(line, colon) {
            Some(i) => {
                let key = line.take(i);
                let value = bstr_trim_start(line.skip(i + colon.len()));
                if same_ignoring_case(key, encode_utf8("patch"@)) && value.len() > 0 {
                    Some(LineKind::Patch(value))
                } else if same_ignoring_case(key, encode_utf8("from"@)) || same_ignoring_case(
                    key,
                    encode_utf8("author"@),
                ) {
                    Some(LineKind::Author(value))
                } else if same_ignoring_case(key, encode_utf8("date"@)) {
                    Some(LineKind::Date(value))
                } else {
                    None
                }
            },
            None => None,
        };
        match header {
            Some(kind) => kind,
            None => if is_commit_line(line) {
                LineKind::Commit
            } else {
                LineKind::Other
            },
        }
    }
}

/// `s` without the spaces and tabs at its end.
pub open spec fn trim_end_blanks(s: Seq<char>) -> Seq<char>
    decreases s.len(),
{
    if s.len() > 0 && (s.last() == ' ' || s.last() == '\t') {
        trim_end_blanks(s.drop_last())
    } else {
        s
    }
}

/// The name and the address of `Name <address>`: the name is what stands
/// before the first `<`, without the blanks at its end; the address is what
/// stands between that `<` and the first `>` after it, which must end the
/// text.
pub open spec fn name_email(s: Seq<char>) -> Option<(Seq<char>, Seq<char>)> {
    if !s.contains('<') {
        None
    } else {
        let i = first_index_of(s, '<');
        let rest = s.skip(i + 1);
        if !rest.contains('>') {
            None
        } else {
            let j = first_index_of(rest, '>');
            if j + 1 != rest.len() {
                None
            } else {
                Some((trim_end_blanks(s.take(i)), rest.take(j)))
            }
        }
    }
}

fn blanks_end(chars: &Vec<char>, upto: usize) -> (end: usize)
    requires
        upto <= chars.len(),
    ensures
        end <= upto,
        chars@.take(end as int) == trim_end_blanks(chars@.take(upto as int)),
{
    let mut end: usize = upto;
    while end > 0 && (chars[end - 1] == ' ' || chars[end - 1] == '\t')
        invariant
            end <= upto <= chars.len(),
            trim_end_blanks(chars@.take(end as int)) == trim_end_blanks(chars@.take(upto as int)),
        decreases end,
    {
        assert(chars@.take(end as int).drop_last() == chars@.take(end - 1));
        end = end - 1;
    }
    end
}

/// Reads `Name <address>`.
pub fn parse_name_email(s: &str) -> (r: Option<(String, String)>)
    ensures
        match r {
            Some((name, email)) => name_email(s@) == Some((name@, email@)),
            None => name_email(s@) is None,
        },
{
    let chars = to_chars(s);
    let n = chars.len();
    match find_char(chars.as_slice(), '<') {
        None => None,
        Some(i) => {
            let rest = slice_subrange(chars.as_slice(), i + 1, n);
            assert(rest@ == s@.skip(i + 1));
            match find_char(rest, '>') {
                None => None,
                Some(j) => {
                    if j + 1 != rest.len() {
                        return None;
                    }
                    let end = blanks_end(&chars, i);
                    let name = string_of(&chars, 0, end);
                    let email = string_of(&chars, i + 1, i + 1 + j);
                    assert(chars@.subrange(i + 1, i + 1 + j) == rest@.take(j as int));
                    assert(chars@.subrange(0, end as int) == chars@.take(end as int));
                    Some((name, email))
                },
            }
        },
    }
}

/// `line` without `prefix` at its start, where it starts with it.
pub fn strip_prefix<'a>(line: &'a [u8], prefix: &[u8]) -> (r: Option<&'a [u8]>)
    ensures
        r is Some <==> starts_with(line@, prefix@),
        r matches Some(rest) ==> rest@ == line@.skip(prefix@.len() as int),
{
    if line.len() < prefix.len() {
        return None;
    }
    let head = slice_subrange(line, 0, prefix.len());
    if bytes_eq(head, prefix) {
        Some(slice_subrange(line, prefix.len(), line.len()))
    } else {
        None
    }
}

fn commit_line(line: &[u8]) -> (r: bool)
    ensures
        r == is_commit_line(line@),
{
    let word = "commit ".as_bytes();
    match strip_prefix(line, word) {
        None => false,
        Some(rest) => {
            let mut i: usize = 0;
            while i < rest.len()
                invariant
                    i <= rest.len(),
                    rest@ == line@.skip(word@.len() as int),
                    word@.len() <= line@.len(),
                    word@ == encode_utf8("commit "@),
                    starts_with(line@, word@),
                    forall|k: int| word@.len() <= k < word@.len() + i ==> is_hex_byte(#[trigger] line@[k]),
                decreases rest.len() - i,
            {
                let c = rest[i];
                assert(c == line@[word@.len() + i]);
                if !((c >= 48 && c <= 57) || (c >= 97 && c <= 102) || (c >= 65 && c <= 70)) {
                    assert(!is_hex_byte(line@[word@.len() + i]));
                    return false;
                }
                i = i + 1;
            }
            true
        },
    }
}

/// What a line at the top of a patch message is, with the bytes of its
/// value.
#[derive(Debug, PartialEq, Eq)]
pub enum MessageLine<'a> {
    Blank,
    Patch(&'a [u8]),
    Author(&'a [u8]),
    Date(&'a [u8]),
    Commit,
    Other,
}

impl<'a> View for MessageLine<'a> {
    type V = LineKind;

    open spec fn view(&self) -> LineKind {
        match self {
            MessageLine::Blank => LineKind::Blank,
            MessageLine::Patch(v) => LineKind::Patch(v@),
            MessageLine::Author(v) => LineKind::Author(v@),
            MessageLine::Date(v) => LineKind::Date(v@),
            MessageLine::Commit => LineKind::Commit,
            MessageLine::Other => LineKind::Other,
        }
    }
}

/// Tells what a trimmed line at the top of a patch message is.
pub fn classify_line<'a>(line: &'a [u8]) -> (r: MessageLine<'a>)
    ensures
        r@ == line_kind(line@),
{
    if line.len() == 0 {
        return MessageLine::Blank;
    }
    let colon = ":".as_bytes();
    match find_first(line, colon) {
        Some(i) => {
            let key = slice_subrange(line, 0, i);
            let value = trim_start(slice_subrange(line, i + colon.len(), line.len()));
            if eq_ignore_case(key, "patch".as_bytes()) && value.len() > 0 {
                return MessageLine::Patch(value);
            } else if eq_ignore_case(key, "from".as_bytes()) || eq_ignore_case(
                key,
                "author".as_bytes(),
            ) {
                return MessageLine::Author(value);
            } else if eq_ignore_case(key, "date".as_bytes()) {
                return MessageLine::Date(value);
            }
        },
        None => {},
    }
    if commit_line(line) {
        MessageLine::Commit
    } else {
        MessageLine::Other
    }
}

/// Where the scan of the top of a message ended.
pub struct Scanned {
    /// The headers that were found.
    pub headers: HeadersView,
    /// Whether the lines of the body are indented by four spaces.
    pub dedent: bool,
    /// The number of the line with which the body begins.
    pub body_from: int,
}

/// What one line at the top of a message does to the scan.
pub enum ScanStep {
    /// The scan goes on, with these headers and this indentation.
    On(HeadersView, bool),
    /// The line is the subject: the scan ends with these headers.
    Subject(HeadersView),
}

/// What the line `raw` does to a scan that has the headers `h`. The line is
/// trimmed first. A blank line changes nothing, a header is taken in, and a
/// `commit` line says that the body is indented. Any other line is the
/// subject.
#[verifier::opaque]
pub open spec fn scan_line(h: HeadersView, dedent: bool, raw: Seq<u8>) -> Result<
    ScanStep,
    HeaderError,
> {
    let line = bstr_trim(raw);
    match line_kind(line) {
        LineKind::Blank => Ok(ScanStep::On(h, dedent)),
        LineKind::Patch(v) => match text_of(v) {
            Some(t) => Ok(ScanStep::On(HeadersView { patchname: Some(t), ..h }, dedent)),
            None => Err(HeaderError::PatchNameNotUtf8),
        },
        LineKind::Author(v) => match text_of(v) {
            Some(t) => match name_email(t) {
                Some((name, email)) => Ok(
                    ScanStep::On(
                        HeadersView { author_name: Some(name), author_email: Some(email), ..h },
                        dedent,
                    ),
                ),
                None => Err(HeaderError::MalformedAuthor),
            },
            None => Err(HeaderError::AuthorNotUtf8),
        },
        LineKind::Date(v) => Ok(ScanStep::On(HeadersView { author_date: text_of(v), ..h }, dedent)),
        LineKind::Commit => Ok(ScanStep::On(h, true)),
        LineKind::Other => match text_of(line) {
            Some(t) => Ok(ScanStep::Subject(HeadersView { subject: Some(t), ..h })),
            None => Err(HeaderError::SubjectNotUtf8),
        },
    }
}

/// Scans the lines `lines[from..]` at the top of a message, line by line,
/// up to the subject. The body begins after the subject; so a line after
/// the subject is not read as a header, whatever it looks like. Without a
/// subject there is no body.
pub open spec fn scan_message(lines: Seq<Seq<u8>>, from: int, h: HeadersView, dedent: bool) -> Result<
    Scanned,
    HeaderError,
>
    decreases lines.len() - from,
{
    if from < 0 || from >= lines.len() {
        Ok(Scanned { headers: h, dedent, body_from: lines.len() as int })
    } else {
        match scan_line(h, dedent, lines[from]) {
            Ok(ScanStep::On(next, d)) => scan_message(lines, from + 1, next, d),
            Ok(ScanStep::Subject(last)) => Ok(
                Scanned { headers: last, dedent, body_from: from + 1 },
            ),
            Err(e) => Err(e),
        }
    }
}

/// A line of the body: without four spaces at its start, where the body is
/// indented and the line has them.
pub open spec fn body_line(line: Seq<u8>, dedent: bool) -> Seq<u8> {
    let indent = encode_utf8("    "@);
    if dedent && starts_with(line, indent) {
        line.skip(indent.len() as int)
    } else {
        line
    }
}

/// The body of a message: its lines from `from` on, joined.
pub open spec fn message_body(lines: Seq<Seq<u8>>, from: int, dedent: bool) -> Seq<u8>
    decreases lines.len() - from,
{
    if from < 0 || from >= lines.len() {
        Seq::<u8>::empty()
    } else {
        body_line(lines[from], dedent) + message_body(lines, from + 1, dedent)
    }
}

/// The headers at the top of a patch message, and the body below them.
pub open spec fn message_parts(message: Seq<u8>) -> Result<(HeadersView, Seq<u8>), HeaderError> {
    let lines = lines_with_terminator_of(message);
    match scan_message(lines, 0, HeadersView::empty(), false) {
        Ok(s) => Ok((s.headers, message_body(lines, s.body_from, s.dedent))),
        Err(e) => Err(e),
    }
}

impl Headers {
    fn take_mailinfo_line(&mut self, line: &[u8]) -> (r: Result<(), HeaderError>)
        ensures
            match r {
                Ok(()) => mailinfo_line(old(self)@, line@) == Ok::<HeadersView, HeaderError>(
                    final(self)@,
                ),
                Err(e) => mailinfo_line(old(self)@, line@) == Err::<HeadersView, HeaderError>(e),
            },
    {
        reveal(mailinfo_line);
        if line.len() == 0 {
            return Ok(());
        }
        let sep = ": ".as_bytes();
        match find_first(line, sep) {
            None => Err(HeaderError::MissingSeparator),
            Some(i) => {
                let key = slice_subrange(line, 0, i);
                let value = owned_text(slice_subrange(line, i + sep.len(), line.len()));
                if bytes_eq(key, "Author".as_bytes()) {
                    if value.is_some() {
                        self.author_name = value;
                    }
                    Ok(())
                } else if bytes_eq(key, "Email".as_bytes()) {
                    if value.is_some() {
                        self.author_email = value;
                    }
                    Ok(())
                } else if bytes_eq(key, "Date".as_bytes()) {
                    if value.is_some() {
                        self.author_date = value;
                    }
                    Ok(())
                } else if bytes_eq(key, "Subject".as_bytes()) {
                    if value.is_some() {
                        self.subject = value;
                    }
                    Ok(())
                } else {
                    Err(HeaderError::UnknownHeader)
                }
            },
        }
    }

    /// Takes one line at the top of a message into the scan. The answer is
    /// whether the line was the subject.
    fn take_message_line(&mut self, dedent: &mut bool, raw: &[u8]) -> (r: Result<bool, HeaderError>)
        ensures
            match r {
                Ok(false) => scan_line(old(self)@, *old(dedent), raw@) == Ok::<
                    ScanStep,
                    HeaderError,
                >(ScanStep::On(final(self)@, *final(dedent))),
                Ok(true) => scan_line(old(self)@, *old(dedent), raw@) == Ok::<
                    ScanStep,
                    HeaderError,
                >(ScanStep::Subject(final(self)@)) && *final(dedent) == *old(dedent),
                Err(e) => scan_line(old(self)@, *old(dedent), raw@) == Err::<ScanStep, HeaderError>(
                    e,
                ),
            },
    {
        reveal(scan_line);
        let line = trim(raw);
        match classify_line(line) {
            MessageLine::Blank => Ok(false),
            MessageLine::Patch(v) => {
                match owned_text(v) {
                    Some(t) => {
                        self.patchname = Some(t);
                        Ok(false)
                    },
                    None => Err(HeaderError::PatchNameNotUtf8),
                }
            },
            MessageLine::Author(v) => {
                match to_str(v) {
                    Some(t) => match parse_name_email(t) {
                        Some((name, email)) => {
                            self.author_name = Some(name);
                            self.author_email = Some(email);
                            Ok(false)
                        },
                        None => Err(HeaderError::MalformedAuthor),
                    },
                    None => Err(HeaderError::AuthorNotUtf8),
                }
            },
            MessageLine::Date(v) => {
                self.author_date = owned_text(v);
                Ok(false)
            },
            MessageLine::Commit => {
                *dedent = true;
                Ok(false)
            },
            MessageLine::Other => {
                match owned_text(line) {
                    Some(t) => {
                        self.subject = Some(t);
                        Ok(true)
                    },
                    None => Err(HeaderError::SubjectNotUtf8),
                }
            },
        }
    }

    /// Reads the header block that git's mailinfo writes: lines of a header
    /// name, `: `, and a value. The result is `None` where the block gives
    /// none of author, email, date and subject. A line without `: `, or
    /// with another header name, is a fault.
    pub fn parse_mailinfo(block: &[u8]) -> (r: Result<Option<Headers>, HeaderError>)
        ensures
            match r {
                Ok(Some(h)) => mailinfo_headers(block@) == Ok::<Option<HeadersView>, HeaderError>(
                    Some(h@),
                ),
                Ok(None) => mailinfo_headers(block@) == Ok::<Option<HeadersView>, HeaderError>(None),
                Err(e) => mailinfo_headers(block@) == Err::<Option<HeadersView>, HeaderError>(e),
            },
    {
        let all = lines(block);
        let ghost ls = lines_of(block@);
        let mut h = Headers::default();
        let mut i: usize = 0;
        while i < all.len()
            invariant
                i <= all.len(),
                slice_views(all@) == ls,
                ls == lines_of(block@),
                mailinfo_lines(ls, i as int, h@) == mailinfo_lines(ls, 0, HeadersView::empty()),
            decreases all.len() - i,
        {
            assert(ls[i as int] == all@[i as int]@);
            match h.take_mailinfo_line(all[i]) {
                Ok(()) => {},
                Err(e) => {
                    return Err(e);
                },
            }
            i = i + 1;
        }
        if h.author_name.is_some() || h.author_email.is_some() || h.author_date.is_some()
            || h.subject.is_some() {
            Ok(Some(h))
        } else {
            Ok(None)
        }
    }

    /// Reads the headers at the top of a patch message and gives them with
    /// the body below them. Leading blank lines are passed over; `Patch`,
    /// `From`, `Author` and `Date` headers are taken in; a `commit` line,
    /// as `git show` writes it, makes the body lose four spaces of
    /// indentation; the first other line is the subject, and all lines
    /// after it are the body.
    pub fn parse_message(message: &[u8]) -> (r: Result<(Headers, Vec<u8>), HeaderError>)
        ensures
            match r {
                Ok((h, body)) => message_parts(message@) == Ok::<
                    (HeadersView, Seq<u8>),
                    HeaderError,
                >((h@, body@)),
                Err(e) => message_parts(message@) == Err::<(HeadersView, Seq<u8>), HeaderError>(e),
            },
    {
        let all = lines_with_terminator(message);
        let ghost ls = lines_with_terminator_of(message@);
        let ghost goal = scan_message(ls, 0, HeadersView::empty(), false);
        let mut h = Headers::default();
        let mut dedent = false;
        let mut i: usize = 0;
        let mut done = false;
        while i < all.len() && !done
            invariant
                i <= all.len(),
                slice_views(all@) == ls,
                ls == lines_with_terminator_of(message@),
                goal == scan_message(ls, 0, HeadersView::empty(), false),
                !done ==> scan_message(ls, i as int, h@, dedent) == goal,
                done ==> goal == Ok::<Scanned, HeaderError>(
                    Scanned { headers: h@, dedent, body_from: i as int },
                ),
            decreases all.len() - i, if done { 0int } else { 1int },
        {
            assert(ls[i as int] == all@[i as int]@);
            match h.take_message_line(&mut dedent, all[i]) {
                Ok(subject) => {
                    done = subject;
                },
                Err(e) => {
                    return Err(e);
                },
            }
            i = i + 1;
        }
        let ghost start = i as int;
        let mut body: Vec<u8> = Vec::new();
        let indent = "    ".as_bytes();
        while i < all.len()
            invariant
                start <= i <= all.len(),
                slice_views(all@) == ls,
                indent@ == encode_utf8("    "@),
                body@ + message_body(ls, i as int, dedent) == message_body(ls, start, dedent),
            decreases all.len() - i,
        {
            assert(ls[i as int] == all@[i as int]@);
            let line: &[u8] = all[i];
            let ghost before = body@;
            if dedent {
                match strip_prefix(line, indent) {
                    Some(rest) => append_bytes(&mut body, rest),
                    None => append_bytes(&mut body, line),
                }
            } else {
                append_bytes(&mut body, line);
            }
            assert(body@ == before + body_line(ls[i as int], dedent));
            assert(before + body_line(ls[i as int], dedent) + message_body(ls, i + 1, dedent)
                =~= before + (body_line(ls[i as int], dedent) + message_body(ls, i + 1, dedent)));
            i = i + 1;
        }
        assert(body@ + Seq::<u8>::empty() =~= body@);
        Ok((h, body))
    }
}

} // verus!
