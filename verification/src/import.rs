//! The import of a patch: how it gets its name, its message and its
//! author, and how it is put on the stack.

use vstd::prelude::*;
use vstd::slice::slice_subrange;
use vstd::string::StringExecFns;
use crate::author::{parse_time, reconstruct_author, time_of, Author, AuthorView};
use crate::bytestr::{bstr_lossy, to_str_lossy};
use crate::headers::{
    mailinfo_headers, message_parts, HeaderError, Headers, HeadersView,
};
use crate::oid::ObjectId;
use crate::patchname::{is_uniquified, lemma_uniquified_unique, limit_of, made_name, PatchName};
use crate::source::{download_name, lemma_file_url_name};
use crate::text::starts_with;
use vstd::utf8::encode_utf8;
use crate::stack::{names_of, patch_names, position_of, PatchView, StackState, StackStateView};
use crate::text::{find_name, occurs, occurs_at, opt_text, string_of, to_chars, views};
use crate::transaction::{deleted, lemma_deleted, Transaction, TransactionError};

verus! {

/// `s` without the digits and `-` at its start.
pub open spec fn skip_number(s: Seq<char>) -> Seq<char>
    decreases s.len(),
{
    if s.len() > 0 && (('0' <= s[0] <= '9') || s[0] == '-') {
        skip_number(s.drop_first())
    } else {
        s
    }
}

/// The position of the last occurrence of `needle` in `hay`.
#[verifier::opaque]
pub open spec fn last_occurrence(hay: Seq<char>, needle: Seq<char>) -> Option<int> {
    if exists|i: int| occurs_at(hay, needle, i) {
        Some(
            choose|i: int|
                occurs_at(hay, needle, i) && forall|j: int| i < j ==> !occurs_at(hay, needle, j),
        )
    } else {
        None
    }
}

/// The name that is left of a file name once the number at its start and
/// what ends it are stripped: the digits and `-` at the start go, and the
/// rest is cut before its last `.diff`, or, where it holds none, before its
/// last `.patch`.
pub open spec fn stripped_name(name: Seq<char>) -> Seq<char> {
    let rest = skip_number(name);
    match last_occurrence(rest, ".diff"@) {
        Some(i) => rest.take(i),
        None => match last_occurrence(rest, ".patch"@) {
            Some(i) => rest.take(i),
            None => rest,
        },
    }
}

fn find_last(hay: &[char], needle: &[char]) -> (r: Option<usize>)
    ensures
        match r {
            Some(i) => last_occurrence(hay@, needle@) == Some(i as int) && i <= hay@.len(),
            None => last_occurrence(hay@, needle@) is None,
        },
{
    if needle.len() > hay.len() {
        proof {
            reveal(last_occurrence);
        }
        return None;
    }
    let mut i: usize = hay.len() - needle.len();
    loop
        invariant
            i + needle@.len() <= hay@.len(),
            forall|j: int| i < j ==> !occurs_at(hay@, needle@, j),
        decreases i,
    {
        proof {
            reveal(last_occurrence);
        }
        if occurs(hay, needle, i) {
            proof {
                let c = choose|c: int|
                    occurs_at(hay@, needle@, c) && forall|j: int|
                        c < j ==> !occurs_at(hay@, needle@, j);
                assert(c == i);
            }
            return Some(i);
        }
        if i == 0 {
            return None;
        }
        i = i - 1;
    }
}

/// Strips the number at the start of a file name, and what ends it: the
/// digits and `-` at the start go, and the rest is cut before its last
/// `.diff`, or, where it holds none, before its last `.patch`.
pub fn stripname(name: &str) -> (r: String)
    ensures
        r@ == stripped_name(name@),
{
    let chars = to_chars(name);
    let n = chars.len();
    let mut start: usize = 0;
    assert(chars@.skip(0) =~= chars@);
    while start < n && ((chars[start] >= '0' && chars[start] <= '9') || chars[start] == '-')
        invariant
            start <= n == chars.len(),
            chars@ == name@,
            skip_number(chars@.skip(start as int)) == skip_number(name@),
        decreases n - start,
    {
        assert(chars@.skip(start as int).drop_first() =~= chars@.skip(start + 1));
        start = start + 1;
    }
    let rest = slice_subrange(chars.as_slice(), start, n);
    assert(rest@ =~= chars@.skip(start as int));
    let diff = to_chars(".diff");
    let patch = to_chars(".patch");
    let end = match find_last(rest, diff.as_slice()) {
        Some(i) => i,
        None => match find_last(rest, patch.as_slice()) {
            Some(i) => i,
            None => rest.len(),
        },
    };
    let r = string_of(&chars, start, start + end);
    assert(chars@.subrange(start as int, start + end) =~= rest@.take(end as int));
    assert(rest@.take(rest@.len() as int) =~= rest@);
    r
}

/// The headers and the message of a patch, from what mailinfo gave: the
/// headers of its header block where it has any, with the message as it
/// is; and else what stands at the top of the message, with the rest of
/// it.
pub open spec fn patch_parts(block: Seq<u8>, message: Seq<u8>) -> Result<
    (HeadersView, Seq<u8>),
    HeaderError,
> {
    match mailinfo_headers(block) {
        Ok(Some(h)) => Ok((h, message)),
        Ok(None) => message_parts(message),
        Err(e) => Err(e),
    }
}

/// Reads the headers of a patch from what mailinfo gave for it.
pub fn split_headers(block: &[u8], message: Vec<u8>) -> (r: Result<(Headers, Vec<u8>), HeaderError>)
    ensures
        match r {
            Ok((h, body)) => patch_parts(block@, message@) == Ok::<
                (HeadersView, Seq<u8>),
                HeaderError,
            >((h@, body@)),
            Err(e) => patch_parts(block@, message@) == Err::<(HeadersView, Seq<u8>), HeaderError>(
                e,
            ),
        },
{
    match Headers::parse_mailinfo(block) {
        Ok(Some(h)) => Ok((h, message)),
        Ok(None) => Headers::parse_message(message.as_slice()),
        Err(e) => Err(e),
    }
}

/// The configuration key of the length limit for made names.
pub fn name_length_key() -> (r: &'static str)
    ensures
        r@ == "stgit.namelength"@,
{
    "stgit.namelength"
}

/// The configuration key that makes message ids into trailers.
pub fn message_id_key() -> (r: &'static str)
    ensures
        r@ == "stgit.import.message-id"@,
{
    "stgit.import.message-id"
}

/// What the user asked of an import, as far as it bears on the patch that
/// is made.
#[derive(Debug, PartialEq, Eq)]
pub struct ImportOptions {
    /// The name asked for.
    pub name: Option<String>,
    /// Whether the number and the ending are stripped from the name.
    pub stripname: bool,
    /// Whether a patch whose name is that of an applied patch is passed
    /// over.
    pub ignore: bool,
    /// Whether a patch takes the place of an unapplied patch of its name.
    pub replace: bool,
    /// The strip level asked for.
    pub strip: Option<usize>,
}

/// The message of a patch: the subject, an empty line and the body, or the
/// body alone where there is no subject. The body is decoded as `bstr`
/// decodes text.
pub open spec fn message_text(subject: Option<Seq<char>>, body: Seq<u8>) -> Seq<char> {
    match subject {
        Some(s) => s + "\n\n"@ + bstr_lossy(body),
        None => bstr_lossy(body),
    }
}

/// The message of a patch, given its body as text: the subject, an empty
/// line and the body, or the body alone where there is no subject.
pub fn compose_message(subject: Option<String>, body: String) -> (r: String)
    ensures
        r@ == match subject {
            Some(s) => s@ + "\n\n"@ + body@,
            None => body@,
        },
{
    match subject {
        Some(s) => {
            let mut out = s;
            out.append("\n\n");
            out.append(body.as_str());
            out
        },
        None => body,
    }
}

/// The message of a patch.
pub fn patch_message(subject: Option<String>, body: &[u8]) -> (r: String)
    ensures
        r@ == message_text(opt_text(subject), body@),
{
    compose_message(subject, to_str_lossy(body))
}

/// The first of three names that is there and not empty.
pub open spec fn first_given(
    a: Option<Seq<char>>,
    b: Option<Seq<char>>,
    c: Option<Seq<char>>,
) -> Option<Seq<char>> {
    if a is Some && a->0.len() > 0 {
        a
    } else if b is Some && b->0.len() > 0 {
        b
    } else if c is Some && c->0.len() > 0 {
        c
    } else {
        None
    }
}

fn given<'a>(name: Option<&'a str>) -> (r: Option<&'a str>)
    ensures
        match r {
            Some(n) => name is Some && n@ == name->0@ && n@.len() > 0,
            None => name is None || name->0@.len() == 0,
        },
{
    match name {
        Some(n) => {
            if n.unicode_len() > 0 {
                Some(n)
            } else {
                None
            }
        },
        None => None,
    }
}

/// The text that the name of a patch is made of: the name in the `Patch`
/// header, else the name asked for, else the name of the source file.
pub fn name_candidate<'a>(
    header_name: Option<&'a str>,
    option_name: Option<&'a str>,
    source_name: Option<&'a str>,
) -> (r: Option<&'a str>)
    ensures
        match r {
            Some(n) => first_given(
                str_view(header_name),
                str_view(option_name),
                str_view(source_name),
            ) == Some(n@),
            None => first_given(
                str_view(header_name),
                str_view(option_name),
                str_view(source_name),
            ) is None,
        },
{
    match given(header_name) {
        Some(n) => Some(n),
        None => match given(option_name) {
            Some(n) => Some(n),
            None => given(source_name),
        },
    }
}

/// The view of a text that may be missing.
pub open spec fn str_view(o: Option<&str>) -> Option<Seq<char>> {
    match o {
        Some(s) => Some(s@),
        None => None,
    }
}

/// The name of a patch before it is told apart from those that exist: made
/// of the candidate, stripped where that is asked for, and cut to the
/// limit; or, without a candidate, made of the message, at any length.
pub open spec fn derived_name(
    candidate: Option<Seq<char>>,
    strip: bool,
    message: Seq<char>,
    limit: nat,
) -> Seq<char> {
    match candidate {
        Some(c) => made_name(
            if strip {
                stripped_name(c)
            } else {
                c
            },
            false,
            limit,
        ),
        None => made_name(message, true, limit),
    }
}

/// Makes the name of a patch.
pub fn derive_name(candidate: Option<&str>, strip: bool, message: &str, limit: Option<usize>) -> (r:
    PatchName)
    ensures
        r@ == derived_name(str_view(candidate), strip, message@, limit_of(limit)),
{
    match candidate {
        Some(c) => {
            if strip {
                let stripped = stripname(c);
                PatchName::make(stripped.as_str(), false, limit)
            } else {
                PatchName::make(c, false, limit)
            }
        },
        None => PatchName::make(message, true, limit),
    }
}

/// What becomes of a patch whose name has been made.
#[derive(Debug, PartialEq, Eq)]
pub enum NameDecision {
    /// The patch is imported under this name.
    Use(PatchName),
    /// The patch is passed over: an applied patch has this name.
    Skip(PatchName),
}

/// Decides under which name a patch is imported. By default the name is
/// told apart from all names of the stack. Where applied patches are to be
/// ignored, a patch with the name of an applied patch is passed over, and
/// any other keeps its name. Where patches are to be replaced, the patch
/// keeps its name.
pub fn resolve_name(name: PatchName, ignore: bool, replace: bool, state: &StackState) -> (r:
    NameDecision)
    ensures
        match r {
            NameDecision::Use(n) => if !ignore && !replace {
                is_uniquified(name@, state@.all_names(), n@)
            } else {
                n@ == name@ && !(ignore && patch_names(state@.applied).contains(name@))
            },
            NameDecision::Skip(n) => n@ == name@ && ignore && patch_names(state@.applied).contains(
                name@,
            ),
        },
{
    if !ignore && !replace {
        let none: Vec<String> = Vec::new();
        let all = state.all_names();
        assert(views(none@) + views(all@) =~= state@.all_names());
        NameDecision::Use(name.uniquify(&none, &all))
    } else if ignore {
        let applied = names_of(state.applied());
        if find_name(&applied, name.as_str()).is_some() {
            NameDecision::Skip(name)
        } else {
            NameDecision::Use(name)
        }
    } else {
        NameDecision::Use(name)
    }
}

/// The strip level to apply a patch with: that of the series where it
/// gives one, else the one asked for.
pub fn effective_strip(series_strip: Option<usize>, option_strip: Option<usize>) -> (r: Option<
    usize,
>)
    ensures
        r == match series_strip {
            Some(n) => Some(n),
            None => option_strip,
        },
{
    match series_strip {
        Some(n) => Some(n),
        None => option_strip,
    }
}

/// Whether the message id of a mail becomes a trailer: where that is asked
/// for, or configured.
pub fn use_message_id(asked: bool, configured: Option<bool>) -> (r: bool)
    ensures
        r == (asked || configured == Some(true)),
{
    asked || match configured {
        Some(b) => b,
        None => false,
    }
}

/// What is known of a patch before its diff is applied.
#[derive(Debug, PartialEq, Eq)]
pub struct PatchPlan {
    /// The message of the patch.
    pub message: String,
    /// The name of the patch, or that it is passed over.
    pub name: NameDecision,
    /// The author of the patch.
    pub author: Author,
    /// The strip level to apply the diff with.
    pub strip: Option<usize>,
}

/// What the decision on a name stands for.
pub enum NameDecisionView {
    Use(Seq<char>),
    Skip(Seq<char>),
}

impl View for NameDecision {
    type V = NameDecisionView;

    open spec fn view(&self) -> NameDecisionView {
        match self {
            NameDecision::Use(n) => NameDecisionView::Use(n@),
            NameDecision::Skip(n) => NameDecisionView::Skip(n@),
        }
    }
}

/// What the plan of a patch stands for.
pub struct PatchPlanView {
    pub message: Seq<char>,
    pub name: NameDecisionView,
    pub author: AuthorView,
    pub strip: Option<usize>,
}

impl View for PatchPlan {
    type V = PatchPlanView;

    open spec fn view(&self) -> PatchPlanView {
        PatchPlanView {
            message: self.message@,
            name: self.name@,
            author: self.author@,
            strip: self.strip,
        }
    }
}

/// Whether `plan` is the plan of the patch that comes with the headers
/// `headers` and the body `body` from a file called `source_name`, under
/// the options `options`, for the stack `state`.
///
/// The message is the subject, an empty line and the body. The name is
/// made of the first that is given of the `Patch` header, the name asked
/// for and the name of the file, or else of the message; by default it is
/// told apart from all names of the stack; where applied patches are to be
/// ignored, a patch with the name of one is passed over. Name, address and
/// date of the author come from the headers, and each that they do not
/// give, or that cannot be read, from the default. The strip level is that
/// of the series, or else the one asked for.
pub open spec fn is_plan(
    options: ImportOptions,
    source_name: Option<Seq<char>>,
    headers: HeadersView,
    body: Seq<u8>,
    series_strip: Option<usize>,
    state: StackStateView,
    limit: nat,
    default_author: AuthorView,
    plan: PatchPlanView,
) -> bool {
    let made = derived_name(
        first_given(headers.patchname, opt_text(options.name), source_name),
        options.stripname,
        plan.message,
        limit,
    );
    &&& plan.message == message_text(headers.subject, body)
    &&& match plan.name {
        NameDecisionView::Use(n) => if !options.ignore && !options.replace {
            is_uniquified(made, state.all_names(), n)
        } else {
            n == made && !(options.ignore && patch_names(state.applied).contains(made))
        },
        NameDecisionView::Skip(n) => n == made && options.ignore && patch_names(
            state.applied,
        ).contains(made),
    }
    &&& plan.author.name == match headers.author_name {
        Some(n) => n,
        None => default_author.name,
    }
    &&& plan.author.email == match headers.author_email {
        Some(e) => e,
        None => default_author.email,
    }
    &&& plan.author.time == match headers.author_date {
        Some(text) => match time_of(text) {
            Some(t) => t,
            None => default_author.time,
        },
        None => default_author.time,
    }
    &&& plan.strip == match series_strip {
        Some(n) => Some(n),
        None => options.strip,
    }
}

/// A patch has one plan only: what `create_patch` gives depends on what it
/// is given, and on nothing else.
pub proof fn lemma_plan_unique(
    options: ImportOptions,
    source_name: Option<Seq<char>>,
    headers: HeadersView,
    body: Seq<u8>,
    series_strip: Option<usize>,
    state: StackStateView,
    limit: nat,
    default_author: AuthorView,
    p: PatchPlanView,
    q: PatchPlanView,
)
    requires
        is_plan(options, source_name, headers, body, series_strip, state, limit, default_author, p),
        is_plan(options, source_name, headers, body, series_strip, state, limit, default_author, q),
    ensures
        p == q,
{
    let made = derived_name(
        first_given(headers.patchname, opt_text(options.name), source_name),
        options.stripname,
        p.message,
        limit,
    );
    match (p.name, q.name) {
        (NameDecisionView::Use(a), NameDecisionView::Use(b)) => {
            if !options.ignore && !options.replace {
                lemma_uniquified_unique(made, state.all_names(), a, b);
            }
        },
        _ => {},
    }
}

/// The import from a `file://` URL without escapes is the import of the
/// file that the URL names: what is fetched is stored under the name of
/// that file, so that the same bytes give the same plan, whichever way
/// they come.
pub proof fn lemma_file_url_import(
    url: Seq<char>,
    options: ImportOptions,
    headers: HeadersView,
    body: Seq<u8>,
    series_strip: Option<usize>,
    state: StackStateView,
    limit: nat,
    default_author: AuthorView,
    fetched: PatchPlanView,
    direct: PatchPlanView,
)
    requires
        starts_with(url, "file://"@),
        is_plan(
            options,
            Some(download_name(encode_utf8(url))),
            headers,
            body,
            series_strip,
            state,
            limit,
            default_author,
            fetched,
        ),
        is_plan(
            options,
            Some(download_name(encode_utf8(url.skip("file://"@.len() as int)))),
            headers,
            body,
            series_strip,
            state,
            limit,
            default_author,
            direct,
        ),
    ensures
        fetched == direct,
{
    lemma_file_url_name(url);
    lemma_plan_unique(
        options,
        Some(download_name(encode_utf8(url))),
        headers,
        body,
        series_strip,
        state,
        limit,
        default_author,
        fetched,
        direct,
    );
}

/// Works out the message, the name, the author and the strip level of a
/// patch, from its headers and its message, the options of the import, the
/// name of the file it comes from, the strip level that a series gives for
/// it, the stack it goes to, the limit for made names, and the default
/// author. A `Date` header that cannot be read counts as missing.
pub fn create_patch(
    options: &ImportOptions,
    source_name: Option<&str>,
    headers: Headers,
    body: &[u8],
    series_strip: Option<usize>,
    state: &StackState,
    name_limit: Option<usize>,
    default_author: &Author,
) -> (r: PatchPlan)
    ensures
        is_plan(
            *options,
            str_view(source_name),
            headers@,
            body@,
            series_strip,
            state@,
            limit_of(name_limit),
            default_author@,
            r@,
        ),
{
    let Headers { patchname, author_name, author_email, author_date, subject } = headers;
    let date = match &author_date {
        Some(text) => parse_time(text.as_str()),
        None => None,
    };
    let message = patch_message(subject, body);
    let header_name: Option<&str> = match &patchname {
        Some(n) => Some(n.as_str()),
        None => None,
    };
    let option_name: Option<&str> = match &options.name {
        Some(n) => Some(n.as_str()),
        None => None,
    };
    let candidate = name_candidate(header_name, option_name, source_name);
    let made = derive_name(candidate, options.stripname, message.as_str(), name_limit);
    let name = resolve_name(made, options.ignore, options.replace, state);
    let author = reconstruct_author(author_name, author_email, date, default_author);
    PatchPlan { message, name, author, strip: effective_strip(series_strip, options.strip) }
}

/// The message that the reference log gets for the import of a patch.
pub fn import_reflog(name: &PatchName) -> (r: String)
    ensures
        r@ == "import: "@ + name@,
{
    let mut out = String::from_str("import: ");
    out.append(name.as_str());
    out
}

/// Puts an imported patch on the stack: on top of the applied patches.
/// Where patches are to be replaced, an unapplied patch of the same name
/// is deleted first.
pub fn stage_import(trans: &mut Transaction, name: &PatchName, commit: ObjectId, replace: bool) -> (r:
    Result<(), TransactionError>)
    ensures
        final(trans).is_halted() == old(trans).is_halted(),
        final(trans).options() == old(trans).options(),
        ({
            let before = old(trans).state();
            let replaced = replace && patch_names(before.unapplied).contains(name@);
            let base = if replaced {
                deleted(before, seq![name@])
            } else {
                before
            };
            match r {
                Ok(()) => {
                    &&& !old(trans).is_halted()
                    &&& replaced || !before.has(name@)
                    &&& final(trans).state() == (StackStateView {
                        applied: base.applied.push(PatchView { name: name@, oid: commit@ }),
                        ..base
                    })
                    &&& final(trans).state().wf()
                    &&& final(trans).log() == old(trans).log().push(('+', name@))
                },
                Err(e) => {
                    &&& final(trans).state() == before
                    &&& final(trans).log() == old(trans).log()
                    &&& if old(trans).is_halted() {
                        e == TransactionError::Halted
                    } else {
                        e == TransactionError::PatchExists && !replaced && before.has(name@)
                    }
                },
            }
        }),
{
    if replace && position_of(trans.current().unapplied(), name.as_str()).is_some() {
        let mut names: Vec<String> = Vec::new();
        names.push(name.as_str().to_owned());
        assert(views(names@) =~= seq![name@]);
        trans.current().well_formed();
        proof {
            lemma_deleted(trans.state(), seq![name@]);
        }
        match trans.delete_patches(&names) {
            Ok(()) => {},
            Err(e) => {
                return Err(e);
            },
        }
        assert(seq![name@].contains(name@)) by {
            assert(seq![name@][0] == name@);
        }
    }
    trans.new_applied(name.as_str(), commit)
}

} // verus!
