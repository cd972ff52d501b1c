//! Patch names: what a name may look like, how one is made out of any text,
//! and how a name is told apart from those that are taken.

use vstd::prelude::*;
use crate::text::{ends_with, find_name, string_from_chars, string_of, to_chars, views};

verus! {

/// The length that a made name is cut to where nothing else is configured.
pub const DEFAULT_NAME_LENGTH: usize = 30;

/// Whether a patch name may not hold `c`: ASCII white space, ASCII control
/// characters, and the characters that git gives a meaning in the names of
/// references.
pub open spec fn is_forbidden(c: char) -> bool {
    c <= ' ' || c == '\x7f' || c == '~' || c == '^' || c == ':' || c == '?' || c == '*' || c
        == '[' || c == '\\' || c == '{' || c == '}'
}

/// The suffix that no patch name may end with.
pub open spec fn dot_lock() -> Seq<char> {
    seq!['.', 'l', 'o', 'c', 'k']
}

/// Whether two dots stand side by side in `s`.
pub open spec fn has_double_dot(s: Seq<char>) -> bool {
    exists|i: int| 0 <= i < s.len() - 1 && #[trigger] s[i] == '.' && s[i + 1] == '.'
}

/// Whether a component of `s`, that is a part between slashes, is a single
/// dot.
pub open spec fn has_dot_component(s: Seq<char>) -> bool {
    exists|i: int|
        0 <= i < s.len() && #[trigger] s[i] == '.' && (i == 0 || s[i - 1] == '/') && (i + 1
            == s.len() || s[i + 1] == '/')
}

/// Whether `s` may be the name of a patch: not empty, no `-` at its start,
/// no forbidden character, no component that is `.` or `..`, no two dots
/// side by side, and not `.lock` at its end.
pub open spec fn is_valid_name(s: Seq<char>) -> bool {
    &&& s.len() > 0
    &&& s[0] != '-'
    &&& forall|i: int| 0 <= i < s.len() ==> !is_forbidden(#[trigger] s[i])
    &&& !has_dot_component(s)
    &&& !has_double_dot(s)
    &&& !ends_with(s, dot_lock())
}

/// Whether `s` is within a length limit, where zero is no limit.
pub open spec fn within_limit(s: Seq<char>, limit: nat) -> bool {
    limit == 0 || s.len() <= limit
}

/// `c` with an ASCII capital turned into the small letter.
pub open spec fn lower(c: char) -> char {
    if 'A' <= c <= 'Z' {
        ((c as u8) + 32) as char
    } else {
        c
    }
}

/// What `make` puts for the character `c`: the character itself, in lower
/// case, or `-` where a name may not hold it. A slash counts among these.
pub open spec fn replacement(c: char) -> char {
    if is_forbidden(c) || c == '/' {
        '-'
    } else {
        lower(c)
    }
}

/// The position of the first line feed of `s`, or the length of `s` where
/// it has none.
pub open spec fn line_end(s: Seq<char>) -> nat
    decreases s.len(),
{
    if s.len() == 0 {
        0
    } else if s[0] == '\n' {
        0
    } else {
        1 + line_end(s.drop_first())
    }
}

/// The first line of `s` that is not empty, and the empty text where `s`
/// has none. A line ends with a line feed, and a carriage return just
/// before that line feed is not part of the line.
pub open spec fn first_line(s: Seq<char>) -> Seq<char>
    decreases s.len(),
{
    let n = line_end(s) as int;
    if n >= s.len() {
        s
    } else {
        let line = if n > 0 && s[n - 1] == '\r' {
            s.take(n - 1)
        } else {
            s.take(n)
        };
        if line.len() > 0 {
            line
        } else {
            first_line(s.skip(n + 1))
        }
    }
}

/// `out` with what `make` puts for `c` added to it. A `-` is left out at
/// the start and after a `-`, and a `.` is left out at the start and after
/// a `.`.
pub open spec fn squeeze_step(out: Seq<char>, c: char) -> Seq<char> {
    let d = replacement(c);
    if (d == '-' || d == '.') && (out.len() == 0 || out.last() == d) {
        out
    } else {
        out.push(d)
    }
}

/// `s` with each character replaced as `make` does it: capitals in lower
/// case, every run of characters that a name may not hold as a single `-`,
/// no `-` and no `.` at the start, and never two of them side by side.
pub open spec fn squeeze(s: Seq<char>) -> Seq<char>
    decreases s.len(),
{
    if s.len() == 0 {
        Seq::<char>::empty()
    } else {
        squeeze_step(squeeze(s.drop_last()), s.last())
    }
}

/// `s` without what may not end a name: `-` and `.` are dropped from its
/// end, and `.lock` too, as often as it takes.
pub open spec fn tidy_end(s: Seq<char>) -> Seq<char>
    decreases s.len(),
{
    if s.len() > 0 && (s.last() == '-' || s.last() == '.') {
        tidy_end(s.drop_last())
    } else if ends_with(s, dot_lock()) {
        tidy_end(s.take(s.len() - 5))
    } else {
        s
    }
}

/// Where to cut `s` to make it fit `limit`: at the last `-` that stands at
/// most `limit` characters in, or at `limit` where there is none.
pub open spec fn cut_point(s: Seq<char>, limit: int) -> int
    decreases limit,
{
    if limit <= 0 {
        0
    } else if limit < s.len() && s[limit] == '-' {
        limit
    } else {
        cut_point(s, limit - 1)
    }
}

/// `s` cut to at most `limit` characters: before the last `-` that allows
/// it, or at `limit` where no `-` does.
pub open spec fn cut(s: Seq<char>, limit: int) -> Seq<char> {
    if s.len() <= limit {
        s
    } else if cut_point(s, limit) > 0 {
        s.take(cut_point(s, limit))
    } else {
        s.take(limit)
    }
}

/// The name that is used where the text gives none.
pub open spec fn default_name() -> Seq<char> {
    seq!['p', 'a', 't', 'c', 'h']
}

/// The name that `make` gives for the text `raw`: the first line that is
/// not empty, squeezed and tidied at its end; `patch` where nothing is left
/// of it; and, unless long names are allowed or the limit is zero, cut to
/// the limit and tidied again.
pub open spec fn made_name(raw: Seq<char>, allow_long: bool, limit: nat) -> Seq<char> {
    let base = tidy_end(squeeze(first_line(raw)));
    let named = if base.len() == 0 {
        default_name()
    } else {
        base
    };
    if !allow_long && limit > 0 {
        tidy_end(cut(named, limit as int))
    } else {
        named
    }
}

/// Whether `s` is as `squeeze` leaves a text: of characters that a name
/// may hold, none of them a slash or an ASCII capital, with no `-` and no
/// `.` at the start, and never two of them side by side.
pub open spec fn is_squeezed(s: Seq<char>) -> bool {
    &&& forall|i: int|
        0 <= i < s.len() ==> !is_forbidden(#[trigger] s[i]) && s[i] != '/' && !('A' <= s[i]
            <= 'Z')
    &&& s.len() > 0 ==> s[0] != '-' && s[0] != '.'
    &&& forall|i: int|
        0 <= i < s.len() - 1 ==> !(#[trigger] s[i] == '-' && s[i + 1] == '-') && !(s[i] == '.'
            && s[i + 1] == '.')
}

/// Whether `s` is as `tidy_end` leaves a text: without `-`, `.` or `.lock`
/// at its end.
pub open spec fn is_tidy(s: Seq<char>) -> bool {
    &&& s.len() > 0 ==> s.last() != '-' && s.last() != '.'
    &&& !ends_with(s, dot_lock())
}

/// Whether `s` is a name as `make` gives them.
pub open spec fn is_made(s: Seq<char>) -> bool {
    s.len() > 0 && is_squeezed(s) && is_tidy(s)
}

/// `squeeze` leaves a squeezed text.
pub proof fn lemma_squeeze(s: Seq<char>)
    ensures
        is_squeezed(squeeze(s)),
    decreases s.len(),
{
    if s.len() > 0 {
        lemma_squeeze(s.drop_last());
        let out = squeeze(s.drop_last());
        let c = s.last();
        let d = replacement(c);
        let q = squeeze_step(out, c);
        assert(!is_forbidden(d) && d != '/' && !('A' <= d <= 'Z'));
        if q != out {
            assert(q == out.push(d));
            assert forall|i: int| 0 <= i < q.len() implies !is_forbidden(#[trigger] q[i]) && q[i]
                != '/' && !('A' <= q[i] <= 'Z') by {
                if i < out.len() {
                    assert(q[i] == out[i]);
                }
            }
            assert forall|i: int| 0 <= i < q.len() - 1 implies !(#[trigger] q[i] == '-' && q[i
                + 1] == '-') && !(q[i] == '.' && q[i + 1] == '.') by {
                if i < out.len() - 1 {
                    assert(q[i] == out[i] && q[i + 1] == out[i + 1]);
                } else {
                    assert(q[i] == out.last());
                }
            }
        }
    }
}

/// A text that is squeezed already is left as it is.
pub proof fn lemma_squeeze_fixed(s: Seq<char>)
    requires
        is_squeezed(s),
    ensures
        squeeze(s) == s,
    decreases s.len(),
{
    if s.len() > 0 {
        let front = s.drop_last();
        assert forall|i: int| 0 <= i < front.len() - 1 implies !(#[trigger] front[i] == '-'
            && front[i + 1] == '-') && !(front[i] == '.' && front[i + 1] == '.') by {
            assert(front[i] == s[i] && front[i + 1] == s[i + 1]);
        }
        assert(is_squeezed(front)) by {
            assert forall|i: int| 0 <= i < front.len() implies !is_forbidden(#[trigger] front[i])
                && front[i] != '/' && !('A' <= front[i] <= 'Z') by {
                assert(front[i] == s[i]);
            }
            if front.len() > 0 {
                assert(front[0] == s[0]);
            }
        }
        lemma_squeeze_fixed(front);
        let c = s.last();
        assert(c == s[s.len() - 1]);
        assert(replacement(c) == c);
        if c == '-' || c == '.' {
            if front.len() == 0 {
                assert(s[0] == c);
            } else {
                assert(front.last() == s[s.len() - 2]);
            }
        }
        assert(front.push(c) =~= s);
    }
}

/// The start of a squeezed text is squeezed.
pub proof fn lemma_squeezed_prefix(s: Seq<char>, n: int)
    requires
        is_squeezed(s),
        0 <= n <= s.len(),
    ensures
        is_squeezed(s.take(n)),
{
    let t = s.take(n);
    assert forall|i: int| 0 <= i < t.len() implies !is_forbidden(#[trigger] t[i]) && t[i] != '/'
        && !('A' <= t[i] <= 'Z') by {
        assert(t[i] == s[i]);
    }
    assert forall|i: int| 0 <= i < t.len() - 1 implies !(#[trigger] t[i] == '-' && t[i + 1]
        == '-') && !(t[i] == '.' && t[i + 1] == '.') by {
        assert(t[i] == s[i] && t[i + 1] == s[i + 1]);
    }
    if t.len() > 0 {
        assert(t[0] == s[0]);
    }
}

/// `tidy_end` leaves a tidy start of the text, and leaves a tidy text as it
/// is.
pub proof fn lemma_tidy_end(s: Seq<char>)
    ensures
        is_tidy(tidy_end(s)),
        tidy_end(s).len() <= s.len(),
        tidy_end(s) == s.take(tidy_end(s).len() as int),
        is_tidy(s) ==> tidy_end(s) == s,
    decreases s.len(),
{
    if s.len() > 0 && (s.last() == '-' || s.last() == '.') {
        let front = s.drop_last();
        lemma_tidy_end(front);
        assert(front.take(tidy_end(front).len() as int) =~= s.take(tidy_end(front).len() as int));
    } else if ends_with(s, dot_lock()) {
        let front = s.take(s.len() - 5);
        lemma_tidy_end(front);
        assert(front.take(tidy_end(front).len() as int) =~= s.take(tidy_end(front).len() as int));
    } else {
        assert(s.take(s.len() as int) =~= s);
    }
}

/// Something is left of a squeezed text when its end is tidied.
pub proof fn lemma_tidy_keeps(s: Seq<char>)
    requires
        is_squeezed(s),
        s.len() > 0,
    ensures
        tidy_end(s).len() > 0,
    decreases s.len(),
{
    if s.last() == '-' || s.last() == '.' {
        if s.len() == 1 {
            assert(s[0] == s.last());
        } else {
            lemma_squeezed_prefix(s, s.len() - 1);
            lemma_tidy_keeps(s.drop_last());
        }
    } else if ends_with(s, dot_lock()) {
        let at = s.len() - 5;
        assert(s.subrange(at, at + 5)[0] == '.');
        assert(s[at] == '.');
        assert(at > 0);
        lemma_squeezed_prefix(s, at);
        lemma_tidy_keeps(s.take(at));
    }
}

/// A text without line feed is one line.
pub proof fn lemma_line_end(s: Seq<char>, n: int)
    requires
        0 <= n <= s.len(),
        forall|i: int| 0 <= i < n ==> s[i] != '\n',
        n < s.len() ==> s[n] == '\n',
    ensures
        line_end(s) == n,
    decreases s.len(),
{
    if s.len() > 0 && n > 0 {
        let rest = s.drop_first();
        assert forall|i: int| 0 <= i < n - 1 implies rest[i] != '\n' by {
            assert(rest[i] == s[i + 1]);
        }
        if n - 1 < rest.len() {
            assert(rest[n - 1] == s[n]);
        }
        lemma_line_end(rest, n - 1);
    }
}

/// The cut point is within the limit and within the text, and a `-` stands
/// at it where there is one.
pub proof fn lemma_cut_point(s: Seq<char>, limit: int)
    ensures
        0 <= cut_point(s, limit),
        cut_point(s, limit) <= limit || limit < 0,
        cut_point(s, limit) > 0 ==> cut_point(s, limit) < s.len() && s[cut_point(s, limit)] == '-',
    decreases limit,
{
    if limit > 0 && !(limit < s.len() && s[limit] == '-') {
        lemma_cut_point(s, limit - 1);
    }
}

/// A name as `make` gives them is a valid name.
pub proof fn lemma_made_is_valid(s: Seq<char>)
    requires
        is_made(s),
    ensures
        is_valid_name(s),
{
    if has_dot_component(s) {
        let i = choose|i: int|
            0 <= i < s.len() && #[trigger] s[i] == '.' && (i == 0 || s[i - 1] == '/') && (i + 1
                == s.len() || s[i + 1] == '/');
        if i > 0 {
            assert(s[i - 1] != '/');
        } else if i + 1 < s.len() {
            assert(s[i + 1] != '/');
        }
    }
}

/// What `make` gives is a name as `make` gives them: a valid name, without
/// slash and capitals, and within the limit unless long names are allowed.
pub proof fn lemma_made_name(raw: Seq<char>, allow_long: bool, limit: nat)
    ensures
        is_made(made_name(raw, allow_long, limit)),
        is_valid_name(made_name(raw, allow_long, limit)),
        !allow_long ==> within_limit(made_name(raw, allow_long, limit), limit),
{
    let line = first_line(raw);
    let q = squeeze(line);
    lemma_squeeze(line);
    lemma_tidy_end(q);
    let base = tidy_end(q);
    lemma_squeezed_prefix(q, base.len() as int);
    let named = if base.len() == 0 {
        default_name()
    } else {
        base
    };
    assert(is_made(named)) by {
        if base.len() == 0 {
            let d = default_name();
            assert(d.len() == 5);
            assert(d[0] == 'p' && d[1] == 'a' && d[2] == 't' && d[3] == 'c' && d[4] == 'h');
            assert(!ends_with(d, dot_lock())) by {
                if ends_with(d, dot_lock()) {
                    assert(d.subrange(0, 5)[0] == dot_lock()[0]);
                }
            }
        }
    }
    if !allow_long && limit > 0 {
        let c = cut(named, limit as int);
        lemma_cut_point(named, limit as int);
        assert(c.len() > 0 && c.len() <= limit);
        assert(c == named.take(c.len() as int)) by {
            if named.len() <= limit {
                assert(named.take(named.len() as int) =~= named);
            }
        }
        lemma_squeezed_prefix(named, c.len() as int);
        lemma_tidy_end(c);
        lemma_tidy_keeps(c);
        lemma_squeezed_prefix(c, tidy_end(c).len() as int);
    }
    lemma_made_is_valid(made_name(raw, allow_long, limit));
}

/// A name as `make` gives them, within the limit, is what `make` gives for
/// itself.
pub proof fn lemma_made_fixed(s: Seq<char>, limit: nat)
    requires
        is_made(s),
        within_limit(s, limit),
    ensures
        made_name(s, false, limit) == s,
{
    assert forall|i: int| 0 <= i < s.len() implies s[i] != '\n' by {
        assert(!is_forbidden(s[i]));
    }
    lemma_line_end(s, s.len() as int);
    assert(first_line(s) == s);
    lemma_squeeze_fixed(s);
    lemma_tidy_end(s);
}

/// Making a name of a made name changes nothing: for every text and every
/// limit, `make` gives for its own result that result again.
pub proof fn lemma_make_idempotent(raw: Seq<char>, limit: nat)
    ensures
        made_name(made_name(raw, false, limit), false, limit) == made_name(raw, false, limit),
{
    lemma_made_name(raw, false, limit);
    lemma_made_fixed(made_name(raw, false, limit), limit);
}

fn forbidden(c: char) -> (r: bool)
    ensures
        r == is_forbidden(c),
{
    c <= ' ' || c == '\x7f' || c == '~' || c == '^' || c == ':' || c == '?' || c == '*' || c == '['
        || c == '\\' || c == '{' || c == '}'
}

fn replace(c: char) -> (r: char)
    ensures
        r == replacement(c),
{
    if forbidden(c) || c == '/' {
        '-'
    } else if c >= 'A' && c <= 'Z' {
        ((c as u8) + 32) as char
    } else {
        c
    }
}

fn first_line_bounds(chars: &Vec<char>) -> (r: (usize, usize))
    ensures
        r.0 <= r.1 <= chars.len(),
        chars@.subrange(r.0 as int, r.1 as int) == first_line(chars@),
{
    let len = chars.len();
    let mut start: usize = 0;
    assert(chars@.skip(0) =~= chars@);
    while start < len
        invariant
            start <= len == chars.len(),
            first_line(chars@.skip(start as int)) == first_line(chars@),
        decreases len - start,
    {
        let ghost rest = chars@.skip(start as int);
        let mut n: usize = start;
        while n < len && chars[n] != '\n'
            invariant
                start <= n <= len == chars.len(),
                forall|j: int| start <= j < n ==> chars@[j] != '\n',
            decreases len - n,
        {
            n = n + 1;
        }
        proof {
            assert forall|j: int| 0 <= j < n - start implies rest[j] != '\n' by {
                assert(rest[j] == chars@[start + j]);
            }
            lemma_line_end(rest, n - start);
        }
        if n == len {
            assert(rest =~= chars@.subrange(start as int, len as int));
            return (start, len);
        }
        let end: usize = if n > start && chars[n - 1] == '\r' {
            n - 1
        } else {
            n
        };
        proof {
            assert(rest.take(end - start) =~= chars@.subrange(start as int, end as int));
            assert(rest.skip(n - start + 1) =~= chars@.skip(n + 1));
        }
        if end > start {
            return (start, end);
        }
        start = n + 1;
    }
    proof {
        let rest = chars@.skip(start as int);
        assert(rest.len() == 0);
        assert(rest =~= chars@.subrange(start as int, start as int));
    }
    (start, start)
}

fn squeeze_range(chars: &Vec<char>, from: usize, to: usize) -> (r: Vec<char>)
    requires
        from <= to <= chars.len(),
    ensures
        r@ == squeeze(chars@.subrange(from as int, to as int)),
{
    let mut out: Vec<char> = Vec::new();
    let mut i: usize = from;
    assert(chars@.subrange(from as int, from as int) =~= Seq::<char>::empty());
    while i < to
        invariant
            from <= i <= to <= chars.len(),
            out@ == squeeze(chars@.subrange(from as int, i as int)),
        decreases to - i,
    {
        let d = replace(chars[i]);
        proof {
            let next = chars@.subrange(from as int, i + 1);
            assert(next.drop_last() =~= chars@.subrange(from as int, i as int));
            assert(next.last() == chars@[i as int]);
        }
        if (d == '-' || d == '.') && (out.len() == 0 || out[out.len() - 1] == d) {
        } else {
            out.push(d);
        }
        i = i + 1;
    }
    out
}

fn ends_with_lock(v: &Vec<char>, n: usize) -> (r: bool)
    requires
        n <= v.len(),
    ensures
        r == ends_with(v@.take(n as int), dot_lock()),
{
    let ghost s = v@.take(n as int);
    if n < 5 {
        return false;
    }
    let r = v[n - 5] == '.' && v[n - 4] == 'l' && v[n - 3] == 'o' && v[n - 2] == 'c' && v[n - 1]
        == 'k';
    proof {
        let tail = s.subrange(n - 5, n as int);
        assert(tail[0] == v@[n - 5] && tail[1] == v@[n - 4] && tail[2] == v@[n - 3] && tail[3]
            == v@[n - 2] && tail[4] == v@[n - 1]);
        if r {
            assert(tail =~= dot_lock());
        }
    }
    r
}

fn tidy_len(v: &Vec<char>, len: usize) -> (n: usize)
    requires
        len <= v.len(),
    ensures
        n <= len,
        v@.take(n as int) == tidy_end(v@.take(len as int)),
{
    let mut n: usize = len;
    let mut done = false;
    while !done
        invariant
            n <= len <= v.len(),
            tidy_end(v@.take(n as int)) == tidy_end(v@.take(len as int)),
            done ==> tidy_end(v@.take(n as int)) == v@.take(n as int),
        decreases n, if done { 0int } else { 1int },
    {
        let ghost s = v@.take(n as int);
        if n > 0 && (v[n - 1] == '-' || v[n - 1] == '.') {
            assert(s.drop_last() =~= v@.take(n - 1));
            n = n - 1;
        } else if ends_with_lock(v, n) {
            assert(s.take(s.len() - 5) =~= v@.take(n - 5));
            n = n - 5;
        } else {
            done = true;
        }
    }
    n
}

fn cut_len(v: &Vec<char>, limit: usize) -> (n: usize)
    requires
        limit > 0,
    ensures
        n <= v.len(),
        v@.take(n as int) == cut(v@, limit as int),
{
    if v.len() <= limit {
        assert(v@.take(v@.len() as int) =~= v@);
        return v.len();
    }
    let mut i: usize = limit;
    while i > 0
        invariant
            i <= limit < v.len(),
            cut_point(v@, i as int) == cut_point(v@, limit as int),
        decreases i,
    {
        if v[i] == '-' {
            return i;
        }
        i = i - 1;
    }
    limit
}

/// The limit that a missing one stands for: none.
pub open spec fn limit_of(limit: Option<usize>) -> nat {
    match limit {
        Some(n) => n as nat,
        None => 0,
    }
}

/// The name that `make` gives for `raw`.
pub fn make_name(raw: &str, allow_long: bool, limit: Option<usize>) -> (r: String)
    ensures
        r@ == made_name(raw@, allow_long, limit_of(limit)),
{
    let chars = to_chars(raw);
    let (from, to) = first_line_bounds(&chars);
    let squeezed = squeeze_range(&chars, from, to);
    let n = tidy_len(&squeezed, squeezed.len());
    assert(squeezed@.take(squeezed@.len() as int) =~= squeezed@);
    let mut named: Vec<char> = Vec::new();
    if n == 0 {
        named.push('p');
        named.push('a');
        named.push('t');
        named.push('c');
        named.push('h');
        assert(named@ =~= default_name());
    } else {
        let mut i: usize = 0;
        while i < n
            invariant
                i <= n <= squeezed.len(),
                named@ == squeezed@.take(i as int),
            decreases n - i,
        {
            named.push(squeezed[i]);
            assert(squeezed@.take(i + 1) =~= squeezed@.take(i as int).push(squeezed@[i as int]));
            i = i + 1;
        }
    }
    let limit_value: usize = match limit {
        Some(l) => l,
        None => 0,
    };
    if !allow_long && limit_value > 0 {
        let c = cut_len(&named, limit_value);
        let t = tidy_len(&named, c);
        let r = string_of(&named, 0, t);
        assert(named@.subrange(0, t as int) =~= named@.take(t as int));
        r
    } else {
        string_from_chars(&named)
    }
}

/// The decimal digit of a value below ten.
pub open spec fn digit(n: nat) -> char {
    ((48 + n) as u8) as char
}

/// The decimal numeral of `n`.
pub open spec fn decimal(n: nat) -> Seq<char>
    decreases n,
{
    if n < 10 {
        seq![digit(n)]
    } else {
        decimal(n / 10).push(digit(n % 10))
    }
}

/// The number that a decimal numeral stands for.
pub open spec fn decimal_value(s: Seq<char>) -> nat
    decreases s.len(),
{
    if s.len() == 0 {
        0
    } else {
        (decimal_value(s.drop_last()) * 10 + (s.last() as nat - 48)) as nat
    }
}

/// A numeral is made of digits, and stands for the number it was made of;
/// so two numbers with the same numeral are the same.
pub proof fn lemma_decimal(n: nat)
    ensures
        decimal(n).len() > 0,
        forall|i: int| 0 <= i < decimal(n).len() ==> '0' <= #[trigger] decimal(n)[i] <= '9',
        decimal_value(decimal(n)) == n,
    decreases n,
{
    if n < 10 {
        let s = decimal(n);
        assert(s.drop_last() =~= Seq::<char>::empty());
        assert(decimal_value(s.drop_last()) == 0);
    } else {
        lemma_decimal(n / 10);
        let front = decimal(n / 10);
        let s = decimal(n);
        assert(s.drop_last() =~= front);
        assert forall|i: int| 0 <= i < s.len() implies '0' <= #[trigger] s[i] <= '9' by {
            if i < front.len() {
                assert(s[i] == front[i]);
            }
        }
    }
}

/// `name` with `-` and the numeral of `k` after it.
pub open spec fn numbered(name: Seq<char>, k: nat) -> Seq<char> {
    name + seq!['-'] + decimal(k)
}

/// Whether `r` is what `uniquify` gives for `name` where the names `taken`
/// are taken: `name` itself where it is not taken, and else the first of
/// `name-1`, `name-2` and so on that is not taken.
pub open spec fn is_uniquified(name: Seq<char>, taken: Seq<Seq<char>>, r: Seq<char>) -> bool {
    &&& !taken.contains(r)
    &&& !taken.contains(name) ==> r == name
    &&& taken.contains(name) ==> exists|k: nat|
        k >= 1 && r == #[trigger] numbered(name, k) && forall|j: nat|
            1 <= j < k ==> taken.contains(#[trigger] numbered(name, j))
}

/// Only one name is what `uniquify` gives for a name and the names taken.
pub proof fn lemma_uniquified_unique(
    name: Seq<char>,
    taken: Seq<Seq<char>>,
    a: Seq<char>,
    b: Seq<char>,
)
    requires
        is_uniquified(name, taken, a),
        is_uniquified(name, taken, b),
    ensures
        a == b,
{
    if taken.contains(name) {
        let ka = choose|k: nat|
            k >= 1 && a == #[trigger] numbered(name, k) && forall|j: nat|
                1 <= j < k ==> taken.contains(#[trigger] numbered(name, j));
        let kb = choose|k: nat|
            k >= 1 && b == #[trigger] numbered(name, k) && forall|j: nat|
                1 <= j < k ==> taken.contains(#[trigger] numbered(name, j));
        if ka < kb {
            assert(taken.contains(numbered(name, ka)));
        } else if kb < ka {
            assert(taken.contains(numbered(name, kb)));
        }
    }
}

/// Different numbers give different numbered names.
pub proof fn lemma_numbered_differ(name: Seq<char>, a: nat, b: nat)
    requires
        numbered(name, a) == numbered(name, b),
    ensures
        a == b,
{
    assert(numbered(name, a).skip(name.len() as int + 1) =~= decimal(a));
    assert(numbered(name, b).skip(name.len() as int + 1) =~= decimal(b));
    lemma_decimal(a);
    lemma_decimal(b);
}

/// A valid name with a number after it is a valid name.
pub proof fn lemma_numbered_valid(name: Seq<char>, k: nat)
    requires
        is_valid_name(name),
    ensures
        is_valid_name(numbered(name, k)),
{
    let s = numbered(name, k);
    let n = name.len() as int;
    lemma_decimal(k);
    assert forall|i: int| 0 <= i < s.len() implies !is_forbidden(#[trigger] s[i]) by {
        if i < n {
            assert(s[i] == name[i]);
        } else if i == n {
            assert(s[i] == '-');
        } else {
            assert(s[i] == decimal(k)[i - n - 1]);
        }
    }
    assert(s[0] == name[0]);
    assert(s[n] == '-');
    assert forall|i: int| n < i < s.len() implies '0' <= #[trigger] s[i] <= '9' by {
        assert(s[i] == decimal(k)[i - n - 1]);
    }
    if has_dot_component(s) {
        let i = choose|i: int|
            0 <= i < s.len() && #[trigger] s[i] == '.' && (i == 0 || s[i - 1] == '/') && (i + 1
                == s.len() || s[i + 1] == '/');
        assert(i < n);
        assert(name[i] == s[i]);
        if i > 0 {
            assert(name[i - 1] == s[i - 1]);
        }
        if i + 1 < n {
            assert(name[i + 1] == s[i + 1]);
        }
        assert(has_dot_component(name));
    }
    if has_double_dot(s) {
        let i = choose|i: int| 0 <= i < s.len() - 1 && #[trigger] s[i] == '.' && s[i + 1] == '.';
        assert(i + 1 < n);
        assert(name[i] == s[i] && name[i + 1] == s[i + 1]);
        assert(has_double_dot(name));
    }
    if ends_with(s, dot_lock()) {
        let at = s.len() - 5;
        assert(s.subrange(at, at + 5)[4] == 'k');
        assert(s[s.len() - 1] == 'k');
    }
}

pub(crate) fn decimal_text(n: u128) -> (r: Vec<char>)
    ensures
        r@ == decimal(n as nat),
    decreases n,
{
    if n < 10 {
        let mut v: Vec<char> = Vec::new();
        v.push((48 + (n as u8)) as char);
        assert(v@ =~= decimal(n as nat));
        v
    } else {
        let mut v = decimal_text(n / 10);
        v.push((48 + ((n % 10) as u8)) as char);
        v
    }
}

/// Whether `s` may be the name of a patch.
pub fn is_valid(s: &str) -> (r: bool)
    ensures
        r == is_valid_name(s@),
{
    let v = to_chars(s);
    let n = v.len();
    if n == 0 || v[0] == '-' {
        return false;
    }
    let mut i: usize = 0;
    while i < n
        invariant
            i <= n == v.len(),
            v@ == s@,
            forall|j: int| 0 <= j < i ==> !is_forbidden(#[trigger] v@[j]),
            forall|j: int|
                0 <= j < i ==> !(#[trigger] v@[j] == '.' && (j == 0 || v@[j - 1] == '/') && (j + 1
                    == n || v@[j + 1] == '/')),
            forall|j: int| 0 <= j < i && j < n - 1 ==> !(#[trigger] v@[j] == '.' && v@[j + 1] == '.'),
        decreases n - i,
    {
        let c = v[i];
        if forbidden(c) {
            return false;
        }
        if c == '.' {
            if (i == 0 || v[i - 1] == '/') && (i + 1 == n || v[i + 1] == '/') {
                assert(has_dot_component(v@));
                return false;
            }
            if i + 1 < n && v[i + 1] == '.' {
                assert(has_double_dot(v@));
                return false;
            }
        }
        i = i + 1;
    }
    assert(v@.take(n as int) =~= v@);
    !ends_with_lock(&v, n)
}

/// The length limit for made names that the configured `stgit.namelength`
/// stands for: none where it is zero, itself where it is positive, and
/// thirty where it is missing or negative.
pub open spec fn configured_limit(namelength: Option<i64>) -> Option<usize> {
    match namelength {
        Some(n) => if n == 0 {
            None
        } else if 0 < n <= usize::MAX {
            Some(n as usize)
        } else if n > 0 {
            Some(usize::MAX)
        } else {
            Some(DEFAULT_NAME_LENGTH)
        },
        None => Some(DEFAULT_NAME_LENGTH),
    }
}

/// The name of a patch. It is a valid name at all times.
#[derive(Debug, PartialEq, Eq)]
pub struct PatchName {
    name: String,
}

impl View for PatchName {
    type V = Seq<char>;

    closed spec fn view(&self) -> Seq<char> {
        self.name@
    }
}

impl Clone for PatchName {
    fn clone(&self) -> (r: PatchName)
        ensures
            r@ == self@,
    {
        proof {
            use_type_invariant(self);
        }
        PatchName { name: self.name.clone() }
    }
}

impl PatchName {
    #[verifier::type_invariant]
    spec fn inv(&self) -> bool {
        is_valid_name(self.name@)
    }

    /// The name `s`, where it is a valid one.
    pub fn new(s: &str) -> (r: Option<PatchName>)
        ensures
            r is Some <==> is_valid_name(s@),
            r matches Some(name) ==> name@ == s@,
    {
        if is_valid(s) {
            Some(PatchName { name: s.to_owned() })
        } else {
            None
        }
    }

    /// Every patch name is a valid name.
    pub fn valid(&self)
        ensures
            is_valid_name(self@),
    {
        proof {
            use_type_invariant(self);
        }
    }

    /// The name as text.
    pub fn as_str(&self) -> (r: &str)
        ensures
            r@ == self@,
    {
        self.name.as_str()
    }

    /// The limit that the configured `stgit.namelength` stands for.
    pub fn get_length_limit(namelength: Option<i64>) -> (r: Option<usize>)
        ensures
            r == configured_limit(namelength),
    {
        match namelength {
            Some(n) => {
                if n == 0 {
                    None
                } else if n > 0 {
                    if n as u64 <= usize::MAX as u64 {
                        Some(n as usize)
                    } else {
                        Some(usize::MAX)
                    }
                } else {
                    Some(DEFAULT_NAME_LENGTH)
                }
            },
            None => Some(DEFAULT_NAME_LENGTH),
        }
    }

    /// Makes a valid name out of any text. The first line that is not empty
    /// is taken; its ASCII capitals are put in lower case; each run of
    /// characters that a name may not hold, a slash among them, becomes a
    /// single `-`; a `.` after a `.` is dropped; `-` and `.` are taken off
    /// both ends, and `.lock` off the end. Where nothing is left the name is
    /// `patch`. Unless long names are allowed or the limit is none, a name
    /// longer than the limit is cut before the last `-` that the limit
    /// admits, or at the limit where there is none, and tidied at its end
    /// again.
    pub fn make(raw: &str, allow_long: bool, limit: Option<usize>) -> (r: PatchName)
        ensures
            r@ == made_name(raw@, allow_long, limit_of(limit)),
            is_valid_name(r@),
            !allow_long ==> within_limit(r@, limit_of(limit)),
    {
        let name = make_name(raw, allow_long, limit);
        proof {
            lemma_made_name(raw@, allow_long, limit_of(limit));
        }
        PatchName { name }
    }

    /// The name itself where it is none of the names taken, and else the
    /// name with `-1`, `-2` and so on after it: the first of these that is
    /// not taken.
    pub fn uniquify(&self, disallow_applied: &Vec<String>, disallow_all: &Vec<String>) -> (r:
        PatchName)
        ensures
            is_uniquified(self@, views(disallow_applied@) + views(disallow_all@), r@),
    {
        proof {
            use_type_invariant(self);
        }
        let ghost taken = views(disallow_applied@) + views(disallow_all@);
        let mut remaining: Vec<String> = Vec::new();
        let mut i: usize = 0;
        while i < disallow_applied.len()
            invariant
                i <= disallow_applied.len(),
                views(remaining@) == views(disallow_applied@).take(i as int),
            decreases disallow_applied.len() - i,
        {
            remaining.push(disallow_applied[i].clone());
            assert(views(remaining@) =~= views(disallow_applied@).take(i as int).push(
                disallow_applied@[i as int]@,
            ));
            assert(views(disallow_applied@).take(i + 1) =~= views(disallow_applied@).take(
                i as int,
            ).push(disallow_applied@[i as int]@));
            i = i + 1;
        }
        assert(views(disallow_applied@).take(disallow_applied@.len() as int) =~= views(
            disallow_applied@,
        ));
        let mut i: usize = 0;
        while i < disallow_all.len()
            invariant
                i <= disallow_all.len(),
                views(remaining@) == views(disallow_applied@) + views(disallow_all@).take(i as int),
            decreases disallow_all.len() - i,
        {
            remaining.push(disallow_all[i].clone());
            assert(views(remaining@) =~= (views(disallow_applied@) + views(disallow_all@).take(
                i as int,
            )).push(disallow_all@[i as int]@));
            assert(views(disallow_all@).take(i + 1) =~= views(disallow_all@).take(i as int).push(
                disallow_all@[i as int]@,
            ));
            i = i + 1;
        }
        assert(views(disallow_all@).take(disallow_all@.len() as int) =~= views(disallow_all@));
        assert(views(remaining@) == taken);
        if find_name(&remaining, self.name.as_str()).is_none() {
            return self.clone();
        }
        let base = to_chars(self.name.as_str());
        let ghost start = remaining@.len();
        let mut k: u128 = 1;
        loop
            invariant
                base@ == self@,
                is_valid_name(self@),
                taken == views(disallow_applied@) + views(disallow_all@),
                taken.contains(self@),
                1 <= k <= start - remaining@.len() + 1,
                start <= usize::MAX,
                forall|j: nat| 1 <= j < k ==> taken.contains(#[trigger] numbered(self@, j)),
                forall|x: Seq<char>| views(remaining@).contains(x) ==> taken.contains(x),
                forall|x: Seq<char>|
                    taken.contains(x) ==> views(remaining@).contains(x) || exists|j: nat|
                        1 <= j < k && x == #[trigger] numbered(self@, j),
            decreases remaining@.len(),
        {
            let mut cand: Vec<char> = Vec::new();
            let mut i: usize = 0;
            while i < base.len()
                invariant
                    i <= base.len(),
                    cand@ == base@.take(i as int),
                decreases base.len() - i,
            {
                cand.push(base[i]);
                assert(base@.take(i + 1) =~= base@.take(i as int).push(base@[i as int]));
                i = i + 1;
            }
            assert(base@.take(base@.len() as int) =~= base@);
            cand.push('-');
            let mut digits = decimal_text(k);
            cand.append(&mut digits);
            assert(cand@ =~= numbered(self@, k as nat));
            let name = string_from_chars(&cand);
            match find_name(&remaining, name.as_str()) {
                None => {
                    proof {
                        lemma_numbered_valid(self@, k as nat);
                        if taken.contains(name@) {
                            let j = choose|j: nat|
                                1 <= j < k && name@ == #[trigger] numbered(self@, j);
                            lemma_numbered_differ(self@, j, k as nat);
                        }
                    }
                    return PatchName { name };
                },
                Some(at) => {
                    let ghost before = views(remaining@);
                    assert(before[at as int] == name@);
                    remaining.remove(at);
                    proof {
                        let after = views(remaining@);
                        assert(after =~= before.remove(at as int));
                        assert forall|x: Seq<char>| after.contains(x) implies taken.contains(x) by {
                            let i = after.index_of(x);
                            if i < at {
                                assert(before[i] == x);
                            } else {
                                assert(before[i + 1] == x);
                            }
                        }
                        assert forall|x: Seq<char>| taken.contains(x) implies after.contains(x)
                            || exists|j: nat|
                            1 <= j < k + 1 && x == #[trigger] numbered(self@, j) by {
                            if before.contains(x) {
                                let i = before.index_of(x);
                                if i < at {
                                    assert(after[i] == x);
                                } else if i > at {
                                    assert(after[i - 1] == x);
                                } else {
                                    assert(x == numbered(self@, k as nat));
                                }
                            } else {
                                let j = choose|j: nat|
                                    1 <= j < k && x == #[trigger] numbered(self@, j);
                                assert(1 <= j < k + 1 && x == numbered(self@, j));
                            }
                        }
                    }
                    k = k + 1;
                },
            }
        }
    }
}

} // verus!
