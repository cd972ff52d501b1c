//! What the command line tool decides before it prints, runs an alias or
//! runs a hook.

use vstd::prelude::*;
use vstd::utf8::encode_utf8;
use crate::bytestr::find_byteset;
use crate::text::{find_char, first_index_of, string_of, to_chars};
use vstd::slice::slice_subrange;

verus! {

/// Which characters of a message are highlighted: those between a backtick
/// and the next one, pair by pair from the left. The backticks themselves
/// are not, nor is anything after a backtick that has no partner.
pub open spec fn marks(msg: Seq<char>) -> Seq<bool>
    decreases msg.len(),
{
    if !msg.contains('`') {
        Seq::new(msg.len(), |i: int| false)
    } else {
        let open = first_index_of(msg, '`');
        let rest = msg.skip(open + 1);
        if !rest.contains('`') {
            Seq::new(msg.len(), |i: int| false)
        } else {
            let close = first_index_of(rest, '`');
            if 0 <= open < msg.len() && 0 <= close < rest.len() {
                Seq::new((open + 1) as nat, |i: int| false) + Seq::new(close as nat, |i: int| true)
                    + seq![false] + marks(rest.skip(close + 1))
            } else {
                Seq::new(msg.len(), |i: int| false)
            }
        }
    }
}

/// A part of a message, to be printed plainly or highlighted.
#[derive(Debug, PartialEq, Eq)]
pub struct Segment {
    pub text: String,
    pub highlighted: bool,
}

/// The characters of a list of segments, each with whether it is
/// highlighted.
pub open spec fn spelled(segments: Seq<Segment>) -> Seq<(char, bool)>
    decreases segments.len(),
{
    if segments.len() == 0 {
        Seq::<(char, bool)>::empty()
    } else {
        spelled(segments.drop_last()) + Seq::new(
            segments.last().text@.len(),
            |i: int| (segments.last().text@[i], segments.last().highlighted),
        )
    }
}

/// The characters of a message, each with whether it is highlighted.
pub open spec fn marked(msg: Seq<char>) -> Seq<(char, bool)> {
    Seq::new(msg.len(), |i: int| (msg[i], marks(msg)[i]))
}

/// The marks of a message have its length.
pub proof fn lemma_marks_len(msg: Seq<char>)
    ensures
        marks(msg).len() == msg.len(),
    decreases msg.len(),
{
    reveal(first_index_of);
    if msg.contains('`') {
        let open = first_index_of(msg, '`');
        let rest = msg.skip(open + 1);
        if rest.contains('`') {
            let close = first_index_of(rest, '`');
            if 0 <= open < msg.len() && 0 <= close < rest.len() {
                lemma_marks_len(rest.skip(close + 1));
            }
        }
    }
}

fn push_segment(out: &mut Vec<Segment>, chars: &Vec<char>, from: usize, to: usize, highlighted: bool)
    requires
        from <= to <= chars.len(),
    ensures
        spelled(final(out)@) == spelled(old(out)@) + Seq::new(
            (to - from) as nat,
            |i: int| (chars@[from + i], highlighted),
        ),
{
    let text = string_of(chars, from, to);
    out.push(Segment { text, highlighted });
    assert(out@.drop_last() =~= old(out)@);
    assert(Seq::new(out@.last().text@.len(), |i: int| (out@.last().text@[i], highlighted))
        =~= Seq::new((to - from) as nat, |i: int| (chars@[from + i], highlighted)));
}

/// Splits a message into the parts that are printed plainly and those that
/// are highlighted: what stands between two backticks is highlighted.
pub fn message_segments(msg: &str) -> (r: Vec<Segment>)
    ensures
        spelled(r@) == marked(msg@),
{
    let chars = to_chars(msg);
    let n = chars.len();
    let mut out: Vec<Segment> = Vec::new();
    let mut start: usize = 0;
    let mut done = false;
    proof {
        lemma_marks_len(msg@);
        assert(chars@.skip(0) =~= chars@);
        assert(spelled(out@) =~= Seq::<(char, bool)>::empty());
        assert(marked(chars@.skip(0)) =~= Seq::<(char, bool)>::empty() + marked(chars@.skip(0)));
    }
    while !done
        invariant
            start <= n == chars.len(),
            chars@ == msg@,
            !done ==> spelled(out@) + marked(chars@.skip(start as int)) == marked(msg@),
            done ==> spelled(out@) == marked(msg@),
        decreases n - start, if done { 0int } else { 1int },
    {
        let ghost tail = chars@.skip(start as int);
        let ghost before = spelled(out@);
        let rest = slice_subrange(chars.as_slice(), start, n);
        assert(rest@ =~= tail);
        proof {
            lemma_marks_len(tail);
        }
        let closed = match find_char(rest, '`') {
            None => None,
            Some(open) => {
                let after = slice_subrange(rest, open + 1, rest.len());
                assert(after@ =~= tail.skip(open + 1));
                match find_char(after, '`') {
                    None => None,
                    Some(close) => Some((open, close)),
                }
            },
        };
        match closed {
            None => {
                push_segment(&mut out, &chars, start, n, false);
                proof {
                    assert(marks(tail) =~= Seq::new(tail.len(), |i: int| false));
                    assert(Seq::new((n - start) as nat, |i: int| (chars@[start + i], false))
                        =~= marked(tail));
                }
                done = true;
            },
            Some((open, close)) => {
                let mid = start + open + 1;
                push_segment(&mut out, &chars, start, mid, false);
                push_segment(&mut out, &chars, mid, mid + close, true);
                push_segment(&mut out, &chars, mid + close, mid + close + 1, false);
                proof {
                    let next = tail.skip(open + 1).skip(close + 1);
                    assert(next =~= chars@.skip(mid + close + 1));
                    lemma_marks_len(next);
                    let m = marks(tail);
                    assert(m == Seq::new((open + 1) as nat, |i: int| false) + Seq::new(
                        close as nat,
                        |i: int| true,
                    ) + seq![false] + marks(next));
                    assert(marked(tail) =~= Seq::new(
                        (mid - start) as nat,
                        |i: int| (chars@[start + i], false),
                    ) + Seq::new(close as nat, |i: int| (chars@[mid + i], true)) + Seq::new(
                        1,
                        |i: int| (chars@[mid + close + i], false),
                    ) + marked(next));
                    assert(spelled(out@) + marked(next) =~= before + marked(tail));
                }
                start = mid + close + 1;
            },
        }
    }
    out
}

/// The characters that make the shell necessary for an alias.
pub open spec fn shell_characters() -> Seq<u8> {
    encode_utf8("|&;<>()$` *?[#~=%'\"\t\n\\"@)
}

/// Whether an alias has to be handed to the shell: where it holds one of
/// the characters that mean something to the shell.
pub fn needs_shell(command: &str) -> (r: bool)
    ensures
        r == exists|i: int|
            0 <= i < encode_utf8(command@).len() && shell_characters().contains(
                #[trigger] encode_utf8(command@)[i],
            ),
{
    let r = find_byteset(command.as_bytes(), "|&;<>()$` *?[#~=%'\"\t\n\\".as_bytes());
    r.is_some()
}

/// What the first word of an alias for a command stands for.
#[derive(Clone, Copy, Debug, PartialEq, Eq, Structural)]
pub enum AliasTarget {
    /// A command: the alias is run as that command.
    Command,
    /// Another alias: the alias is refused.
    Recursive,
    /// Nothing that is known: the alias is refused.
    Unknown,
}

/// Tells what the first word of an alias stands for. A command of that
/// name wins over an alias of that name.
pub fn alias_target(is_command: bool, is_alias: bool) -> (r: AliasTarget)
    ensures
        r == if is_command {
            AliasTarget::Command
        } else if is_alias {
            AliasTarget::Recursive
        } else {
            AliasTarget::Unknown
        },
{
    if is_command {
        AliasTarget::Command
    } else if is_alias {
        AliasTarget::Recursive
    } else {
        AliasTarget::Unknown
    }
}

/// The directory that the path of the hooks is taken from.
#[derive(Clone, Copy, Debug, PartialEq, Eq, Structural)]
pub enum HooksBase {
    /// The configured path, as it is.
    Configured,
    /// The configured path, below the git directory.
    ConfiguredInGitDir,
    /// The configured path, below the top of the work tree.
    ConfiguredInWorkTree,
    /// `hooks`, below the git directory.
    Default,
}

/// Where the hooks of a repository lie: at the configured path where one
/// is configured, which is taken below the git directory of a bare
/// repository and below the work tree of any other unless it is absolute;
/// and in `hooks` below the git directory where none is configured.
pub fn hooks_base(configured: Option<bool>, bare: bool) -> (r: HooksBase)
    ensures
        r == match configured {
            Some(absolute) => if absolute {
                HooksBase::Configured
            } else if bare {
                HooksBase::ConfiguredInGitDir
            } else {
                HooksBase::ConfiguredInWorkTree
            },
            None => HooksBase::Default,
        },
{
    match configured {
        Some(absolute) => {
            if absolute {
                HooksBase::Configured
            } else if bare {
                HooksBase::ConfiguredInGitDir
            } else {
                HooksBase::ConfiguredInWorkTree
            }
        },
        None => HooksBase::Default,
    }
}

/// Whether a file of the given mode may be executed by someone.
pub fn is_executable(mode: u32) -> (r: bool)
    ensures
        r == (mode & 0o111 != 0),
{
    mode & 0o111 != 0
}

/// Whether a hook is run: where its script is a file that may be executed.
pub fn hook_runs(is_file: bool, mode: u32) -> (r: bool)
    ensures
        r == (is_file && (mode & 0o111 != 0)),
{
    is_file && is_executable(mode)
}

} // verus!
