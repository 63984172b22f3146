//! Building the command line that a session's shell runs.
//!
//! A spawned session always runs the caller's shell with `-c` and a command
//! string of the form `cd <cwd> && exec <command>`; the working directory and
//! every argument are quoted so the shell cannot misparse them. The quoting
//! is the usual POSIX single-quote scheme: a word of safe characters is left
//! alone, anything else is wrapped in single quotes with `'` and `!` escaped.

use vstd::prelude::*;
use vstd::string::StrSliceExecFns;
use vstd::string::StringExecFns;
use crate::strutil::push_char;

verus! {

/// Characters that never need quoting in a POSIX shell word.
pub open spec fn is_safe_char(c: char) -> bool {
    ('a' as u32 <= c as u32 && c as u32 <= 'z' as u32) || ('A' as u32 <= c as u32 && c as u32
        <= 'Z' as u32) || ('0' as u32 <= c as u32 && c as u32 <= '9' as u32) || c == '-' || c == '_'
        || c == '=' || c == '/' || c == ',' || c == '.' || c == '+'
}

pub open spec fn all_safe(s: Seq<char>) -> bool {
    forall|i: int| 0 <= i < s.len() ==> is_safe_char(s[i])
}

/// How one character appears inside a single-quoted word.
pub open spec fn quoted_char(c: char) -> Seq<char> {
    if c == '\'' || c == '!' {
        seq!['\'', '\\', c, '\'']
    } else {
        seq![c]
    }
}

pub open spec fn quoted_body(s: Seq<char>) -> Seq<char>
    decreases s.len(),
{
    if s.len() == 0 {
        Seq::empty()
    } else {
        quoted_char(s[0]) + quoted_body(s.skip(1))
    }
}

/// A string as the shell receives it: unchanged when it is a non-empty safe
/// word, otherwise wrapped in single quotes.
pub open spec fn shell_escaped(s: Seq<char>) -> Seq<char> {
    if s.len() > 0 && all_safe(s) {
        s
    } else {
        seq!['\''] + quoted_body(s) + seq!['\'']
    }
}

proof fn lemma_quoted_body_push(s: Seq<char>, c: char)
    ensures
        quoted_body(s.push(c)) == quoted_body(s) + quoted_char(c),
    decreases s.len(),
{
    if s.len() == 0 {
        assert(s.push(c)[0] == c);
        assert(s.push(c).skip(1) =~= Seq::<char>::empty());
        assert(quoted_body(s.push(c)) == quoted_char(s.push(c)[0]) + quoted_body(
            s.push(c).skip(1),
        ));
        assert(quoted_body(Seq::<char>::empty()) == Seq::<char>::empty());
        assert(quoted_body(s.push(c)) =~= quoted_char(c));
        assert(quoted_body(s) + quoted_char(c) =~= quoted_char(c));
    } else {
        assert(s.push(c).skip(1) =~= s.skip(1).push(c));
        lemma_quoted_body_push(s.skip(1), c);
        assert(s.push(c)[0] == s[0]);
        assert(quoted_body(s.push(c)) == quoted_char(s[0]) + (quoted_body(s.skip(1)) + quoted_char(
            c,
        )));
        assert(quoted_char(s[0]) + (quoted_body(s.skip(1)) + quoted_char(c)) =~= (quoted_char(s[0])
            + quoted_body(s.skip(1))) + quoted_char(c));
    }
}

fn char_is_safe(c: char) -> (r: bool)
    ensures
        r == is_safe_char(c),
{
    let u = c as u32;
    (97 <= u && u <= 122) || (65 <= u && u <= 90) || (48 <= u && u <= 57) || c == '-' || c == '_'
        || c == '=' || c == '/' || c == ',' || c == '.' || c == '+'
}

/// Quote one word for the shell; the result is exactly [`shell_escaped`].
pub fn shell_quote(s: &str) -> (r: String)
    ensures
        r@ == shell_escaped(s@),
{
    let n = s.unicode_len();
    let mut safe = n > 0;
    let mut i: usize = 0;
    while i < n
        invariant
            n == s@.len(),
            i <= n,
            safe == (n > 0 && (forall|j: int| 0 <= j < i ==> is_safe_char(s@[j]))),
        decreases n - i,
    {
        if !char_is_safe(s.get_char(i)) {
            safe = false;
        }
        i += 1;
    }
    if safe {
        return s.to_owned();
    }
    let mut out = String::new();
    push_char(&mut out, '\'');
    let mut i: usize = 0;
    while i < n
        invariant
            n == s@.len(),
            i <= n,
            out@ == seq!['\''] + quoted_body(s@.subrange(0, i as int)),
        decreases n - i,
    {
        let c = s.get_char(i);
        if c == '\'' || c == '!' {
            push_char(&mut out, '\'');
            push_char(&mut out, '\\');
            push_char(&mut out, c);
            push_char(&mut out, '\'');
        } else {
            push_char(&mut out, c);
        }
        proof {
            assert(s@.subrange(0, i + 1) =~= s@.subrange(0, i as int).push(s@[i as int]));
            lemma_quoted_body_push(s@.subrange(0, i as int), s@[i as int]);
            assert(out@ =~= seq!['\''] + quoted_body(s@.subrange(0, i + 1)));
        }
        i += 1;
    }
    push_char(&mut out, '\'');
    proof {
        assert(s@.subrange(0, n as int) =~= s@);
        assert(out@ =~= seq!['\''] + quoted_body(s@) + seq!['\'']);
    }
    out
}

/// The command's arguments, each quoted, joined with single spaces.
pub open spec fn escaped_args(cmd: Seq<Seq<char>>) -> Seq<char>
    decreases cmd.len(),
{
    if cmd.len() == 0 {
        Seq::empty()
    } else if cmd.len() == 1 {
        shell_escaped(cmd[0])
    } else {
        shell_escaped(cmd[0]) + seq![' '] + escaped_args(cmd.skip(1))
    }
}

pub open spec fn views_of(v: Seq<String>) -> Seq<Seq<char>> {
    v.map_values(|s: String| s@)
}

/// The full string handed to `shell -c`: change to the working directory,
/// then replace the shell with the command, or with the caller's `$SHELL`
/// when no command was given.
pub open spec fn command_line(cwd: Seq<char>, cmd: Seq<Seq<char>>) -> Seq<char> {
    if cmd.len() == 0 {
        "cd "@ + shell_escaped(cwd) + " && exec $SHELL"@
    } else {
        "cd "@ + shell_escaped(cwd) + " && exec "@ + escaped_args(cmd)
    }
}

proof fn lemma_escaped_args_push(v: Seq<Seq<char>>, x: Seq<char>)
    requires
        v.len() >= 1,
    ensures
        escaped_args(v.push(x)) == escaped_args(v) + seq![' '] + shell_escaped(x),
    decreases v.len(),
{
    if v.len() == 1 {
        assert(v.push(x).skip(1) =~= seq![x]);
        assert(escaped_args(seq![x]) == shell_escaped(x));
        assert(v.push(x)[0] == v[0]);
        assert(escaped_args(v.push(x)) == shell_escaped(v[0]) + seq![' '] + shell_escaped(x));
    } else {
        assert(v.push(x).skip(1) =~= v.skip(1).push(x));
        lemma_escaped_args_push(v.skip(1), x);
        assert(v.push(x)[0] == v[0]);
        assert(escaped_args(v.push(x)) == shell_escaped(v[0]) + seq![' '] + (escaped_args(v.skip(1))
            + seq![' '] + shell_escaped(x)));
        assert(shell_escaped(v[0]) + seq![' '] + (escaped_args(v.skip(1)) + seq![' ']
            + shell_escaped(x)) =~= (shell_escaped(v[0]) + seq![' '] + escaped_args(v.skip(1)))
            + seq![' '] + shell_escaped(x));
    }
}

/// Join the quoted arguments with spaces; exactly [`escaped_args`].
fn join_quoted(command: &Vec<String>) -> (r: String)
    ensures
        r@ == escaped_args(views_of(command@)),
{
    let ghost views = views_of(command@);
    let mut out = String::new();
    let n = command.len();
    let mut i: usize = 0;
    while i < n
        invariant
            n == command@.len(),
            views == views_of(command@),
            views.len() == n,
            i <= n,
            out@ == escaped_args(views.subrange(0, i as int)),
        decreases n - i,
    {
        if i > 0 {
            push_char(&mut out, ' ');
        }
        let q = shell_quote(command[i].as_str());
        out.append(q.as_str());
        proof {
            assert(views.subrange(0, i + 1) =~= views.subrange(0, i as int).push(views[i as int]));
            assert(views[i as int] == command@[i as int]@);
            if i == 0 {
                assert(escaped_args(views.subrange(0, 1)) == shell_escaped(views[0]));
            } else {
                lemma_escaped_args_push(views.subrange(0, i as int), views[i as int]);
            }
            assert(out@ =~= escaped_args(views.subrange(0, i + 1)));
        }
        i += 1;
    }
    proof {
        assert(views.subrange(0, n as int) =~= views);
    }
    out
}

/// Build the string run by `shell -c` for a session: exactly
/// [`command_line`] over the views of the working directory and arguments.
pub fn build_command(cwd: &str, command: &Vec<String>) -> (r: String)
    ensures
        r@ == command_line(cwd@, views_of(command@)),
{
    let mut out = String::from_str("cd ");
    let q = shell_quote(cwd);
    out.append(q.as_str());
    if command.len() == 0 {
        out.append(" && exec $SHELL");
        proof {
            assert(out@ =~= "cd "@ + shell_escaped(cwd@) + " && exec $SHELL"@);
        }
    } else {
        out.append(" && exec ");
        let args = join_quoted(command);
        out.append(args.as_str());
        proof {
            assert(views_of(command@).len() == command@.len());
            assert(out@ =~= "cd "@ + shell_escaped(cwd@) + " && exec "@ + escaped_args(
                views_of(command@),
            ));
        }
    }
    out
}

}
