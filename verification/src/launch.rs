//! Building the full launch command for a detached agent run.
//!
//! The command feeds the input file to the binary through a pipe (the
//! streaming mode of the supported CLIs only accepts piped standard input),
//! appends both output streams to the log file, backgrounds the process, and
//! echoes its process identifier. Environment assignments stand after the
//! pipe so they scope to the launched binary, not to the upstream stage.
//! A bridge variant builds the inner command run inside an OS-virtualization
//! layer, with host paths translated to the bridge's path syntax.

use vstd::prelude::*;
use crate::escape::{escaped_joined, shell_escape, shell_escaped};
use crate::strutil::{all_digits, dec_val, parse_u32, push_char, trim, trimmed};
use vstd::string::StringExecFns;

verus! {

/// One environment assignment as it stands in the command: `KEY='value'`.
pub open spec fn env_export(k: Seq<char>, v: Seq<char>) -> Seq<char> {
    k + seq!['='] + shell_escaped(v)
}

/// The assignments joined by single spaces.
pub open spec fn env_exports_joined(env: Seq<(Seq<char>, Seq<char>)>) -> Seq<char>
    decreases env.len(),
{
    if env.len() == 0 {
        Seq::empty()
    } else if env.len() == 1 {
        env_export(env[0].0, env[0].1)
    } else {
        env_export(env[0].0, env[0].1) + seq![' '] + env_exports_joined(env.drop_first())
    }
}

/// The native launch command:
/// `cat IN | [ENV] nohup BIN ARGS >> OUT 2>&1 & echo $!`.
pub open spec fn launch_command(
    cli: Seq<char>,
    args: Seq<Seq<char>>,
    input: Seq<char>,
    output: Seq<char>,
    env: Seq<(Seq<char>, Seq<char>)>,
) -> Seq<char> {
    "cat "@ + shell_escaped(input) + " | "@ + (if env.len() > 0 {
        env_exports_joined(env) + seq![' ']
    } else {
        Seq::<char>::empty()
    }) + "nohup "@ + shell_escaped(cli) + seq![' '] + escaped_joined(args) + " >> "@
        + shell_escaped(output) + " 2>&1 & echo $!"@
}

/// The command run inside the bridge:
/// `cd WD && cat IN | [ENV] BIN ARGS >> OUT 2>&1`.
/// Detachment (`nohup`) is applied by the bridge invocation around it.
pub open spec fn bridge_command(
    working_dir: Seq<char>,
    cli: Seq<char>,
    args: Seq<Seq<char>>,
    input: Seq<char>,
    output: Seq<char>,
    env: Seq<(Seq<char>, Seq<char>)>,
) -> Seq<char> {
    "cd "@ + shell_escaped(working_dir) + " && cat "@ + shell_escaped(input) + " | "@ + (if env.len()
        > 0 {
        env_exports_joined(env) + seq![' ']
    } else {
        Seq::<char>::empty()
    }) + shell_escaped(cli) + seq![' '] + escaped_joined(args) + " >> "@ + shell_escaped(output)
        + " 2>&1"@
}

proof fn lemma_escaped_joined_push(a: Seq<Seq<char>>, x: Seq<char>)
    ensures
        escaped_joined(a.push(x)) == if a.len() == 0 {
            shell_escaped(x)
        } else {
            escaped_joined(a) + seq![' '] + shell_escaped(x)
        },
    decreases a.len(),
{
    let p = a.push(x);
    if a.len() == 0 {
        assert(p.len() == 1);
        assert(p[0] == x);
    } else {
        assert(p.len() >= 2);
        assert(p[0] == a[0]);
        assert(p.drop_first() =~= a.drop_first().push(x));
        lemma_escaped_joined_push(a.drop_first(), x);
        if a.len() == 1 {
            assert(escaped_joined(p) =~= escaped_joined(a) + seq![' '] + shell_escaped(x));
        } else {
            assert(escaped_joined(p) =~= escaped_joined(a) + seq![' '] + shell_escaped(x));
        }
    }
}

proof fn lemma_env_joined_push(a: Seq<(Seq<char>, Seq<char>)>, x: (Seq<char>, Seq<char>))
    ensures
        env_exports_joined(a.push(x)) == if a.len() == 0 {
            env_export(x.0, x.1)
        } else {
            env_exports_joined(a) + seq![' '] + env_export(x.0, x.1)
        },
    decreases a.len(),
{
    let p = a.push(x);
    if a.len() == 0 {
        assert(p.len() == 1);
        assert(p[0] == x);
        assert((p[0].0, p[0].1) =~= x);
    } else {
        assert(p.len() >= 2);
        assert(p[0] == a[0]);
        assert(p.drop_first() =~= a.drop_first().push(x));
        lemma_env_joined_push(a.drop_first(), x);
        assert(env_exports_joined(p) =~= if a.len() == 1 {
            env_export(a[0].0, a[0].1) + seq![' '] + env_export(x.0, x.1)
        } else {
            env_exports_joined(a) + seq![' '] + env_export(x.0, x.1)
        });
    }
}

/// The escaped argument list, tokens separated by one space.
fn join_escaped_args(args: &Vec<String>) -> (r: String)
    ensures
        r@ == escaped_joined(args.deep_view()),
{
    let mut out = String::new();
    let mut i: usize = 0;
    while i < args.len()
        invariant
            i <= args@.len(),
            out@ == escaped_joined(args.deep_view().take(i as int)),
        decreases args@.len() - i,
    {
        proof {
            lemma_escaped_joined_push(args.deep_view().take(i as int), args@[i as int]@);
            assert(args.deep_view().take(i + 1) =~= args.deep_view().take(i as int).push(
                args.deep_view()[i as int],
            ));
        }
        if i > 0 {
            push_char(&mut out, ' ');
        }
        let e = shell_escape(args[i].as_str());
        out.append(e.as_str());
        i = i + 1;
    }
    proof {
        assert(args.deep_view().take(args@.len() as int) =~= args.deep_view());
    }
    out
}

/// The environment assignments, joined by one space.
fn join_env_exports(env: &Vec<(String, String)>) -> (r: String)
    ensures
        r@ == env_exports_joined(env.deep_view()),
{
    let mut out = String::new();
    let mut i: usize = 0;
    while i < env.len()
        invariant
            i <= env@.len(),
            out@ == env_exports_joined(env.deep_view().take(i as int)),
        decreases env@.len() - i,
    {
        proof {
            lemma_env_joined_push(env.deep_view().take(i as int), env.deep_view()[i as int]);
            assert(env.deep_view().take(i + 1) =~= env.deep_view().take(i as int).push(
                env.deep_view()[i as int],
            ));
        }
        if i > 0 {
            push_char(&mut out, ' ');
        }
        out.append(env[i].0.as_str());
        push_char(&mut out, '=');
        let e = shell_escape(env[i].1.as_str());
        out.append(e.as_str());
        proof {
            assert(out@ =~= env_exports_joined(env.deep_view().take(i + 1)));
        }
        i = i + 1;
    }
    proof {
        assert(env.deep_view().take(env@.len() as int) =~= env.deep_view());
    }
    out
}

/// The shell command that launches the binary detached on the native OS.
pub fn build_launch_command(
    cli_path: &str,
    args: &Vec<String>,
    input_file: &str,
    output_file: &str,
    env_vars: &Vec<(String, String)>,
) -> (r: String)
    ensures
        r@ == launch_command(
            cli_path@,
            args.deep_view(),
            input_file@,
            output_file@,
            env_vars.deep_view(),
        ),
{
    let mut out = String::new();
    out.append("cat ");
    let e_in = shell_escape(input_file);
    out.append(e_in.as_str());
    out.append(" | ");
    if env_vars.len() > 0 {
        let ex = join_env_exports(env_vars);
        out.append(ex.as_str());
        push_char(&mut out, ' ');
    }
    out.append("nohup ");
    let e_cli = shell_escape(cli_path);
    out.append(e_cli.as_str());
    push_char(&mut out, ' ');
    let a = join_escaped_args(args);
    out.append(a.as_str());
    out.append(" >> ");
    let e_out = shell_escape(output_file);
    out.append(e_out.as_str());
    out.append(" 2>&1 & echo $!");
    proof {
        assert(out@ =~= launch_command(
            cli_path@,
            args.deep_view(),
            input_file@,
            output_file@,
            env_vars.deep_view(),
        ));
    }
    out
}

/// The command run inside the bridge environment; paths must already be in
/// the bridge's syntax.
pub fn build_bridge_command(
    working_dir: &str,
    cli_path: &str,
    args: &Vec<String>,
    input_file: &str,
    output_file: &str,
    env_vars: &Vec<(String, String)>,
) -> (r: String)
    ensures
        r@ == bridge_command(
            working_dir@,
            cli_path@,
            args.deep_view(),
            input_file@,
            output_file@,
            env_vars.deep_view(),
        ),
{
    let mut out = String::new();
    out.append("cd ");
    let e_wd = shell_escape(working_dir);
    out.append(e_wd.as_str());
    out.append(" && cat ");
    let e_in = shell_escape(input_file);
    out.append(e_in.as_str());
    out.append(" | ");
    if env_vars.len() > 0 {
        let ex = join_env_exports(env_vars);
        out.append(ex.as_str());
        push_char(&mut out, ' ');
    }
    let e_cli = shell_escape(cli_path);
    out.append(e_cli.as_str());
    push_char(&mut out, ' ');
    let a = join_escaped_args(args);
    out.append(a.as_str());
    out.append(" >> ");
    let e_out = shell_escape(output_file);
    out.append(e_out.as_str());
    out.append(" 2>&1");
    proof {
        assert(out@ =~= bridge_command(
            working_dir@,
            cli_path@,
            args.deep_view(),
            input_file@,
            output_file@,
            env_vars.deep_view(),
        ));
    }
    out
}

/// A backslash as the bridge's path separator; everything else unchanged.
pub open spec fn bridge_slash(c: char) -> char {
    if c == '\\' {
        '/'
    } else {
        c
    }
}

pub open spec fn is_drive_letter(c: char) -> bool {
    (65 <= c as u32 && c as u32 <= 90) || (97 <= c as u32 && c as u32 <= 122)
}

/// An upper-case ASCII drive letter, lowered; other characters unchanged.
pub open spec fn drive_lower(c: char) -> char {
    if c == 'A' { 'a' } else if c == 'B' { 'b' } else if c == 'C' { 'c' }
    else if c == 'D' { 'd' } else if c == 'E' { 'e' } else if c == 'F' { 'f' }
    else if c == 'G' { 'g' } else if c == 'H' { 'h' } else if c == 'I' { 'i' }
    else if c == 'J' { 'j' } else if c == 'K' { 'k' } else if c == 'L' { 'l' }
    else if c == 'M' { 'm' } else if c == 'N' { 'n' } else if c == 'O' { 'o' }
    else if c == 'P' { 'p' } else if c == 'Q' { 'q' } else if c == 'R' { 'r' }
    else if c == 'S' { 's' } else if c == 'T' { 't' } else if c == 'U' { 'u' }
    else if c == 'V' { 'v' } else if c == 'W' { 'w' } else if c == 'X' { 'x' }
    else if c == 'Y' { 'y' } else if c == 'Z' { 'z' } else { c }
}

/// A host path in the bridge's syntax: a drive-letter prefix `X:` becomes
/// `/mnt/x`, and every backslash becomes a forward slash.
pub open spec fn bridge_path(s: Seq<char>) -> Seq<char> {
    if s.len() >= 2 && is_drive_letter(s[0]) && s[1] == ':' {
        "/mnt/"@ + seq![drive_lower(s[0])] + s.skip(2).map_values(|c: char| bridge_slash(c))
    } else {
        s.map_values(|c: char| bridge_slash(c))
    }
}

fn drive_lower_exec(c: char) -> (r: char)
    ensures
        r == drive_lower(c),
{
    if c == 'A' { 'a' } else if c == 'B' { 'b' } else if c == 'C' { 'c' }
    else if c == 'D' { 'd' } else if c == 'E' { 'e' } else if c == 'F' { 'f' }
    else if c == 'G' { 'g' } else if c == 'H' { 'h' } else if c == 'I' { 'i' }
    else if c == 'J' { 'j' } else if c == 'K' { 'k' } else if c == 'L' { 'l' }
    else if c == 'M' { 'm' } else if c == 'N' { 'n' } else if c == 'O' { 'o' }
    else if c == 'P' { 'p' } else if c == 'Q' { 'q' } else if c == 'R' { 'r' }
    else if c == 'S' { 's' } else if c == 'T' { 't' } else if c == 'U' { 'u' }
    else if c == 'V' { 'v' } else if c == 'W' { 'w' } else if c == 'X' { 'x' }
    else if c == 'Y' { 'y' } else if c == 'Z' { 'z' } else { c }
}

/// Translates a host path to the bridge's path syntax.
pub fn windows_to_wsl_path(p: &str) -> (r: String)
    ensures
        r@ == bridge_path(p@),
{
    let len = p.unicode_len();
    let mut out = String::new();
    let mut start: usize = 0;
    if len >= 2 {
        let c0 = p.get_char(0);
        let c1 = p.get_char(1);
        let u = c0 as u32;
        if ((65 <= u && u <= 90) || (97 <= u && u <= 122)) && c1 == ':' {
            out.append("/mnt/");
            push_char(&mut out, drive_lower_exec(c0));
            start = 2;
        }
    }
    let ghost prefix = out@;
    let ghost body = p@.skip(start as int);
    let mut i: usize = start;
    while i < len
        invariant
            len == p@.len(),
            start <= i <= len,
            body == p@.skip(start as int),
            out@ == prefix + body.take(i - start).map_values(|c: char| bridge_slash(c)),
        decreases len - i,
    {
        let c = p.get_char(i);
        if c == '\\' {
            push_char(&mut out, '/');
        } else {
            push_char(&mut out, c);
        }
        proof {
            assert(body.take(i + 1 - start).map_values(|c: char| bridge_slash(c)) =~= body.take(
                i - start,
            ).map_values(|c: char| bridge_slash(c)).push(bridge_slash(p@[i as int])));
            assert(out@ =~= prefix + body.take(i + 1 - start).map_values(
                |c: char| bridge_slash(c),
            ));
        }
        i = i + 1;
    }
    proof {
        assert(body.take(len - start) =~= body);
        if start == 2 {
            assert(out@ =~= bridge_path(p@));
        } else {
            assert(p@.skip(0) =~= p@);
            assert(out@ =~= bridge_path(p@));
        }
    }
    out
}

/// The process identifier echoed by the backgrounding shell, read from its
/// one line of captured output. Yields a value exactly when the trimmed
/// line is a non-empty run of decimal digits that fits a `u32`; anything
/// else is a launch failure.
pub fn parse_pid_line(s: &str) -> (r: Option<u32>)
    ensures
        r is Some <==> (trimmed(s@).len() > 0 && all_digits(trimmed(s@)) && dec_val(trimmed(s@))
            <= u32::MAX),
        r is Some ==> r->0 as nat == dec_val(trimmed(s@)),
{
    let t = trim(s);
    parse_u32(t)
}

} // verus!
