//! Composing the one shell command line that launches the detached child.
//!
//! The line has the shape
//! `cat <input> | [NAME=<value> ...] nohup <exe> [<args> ...] >> <output> 2>&1 & echo $!`:
//! the input file is piped into the binary, the child is backgrounded
//! immune to hangups with both output streams appended to the output file,
//! and the backgrounded identifier is echoed for the parent to read. Every
//! path, argument and override value is routed through the escaping
//! function; environment overrides stand after the pipe so they apply to
//! the binary, not to the pipe's first stage.

use crate::errors::SpawnError;
use crate::escape::escape_seq;
use crate::escape::shell_escape;
use vstd::prelude::*;
use vstd::string::StringExecFns;

verus! {

/// The argument tokens: one separating blank and the escaped argument, for
/// each argument in order; empty when there are none.
pub open spec fn args_part(args: Seq<String>) -> Seq<char>
    decreases args.len(),
{
    if args.len() == 0 {
        Seq::empty()
    } else {
        seq![' '] + escape_seq(args[0]@) + args_part(args.drop_first())
    }
}

/// The environment-override tokens: the name, `=`, the escaped value and
/// one trailing blank, for each override in order; empty when there are
/// none. The name is not escaped: it stands left of `=` where quoting
/// would change its meaning.
pub open spec fn envs_part(envs: Seq<(String, String)>) -> Seq<char>
    decreases envs.len(),
{
    if envs.len() == 0 {
        Seq::empty()
    } else {
        envs[0].0@ + seq!['='] + escape_seq(envs[0].1@) + seq![' '] + envs_part(envs.drop_first())
    }
}

/// The whole composed command line.
pub open spec fn composed_command(
    exe: Seq<char>,
    args: Seq<String>,
    input: Seq<char>,
    output: Seq<char>,
    envs: Seq<(String, String)>,
) -> Seq<char> {
    "cat "@ + escape_seq(input) + " | "@ + envs_part(envs) + "nohup "@ + escape_seq(exe)
        + args_part(args) + " >> "@ + escape_seq(output) + " 2>&1 & echo $!"@
}

/// Splitting the argument list anywhere splits its tokens at the same
/// place.
proof fn lemma_args_part_concat(a: Seq<String>, b: Seq<String>)
    ensures
        args_part(a + b) == args_part(a) + args_part(b),
    decreases a.len(),
{
    if a.len() == 0 {
        assert(a + b =~= b);
        assert(args_part(a) + args_part(b) =~= args_part(b));
    } else {
        assert((a + b).drop_first() =~= a.drop_first() + b);
        lemma_args_part_concat(a.drop_first(), b);
        assert(args_part(a + b) =~= seq![' '] + escape_seq(a[0]@) + (args_part(a.drop_first())
            + args_part(b)));
        assert(args_part(a) + args_part(b) =~= seq![' '] + escape_seq(a[0]@) + (args_part(
            a.drop_first(),
        ) + args_part(b)));
    }
}

/// Splitting the override list anywhere splits its tokens at the same
/// place.
proof fn lemma_envs_part_concat(a: Seq<(String, String)>, b: Seq<(String, String)>)
    ensures
        envs_part(a + b) == envs_part(a) + envs_part(b),
    decreases a.len(),
{
    if a.len() == 0 {
        assert(a + b =~= b);
        assert(envs_part(a) + envs_part(b) =~= envs_part(b));
    } else {
        assert((a + b).drop_first() =~= a.drop_first() + b);
        lemma_envs_part_concat(a.drop_first(), b);
        assert(envs_part(a + b) =~= a[0].0@ + seq!['='] + escape_seq(a[0].1@) + seq![' ']
            + (envs_part(a.drop_first()) + envs_part(b)));
        assert(envs_part(a) + envs_part(b) =~= a[0].0@ + seq!['='] + escape_seq(a[0].1@)
            + seq![' '] + (envs_part(a.drop_first()) + envs_part(b)));
    }
}

/// With no arguments and no overrides the composed line is exactly the
/// bare pipeline: no stray separators and no empty tokens appear.
pub proof fn lemma_compose_empty(exe: Seq<char>, input: Seq<char>, output: Seq<char>)
    ensures
        composed_command(exe, Seq::empty(), input, output, Seq::empty()) == "cat "@ + escape_seq(
            input,
        ) + " | "@ + "nohup "@ + escape_seq(exe) + " >> "@ + escape_seq(output)
            + " 2>&1 & echo $!"@,
{
    assert(args_part(Seq::empty()) =~= Seq::<char>::empty());
    assert(envs_part(Seq::empty()) =~= Seq::<char>::empty());
    assert(composed_command(exe, Seq::empty(), input, output, Seq::empty()) =~= "cat "@
        + escape_seq(input) + " | "@ + "nohup "@ + escape_seq(exe) + " >> "@ + escape_seq(output)
        + " 2>&1 & echo $!"@);
}

/// Build the composed command line for the given executable, arguments,
/// input and output files and environment overrides.
pub fn compose_command(
    exe: &str,
    args: &Vec<String>,
    input: &str,
    output: &str,
    envs: &Vec<(String, String)>,
) -> (r: String)
    ensures
        r@ == composed_command(exe@, args@, input@, output@, envs@),
{
    let mut out = String::new();
    out.append("cat ");
    let escaped_input = shell_escape(input);
    out.append(escaped_input.as_str());
    out.append(" | ");
    proof {
        assert(envs@.take(0) =~= Seq::<(String, String)>::empty());
        assert(envs_part(envs@.take(0)) =~= Seq::<char>::empty());
        assert(out@ =~= "cat "@ + escape_seq(input@) + " | "@ + envs_part(envs@.take(0)));
    }
    let mut i: usize = 0;
    while i < envs.len()
        invariant
            0 <= i <= envs@.len(),
            out@ == "cat "@ + escape_seq(input@) + " | "@ + envs_part(envs@.take(i as int)),
        decreases envs@.len() - i,
    {
        let pair = &envs[i];
        out.append(pair.0.as_str());
        out.append("=");
        let escaped_value = shell_escape(pair.1.as_str());
        out.append(escaped_value.as_str());
        out.append(" ");
        proof {
            reveal_strlit("=");
            reveal_strlit(" ");
            let one = seq![envs@[i as int]];
            assert(envs@.take(i as int + 1) =~= envs@.take(i as int) + one);
            lemma_envs_part_concat(envs@.take(i as int), one);
            assert(one.drop_first() =~= Seq::<(String, String)>::empty());
            assert(envs_part(one.drop_first()) =~= Seq::<char>::empty());
            assert(envs_part(one) =~= envs@[i as int].0@ + seq!['='] + escape_seq(
                envs@[i as int].1@,
            ) + seq![' ']);
            assert(out@ =~= "cat "@ + escape_seq(input@) + " | "@ + envs_part(
                envs@.take(i as int + 1),
            ));
        }
        i = i + 1;
    }
    proof {
        assert(envs@.take(envs@.len() as int) =~= envs@);
    }
    out.append("nohup ");
    let escaped_exe = shell_escape(exe);
    out.append(escaped_exe.as_str());
    proof {
        assert(args@.take(0) =~= Seq::<String>::empty());
        assert(args_part(args@.take(0)) =~= Seq::<char>::empty());
        assert(out@ =~= "cat "@ + escape_seq(input@) + " | "@ + envs_part(envs@) + "nohup "@
            + escape_seq(exe@) + args_part(args@.take(0)));
    }
    let mut k: usize = 0;
    while k < args.len()
        invariant
            0 <= k <= args@.len(),
            out@ == "cat "@ + escape_seq(input@) + " | "@ + envs_part(envs@) + "nohup "@
                + escape_seq(exe@) + args_part(args@.take(k as int)),
        decreases args@.len() - k,
    {
        out.append(" ");
        let escaped_arg = shell_escape(args[k].as_str());
        out.append(escaped_arg.as_str());
        proof {
            reveal_strlit(" ");
            let one = seq![args@[k as int]];
            assert(args@.take(k as int + 1) =~= args@.take(k as int) + one);
            lemma_args_part_concat(args@.take(k as int), one);
            assert(one.drop_first() =~= Seq::<String>::empty());
            assert(args_part(one.drop_first()) =~= Seq::<char>::empty());
            assert(args_part(one) =~= seq![' '] + escape_seq(args@[k as int]@));
            assert(out@ =~= "cat "@ + escape_seq(input@) + " | "@ + envs_part(envs@) + "nohup "@
                + escape_seq(exe@) + args_part(args@.take(k as int + 1)));
        }
        k = k + 1;
    }
    proof {
        assert(args@.take(args@.len() as int) =~= args@);
    }
    out.append(" >> ");
    let escaped_output = shell_escape(output);
    out.append(escaped_output.as_str());
    out.append(" 2>&1 & echo $!");
    proof {
        assert(out@ =~= composed_command(exe@, args@, input@, output@, envs@));
    }
    out
}

/// Compose the command line after checking that the three paths were valid
/// text: a path the system could not hand over as text is rejected as
/// [`SpawnError::InvalidPath`], exactly when one of the three is absent.
pub fn compose_spawn_command(
    exe: Option<&str>,
    args: &Vec<String>,
    input: Option<&str>,
    output: Option<&str>,
    envs: &Vec<(String, String)>,
) -> (r: Result<String, SpawnError>)
    ensures
        match r {
            Ok(cmd) => exe is Some && input is Some && output is Some && cmd@ == composed_command(
                exe->0@,
                args@,
                input->0@,
                output->0@,
                envs@,
            ),
            Err(e) => e is InvalidPath && (exe is None || input is None || output is None),
        },
{
    match (exe, input, output) {
        (Some(e), Some(inp), Some(outp)) => Ok(compose_command(e, args, inp, outp, envs)),
        _ => Err(SpawnError::InvalidPath),
    }
}

} // verus!
