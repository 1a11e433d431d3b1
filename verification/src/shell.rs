//! Builders for the shell commands run on a remote host: single-quote
//! escaping, the `rm -rf` / `cp -r` fast paths, the batched copy that
//! joins many `cp` calls into one channel exec, and the `sh -c`
//! wrapper used by the exec command.
use vstd::prelude::*;

verus! {

use crate::strutil::push_char;
use vstd::string::StrSliceExecFns;
use vstd::string::StringExecFns;

/// One `from`/`to` pair of a batched copy or rename.
pub struct CopyOperation {
    pub from: String,
    pub to: String,
}

/// How one character is written inside single quotes: a quote closes
/// the string, emits an escaped quote, and reopens it.
pub open spec fn spec_escape_char(c: char) -> Seq<char> {
    if c == '\'' {
        seq!['\'', '\\', '\'', '\'']
    } else {
        seq![c]
    }
}

/// The single-quote escaping applied to every path that is spliced
/// into a remote command.
pub open spec fn spec_shell_escape(s: Seq<char>) -> Seq<char>
    decreases s.len(),
{
    if s.len() == 0 {
        Seq::empty()
    } else {
        spec_shell_escape(s.drop_last()) + spec_escape_char(s.last())
    }
}

/// A path wrapped in single quotes, with its own quotes escaped.
pub open spec fn spec_quoted(s: Seq<char>) -> Seq<char> {
    seq!['\''] + spec_shell_escape(s) + seq!['\'']
}

/// Escapes single quotes, as `replace("'", "'\\''")` does.
pub fn shell_escape(s: &str) -> (r: String)
    ensures
        r@ == spec_shell_escape(s@),
{
    let n = s.unicode_len();
    let mut out = String::new();
    let mut i: usize = 0;
    while i < n
        invariant
            n == s@.len(),
            0 <= i <= n,
            out@ == spec_shell_escape(s@.take(i as int)),
        decreases n - i,
    {
        let c = s.get_char(i);
        if c == '\'' {
            push_char(&mut out, '\'');
            push_char(&mut out, '\\');
            push_char(&mut out, '\'');
            push_char(&mut out, '\'');
        } else {
            push_char(&mut out, c);
        }
        proof {
            assert(s@.take(i as int + 1).drop_last() =~= s@.take(i as int));
            assert(s@.take(i as int + 1).last() == s@[i as int]);
            assert(out@ =~= spec_shell_escape(s@.take(i as int)) + spec_escape_char(s@[i as int]));
        }
        i = i + 1;
    }
    proof {
        assert(s@.take(n as int) =~= s@);
    }
    out
}

/// Wraps a path in single quotes for splicing into a remote command.
pub fn quote_arg(s: &str) -> (r: String)
    ensures
        r@ == spec_quoted(s@),
{
    let mut out = String::new();
    push_char(&mut out, '\'');
    let esc = shell_escape(s);
    out.append(esc.as_str());
    push_char(&mut out, '\'');
    proof {
        assert(out@ =~= spec_quoted(s@));
    }
    out
}

/// The server-side recursive delete command for one path.
pub open spec fn spec_rm_command(path: Seq<char>) -> Seq<char> {
    seq!['r', 'm', ' ', '-', 'r', 'f', ' '] + spec_quoted(path)
}

/// Builds `rm -rf '<path>'` for the server-side delete fast path.
pub fn rm_command(path: &str) -> (r: String)
    ensures
        r@ == spec_rm_command(path@),
{
    proof {
        reveal_strlit("rm -rf ");
        assert("rm -rf "@ =~= seq!['r', 'm', ' ', '-', 'r', 'f', ' ']);
    }
    let mut out = "rm -rf ".to_owned();
    let q = quote_arg(path);
    out.append(q.as_str());
    proof {
        assert(out@ =~= spec_rm_command(path@));
    }
    out
}

/// The server-side recursive copy command for one pair of paths.
pub open spec fn spec_cp_command(from: Seq<char>, to: Seq<char>) -> Seq<char> {
    seq!['c', 'p', ' ', '-', 'r', ' '] + spec_quoted(from) + seq![' '] + spec_quoted(to)
}

/// Builds `cp -r '<from>' '<to>'` for the server-side copy fast path.
pub fn cp_command(from: &str, to: &str) -> (r: String)
    ensures
        r@ == spec_cp_command(from@, to@),
{
    proof {
        reveal_strlit("cp -r ");
        assert("cp -r "@ =~= seq!['c', 'p', ' ', '-', 'r', ' ']);
    }
    let mut out = "cp -r ".to_owned();
    let qf = quote_arg(from);
    out.append(qf.as_str());
    push_char(&mut out, ' ');
    let qt = quote_arg(to);
    out.append(qt.as_str());
    proof {
        assert(out@ =~= spec_cp_command(from@, to@));
    }
    out
}

/// The batched copy command: every pair's `cp -r`, joined by `; ` so
/// one channel exec covers them all.
pub open spec fn spec_cp_batch(ops: Seq<CopyOperation>) -> Seq<char>
    decreases ops.len(),
{
    if ops.len() == 0 {
        Seq::empty()
    } else if ops.len() == 1 {
        spec_cp_command(ops[0].from@, ops[0].to@)
    } else {
        spec_cp_batch(ops.drop_last()) + seq![';', ' '] + spec_cp_command(
            ops.last().from@,
            ops.last().to@,
        )
    }
}

/// Builds the batched `cp -r 'a' 'b'; cp -r 'c' 'd'; ...` command.
pub fn cp_batch_command(ops: &Vec<CopyOperation>) -> (r: String)
    ensures
        r@ == spec_cp_batch(ops@),
{
    let n = ops.len();
    let mut out = String::new();
    let mut i: usize = 0;
    while i < n
        invariant
            n == ops@.len(),
            0 <= i <= n,
            out@ == spec_cp_batch(ops@.take(i as int)),
        decreases n - i,
    {
        if i > 0 {
            push_char(&mut out, ';');
            push_char(&mut out, ' ');
        }
        let cmd = cp_command(ops[i].from.as_str(), ops[i].to.as_str());
        out.append(cmd.as_str());
        proof {
            assert(ops@.take(i as int + 1).drop_last() =~= ops@.take(i as int));
            assert(ops@.take(i as int + 1).last() == ops@[i as int]);
            if i > 0 {
                assert(out@ =~= spec_cp_batch(ops@.take(i as int)) + seq![';', ' ']
                    + spec_cp_command(ops@[i as int].from@, ops@[i as int].to@));
            } else {
                assert(out@ =~= spec_cp_command(ops@[0].from@, ops@[0].to@));
            }
        }
        i = i + 1;
    }
    proof {
        assert(ops@.take(n as int) =~= ops@);
    }
    out
}

/// The shell chosen for a local terminal, with its arguments and
/// whether an interactive flag still has to be appended.
pub struct ShellChoice {
    pub program: String,
    pub args: Vec<String>,
    pub add_interactive_flag: bool,
}

/// Whether the interactive `-i` flag is appended after selection: it
/// is skipped when the arguments already carry it or the program is
/// one of the Windows shells that does not take it.
pub open spec fn spec_needs_interactive(program: Seq<char>, args: Seq<Seq<char>>) -> bool {
    &&& !(exists|i: int| 0 <= i < args.len() && #[trigger] args[i] == "-i"@)
    &&& !spec_contains_seq(program, "powershell"@)
    &&& !spec_contains_seq(program, "cmd.exe"@)
    &&& !spec_contains_seq(program, "wsl.exe"@)
}

use crate::strutil::spec_contains_seq;
use crate::strutil::spec_starts_with;
use crate::strutil::str_contains;
use crate::strutil::str_eq;
use crate::strutil::str_starts_with;

/// Selects the shell for a local terminal, as terminal creation does.
/// On Unix the `SHELL` environment value wins, with `/bin/bash` as
/// default. On Windows the override picks `cmd.exe`, Git Bash (at the
/// probed path when one was found), `wsl.exe` — with a distribution
/// after a `wsl:` prefix — `powershell.exe` for `powershell`,
/// `default` or no override, or is taken as a program itself.
pub fn choose_local_shell(
    windows: bool,
    shell_override: Option<&str>,
    env_shell: Option<&str>,
    git_bash_path: Option<&str>,
) -> (r: ShellChoice)
    ensures
        r.add_interactive_flag == spec_needs_interactive(
            r.program@,
            r.args@.map_values(|a: String| a@),
        ),
        !windows ==> {
            &&& r.program@ == (match env_shell {
                Some(s) => s@,
                None => "/bin/bash"@,
            })
            &&& r.args@.len() == 0
        },
        windows ==> {
            let args = r.args@.map_values(|a: String| a@);
            match shell_override {
                None => r.program@ == "powershell.exe"@ && args.len() == 0,
                Some(ov) => {
                    if ov@ == "cmd"@ {
                        r.program@ == "cmd.exe"@ && args.len() == 0
                    } else if ov@ == "gitbash"@ {
                        &&& r.program@ == (match git_bash_path {
                            Some(p) => p@,
                            None => "bash.exe"@,
                        })
                        &&& args == seq!["--login"@, "-i"@]
                    } else if ov@ == "wsl"@ {
                        r.program@ == "wsl.exe"@ && args.len() == 0
                    } else if spec_starts_with(ov@, "wsl:"@) {
                        r.program@ == "wsl.exe"@ && args == seq![
                            "-d"@,
                            ov@.skip(4),
                        ]
                    } else if ov@ == "powershell"@ || ov@ == "default"@ {
                        r.program@ == "powershell.exe"@ && args.len() == 0
                    } else {
                        r.program@ == ov@ && args.len() == 0
                    }
                },
            }
        },
{
    let mut program: String;
    let mut args: Vec<String> = Vec::new();
    if windows {
        match shell_override {
            None => {
                program = "powershell.exe".to_owned();
            },
            Some(ov) => {
                if str_eq(ov, "cmd") {
                    program = "cmd.exe".to_owned();
                } else if str_eq(ov, "gitbash") {
                    program = match git_bash_path {
                        Some(p) => p.to_owned(),
                        None => "bash.exe".to_owned(),
                    };
                    args.push("--login".to_owned());
                    args.push("-i".to_owned());
                    proof {
                        assert(args@.map_values(|a: String| a@) =~= seq!["--login"@, "-i"@]);
                    }
                } else if str_eq(ov, "wsl") {
                    program = "wsl.exe".to_owned();
                } else if str_starts_with(ov, "wsl:") {
                    proof {
                        reveal_strlit("wsl:");
                        assert("wsl:"@ =~= seq!['w', 's', 'l', ':']);
                    }
                    program = "wsl.exe".to_owned();
                    let n = ov.unicode_len();
                    let distro = ov.substring_char(4, n);
                    args.push("-d".to_owned());
                    args.push(distro.to_owned());
                    proof {
                        assert(args@.map_values(|a: String| a@) =~= seq!["-d"@, ov@.skip(4)]);
                    }
                } else if str_eq(ov, "powershell") || str_eq(ov, "default") {
                    program = "powershell.exe".to_owned();
                } else {
                    program = ov.to_owned();
                }
            },
        }
    } else {
        program = match env_shell {
            Some(s) => s.to_owned(),
            None => "/bin/bash".to_owned(),
        };
    }
    let mut has_i = false;
    let na = args.len();
    let mut i: usize = 0;
    while i < na
        invariant
            na == args@.len(),
            0 <= i <= na,
            has_i == (exists|j: int| 0 <= j < i && (#[trigger] args@[j])@ == "-i"@),
        decreases na - i,
    {
        if str_eq(args[i].as_str(), "-i") {
            has_i = true;
        }
        i = i + 1;
    }
    proof {
        let mapped = args@.map_values(|a: String| a@);
        if has_i {
            let j = choose|j: int| 0 <= j < args@.len() && (#[trigger] args@[j])@ == "-i"@;
            assert(mapped[j] == "-i"@);
        }
        if exists|j: int| 0 <= j < mapped.len() && #[trigger] mapped[j] == "-i"@ {
            let j = choose|j: int| 0 <= j < mapped.len() && #[trigger] mapped[j] == "-i"@;
            assert((args@[j])@ == "-i"@);
        }
    }
    let add = !has_i && !str_contains(program.as_str(), "powershell") && !str_contains(
        program.as_str(),
        "cmd.exe",
    ) && !str_contains(program.as_str(), "wsl.exe");
    ShellChoice { program, args, add_interactive_flag: add }
}

/// The environment variables stripped before a local shell spawns:
/// editor askpass helpers always, and the AppImage loader variables
/// when running from an AppImage, so bundled libraries do not leak
/// into the child.
pub fn interfering_env_vars(appimage: bool) -> (r: Vec<String>)
    ensures
        !appimage ==> r@.map_values(|v: String| v@) == seq![
            "GIT_ASKPASS"@,
            "SSH_ASKPASS"@,
            "VSCODE_GIT_ASKPASS"@,
            "ELECTRON_RUN_AS_NODE"@,
        ],
        appimage ==> r@.map_values(|v: String| v@) == seq![
            "GIT_ASKPASS"@,
            "SSH_ASKPASS"@,
            "VSCODE_GIT_ASKPASS"@,
            "ELECTRON_RUN_AS_NODE"@,
            "LD_LIBRARY_PATH"@,
            "APPIMAGE"@,
            "APPDIR"@,
            "OWD"@,
        ],
{
    let mut v: Vec<String> = Vec::new();
    v.push("GIT_ASKPASS".to_owned());
    v.push("SSH_ASKPASS".to_owned());
    v.push("VSCODE_GIT_ASKPASS".to_owned());
    v.push("ELECTRON_RUN_AS_NODE".to_owned());
    if appimage {
        v.push("LD_LIBRARY_PATH".to_owned());
        v.push("APPIMAGE".to_owned());
        v.push("APPDIR".to_owned());
        v.push("OWD".to_owned());
        proof {
            assert(v@.map_values(|x: String| x@) =~= seq![
                "GIT_ASKPASS"@,
                "SSH_ASKPASS"@,
                "VSCODE_GIT_ASKPASS"@,
                "ELECTRON_RUN_AS_NODE"@,
                "LD_LIBRARY_PATH"@,
                "APPIMAGE"@,
                "APPDIR"@,
                "OWD"@,
            ]);
        }
    } else {
        proof {
            assert(v@.map_values(|x: String| x@) =~= seq![
                "GIT_ASKPASS"@,
                "SSH_ASKPASS"@,
                "VSCODE_GIT_ASKPASS"@,
                "ELECTRON_RUN_AS_NODE"@,
            ]);
        }
    }
    v
}

/// The `sh -c '<command>'` wrapper that makes pipes and semicolons
/// work reliably for the exec command.
pub open spec fn spec_sh_wrap(cmd: Seq<char>) -> Seq<char> {
    seq!['s', 'h', ' ', '-', 'c', ' '] + spec_quoted(cmd)
}

/// Wraps a command line in `sh -c '...'` with its quotes escaped.
pub fn sh_wrap_command(cmd: &str) -> (r: String)
    ensures
        r@ == spec_sh_wrap(cmd@),
{
    proof {
        reveal_strlit("sh -c ");
        assert("sh -c "@ =~= seq!['s', 'h', ' ', '-', 'c', ' ']);
    }
    let mut out = "sh -c ".to_owned();
    let q = quote_arg(cmd);
    out.append(q.as_str());
    proof {
        assert(out@ =~= spec_sh_wrap(cmd@));
    }
    out
}

} // verus!
