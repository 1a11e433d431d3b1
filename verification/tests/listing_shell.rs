//! Listing order, row construction, and the shell command builders.
use zync_core::listing::entry_le;
use zync_core::listing::is_dot_entry;
use zync_core::listing::join_path;
use zync_core::listing::local_entry;
use zync_core::listing::remote_entry;
use zync_core::listing::sort_entries;
use zync_core::listing::FileSystem;
use zync_core::shell::choose_local_shell;
use zync_core::shell::cp_batch_command;
use zync_core::shell::cp_command;
use zync_core::shell::interfering_env_vars;
use zync_core::shell::quote_arg;
use zync_core::shell::rm_command;
use zync_core::shell::sh_wrap_command;
use zync_core::shell::shell_escape;
use zync_core::shell::CopyOperation;
use zync_core::FileEntry;

fn file(name: &str) -> FileEntry {
    local_entry(name.to_string(), format!("/x/{}", name), false, 1, 0, 0o644)
}

fn dir(name: &str) -> FileEntry {
    local_entry(name.to_string(), format!("/x/{}", name), true, 0, 0, 0o755)
}

/// Directories come first; each class is lexicographically sorted.
#[test]
fn listing_sorts_directories_first_then_names() {
    let entries = vec![file("zeta"), dir("beta"), file("alpha"), dir("alpha"), file("beta")];
    let sorted = sort_entries(entries);
    let names: Vec<(String, String)> =
        sorted.iter().map(|e| (e.entry_type.clone(), e.name.clone())).collect();
    assert_eq!(
        names,
        vec![
            ("d".to_string(), "alpha".to_string()),
            ("d".to_string(), "beta".to_string()),
            ("-".to_string(), "alpha".to_string()),
            ("-".to_string(), "beta".to_string()),
            ("-".to_string(), "zeta".to_string()),
        ]
    );
}

#[test]
fn sorting_keeps_every_row() {
    let entries = vec![file("b"), file("a"), file("b")];
    let sorted = sort_entries(entries);
    assert_eq!(sorted.len(), 3);
    let names: Vec<String> = sorted.iter().map(|e| e.name.clone()).collect();
    assert_eq!(names, vec!["a".to_string(), "b".to_string(), "b".to_string()]);
}

#[test]
fn entry_order_is_total() {
    let a = dir("a");
    let b = file("a");
    assert!(entry_le(&a, &b));
    assert!(!entry_le(&b, &a));
    assert!(entry_le(&b, &b));
}

#[test]
fn remote_rows_read_the_permission_bits() {
    let e = remote_entry("notes.txt".to_string(), "/home/u", 42, 3, 0o100644);
    assert_eq!(e.entry_type, "-");
    assert_eq!(e.path, "/home/u/notes.txt");
    assert_eq!(e.size, 42);
    assert_eq!(e.last_modified, 3000);
    assert_eq!(e.permissions, "644");
    let d = remote_entry("src".to_string(), "/home/u/", 0, 0, 0o040755);
    assert!(d.is_dir());
    assert_eq!(d.path, "/home/u/src");
    assert_eq!(d.permissions, "755");
    assert_eq!(d.last_modified, 0);
}

#[test]
fn permission_rendering_matches_octal_formatting() {
    for mode in [0u32, 0o1, 0o644, 0o755, 0o777, 0o40777] {
        let e = local_entry("f".to_string(), "/f".to_string(), false, 0, 0, mode);
        assert_eq!(e.permissions, format!("{:o}", mode & 0o777));
    }
}

#[test]
fn path_joining_handles_slashes() {
    assert_eq!(join_path("/", "etc"), "/etc");
    assert_eq!(join_path("/home/u", "f"), "/home/u/f");
    assert_eq!(join_path("/home/u/", "f"), "/home/u/f");
    assert_eq!(join_path("", "f"), "/f");
}

#[test]
fn dot_entries_are_skipped() {
    assert!(is_dot_entry("."));
    assert!(is_dot_entry(".."));
    assert!(!is_dot_entry(".git"));
    assert!(!is_dot_entry("a"));
}

#[test]
fn filesystem_constructs() {
    let _fs = FileSystem::new();
}

#[test]
fn quoting_escapes_embedded_quotes() {
    assert_eq!(shell_escape("plain"), "plain");
    assert_eq!(shell_escape("it's"), "it'\\''s");
    assert_eq!(quote_arg("a b"), "'a b'");
    assert_eq!(quote_arg("o'brien"), "'o'\\''brien'");
}

#[test]
fn delete_and_copy_commands() {
    assert_eq!(rm_command("/tmp/it's here"), "rm -rf '/tmp/it'\\''s here'");
    assert_eq!(cp_command("/a", "/b"), "cp -r '/a' '/b'");
}

#[test]
fn batch_copy_joins_with_semicolons() {
    let ops = vec![
        CopyOperation { from: "/a".to_string(), to: "/b".to_string() },
        CopyOperation { from: "/c d".to_string(), to: "/e".to_string() },
    ];
    assert_eq!(cp_batch_command(&ops), "cp -r '/a' '/b'; cp -r '/c d' '/e'");
    let empty: Vec<CopyOperation> = Vec::new();
    assert_eq!(cp_batch_command(&empty), "");
}

#[test]
fn exec_wraps_in_sh() {
    assert_eq!(sh_wrap_command("echo 'hi'; ls | wc -l"), "sh -c 'echo '\\''hi'\\''; ls | wc -l'");
}

#[test]
fn unix_shell_comes_from_environment() {
    let c = choose_local_shell(false, None, Some("/bin/zsh"), None);
    assert_eq!(c.program, "/bin/zsh");
    assert!(c.args.is_empty());
    assert!(c.add_interactive_flag);
    let d = choose_local_shell(false, None, None, None);
    assert_eq!(d.program, "/bin/bash");
    assert!(d.add_interactive_flag);
}

#[test]
fn windows_shell_override_cases() {
    let p = choose_local_shell(true, None, None, None);
    assert_eq!(p.program, "powershell.exe");
    assert!(!p.add_interactive_flag);

    let c = choose_local_shell(true, Some("cmd"), None, None);
    assert_eq!(c.program, "cmd.exe");
    assert!(!c.add_interactive_flag);

    let g = choose_local_shell(true, Some("gitbash"), None, Some("C:\\Git\\bin\\bash.exe"));
    assert_eq!(g.program, "C:\\Git\\bin\\bash.exe");
    assert_eq!(g.args, vec!["--login".to_string(), "-i".to_string()]);
    assert!(!g.add_interactive_flag);

    let g2 = choose_local_shell(true, Some("gitbash"), None, None);
    assert_eq!(g2.program, "bash.exe");

    let w = choose_local_shell(true, Some("wsl"), None, None);
    assert_eq!(w.program, "wsl.exe");
    assert!(!w.add_interactive_flag);

    let wd = choose_local_shell(true, Some("wsl:Ubuntu-22.04"), None, None);
    assert_eq!(wd.program, "wsl.exe");
    assert_eq!(wd.args, vec!["-d".to_string(), "Ubuntu-22.04".to_string()]);

    let ps = choose_local_shell(true, Some("default"), None, None);
    assert_eq!(ps.program, "powershell.exe");

    let other = choose_local_shell(true, Some("nu.exe"), None, None);
    assert_eq!(other.program, "nu.exe");
    assert!(other.add_interactive_flag);
}

#[test]
fn stripped_environment_variables() {
    let plain = interfering_env_vars(false);
    assert_eq!(
        plain,
        vec![
            "GIT_ASKPASS".to_string(),
            "SSH_ASKPASS".to_string(),
            "VSCODE_GIT_ASKPASS".to_string(),
            "ELECTRON_RUN_AS_NODE".to_string(),
        ]
    );
    let appimage = interfering_env_vars(true);
    assert_eq!(appimage.len(), 8);
    assert_eq!(appimage[4], "LD_LIBRARY_PATH");
    assert_eq!(appimage[7], "OWD");
}
