//! Operating-system detection, key migration, error messages and the
//! secret-stripping sanitizer.
use std::hash::Hash;
use std::hash::Hasher;

use zync_core::assist::is_billing_error;
use zync_core::assist::AiConfig;
use zync_core::errors::sanitize_error;
use zync_core::errors::CoreError;
use zync_core::keys::basename;
use zync_core::keys::hash_path;
use zync_core::keys::migrate_step;
use zync_core::keys::migration_dest;
use zync_core::keys::migration_filename;
use zync_core::keys::MigrateAction;
use zync_core::keys::PathFacts;
use zync_core::osdetect::map_uname;
use zync_core::osdetect::parse_os_release;
use zync_core::osdetect::split_lines;
use zync_core::settings::resolve_data_dir;
use zync_core::settings::settings_write_dirs;

#[test]
fn os_release_id_plain_and_quoted() {
    let text = "NAME=\"Ubuntu\"\nID=ubuntu\nID_LIKE=debian\n";
    assert_eq!(parse_os_release(text), Some("ubuntu".to_string()));
    let quoted = "PRETTY_NAME=\"Debian GNU/Linux\"\nID=\"debian\"\n";
    assert_eq!(parse_os_release(quoted), Some("debian".to_string()));
}

#[test]
fn os_release_first_id_line_wins() {
    let text = "ID=alpine\nID=other\n";
    assert_eq!(parse_os_release(text), Some("alpine".to_string()));
    assert_eq!(parse_os_release("NAME=x\nVERSION=1\n"), None);
    assert_eq!(parse_os_release(""), None);
    // ID_LIKE only matches lines that start with exactly ID=.
    assert_eq!(parse_os_release("ID_LIKE=debian\n"), None);
}

#[test]
fn lines_split_at_newlines() {
    assert_eq!(split_lines("a\nb\nc"), vec!["a", "b", "c"]);
    assert_eq!(split_lines("a\n"), vec!["a"]);
    assert_eq!(split_lines(""), Vec::<String>::new());
}

#[test]
fn uname_maps_darwin_to_macos() {
    assert_eq!(map_uname("Darwin\n"), Some("macos".to_string()));
    assert_eq!(map_uname("Linux\n"), Some("linux".to_string()));
    assert_eq!(map_uname("  FreeBSD  "), Some("freebsd".to_string()));
    assert_eq!(map_uname("\n \t"), None);
    assert_eq!(map_uname(""), None);
}

#[test]
fn migration_names_match_the_original_formatting() {
    let path = "/home/u/.ssh/id_ed25519";
    let mut hasher = std::collections::hash_map::DefaultHasher::new();
    path.hash(&mut hasher);
    let h = hasher.finish();
    assert_eq!(hash_path(path), h);
    assert_eq!(migration_filename(path), format!("{:x}_id_ed25519", h));
    assert_eq!(migration_dest(path, "/data/keys"), format!("/data/keys/{:x}_id_ed25519", h));
    assert_eq!(basename("/a/b/c.txt"), "c.txt");
    assert_eq!(basename("plain"), "plain");
}

fn facts(inside: bool, exists: bool, dest: bool) -> PathFacts {
    PathFacts { inside_data_dir: inside, exists_file: exists, dest_exists: dest }
}

#[test]
fn migration_decisions() {
    let keys_dir = "/data/keys";
    assert!(matches!(migrate_step("", facts(false, true, false), keys_dir), MigrateAction::Skip));
    assert!(matches!(
        migrate_step("/k", facts(true, true, false), keys_dir),
        MigrateAction::Skip
    ));
    assert!(matches!(
        migrate_step("/k", facts(false, false, false), keys_dir),
        MigrateAction::Skip
    ));
    match migrate_step("/home/u/key", facts(false, true, false), keys_dir) {
        MigrateAction::CopyAndUpdate { dest } => {
            assert_eq!(dest, migration_dest("/home/u/key", keys_dir));
        }
        _ => panic!("a fresh external key must be copied"),
    }
    match migrate_step("/home/u/key", facts(false, true, true), keys_dir) {
        MigrateAction::UpdateOnly { new_path } => {
            assert_eq!(new_path, migration_dest("/home/u/key", keys_dir));
        }
        _ => panic!("an already-copied key only updates the path"),
    }
}

/// Running the migration twice leaves the same recorded path and
/// migrates nothing the second time.
#[test]
fn migration_is_idempotent() {
    let keys_dir = "/data/keys";
    let first = migrate_step("/home/u/key", facts(false, true, false), keys_dir);
    let new_path = match first {
        MigrateAction::CopyAndUpdate { dest } => dest,
        _ => panic!("first run must copy"),
    };
    // After the copy the recorded path lies inside the data
    // directory and the destination exists.
    let second = migrate_step(new_path.as_str(), facts(true, true, true), keys_dir);
    assert!(matches!(second, MigrateAction::Skip));
    // A key that was already internal is skipped again unchanged.
    let skipped = migrate_step("/data/keys/abc_key", facts(true, true, true), keys_dir);
    assert!(matches!(skipped, MigrateAction::Skip));
}

#[test]
fn sanitizer_strips_key_parameters() {
    assert_eq!(
        sanitize_error("https://api.example.com/v1/models?key=sk-SECRET-REDACTED failed"),
        "https://api.example.com/v1/models failed"
    );
    assert_eq!(sanitize_error("a?key=abc&b=1"), "a&b=1");
    assert_eq!(sanitize_error("x&key=1&key=2 rest"), "x rest");
    assert_eq!(sanitize_error("no keys here"), "no keys here");
    assert_eq!(sanitize_error("?key="), "");
    assert_eq!(sanitize_error("monkey=1"), "monkey=1");
}

#[test]
fn error_messages() {
    assert_eq!(CoreError::Cancelled.message(), "Cancelled");
    assert_eq!(CoreError::AuthFailed.message(), "Authentication failed");
    assert_eq!(
        CoreError::ConnectionFailed { detail: "timed out".to_string() }.message(),
        "Failed to connect: timed out"
    );
    assert_eq!(
        CoreError::ExecFailed { exit_code: 127 }.message(),
        "Remote command failed (Exit 127)"
    );
    assert_eq!(
        CoreError::NotFound { resource: "Connection".to_string(), id: "c1".to_string() }
            .message(),
        "Connection not found: c1"
    );
    assert_eq!(
        CoreError::SftpError { message: "EOF".to_string() }.message(),
        "SFTP error: EOF"
    );
}

#[test]
fn billing_errors_are_recognised() {
    assert!(is_billing_error("Your Credit Balance is too low"));
    assert!(is_billing_error("error code insufficient_quota"));
    assert!(is_billing_error("please purchase credits first"));
    assert!(!is_billing_error("rate limit reached"));
    assert!(!is_billing_error(""));
}

#[test]
fn api_keys_come_from_the_provider_entry() {
    let cfg = AiConfig {
        provider: "gemini".to_string(),
        keys: Some(vec![
            ("openai".to_string(), "sk-1".to_string()),
            ("gemini".to_string(), "g-2".to_string()),
        ]),
        model: None,
        ollama_url: None,
        enabled: true,
    };
    assert_eq!(cfg.api_key(), Some("g-2"));
    let empty = AiConfig {
        provider: "openai".to_string(),
        keys: Some(vec![("openai".to_string(), "".to_string())]),
        model: None,
        ollama_url: None,
        enabled: true,
    };
    assert_eq!(empty.api_key(), None);
    let none = AiConfig {
        provider: "ollama".to_string(),
        keys: None,
        model: None,
        ollama_url: None,
        enabled: true,
    };
    assert_eq!(none.api_key(), None);
}

#[test]
fn data_dir_prefers_a_configured_path() {
    assert_eq!(resolve_data_dir("/default", Some("/custom")), "/custom");
    assert_eq!(resolve_data_dir("/default", Some("")), "/default");
    assert_eq!(resolve_data_dir("/default", None), "/default");
    // Settings writes land in the bootstrap location and, when
    // configured, the custom directory too.
    assert_eq!(settings_write_dirs("/default", Some("/custom")), vec![
        "/default".to_string(),
        "/custom".to_string()
    ]);
    assert_eq!(settings_write_dirs("/default", None), vec!["/default".to_string()]);
}
