//! The error taxonomy of the core, each kind with its user-facing
//! message, and the sanitizer that strips URL query strings shaped
//! like API keys out of error text before it reaches the caller.
use vstd::prelude::*;

verus! {

use crate::strutil::dec_string;
use crate::strutil::push_char;
use crate::strutil::spec_radix;
use vstd::string::StrSliceExecFns;
use vstd::string::StringExecFns;

/// The error kinds the core reports. Streaming operations surface
/// them through events; commands return the message text.
pub enum CoreError {
    /// Bad or missing configuration.
    ConfigError,
    /// The library reported no successful authentication.
    AuthFailed,
    /// The transport to the target could not be established.
    ConnectionFailed { detail: String },
    /// A hop of the jump chain could not be connected.
    JumpHostFailed { detail: String },
    /// A channel could not be opened on the session.
    ChannelOpenFailed,
    /// The SFTP subsystem could not be requested.
    SubsystemFailed,
    /// A remote command exited with a non-zero status.
    ExecFailed { exit_code: u32 },
    /// An SFTP round trip failed.
    SftpError { message: String },
    /// A local filesystem operation failed.
    LocalIoError { message: String },
    /// A named resource — connection, terminal, tunnel or transfer —
    /// is not registered.
    NotFound { resource: String, id: String },
    /// The operation observed its cancellation flag; a first-class
    /// outcome, not a failure of the machinery.
    Cancelled,
    /// A malformed agent or SFTP response.
    ProtocolError,
}

impl CoreError {
    /// The message text returned to the calling command. Upstream
    /// detail is included; key material never is, and callers pass
    /// foreign detail through [`sanitize_error`] first.
    pub fn message(&self) -> (r: String)
        ensures
            self is ConfigError ==> r@ == "invalid or missing configuration"@,
            self is AuthFailed ==> r@ == "Authentication failed"@,
            self matches CoreError::ConnectionFailed { detail } ==> r@ == "Failed to connect: "@
                + detail@,
            self matches CoreError::JumpHostFailed { detail } ==> r@
                == "Failed to connect to jump host: "@ + detail@,
            self is ChannelOpenFailed ==> r@ == "Failed to open channel"@,
            self is SubsystemFailed ==> r@ == "Failed to request SFTP subsystem"@,
            self matches CoreError::ExecFailed { exit_code } ==> r@ == "Remote command failed (Exit "@
                + spec_radix(exit_code as int, 10) + ")"@,
            self matches CoreError::SftpError { message } ==> r@ == "SFTP error: "@ + message@,
            self matches CoreError::LocalIoError { message } ==> r@ == "Local I/O error: "@
                + message@,
            self matches CoreError::NotFound { resource, id } ==> r@ == resource@
                + " not found: "@ + id@,
            self is Cancelled ==> r@ == "Cancelled"@,
            self is ProtocolError ==> r@ == "Malformed response"@,
    {
        match self {
            CoreError::ConfigError => "invalid or missing configuration".to_owned(),
            CoreError::AuthFailed => "Authentication failed".to_owned(),
            CoreError::ConnectionFailed { detail } => {
                let mut s = "Failed to connect: ".to_owned();
                s.append(detail.as_str());
                s
            },
            CoreError::JumpHostFailed { detail } => {
                let mut s = "Failed to connect to jump host: ".to_owned();
                s.append(detail.as_str());
                s
            },
            CoreError::ChannelOpenFailed => "Failed to open channel".to_owned(),
            CoreError::SubsystemFailed => "Failed to request SFTP subsystem".to_owned(),
            CoreError::ExecFailed { exit_code } => {
                let mut s = "Remote command failed (Exit ".to_owned();
                let code = dec_string(*exit_code as u64);
                s.append(code.as_str());
                s.append(")");
                s
            },
            CoreError::SftpError { message } => {
                let mut s = "SFTP error: ".to_owned();
                s.append(message.as_str());
                s
            },
            CoreError::LocalIoError { message } => {
                let mut s = "Local I/O error: ".to_owned();
                s.append(message.as_str());
                s
            },
            CoreError::NotFound { resource, id } => {
                let mut s = resource.clone();
                s.append(" not found: ");
                s.append(id.as_str());
                s
            },
            CoreError::Cancelled => "Cancelled".to_owned(),
            CoreError::ProtocolError => "Malformed response".to_owned(),
        }
    }
}

/// A character that ends a key value: the next query parameter or
/// ASCII whitespace.
pub open spec fn spec_key_stop(c: char) -> bool {
    c == '&' || c == ' ' || c == '\t' || c == '\n' || c == '\r' || c == '\u{b}' || c == '\u{c}'
}

/// The length of the key value: the longest prefix free of `&` and
/// whitespace.
pub open spec fn spec_key_run_len(s: Seq<char>) -> int
    decreases s.len(),
{
    if s.len() == 0 || spec_key_stop(s[0]) {
        0
    } else {
        1 + spec_key_run_len(s.drop_first())
    }
}

/// The run ends exactly at the first stop character.
proof fn lemma_key_run(s: Seq<char>, j: int)
    requires
        0 <= j <= s.len(),
        forall|k: int| 0 <= k < j ==> !spec_key_stop(s[k]),
        j == s.len() || spec_key_stop(s[j]),
    ensures
        spec_key_run_len(s) == j,
    decreases j,
{
    if j == 0 {
    } else {
        assert(!spec_key_stop(s[0]));
        assert forall|k: int| 0 <= k < j - 1 implies !spec_key_stop(s.drop_first()[k]) by {
            assert(s.drop_first()[k] == s[k + 1]);
        }
        if j < s.len() {
            assert(s.drop_first()[j - 1] == s[j]);
        }
        lemma_key_run(s.drop_first(), j - 1);
    }
}

/// Whether a `?key=` / `&key=` parameter starts at the head of `s`.
pub open spec fn spec_key_param_at(s: Seq<char>) -> bool {
    &&& s.len() >= 5
    &&& (s[0] == '?' || s[0] == '&')
    &&& s.subrange(1, 5) == seq!['k', 'e', 'y', '=']
}

/// The text with every `?key=...` / `&key=...` query parameter
/// removed, leftmost first: what stripping the key pattern from error
/// messages leaves. The clamp on `jump` only serves termination.
pub open spec fn spec_sanitize(s: Seq<char>) -> Seq<char>
    decreases s.len(),
{
    if s.len() == 0 {
        Seq::empty()
    } else if spec_key_param_at(s) {
        let run = spec_key_run_len(s.skip(5));
        let jump = if run < 0 {
            5
        } else if 5 + run <= s.len() {
            5 + run
        } else {
            s.len() as int
        };
        spec_sanitize(s.skip(jump))
    } else {
        seq![s[0]] + spec_sanitize(s.drop_first())
    }
}

/// Strips API keys out of URLs in error messages, so that a failure
/// report never leaks a credential: every `?key=...` or `&key=...`
/// query parameter is removed up to the next `&` or whitespace.
pub fn sanitize_error(err: &str) -> (r: String)
    ensures
        r@ == spec_sanitize(err@),
    decreases err@.len(),
{
    proof {
        reveal_strlit("key=");
        assert("key="@ =~= seq!['k', 'e', 'y', '=']);
    }
    let n = err.unicode_len();
    if n == 0 {
        return String::new();
    }
    let c0 = err.get_char(0);
    let mut is_param = false;
    if (c0 == '?' || c0 == '&') && n >= 5 {
        let prefix = err.substring_char(1, 5);
        if crate::strutil::str_eq(prefix, "key=") {
            is_param = true;
        } else {
            proof {
                assert(prefix@ == err@.subrange(1, 5));
                assert(!spec_key_param_at(err@));
            }
        }
    } else {
        proof {
            assert(!spec_key_param_at(err@));
        }
    }
    if is_param {
        proof {
            assert(err@.subrange(1, 5) =~= seq!['k', 'e', 'y', '=']);
            assert(spec_key_param_at(err@));
        }
        let mut j: usize = 5;
        while j < n && !key_stop(err.get_char(j))
            invariant
                n == err@.len(),
                5 <= j <= n,
                forall|k: int| 5 <= k < j ==> !spec_key_stop(err@[k]),
            decreases n - j,
        {
            j = j + 1;
        }
        proof {
            let tail = err@.skip(5);
            assert forall|k: int| 0 <= k < j - 5 implies !spec_key_stop(tail[k]) by {
                assert(tail[k] == err@[k + 5]);
            }
            if j < n {
                assert(tail[j - 5] == err@[j as int]);
            }
            lemma_key_run(tail, j - 5);
            assert(err@.skip(5).skip(j - 5) =~= err@.skip(j as int));
        }
        let rest = err.substring_char(j, n);
        sanitize_error(rest)
    } else {
        let rest = err.substring_char(1, n);
        let tail = sanitize_error(rest);
        let mut out = String::new();
        push_char(&mut out, c0);
        out.append(tail.as_str());
        proof {
            assert(rest@ =~= err@.drop_first());
            assert(out@ =~= seq![err@[0]] + spec_sanitize(err@.drop_first()));
        }
        out
    }
}

/// Whether `c` ends a key value.
fn key_stop(c: char) -> (r: bool)
    ensures
        r == spec_key_stop(c),
{
    c == '&' || c == ' ' || c == '\t' || c == '\n' || c == '\r' || c == '\u{b}' || c == '\u{c}'
}

} // verus!
