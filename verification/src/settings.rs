//! Where the application keeps its data: the configured `dataPath`
//! wins when it is non-empty, and settings writes are mirrored so a
//! relocated data directory can bootstrap itself.
use vstd::prelude::*;

verus! {

use vstd::string::StrSliceExecFns;
use vstd::string::StringExecFns;

/// The resolved data directory: the configured path when the settings
/// file names a non-empty one, the platform default otherwise.
pub open spec fn spec_data_dir(default_dir: Seq<char>, configured: Option<Seq<char>>) -> Seq<
    char,
> {
    match configured {
        Some(p) => if p.len() > 0 {
            p
        } else {
            default_dir
        },
        None => default_dir,
    }
}

/// Resolves the data directory from the settings file's `dataPath`
/// entry, as every command that touches persisted files does first.
pub fn resolve_data_dir(default_dir: &str, configured: Option<&str>) -> (r: String)
    ensures
        r@ == spec_data_dir(default_dir@, match configured {
            Some(p) => Some(p@),
            None => None,
        }),
{
    match configured {
        Some(p) => {
            if p.unicode_len() > 0 {
                p.to_owned()
            } else {
                default_dir.to_owned()
            }
        },
        None => default_dir.to_owned(),
    }
}

/// Where a settings write lands: always the platform default — the
/// bootstrap location — and additionally the configured directory
/// when one is named, so that relocation survives a restart.
pub fn settings_write_dirs(default_dir: &str, configured: Option<&str>) -> (r: Vec<String>)
    ensures
        r@.len() >= 1,
        r@[0]@ == default_dir@,
        match configured {
            Some(p) => if p@.len() > 0 {
                r@.len() == 2 && r@[1]@ == p@
            } else {
                r@.len() == 1
            },
            None => r@.len() == 1,
        },
{
    let mut out: Vec<String> = Vec::new();
    out.push(default_dir.to_owned());
    match configured {
        Some(p) => {
            if p.unicode_len() > 0 {
                out.push(p.to_owned());
            }
        },
        None => {},
    }
    out
}

} // verus!
