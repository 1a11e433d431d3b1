//! Migration of referenced private keys into the application's own
//! `keys/` directory: the destination file name derived from a hash of
//! the original path, the per-connection decision, and the law that a
//! second run changes nothing.
use vstd::prelude::*;

verus! {

use crate::listing::spec_join_path;
use crate::listing::join_path;
use crate::strutil::hex_string;
use crate::strutil::lemma_starts_with_concat;
use crate::strutil::lemma_starts_with_trans;
use crate::strutil::push_char;
use crate::strutil::spec_radix;
use crate::strutil::spec_starts_with;
use crate::strutil::str_eq;
use vstd::string::StrSliceExecFns;
use vstd::string::StringExecFns;

/// The hash under which a key file is stored, a deterministic function
/// of the original path alone.
pub uninterp spec fn path_hash(path: Seq<char>) -> u64;

/// Relies on std's `DefaultHasher` over the path string: `new()`
/// constructs it with fixed keys, so the digest depends on the path
/// alone.
#[verifier::external_body]
pub fn hash_path(path: &str) -> (r: u64)
    ensures
        r == path_hash(path@),
{
    let mut hasher = std::collections::hash_map::DefaultHasher::new();
    std::hash::Hash::hash(path, &mut hasher);
    std::hash::Hasher::finish(&hasher)
}

/// The part of a path after its last slash; the whole path when it
/// has none. (A path that names an existing file never ends in a
/// slash, so the walks only ever see real file names here.)
pub open spec fn spec_basename(s: Seq<char>) -> Seq<char>
    decreases s.len(),
{
    if s.len() == 0 {
        s
    } else if s.last() == '/' {
        Seq::empty()
    } else {
        spec_basename(s.drop_last()).push(s.last())
    }
}

/// The suffix after the last slash is the basename.
proof fn lemma_basename_suffix(s: Seq<char>, j: int)
    requires
        0 <= j <= s.len(),
        forall|k: int| j <= k < s.len() ==> s[k] != '/',
        j == 0 || s[j - 1] == '/',
    ensures
        spec_basename(s) == s.skip(j),
    decreases s.len() - j,
{
    if s.len() == j {
        if j > 0 {
            assert(s.last() == '/');
        }
        assert(s.skip(j) =~= Seq::<char>::empty());
        if j == 0 {
            assert(spec_basename(s) =~= s.skip(j));
        }
    } else {
        assert(s.last() != '/');
        assert(spec_basename(s) == spec_basename(s.drop_last()).push(s.last()));
        assert forall|k: int| j <= k < s.drop_last().len() implies s.drop_last()[k] != '/' by {
            assert(s.drop_last()[k] == s[k]);
        }
        if j > 0 {
            assert(s.drop_last()[j - 1] == s[j - 1]);
        }
        lemma_basename_suffix(s.drop_last(), j);
        assert(s.drop_last().skip(j).push(s.last()) =~= s.skip(j));
    }
}

/// The part of `path` after its last slash.
pub fn basename(path: &str) -> (r: String)
    ensures
        r@ == spec_basename(path@),
{
    let n = path.unicode_len();
    let mut j: usize = n;
    while j > 0 && path.get_char(j - 1) != '/'
        invariant
            n == path@.len(),
            0 <= j <= n,
            forall|k: int| j <= k < n ==> path@[k] != '/',
        decreases j,
    {
        j = j - 1;
    }
    proof {
        lemma_basename_suffix(path@, j as int);
    }
    let s = path.substring_char(j, n);
    s.to_owned()
}

/// The file name a migrated key is stored under: the path hash in
/// lower-case hex, an underscore, and the original base name.
pub open spec fn spec_migration_filename(path: Seq<char>) -> Seq<char> {
    spec_radix(path_hash(path) as int, 16) + seq!['_'] + spec_basename(path)
}

/// Builds the `{hash:x}_{basename}` file name for a key path.
pub fn migration_filename(path: &str) -> (r: String)
    ensures
        r@ == spec_migration_filename(path@),
{
    let h = hash_path(path);
    let mut out = hex_string(h);
    push_char(&mut out, '_');
    let base = basename(path);
    out.append(base.as_str());
    proof {
        assert(out@ =~= spec_migration_filename(path@));
    }
    out
}

/// Where a key at `path` is migrated to, inside the keys directory.
pub open spec fn spec_migration_dest(path: Seq<char>, keys_dir: Seq<char>) -> Seq<char> {
    spec_join_path(keys_dir, spec_migration_filename(path))
}

/// Builds the destination path for a key inside `keys_dir`.
pub fn migration_dest(path: &str, keys_dir: &str) -> (r: String)
    ensures
        r@ == spec_migration_dest(path@, keys_dir@),
{
    let fname = migration_filename(path);
    join_path(keys_dir, fname.as_str())
}

/// The destination lies inside the keys directory.
pub proof fn lemma_dest_inside_keys_dir(path: Seq<char>, keys_dir: Seq<char>)
    ensures
        spec_starts_with(spec_migration_dest(path, keys_dir), keys_dir),
{
    let fname = spec_migration_filename(path);
    if keys_dir.len() > 0 && keys_dir.last() == '/' {
        lemma_starts_with_concat(keys_dir, fname);
    } else {
        lemma_starts_with_concat(keys_dir, seq!['/'] + fname);
        assert(keys_dir + seq!['/'] + fname =~= keys_dir + (seq!['/'] + fname));
    }
}

/// What the caller observed of one key path on disk before deciding:
/// whether it already lies inside the data directory, whether it
/// names an existing regular file, and whether the migration
/// destination already exists.
#[derive(Clone, Copy, PartialEq, Eq, Structural)]
pub struct PathFacts {
    pub inside_data_dir: bool,
    pub exists_file: bool,
    pub dest_exists: bool,
}

/// The decision for one connection's key path.
pub enum MigrateAction {
    /// Nothing to do: no usable path, already internal, missing on
    /// disk, or already stored at its own destination.
    Skip,
    /// The destination already holds a copy; only the recorded path
    /// moves to it.
    UpdateOnly { new_path: String },
    /// Copy the file to `dest`, then record `dest` as the path.
    CopyAndUpdate { dest: String },
}

/// The skip condition of one migration step.
pub open spec fn spec_migrate_skips(path: Seq<char>, facts: PathFacts, keys_dir: Seq<char>) ->
    bool {
    ||| path.len() == 0
    ||| facts.inside_data_dir
    ||| !facts.exists_file
    ||| spec_migration_dest(path, keys_dir) == path
}

/// The recorded path after one migration step.
pub open spec fn spec_migrate_result(path: Seq<char>, facts: PathFacts, keys_dir: Seq<char>) ->
    Seq<char> {
    if spec_migrate_skips(path, facts, keys_dir) {
        path
    } else {
        spec_migration_dest(path, keys_dir)
    }
}

/// Decides what to do with one connection's key path, as the
/// migration pass does per connection: skip what is empty, already
/// internal, missing, or already in place; otherwise update the
/// recorded path, copying the file first unless the destination
/// already exists.
pub fn migrate_step(path: &str, facts: PathFacts, keys_dir: &str) -> (r: MigrateAction)
    ensures
        (r is Skip) == spec_migrate_skips(path@, facts, keys_dir@),
        r matches MigrateAction::UpdateOnly { new_path } ==> {
            &&& !spec_migrate_skips(path@, facts, keys_dir@)
            &&& facts.dest_exists
            &&& new_path@ == spec_migration_dest(path@, keys_dir@)
        },
        r matches MigrateAction::CopyAndUpdate { dest } ==> {
            &&& !spec_migrate_skips(path@, facts, keys_dir@)
            &&& !facts.dest_exists
            &&& dest@ == spec_migration_dest(path@, keys_dir@)
        },
{
    if path.unicode_len() == 0 {
        return MigrateAction::Skip;
    }
    if facts.inside_data_dir {
        return MigrateAction::Skip;
    }
    if !facts.exists_file {
        return MigrateAction::Skip;
    }
    let dest = migration_dest(path, keys_dir);
    if str_eq(dest.as_str(), path) {
        return MigrateAction::Skip;
    }
    if facts.dest_exists {
        MigrateAction::UpdateOnly { new_path: dest }
    } else {
        MigrateAction::CopyAndUpdate { dest }
    }
}

/// Migrating a key twice is the same as migrating it once: whatever
/// the first pass decided, the second pass skips and keeps the
/// recorded path, provided the facts of the second pass describe the
/// world the first pass left behind — the keys directory lies inside
/// the data directory, a path inside it is reported as internal, and
/// a skipped path's facts are unchanged.
pub proof fn lemma_migrate_step_idempotent(
    path: Seq<char>,
    facts1: PathFacts,
    facts2: PathFacts,
    keys_dir: Seq<char>,
    data_dir: Seq<char>,
)
    requires
        spec_starts_with(keys_dir, data_dir),
        facts2.inside_data_dir || !spec_starts_with(
            spec_migrate_result(path, facts1, keys_dir),
            data_dir,
        ),
        spec_migrate_skips(path, facts1, keys_dir) ==> facts2 == facts1,
    ensures
        spec_migrate_skips(spec_migrate_result(path, facts1, keys_dir), facts2, keys_dir),
        spec_migrate_result(
            spec_migrate_result(path, facts1, keys_dir),
            facts2,
            keys_dir,
        ) == spec_migrate_result(path, facts1, keys_dir),
{
    let path2 = spec_migrate_result(path, facts1, keys_dir);
    if spec_migrate_skips(path, facts1, keys_dir) {
        assert(path2 == path);
        assert(spec_migrate_skips(path2, facts2, keys_dir));
    } else {
        assert(path2 == spec_migration_dest(path, keys_dir));
        lemma_dest_inside_keys_dir(path, keys_dir);
        lemma_starts_with_trans(path2, keys_dir, data_dir);
        assert(facts2.inside_data_dir);
    }
}

} // verus!
