//! Directory listings: the `FileEntry` rows handed to the UI, the
//! construction of a row from plain metadata, path joining for
//! recursive walks, and the listing order — directories first, then
//! lexicographic within each class.
use vstd::prelude::*;

verus! {

use crate::FileEntry;
use crate::strutil::lemma_str_lt_total;
use crate::strutil::lemma_str_lt_trans;
use crate::strutil::octal_string;
use crate::strutil::spec_radix;
use crate::strutil::spec_str_le;
use crate::strutil::str_eq;
use crate::strutil::str_lt;
use vstd::multiset::Multiset;
use vstd::seq_lib::to_multiset_insert;
use vstd::string::StrSliceExecFns;
use vstd::string::StringExecFns;

/// The unified local/remote file-operation surface. The operations
/// themselves perform I/O and live with the caller; the pure parts —
/// row construction and ordering — are below.
pub struct FileSystem;

impl FileSystem {
    /// A `FileSystem` carries no state of its own.
    pub fn new() -> (r: FileSystem) {
        FileSystem
    }
}

/// An entry counts as a directory when its type string is `"d"`.
pub open spec fn spec_is_dir_entry(e: FileEntry) -> bool {
    e.entry_type@ == seq!['d']
}

/// The listing order: directories strictly before everything else;
/// within one class, names in lexicographic order.
pub open spec fn spec_entry_le(a: FileEntry, b: FileEntry) -> bool {
    if spec_is_dir_entry(a) != spec_is_dir_entry(b) {
        spec_is_dir_entry(a)
    } else {
        spec_str_le(a.name@, b.name@)
    }
}

/// A listing is sorted when every pair of rows is in order.
pub open spec fn spec_entries_sorted(s: Seq<FileEntry>) -> bool {
    forall|i: int, j: int| 0 <= i < j < s.len() ==> spec_entry_le(s[i], s[j])
}

/// The listing order can compare any two rows.
pub proof fn lemma_entry_le_total(a: FileEntry, b: FileEntry)
    ensures
        spec_entry_le(a, b) || spec_entry_le(b, a),
{
    if spec_is_dir_entry(a) == spec_is_dir_entry(b) {
        lemma_str_lt_total(a.name@, b.name@);
    }
}

/// The listing order is transitive.
pub proof fn lemma_entry_le_trans(a: FileEntry, b: FileEntry, c: FileEntry)
    requires
        spec_entry_le(a, b),
        spec_entry_le(b, c),
    ensures
        spec_entry_le(a, c),
{
    let da = spec_is_dir_entry(a);
    let db = spec_is_dir_entry(b);
    let dc = spec_is_dir_entry(c);
    if da == db && db == dc {
        if a.name@ != b.name@ && b.name@ != c.name@ {
            lemma_str_lt_trans(a.name@, b.name@, c.name@);
        }
    }
}

/// Compares two rows in the listing order.
pub fn entry_le(a: &FileEntry, b: &FileEntry) -> (r: bool)
    ensures
        r == spec_entry_le(*a, *b),
{
    let ad = a.is_dir();
    let bd = b.is_dir();
    if ad != bd {
        ad
    } else {
        if str_eq(a.name.as_str(), b.name.as_str()) {
            true
        } else {
            str_lt(a.name.as_str(), b.name.as_str())
        }
    }
}

/// Inserts a row into an already sorted listing, keeping it sorted;
/// the rows present are exactly the old ones plus the new one.
pub fn insert_sorted(out: &mut Vec<FileEntry>, x: FileEntry)
    requires
        spec_entries_sorted(old(out)@),
    ensures
        spec_entries_sorted(final (out)@),
        final (out)@.to_multiset() == old(out)@.to_multiset().insert(x),
        final (out)@.len() == old(out)@.len() + 1,
{
    let n = out.len();
    let mut j: usize = 0;
    while j < n && entry_le(&out[j], &x)
        invariant
            n == out@.len(),
            out@ == old(out)@,
            spec_entries_sorted(out@),
            0 <= j <= n,
            forall|k: int| 0 <= k < j ==> spec_entry_le(out@[k], x),
        decreases n - j,
    {
        j = j + 1;
    }
    proof {
        if j < n {
            lemma_entry_le_total(out@[j as int], x);
            assert(spec_entry_le(x, out@[j as int]));
            assert forall|k: int| j <= k < n implies spec_entry_le(x, out@[k]) by {
                if k > j {
                    lemma_entry_le_trans(x, out@[j as int], out@[k]);
                }
            }
        }
    }
    out.insert(j, x);
    proof {
        let old_s = old(out)@;
        let new_s = out@;
        assert(new_s == old_s.insert(j as int, x));
        to_multiset_insert(old_s, j as int, x);
        assert forall|p: int, q: int| 0 <= p < q < new_s.len() implies spec_entry_le(
            new_s[p],
            new_s[q],
        ) by {
            if p == j {
                assert(new_s[p] == x);
                assert(new_s[q] == old_s[q - 1]);
            } else if q == j {
                assert(new_s[p] == old_s[p]);
                assert(new_s[q] == x);
            } else if p < j && q > j {
                assert(new_s[p] == old_s[p]);
                assert(new_s[q] == old_s[q - 1]);
            } else if q < j {
                assert(new_s[p] == old_s[p]);
                assert(new_s[q] == old_s[q]);
            } else {
                assert(new_s[p] == old_s[p - 1]);
                assert(new_s[q] == old_s[q - 1]);
            }
        }
    }
}

/// Sorts a listing: directories first, then lexicographic by name
/// within each class; the rows are a permutation of the input.
pub fn sort_entries(entries: Vec<FileEntry>) -> (r: Vec<FileEntry>)
    ensures
        spec_entries_sorted(r@),
        r@.to_multiset() == entries@.to_multiset(),
        r@.len() == entries@.len(),
{
    let mut out: Vec<FileEntry> = Vec::new();
    let mut rest = entries;
    proof {
        broadcast use vstd::seq_lib::group_to_multiset_ensures;

        assert(out@.to_multiset() =~= Multiset::<FileEntry>::empty());
    }
    loop
        invariant
            spec_entries_sorted(out@),
            out@.to_multiset().add(rest@.to_multiset()) == entries@.to_multiset(),
            out@.len() + rest@.len() == entries@.len(),
        ensures
            rest@.len() == 0,
            spec_entries_sorted(out@),
            out@.to_multiset().add(rest@.to_multiset()) == entries@.to_multiset(),
            out@.len() == entries@.len(),
        decreases rest@.len(),
    {
        broadcast use vstd::seq_lib::group_to_multiset_ensures;

        if rest.len() == 0 {
            break;
        }
        let x = rest.remove(0);
        insert_sorted(&mut out, x);
        proof {
            broadcast use vstd::multiset::group_multiset_axioms;

            assert(out@.to_multiset().add(rest@.to_multiset()) =~= entries@.to_multiset());
        }
    }
    proof {
        assert(rest@.to_multiset() =~= Multiset::<FileEntry>::empty());
        assert(out@.to_multiset() =~= entries@.to_multiset());
    }
    out
}

/// Joins a directory path and an entry name: a separating slash is
/// added unless the directory already ends with one.
pub open spec fn spec_join_path(parent: Seq<char>, name: Seq<char>) -> Seq<char> {
    if parent.len() > 0 && parent.last() == '/' {
        parent + name
    } else {
        parent + seq!['/'] + name
    }
}

/// Joins a directory path and an entry name, as the recursive SFTP
/// walks do.
pub fn join_path(parent: &str, name: &str) -> (r: String)
    ensures
        r@ == spec_join_path(parent@, name@),
{
    let plen = parent.unicode_len();
    let ends_slash = if plen > 0 {
        parent.get_char(plen - 1) == '/'
    } else {
        false
    };
    let mut out = parent.to_owned();
    if !ends_slash {
        proof {
            reveal_strlit("/");
            assert("/"@ =~= seq!['/']);
        }
        out.append("/");
    }
    out.append(name);
    out
}

/// A name that a directory walk skips: the current and parent links.
pub fn is_dot_entry(name: &str) -> (r: bool)
    ensures
        r == (name@ == seq!['.'] || name@ == seq!['.', '.']),
{
    proof {
        reveal_strlit(".");
        reveal_strlit("..");
        assert("."@ =~= seq!['.']);
        assert(".."@ =~= seq!['.', '.']);
    }
    str_eq(name, ".") || str_eq(name, "..")
}

/// The SFTP permission bit that marks a directory.
pub open spec fn spec_perm_is_dir(perms: u32) -> bool {
    perms & 0o040000 != 0
}

/// The two type strings differ, so the directory flag can be read
/// back off the row.
pub proof fn lemma_type_strings_differ()
    ensures
        seq!['-'] != seq!['d'],
{
    assert(seq!['-'][0] == '-');
    assert(seq!['d'][0] == 'd');
}

/// The type string for a directory flag.
fn type_string(is_dir: bool) -> (r: String)
    ensures
        is_dir ==> r@ == seq!['d'],
        !is_dir ==> r@ == seq!['-'],
{
    proof {
        reveal_strlit("d");
        reveal_strlit("-");
        assert("d"@ =~= seq!['d']);
        assert("-"@ =~= seq!['-']);
    }
    if is_dir {
        "d".to_owned()
    } else {
        "-".to_owned()
    }
}

/// Builds the listing row for one remote directory entry from its
/// SFTP attributes: the directory bit decides the type, seconds become
/// milliseconds, and the low permission bits are rendered in octal.
pub fn remote_entry(name: String, parent: &str, size: u64, mtime_s: u32, perms: u32) -> (r:
    FileEntry)
    ensures
        r.name@ == name@,
        r.path@ == spec_join_path(parent@, name@),
        spec_is_dir_entry(r) == spec_perm_is_dir(perms),
        !spec_perm_is_dir(perms) ==> r.entry_type@ == seq!['-'],
        r.size == size,
        r.last_modified == mtime_s as u64 * 1000,
        r.permissions@ == spec_radix((perms & 0o777) as int, 8),
{
    proof {
        lemma_type_strings_differ();
    }
    let is_dir = perms & 0o040000 != 0;
    let path = join_path(parent, name.as_str());
    FileEntry {
        path,
        entry_type: type_string(is_dir),
        size,
        last_modified: mtime_s as u64 * 1000,
        permissions: octal_string((perms & 0o777) as u64),
        name,
    }
}

/// Builds the listing row for one local directory entry: the caller
/// supplies what it read from the metadata, including the permission
/// mode bits.
pub fn local_entry(name: String, path: String, is_dir: bool, size: u64, modified_ms: u64, mode:
    u32) -> (r: FileEntry)
    ensures
        r.name@ == name@,
        r.path@ == path@,
        spec_is_dir_entry(r) == is_dir,
        !is_dir ==> r.entry_type@ == seq!['-'],
        r.size == size,
        r.last_modified == modified_ms,
        r.permissions@ == spec_radix((mode & 0o777) as int, 8),
{
    proof {
        lemma_type_strings_differ();
    }
    FileEntry {
        name,
        path,
        entry_type: type_string(is_dir),
        size,
        last_modified: modified_ms,
        permissions: octal_string((mode & 0o777) as u64),
    }
}

} // verus!
