//! The Files tab: listing entries, the commands of the transfer task, the
//! local-path guard, remote path joining, directory listings (parent entry
//! and order), transfer progress, previews and the FTP login.
use crate::client::{FileAccess, Host};
use crate::order::{is_permutation_of_range, key_views, lemma_precedes_order, precedes, sort_positions, sorted_by_key, OrderKey};
use crate::text::{lemma_split_has_piece, lemma_split_piece_bounds, piece_at, chars_of, concat_text, contains_chars, text_contains, copy_string, eq_lit, format_u16, decimal, lemma_parse_decimal, parse_u16_spec, lowercase, lowercase_chars, opt_view, split_chars, split_spec};
use vstd::prelude::*;

verus! {

/// Identifies one transfer in progress reports.
pub type TransferId = u64;

/// Metadata for a single file or directory in a file panel.
#[derive(Debug, Clone)]
pub struct FileEntry {
    /// Base file name (not the full path).
    pub name: String,
    /// Absolute path string (used as the stable identifier for marked sets).
    pub path: String,
    /// File size in bytes (`0` for directories).
    pub size: u64,
    /// `true` when this entry is a directory.
    pub is_dir: bool,
}

impl View for FileEntry {
    type V = (Seq<char>, Seq<char>, u64, bool);

    open spec fn view(&self) -> (Seq<char>, Seq<char>, u64, bool) {
        (self.name@, self.path@, self.size, self.is_dir)
    }
}

/// The views of a sequence of entries.
pub open spec fn entry_views(v: Seq<FileEntry>) -> Seq<(Seq<char>, Seq<char>, u64, bool)> {
    v.map_values(|e: FileEntry| e@)
}

fn copy_entry(e: &FileEntry) -> (r: FileEntry)
    ensures
        r@ == e@,
{
    FileEntry { name: copy_string(&e.name), path: copy_string(&e.path), size: e.size, is_dir: e.is_dir }
}

/// Commands processed by the file-transfer task.
pub enum SftpCommand {
    /// List the entries in a remote directory.
    ListDir(String),
    /// Download a remote file to a local path.
    Download { remote: String, local: String, transfer_id: TransferId },
    /// Upload a local file to a remote path.
    Upload { local: String, remote: String, transfer_id: TransferId },
    /// Delete a remote file (falls back to removing an empty directory).
    Delete(String),
    /// Create a remote directory.
    MkDir(String),
    /// Rename / move a remote path.
    Rename { from: String, to: String },
    /// Read the first bytes of a remote file for preview.
    ReadPreview(String),
    /// Shut down the task gracefully.
    Disconnect,
}

// ---------------------------------------------------------------------------
// The local-path guard
// ---------------------------------------------------------------------------

/// Why a transfer's paths were refused.
#[derive(Debug, Clone, PartialEq, Eq)]
pub enum PathGuardError {
    /// The local path has a `..` component; it carries the local path.
    ParentDir(String),
    /// A path holds a NUL character.
    NulByte,
}

impl PathGuardError {
    /// The message shown for this refusal.
    pub fn message(&self) -> (r: String)
        ensures
            r@ == (match self {
                PathGuardError::ParentDir(p) => "local path contains '..': "@ + p@,
                PathGuardError::NulByte => "path contains null bytes"@,
            }),
    {
        match self {
            PathGuardError::ParentDir(p) => {
                let v = chars_of(p.as_str());
                let r = concat_text("local path contains '..': ", &v, "");
                proof {
                    reveal_strlit("");
                    assert("local path contains '..': "@ + v@ + ""@ =~= "local path contains '..': "@
                        + p@);
                }
                r
            },
            PathGuardError::NulByte => "path contains null bytes".to_owned(),
        }
    }
}

/// A path with each `\` turned into `/`.
pub open spec fn forward_slashes(p: Seq<char>) -> Seq<char> {
    p.map_values(|c: char| if c == '\\' { '/' } else { c })
}

/// Whether a path has a `..` component: a piece between separators that is
/// exactly `..`. Both `/` and `\` separate, as `Path::components` reads a
/// Windows path; on Unix, where `\` is an ordinary character, this refuses
/// a few more paths than `Path::components` finds `..` in.
pub open spec fn has_parent_component(p: Seq<char>) -> bool {
    split_spec(forward_slashes(p), '/').contains(".."@)
}

/// A path has a `..` component exactly when two dots stand in it with a
/// separator (`/` or `\`) or the start of the path before them, and a
/// separator or the end of the path after them: `..`, `../x`, `a/..`,
/// `a/../b`, `a\..\b` do, `a/..b` and `a..` do not.
pub proof fn lemma_parent_component_shape(p: Seq<char>)
    ensures
        has_parent_component(p) <==> exists|st: int|
            #![trigger p[st]]
            0 <= st && st + 2 <= p.len() && p[st] == '.' && p[st + 1] == '.' && (st == 0 || p[st
                - 1] == '/' || p[st - 1] == '\\') && (st + 2 == p.len() || p[st + 2] == '/' || p[st
                + 2] == '\\'),
{
    reveal_strlit("..");
    let f = forward_slashes(p);
    let dd = ".."@;
    assert(dd.len() == 2 && dd[0] == '.' && dd[1] == '.');
    if has_parent_component(p) {
        let k = choose|k: int| 0 <= k < split_spec(f, '/').len() && split_spec(f, '/')[k] == dd;
        lemma_split_piece_bounds(f, '/', k);
        let st = choose|st: int| #[trigger] piece_at(f, '/', k, st);
        assert(f.subrange(st, st + 2)[0] == f[st] && f.subrange(st, st + 2)[1] == f[st + 1]);
        assert(p[st] == '.' && p[st + 1] == '.');
        assert(st == 0 || p[st - 1] == '/' || p[st - 1] == '\\');
        assert(st + 2 == p.len() || p[st + 2] == '/' || p[st + 2] == '\\');
    }
    if exists|st: int|
        #![trigger p[st]]
        0 <= st && st + 2 <= p.len() && p[st] == '.' && p[st + 1] == '.' && (st == 0 || p[st - 1]
            == '/' || p[st - 1] == '\\') && (st + 2 == p.len() || p[st + 2] == '/' || p[st + 2]
            == '\\') {
        let st = choose|st: int|
            #![trigger p[st]]
            0 <= st && st + 2 <= p.len() && p[st] == '.' && p[st + 1] == '.' && (st == 0 || p[st
                - 1] == '/' || p[st - 1] == '\\') && (st + 2 == p.len() || p[st + 2] == '/' || p[st
                + 2] == '\\');
        assert(f.subrange(st, st + 2) =~= dd);
        assert(!dd.contains('/')) by {
            if dd.contains('/') {
                let t = choose|t: int| 0 <= t < dd.len() && dd[t] == '/';
            }
        }
        lemma_split_has_piece(f, '/', dd, st);
    }
}

fn with_forward_slashes(v: &Vec<char>) -> (r: Vec<char>)
    ensures
        r@ == forward_slashes(v@),
{
    let mut r: Vec<char> = Vec::new();
    let mut i: usize = 0;
    while i < v.len()
        invariant
            i <= v.len(),
            r@ == forward_slashes(v@.take(i as int)),
        decreases v.len() - i,
    {
        let c = if v[i] == '\\' {
            '/'
        } else {
            v[i]
        };
        r.push(c);
        assert(forward_slashes(v@.take(i + 1)) =~= forward_slashes(v@.take(i as int)).push(c));
        i += 1;
    }
    assert(v@.take(v.len() as int) =~= v@);
    r
}

/// Whether a text holds a NUL character.
pub open spec fn has_nul(s: Seq<char>) -> bool {
    s.contains('\0')
}

fn contains_nul(v: &Vec<char>) -> (r: bool)
    ensures
        r == has_nul(v@),
{
    let mut i: usize = 0;
    while i < v.len()
        invariant
            i <= v.len(),
            forall|j: int| 0 <= j < i ==> v@[j] != '\0',
        decreases v.len() - i,
    {
        if v[i] == '\0' {
            assert(v@[i as int] == '\0');
            return true;
        }
        i += 1;
    }
    false
}

/// Rejects a `local` path that could escape the intended directory (`..`) or
/// either path carrying an embedded NUL byte. Every backend's download and
/// upload runs it before touching the local filesystem.
pub fn guard_local_path(local: &str, remote: &str) -> (r: Result<(), PathGuardError>)
    ensures
        match r {
            Ok(()) => !has_parent_component(local@) && !has_nul(local@) && !has_nul(remote@),
            Err(PathGuardError::ParentDir(p)) => has_parent_component(local@) && p@ == local@,
            Err(PathGuardError::NulByte) => !has_parent_component(local@) && (has_nul(local@)
                || has_nul(remote@)),
        },
{
    let lv = chars_of(local);
    let pieces = split_chars(&with_forward_slashes(&lv), '/');
    let ghost pv = pieces@.map_values(|p: Vec<char>| p@);
    let mut i: usize = 0;
    while i < pieces.len()
        invariant
            i <= pieces.len(),
            pv == pieces@.map_values(|p: Vec<char>| p@),
            pv == split_spec(forward_slashes(local@), '/'),
            forall|j: int| 0 <= j < i ==> pv[j] != ".."@,
        decreases pieces.len() - i,
    {
        if eq_lit(&pieces[i], "..") {
            assert(pv[i as int] == ".."@);
            return Err(PathGuardError::ParentDir(local.to_owned()));
        }
        i += 1;
    }
    if contains_nul(&lv) || contains_nul(&chars_of(remote)) {
        return Err(PathGuardError::NulByte);
    }
    Ok(())
}

// ---------------------------------------------------------------------------
// Remote paths and listings
// ---------------------------------------------------------------------------

/// A remote directory `path` joined with an entry `name`.
pub open spec fn join_remote_spec(path: Seq<char>, name: Seq<char>) -> Seq<char> {
    if path.len() > 0 && path.last() == '/' {
        path + name
    } else {
        path + "/"@ + name
    }
}

/// A joined remote path is the directory's path, one `/` unless the path
/// already ends with one, and the entry's name.
pub proof fn lemma_join_remote_shape(path: Seq<char>, name: Seq<char>)
    ensures
        ({
            let j = join_remote_spec(path, name);
            let sep: int = if path.len() > 0 && path.last() == '/' {
                0
            } else {
                1
            };
            &&& j.len() == path.len() + sep + name.len()
            &&& j.take(path.len() as int) == path
            &&& j.skip(path.len() + sep) == name
            &&& sep == 1 ==> j[path.len() as int] == '/'
        }),
{
    reveal_strlit("/");
    let j = join_remote_spec(path, name);
    if path.len() > 0 && path.last() == '/' {
        assert(j.take(path.len() as int) =~= path);
        assert(j.skip(path.len() as int) =~= name);
    } else {
        assert(j.take(path.len() as int) =~= path);
        assert(j.skip(path.len() + 1int) =~= name);
    }
}

/// Joins a directory `path` and an entry `name` into a full remote path.
pub fn join_remote(path: &str, name: &str) -> (r: String)
    ensures
        r@ == join_remote_spec(path@, name@),
{
    let pv = chars_of(path);
    let nv = chars_of(name);
    proof {
        reveal_strlit("");
    }
    if pv.len() > 0 && pv[pv.len() - 1] == '/' {
        let r = concat_text(path, &nv, "");
        assert(path@ + nv@ + ""@ =~= path@ + name@);
        r
    } else {
        let mut mid: Vec<char> = Vec::new();
        mid.push('/');
        proof {
            reveal_strlit("/");
            assert(mid@ =~= "/"@);
        }
        let mut k: usize = 0;
        while k < nv.len()
            invariant
                k <= nv.len(),
                mid@ == "/"@ + nv@.take(k as int),
            decreases nv.len() - k,
        {
            mid.push(nv[k]);
            assert(mid@ =~= "/"@ + nv@.take(k + 1));
            k += 1;
        }
        assert(nv@.take(nv.len() as int) =~= nv@);
        let r = concat_text(path, &mid, "");
        assert(path@ + mid@ + ""@ =~= path@ + "/"@ + name@);
        r
    }
}

/// The parent of a path, as `Path::parent` gives it.
pub uninterp spec fn path_parent(p: Seq<char>) -> Option<Seq<char>>;

/// Calls `Path::parent`. Trusted: the result is a function of the path alone,
/// named `path_parent`; as its documentation says, a root (`/`) and the empty
/// path have none. What it returns for other paths is left unsaid here.
#[verifier::external_body]
fn parent_of(p: &str) -> (r: Option<String>)
    ensures
        opt_view(r) == path_parent(p@),
        p@ == "/"@ ==> r is None,
        p@.len() == 0 ==> r is None,
{
    match std::path::Path::new(p).parent() {
        Some(q) => Some(q.to_string_lossy().into_owned()),
        None => None,
    }
}

/// The `..` entry of a listing of `path`: none at the root, else pointing at
/// the parent (the root when the parent is empty).
pub open spec fn parent_entries(path: Seq<char>) -> Seq<(Seq<char>, Seq<char>, u64, bool)> {
    match path_parent(path) {
        Some(q) => seq![(".."@, if q.len() == 0 { "/"@ } else { q }, 0u64, true)],
        None => Seq::empty(),
    }
}

fn parent_entry(path: &str) -> (r: Option<FileEntry>)
    ensures
        match r {
            Some(e) => parent_entries(path@) == seq![e@],
            None => parent_entries(path@).len() == 0,
        },
{
    match parent_of(path) {
        Some(q) => {
            let target = if q.as_str().is_empty() {
                "/".to_owned()
            } else {
                q
            };
            Some(FileEntry { name: "..".to_owned(), path: target, size: 0, is_dir: true })
        },
        None => None,
    }
}

/// Where an entry goes in a listing: `..` first, then directories, then
/// files.
pub open spec fn entry_rank(e: (Seq<char>, Seq<char>, u64, bool)) -> int {
    if e.0 == ".."@ {
        0
    } else if e.3 {
        1
    } else {
        2
    }
}

/// The listing order key of an entry: its rank, then its lower-cased name.
pub open spec fn entry_key(e: (Seq<char>, Seq<char>, u64, bool)) -> (int, Seq<char>) {
    (entry_rank(e), lowercase(e.0))
}

/// Whether `out` is `all` ordered by listing key, equal keys in their order
/// in `all` (what the stable `sort_by` gives).
pub open spec fn is_listing_order(
    all: Seq<(Seq<char>, Seq<char>, u64, bool)>,
    out: Seq<(Seq<char>, Seq<char>, u64, bool)>,
) -> bool {
    exists|p: Seq<usize>|
        #![trigger is_permutation_of_range(p, all.len())]
        is_permutation_of_range(p, all.len()) && sorted_by_key(all.map_values(|e| entry_key(e)), p)
            && out.len() == p.len() && forall|j: int|
            0 <= j < p.len() ==> #[trigger] out[j] == all[p[j] as int]
}

/// In a listing, ranks never go down: the `..` entry, then directories, then
/// files.
pub proof fn lemma_listing_ranks(
    all: Seq<(Seq<char>, Seq<char>, u64, bool)>,
    out: Seq<(Seq<char>, Seq<char>, u64, bool)>,
    i: int,
    j: int,
)
    requires
        is_listing_order(all, out),
        0 <= i < j < out.len(),
    ensures
        entry_rank(out[i]) <= entry_rank(out[j]),
{
    let p = choose|p: Seq<usize>|
        #![trigger is_permutation_of_range(p, all.len())]
        is_permutation_of_range(p, all.len()) && sorted_by_key(all.map_values(|e| entry_key(e)), p)
            && out.len() == p.len() && forall|j: int|
            0 <= j < p.len() ==> #[trigger] out[j] == all[p[j] as int];
    let keys = all.map_values(|e| entry_key(e));
    assert(precedes(keys, p[i] as int, p[j] as int));
    assert(out[i] == all[p[i] as int] && out[j] == all[p[j] as int]);
    assert(keys[p[i] as int] == entry_key(all[p[i] as int]));
    assert(keys[p[j] as int] == entry_key(all[p[j] as int]));
}

/// A listing of a directory that has a parent starts with the `..` entry
/// pointing at it.
pub proof fn lemma_listing_parent_first(
    path: Seq<char>,
    raw: Seq<(Seq<char>, Seq<char>, u64, bool)>,
    out: Seq<(Seq<char>, Seq<char>, u64, bool)>,
)
    requires
        is_listing_order(parent_entries(path) + raw, out),
        path_parent(path) is Some,
    ensures
        out.len() > 0,
        out[0] == parent_entries(path)[0],
{
    let all = parent_entries(path) + raw;
    let keys = all.map_values(|e| entry_key(e));
    let p = choose|p: Seq<usize>|
        #![trigger is_permutation_of_range(p, all.len())]
        is_permutation_of_range(p, all.len()) && sorted_by_key(keys, p) && out.len() == p.len()
            && forall|j: int| 0 <= j < p.len() ==> #[trigger] out[j] == all[p[j] as int];
    assert(all[0] == parent_entries(path)[0]);
    reveal_strlit("..");
    assert(all.len() > 0);
    assert(p.contains(0usize));
    let z = choose|z: int| 0 <= z < p.len() && p[z] == 0usize;
    if z > 0 {
        let x = p[0] as int;
        assert(precedes(keys, x, 0));
        assert(x != 0) by {
            lemma_precedes_order(keys, 0, 0, 0);
        }
        assert(keys[0] == entry_key(all[0]));
        assert(keys[x] == entry_key(all[x]));
        assert(entry_rank(all[0]) == 0);
        if entry_rank(all[x]) == 0 {
            assert(all[x].0 == ".."@);
            assert(keys[x] == keys[0]);
        }
        assert(precedes(keys, 0, x));
        lemma_precedes_order(keys, x, 0, 0);
    }
}

/// Sorts entries: `..` first, then directories, then files, each group
/// case-insensitively by name; ties keep their order.
pub fn sort_listing(entries: Vec<FileEntry>) -> (r: Vec<FileEntry>)
    ensures
        is_listing_order(entry_views(entries@), entry_views(r@)),
{
    let ghost all = entry_views(entries@);
    let mut keys: Vec<OrderKey> = Vec::new();
    let mut i: usize = 0;
    while i < entries.len()
        invariant
            i <= entries.len(),
            all == entry_views(entries@),
            keys.len() == i,
            forall|t: int| 0 <= t < i ==> (#[trigger] keys@[t])@ == entry_key(all[t]),
        decreases entries.len() - i,
    {
        let e = &entries[i];
        let rank: i128 = if eq_lit(&chars_of(e.name.as_str()), "..") {
            0
        } else if e.is_dir {
            1
        } else {
            2
        };
        keys.push(OrderKey { major: rank, minor: lowercase_chars(e.name.as_str()) });
        assert(all[i as int] == entries@[i as int]@);
        i += 1;
    }
    let p = sort_positions(&keys);
    let mut out: Vec<FileEntry> = Vec::new();
    let mut m: usize = 0;
    while m < p.len()
        invariant
            m <= p.len(),
            all == entry_views(entries@),
            is_permutation_of_range(p@, entries.len() as nat),
            out@.len() == m,
            forall|t: int| 0 <= t < m ==> (#[trigger] out@[t])@ == all[p@[t] as int],
        decreases p.len() - m,
    {
        let e = copy_entry(&entries[p[m]]);
        out.push(e);
        m += 1;
    }
    proof {
        let kv = key_views(keys@);
        assert(kv =~= all.map_values(|e| entry_key(e)));
        let ov = entry_views(out@);
        assert forall|j: int| 0 <= j < p@.len() implies #[trigger] ov[j] == all[p@[j] as int] by {
            assert(ov[j] == out@[j]@);
        }
    }
    out
}

/// A listing of `path` made of `raw` entries: the `..` entry when there is a
/// parent, then the entries, in listing order.
pub fn finish_listing(path: &str, raw: Vec<FileEntry>) -> (r: Vec<FileEntry>)
    ensures
        is_listing_order(parent_entries(path@) + entry_views(raw@), entry_views(r@)),
{
    let mut all: Vec<FileEntry> = Vec::new();
    match parent_entry(path) {
        Some(e) => all.push(e),
        None => {},
    }
    let ghost head = entry_views(all@);
    assert(head == parent_entries(path@));
    let mut raw = raw;
    let ghost rv = entry_views(raw@);
    let mut i: usize = 0;
    while i < raw.len()
        invariant
            i <= raw.len(),
            rv == entry_views(raw@),
            entry_views(all@) == head + rv.take(i as int),
        decreases raw.len() - i,
    {
        let e = copy_entry(&raw[i]);
        let ghost before = all@;
        all.push(e);
        assert(entry_views(all@) =~= entry_views(before).push(e@));
        assert(rv.take(i + 1) =~= rv.take(i as int).push(rv[i as int]));
        i += 1;
    }
    assert(rv.take(raw.len() as int) =~= rv);
    sort_listing(all)
}

/// A directory entry as the SFTP server reports it.
#[derive(Debug, Clone)]
pub struct RemoteDirEntry {
    pub name: String,
    /// The size, when the server reports one.
    pub size: Option<u64>,
    pub is_dir: bool,
}

/// The size a listing shows for an entry of `size` bytes: `0` for a
/// directory, whatever size the source reports for it.
pub open spec fn shown_size(size: u64, is_dir: bool) -> u64 {
    if is_dir {
        0
    } else {
        size
    }
}

/// The listing entry for an entry `name` of the remote directory `path`.
pub open spec fn remote_entry(path: Seq<char>, name: Seq<char>, size: u64, is_dir: bool) -> (
    Seq<char>,
    Seq<char>,
    u64,
    bool,
) {
    (name, join_remote_spec(path, name), shown_size(size, is_dir), is_dir)
}

/// The listing entries of SFTP directory entries of `path`: full paths
/// joined, a missing size read as 0, a directory's size shown as 0.
pub open spec fn sftp_entries(path: Seq<char>, raw: Seq<RemoteDirEntry>) -> Seq<
    (Seq<char>, Seq<char>, u64, bool),
> {
    raw.map_values(
        |e: RemoteDirEntry|
            remote_entry(
                path,
                e.name@,
                match e.size {
                    Some(s) => s,
                    None => 0,
                },
                e.is_dir,
            ),
    )
}

/// The listing of the remote directory `path` from the entries the SFTP
/// server returned for it.
pub fn sftp_listing(path: &str, raw: &Vec<RemoteDirEntry>) -> (r: Vec<FileEntry>)
    ensures
        is_listing_order(parent_entries(path@) + sftp_entries(path@, raw@), entry_views(r@)),
{
    let mut entries: Vec<FileEntry> = Vec::new();
    let mut i: usize = 0;
    while i < raw.len()
        invariant
            i <= raw.len(),
            entries@.len() == i,
            forall|t: int|
                0 <= t < i ==> (#[trigger] entries@[t])@ == sftp_entries(path@, raw@)[t],
        decreases raw.len() - i,
    {
        let e = &raw[i];
        let size = match e.size {
            Some(s) if !e.is_dir => s,
            _ => 0,
        };
        entries.push(
            FileEntry {
                name: copy_string(&e.name),
                path: join_remote(path, e.name.as_str()),
                size,
                is_dir: e.is_dir,
            },
        );
        i += 1;
    }
    assert(entry_views(entries@) =~= sftp_entries(path@, raw@));
    finish_listing(path, entries)
}

/// The entries read from a local directory as its listing shows them: a
/// directory's size is 0, whatever length the filesystem reports for it.
pub open spec fn local_entries(raw: Seq<FileEntry>) -> Seq<(Seq<char>, Seq<char>, u64, bool)> {
    raw.map_values(|e: FileEntry| (e.name@, e.path@, shown_size(e.size, e.is_dir), e.is_dir))
}

/// The listing of a local directory `path` from the entries read from it
/// (their names and paths as the filesystem gives them).
pub fn local_listing(path: &str, raw: Vec<FileEntry>) -> (r: Vec<FileEntry>)
    ensures
        is_listing_order(parent_entries(path@) + local_entries(raw@), entry_views(r@)),
{
    let mut entries: Vec<FileEntry> = Vec::new();
    let mut i: usize = 0;
    while i < raw.len()
        invariant
            i <= raw.len(),
            entries@.len() == i,
            forall|t: int| 0 <= t < i ==> (#[trigger] entries@[t])@ == local_entries(raw@)[t],
        decreases raw.len() - i,
    {
        let e = &raw[i];
        let size = if e.is_dir {
            0
        } else {
            e.size
        };
        entries.push(
            FileEntry {
                name: copy_string(&e.name),
                path: copy_string(&e.path),
                size,
                is_dir: e.is_dir,
            },
        );
        i += 1;
    }
    assert(entry_views(entries@) =~= local_entries(raw@));
    finish_listing(path, entries)
}

/// Every entry handed to a listing is in it.
proof fn lemma_listing_holds(
    all: Seq<(Seq<char>, Seq<char>, u64, bool)>,
    out: Seq<(Seq<char>, Seq<char>, u64, bool)>,
    i: int,
)
    requires
        is_listing_order(all, out),
        0 <= i < all.len(),
        all.len() <= usize::MAX,
    ensures
        exists|k: int| 0 <= k < out.len() && out[k] == all[i],
{
    let p = choose|p: Seq<usize>|
        #![trigger is_permutation_of_range(p, all.len())]
        is_permutation_of_range(p, all.len()) && sorted_by_key(all.map_values(|e| entry_key(e)), p)
            && out.len() == p.len() && forall|j: int|
            0 <= j < p.len() ==> #[trigger] out[j] == all[p[j] as int];
    assert(p.contains(i as usize));
    let t = choose|t: int| 0 <= t < p.len() && p[t] == i as usize;
    assert(out[t] == all[p[t] as int]);
    assert(p[t] as int == i);
    assert(0 <= t < out.len() && out[t] == all[i]);
}

/// Every entry of a listing is one of the entries handed to it.
proof fn lemma_listing_from(
    all: Seq<(Seq<char>, Seq<char>, u64, bool)>,
    out: Seq<(Seq<char>, Seq<char>, u64, bool)>,
    k: int,
)
    requires
        is_listing_order(all, out),
        0 <= k < out.len(),
    ensures
        exists|i: int| 0 <= i < all.len() && out[k] == all[i],
{
    let p = choose|p: Seq<usize>|
        #![trigger is_permutation_of_range(p, all.len())]
        is_permutation_of_range(p, all.len()) && sorted_by_key(all.map_values(|e| entry_key(e)), p)
            && out.len() == p.len() && forall|j: int|
            0 <= j < p.len() ==> #[trigger] out[j] == all[p[j] as int];
    assert(out[k] == all[p[k] as int]);
}

/// A listing of a directory that has a parent starts with the `..` entry:
/// a directory of size 0 whose path is the parent (`/` when the parent is
/// the empty path).
pub proof fn lemma_listing_parent_entry(
    path: Seq<char>,
    raw: Seq<(Seq<char>, Seq<char>, u64, bool)>,
    out: Seq<(Seq<char>, Seq<char>, u64, bool)>,
    q: Seq<char>,
)
    requires
        is_listing_order(parent_entries(path) + raw, out),
        path_parent(path) == Some(q),
    ensures
        out.len() > 0,
        out[0] == (
            ".."@,
            if q.len() == 0 {
                "/"@
            } else {
                q
            },
            0u64,
            true,
        ),
{
    lemma_listing_parent_first(path, raw, out);
}

/// An SFTP listing shows each entry the server returned under its name, at
/// the directory's path joined with the name: a file with the size the
/// server reported (0 when it reported none), a directory with size 0.
pub proof fn lemma_sftp_listing_entries(
    path: Seq<char>,
    raw: Seq<RemoteDirEntry>,
    out: Seq<(Seq<char>, Seq<char>, u64, bool)>,
    i: int,
)
    requires
        is_listing_order(parent_entries(path) + sftp_entries(path, raw), out),
        0 <= i < raw.len(),
        raw.len() < usize::MAX,
    ensures
        exists|k: int|
            0 <= k < out.len() && out[k] == (
                raw[i].name@,
                join_remote_spec(path, raw[i].name@),
                if raw[i].is_dir {
                    0u64
                } else {
                    match raw[i].size {
                        Some(s) => s,
                        None => 0u64,
                    }
                },
                raw[i].is_dir,
            ),
{
    let all = parent_entries(path) + sftp_entries(path, raw);
    let n = parent_entries(path).len() as int;
    assert(all[n + i] == sftp_entries(path, raw)[i]);
    lemma_listing_holds(all, out, n + i);
}

/// A local listing shows each entry read from the directory with its name
/// and path: a file with its size, a directory with size 0.
pub proof fn lemma_local_listing_entries(
    path: Seq<char>,
    raw: Seq<FileEntry>,
    out: Seq<(Seq<char>, Seq<char>, u64, bool)>,
    i: int,
)
    requires
        is_listing_order(parent_entries(path) + local_entries(raw), out),
        0 <= i < raw.len(),
        raw.len() < usize::MAX,
    ensures
        exists|k: int|
            0 <= k < out.len() && out[k] == (
                raw[i].name@,
                raw[i].path@,
                if raw[i].is_dir {
                    0u64
                } else {
                    raw[i].size
                },
                raw[i].is_dir,
            ),
{
    let all = parent_entries(path) + local_entries(raw);
    let n = parent_entries(path).len() as int;
    assert(all[n + i] == local_entries(raw)[i]);
    lemma_listing_holds(all, out, n + i);
}

/// One parsed line of an FTP `LIST` reply.
#[derive(Debug, Clone)]
pub struct ListedFile {
    pub name: String,
    pub size: usize,
    pub is_dir: bool,
}

/// Whether `line` may hold an MLSX `modify` fact dated
/// 1969-12-31 23:59:60, the leap second one second before the epoch:
/// `suppaftp` turns that instant into a `Duration` whose second count
/// overflows, and panics. The fact's value is read field by field, each
/// field's digits written together, so such a line holds a `=` and the digit
/// groups `1969`, `12`, `31`, `23`, `59` and `60`; this test asks for just
/// those, so it also holds of a few lines that would parse.
pub open spec fn may_hold_leap_epoch_time(line: Seq<char>) -> bool {
    &&& text_contains(line, "="@)
    &&& text_contains(line, "1969"@)
    &&& text_contains(line, "12"@)
    &&& text_contains(line, "31"@)
    &&& text_contains(line, "23"@)
    &&& text_contains(line, "59"@)
    &&& text_contains(line, "60"@)
}

/// Whether `line` may hold the leap-second time that `suppaftp`'s parser
/// cannot handle (see [`may_hold_leap_epoch_time`]).
pub fn holds_leap_epoch_time(line: &str) -> (r: bool)
    ensures
        r == may_hold_leap_epoch_time(line@),
{
    let v = chars_of(line);
    contains_chars(&v, &chars_of("=")) && contains_chars(&v, &chars_of("1969"))
        && contains_chars(&v, &chars_of("12")) && contains_chars(&v, &chars_of("31"))
        && contains_chars(&v, &chars_of("23")) && contains_chars(&v, &chars_of("59"))
        && contains_chars(&v, &chars_of("60"))
}

/// Whether the result of parsing `line` can depend on the current date: a
/// POSIX line without a year is dated this year, and `Feb 29` is a date only
/// in leap years. Such a line holds the day digits `29`.
pub open spec fn may_depend_on_date(line: Seq<char>) -> bool {
    text_contains(line, "29"@)
}

/// What `suppaftp`'s `File::from_str` reads from a `LIST` line (name, size
/// and directory flag, or `None` when no format fits), for a line whose
/// result does not depend on the current date.
pub uninterp spec fn listed_line(line: Seq<char>) -> Option<(Seq<char>, u64, bool)>;

/// The name, size and directory flag of a parsed line.
pub open spec fn listed_view(r: Option<ListedFile>) -> Option<(Seq<char>, u64, bool)> {
    match r {
        Some(f) => Some((f.name@, f.size as u64, f.is_dir)),
        None => None,
    }
}

/// Parses one `LIST` reply line with `suppaftp`'s `File::from_str` (POSIX,
/// then DOS, then MLST format), keeping name, size and directory flag.
/// Trusted. The name of a parsed file is a piece of its line (a capture of
/// the POSIX or DOS pattern, the part before ` -> ` of a link, or the part of
/// an MLSX line after its facts). The result is `listed_line` of the line,
/// except on a line that may be dated `Feb 29` without a year: whether that
/// parses depends on whether this year is a leap year, and nothing is
/// promised of it. A line that may hold an MLSX time at the leap second
/// before the epoch is left out, because the parser panics on it.
#[verifier::external_body]
fn parse_list_line(line: &str) -> (r: Option<ListedFile>)
    requires
        !may_hold_leap_epoch_time(line@),
    ensures
        r matches Some(f) ==> text_contains(line@, f.name@),
        !may_depend_on_date(line@) ==> listed_view(r) == listed_line(line@),
{
    match line.parse::<suppaftp::list::File>() {
        Ok(f) => Some(ListedFile { name: f.name().to_string(), size: f.size(), is_dir: f.is_directory() }),
        Err(_) => None,
    }
}

/// The listing entries of parsed `LIST` lines of `path`: `.` and `..` lines
/// dropped, full paths joined, a directory's size shown as 0.
pub open spec fn ftp_entries(path: Seq<char>, files: Seq<ListedFile>) -> Seq<
    (Seq<char>, Seq<char>, u64, bool),
>
    decreases files.len(),
{
    if files.len() == 0 {
        Seq::empty()
    } else {
        let r = ftp_entries(path, files.drop_last());
        let f = files.last();
        if f.name@ == "."@ || f.name@ == ".."@ {
            r
        } else {
            r.push(remote_entry(path, f.name@, f.size as u64, f.is_dir))
        }
    }
}

proof fn lemma_ftp_entries_len(path: Seq<char>, files: Seq<ListedFile>)
    ensures
        ftp_entries(path, files).len() <= files.len(),
    decreases files.len(),
{
    if files.len() > 0 {
        lemma_ftp_entries_len(path, files.drop_last());
    }
}

proof fn lemma_ftp_entries_hold(path: Seq<char>, files: Seq<ListedFile>, i: int)
    requires
        0 <= i < files.len(),
        files[i].name@ != "."@,
        files[i].name@ != ".."@,
    ensures
        exists|t: int|
            0 <= t < ftp_entries(path, files).len() && ftp_entries(path, files)[t] == (
                files[i].name@,
                join_remote_spec(path, files[i].name@),
                if files[i].is_dir {
                    0u64
                } else {
                    files[i].size as u64
                },
                files[i].is_dir,
            ),
    decreases files.len(),
{
    let d = files.drop_last();
    let r = ftp_entries(path, d);
    let f = files.last();
    let e = ftp_entries(path, files);
    let want = (
        files[i].name@,
        join_remote_spec(path, files[i].name@),
        if files[i].is_dir {
            0u64
        } else {
            files[i].size as u64
        },
        files[i].is_dir,
    );
    if i < files.len() - 1 {
        assert(d[i] == files[i]);
        lemma_ftp_entries_hold(path, d, i);
        let t = choose|t: int| 0 <= t < r.len() && r[t] == want;
        if f.name@ == "."@ || f.name@ == ".."@ {
            assert(e == r);
        } else {
            assert(e == r.push(remote_entry(path, f.name@, f.size as u64, f.is_dir)));
            assert(e[t] == r[t]);
        }
        assert(0 <= t < e.len() && e[t] == want);
    } else {
        assert(f == files[i]);
        assert(e == r.push(remote_entry(path, f.name@, f.size as u64, f.is_dir)));
        assert(e[r.len() as int] == want);
    }
}

proof fn lemma_ftp_entries_no_dots(path: Seq<char>, files: Seq<ListedFile>, t: int)
    requires
        0 <= t < ftp_entries(path, files).len(),
    ensures
        ftp_entries(path, files)[t].0 != "."@,
        ftp_entries(path, files)[t].0 != ".."@,
    decreases files.len(),
{
    let d = files.drop_last();
    let r = ftp_entries(path, d);
    let f = files.last();
    if f.name@ == "."@ || f.name@ == ".."@ {
        lemma_ftp_entries_no_dots(path, d, t);
    } else if t < r.len() {
        assert(ftp_entries(path, files)[t] == r[t]);
        lemma_ftp_entries_no_dots(path, d, t);
    } else {
        assert(ftp_entries(path, files)[t].0 == f.name@);
    }
}

/// A listing of parsed `LIST` lines holds no `.` entry, and its only `..`
/// entry is the parent entry: the server's own `.` and `..` lines are
/// dropped.
pub proof fn lemma_ftp_listing_drops_dot_entries(
    path: Seq<char>,
    files: Seq<ListedFile>,
    out: Seq<(Seq<char>, Seq<char>, u64, bool)>,
    k: int,
)
    requires
        is_listing_order(parent_entries(path) + ftp_entries(path, files), out),
        0 <= k < out.len(),
    ensures
        out[k].0 != "."@,
        out[k].0 == ".."@ ==> (path_parent(path) matches Some(q) && out[k] == (
            ".."@,
            if q.len() == 0 {
                "/"@
            } else {
                q
            },
            0u64,
            true,
        )),
{
    reveal_strlit(".");
    reveal_strlit("..");
    let all = parent_entries(path) + ftp_entries(path, files);
    lemma_listing_from(all, out, k);
    let i = choose|i: int| 0 <= i < all.len() && out[k] == all[i];
    let n = parent_entries(path).len() as int;
    if i >= n {
        assert(all[i] == ftp_entries(path, files)[i - n]);
        lemma_ftp_entries_no_dots(path, files, i - n);
    } else {
        assert(".."@ != "."@) by {
            assert(".."@.len() != "."@.len());
        }
    }
}

/// A listing of parsed `LIST` lines shows each parsed file other than `.`
/// and `..` under its name, at the directory's path joined with the name: a
/// file with its parsed size, a directory with size 0.
pub proof fn lemma_ftp_listing_entries(
    path: Seq<char>,
    files: Seq<ListedFile>,
    out: Seq<(Seq<char>, Seq<char>, u64, bool)>,
    i: int,
)
    requires
        is_listing_order(parent_entries(path) + ftp_entries(path, files), out),
        0 <= i < files.len(),
        files.len() < usize::MAX,
        files[i].name@ != "."@,
        files[i].name@ != ".."@,
    ensures
        exists|k: int|
            0 <= k < out.len() && out[k] == (
                files[i].name@,
                join_remote_spec(path, files[i].name@),
                if files[i].is_dir {
                    0u64
                } else {
                    files[i].size as u64
                },
                files[i].is_dir,
            ),
{
    lemma_ftp_entries_hold(path, files, i);
    lemma_ftp_entries_len(path, files);
    let e = ftp_entries(path, files);
    let t = choose|t: int|
        0 <= t < e.len() && e[t] == (
            files[i].name@,
            join_remote_spec(path, files[i].name@),
            if files[i].is_dir {
                0u64
            } else {
                files[i].size as u64
            },
            files[i].is_dir,
        );
    let all = parent_entries(path) + e;
    let n = parent_entries(path).len() as int;
    assert(all[n + t] == e[t]);
    lemma_listing_holds(all, out, n + t);
}

/// The listing of the remote directory `path` from parsed `LIST` lines.
pub fn ftp_listing_of(path: &str, files: &Vec<ListedFile>) -> (r: Vec<FileEntry>)
    ensures
        is_listing_order(parent_entries(path@) + ftp_entries(path@, files@), entry_views(r@)),
{
    let mut entries: Vec<FileEntry> = Vec::new();
    let mut i: usize = 0;
    while i < files.len()
        invariant
            i <= files.len(),
            entry_views(entries@) == ftp_entries(path@, files@.take(i as int)),
        decreases files.len() - i,
    {
        let f = &files[i];
        assert(files@.take(i + 1).drop_last() =~= files@.take(i as int));
        assert(files@.take(i + 1).last() == files@[i as int]);
        let nv = chars_of(f.name.as_str());
        if !eq_lit(&nv, ".") && !eq_lit(&nv, "..") {
            let ghost before = entries@;
            entries.push(
                FileEntry {
                    name: copy_string(&f.name),
                    path: join_remote(path, f.name.as_str()),
                    size: if f.is_dir {
                        0
                    } else {
                        f.size as u64
                    },
                    is_dir: f.is_dir,
                },
            );
            assert(entry_views(entries@) =~= entry_views(before).push(entries@.last()@));
        }
        i += 1;
    }
    assert(files@.take(files.len() as int) =~= files@);
    finish_listing(path, entries)
}

/// Whether `files` were parsed, in order, from the lines of `lines` at the
/// increasing positions `from`: none from a line that may hold the
/// leap-second time, each named by a piece of its line and, where its line
/// cannot depend on the date, what `listed_line` reads from it; and every
/// such line that `listed_line` reads a file from is among the positions.
pub open spec fn parsed_from(lines: Seq<String>, files: Seq<ListedFile>, from: Seq<int>) -> bool {
    &&& files.len() == from.len()
    &&& forall|k: int|
        0 <= k < from.len() ==> {
            &&& 0 <= #[trigger] from[k] < lines.len()
            &&& !may_hold_leap_epoch_time(lines[from[k]]@)
            &&& text_contains(lines[from[k]]@, files[k].name@)
            &&& !may_depend_on_date(lines[from[k]]@) ==> listed_line(lines[from[k]]@) == listed_view(
                Some(files[k]),
            )
        }
    &&& forall|a: int, b: int| 0 <= a < b < from.len() ==> #[trigger] from[a] < #[trigger] from[b]
    &&& forall|i: int|
        0 <= i < lines.len() && !may_hold_leap_epoch_time(#[trigger] lines[i]@)
            && !may_depend_on_date(lines[i]@) && listed_line(lines[i]@) is Some ==> exists|k: int|
            0 <= k < from.len() && #[trigger] from[k] == i
}

/// The listing of the remote directory `path` from the lines of its `LIST`
/// reply: each line parsed (unparsable lines skipped, and lines that may hold
/// the leap-second time the parser panics on), then listed as
/// [`ftp_listing_of`] lists parsed lines.
pub fn ftp_listing(path: &str, lines: &Vec<String>) -> (r: Vec<FileEntry>)
    ensures
        exists|files: Seq<ListedFile>, from: Seq<int>|
            #[trigger] parsed_from(lines@, files, from) && is_listing_order(
                parent_entries(path@) + ftp_entries(path@, files),
                entry_views(r@),
            ),
{
    let mut files: Vec<ListedFile> = Vec::new();
    let ghost mut from: Seq<int> = Seq::empty();
    let mut i: usize = 0;
    while i < lines.len()
        invariant
            i <= lines.len(),
            files@.len() == from.len(),
            forall|k: int|
                0 <= k < from.len() ==> {
                    &&& 0 <= #[trigger] from[k] < i
                    &&& !may_hold_leap_epoch_time(lines@[from[k]]@)
                    &&& text_contains(lines@[from[k]]@, files@[k].name@)
                    &&& !may_depend_on_date(lines@[from[k]]@) ==> listed_line(lines@[from[k]]@)
                        == listed_view(Some(files@[k]))
                },
            forall|a: int, b: int| 0 <= a < b < from.len() ==> #[trigger] from[a] < #[trigger] from[b],
            forall|j: int|
                0 <= j < i && !may_hold_leap_epoch_time(#[trigger] lines@[j]@)
                    && !may_depend_on_date(lines@[j]@) && listed_line(lines@[j]@) is Some ==> exists|k: int|
                    0 <= k < from.len() && #[trigger] from[k] == j,
        decreases lines.len() - i,
    {
        let line = lines[i].as_str();
        let ghost fb = files@;
        let ghost frb = from;
        if !holds_leap_epoch_time(line) {
            match parse_list_line(line) {
                Some(f) => {
                    files.push(f);
                    proof {
                        from = from.push(i as int);
                        assert(from[from.len() - 1] == i);
                        assert forall|j: int|
                            0 <= j < i + 1 && !may_hold_leap_epoch_time(#[trigger] lines@[j]@)
                                && !may_depend_on_date(lines@[j]@) && listed_line(lines@[j]@) is Some implies exists|k: int|
                                0 <= k < from.len() && #[trigger] from[k] == j by {
                            if j < i {
                                let k = choose|k: int| 0 <= k < frb.len() && #[trigger] frb[k] == j;
                                assert(from[k] == frb[k]);
                            } else {
                                assert(from[from.len() - 1] == j);
                            }
                        }
                    }
                },
                None => {
                    proof {
                        assert forall|j: int|
                            0 <= j < i + 1 && !may_hold_leap_epoch_time(#[trigger] lines@[j]@)
                                && !may_depend_on_date(lines@[j]@) && listed_line(lines@[j]@) is Some implies exists|k: int|
                                0 <= k < from.len() && #[trigger] from[k] == j by {
                            if j == i {
                                assert(listed_view(None) is None);
                            }
                        }
                    }
                },
            }
        }
        i += 1;
    }
    let r = ftp_listing_of(path, &files);
    assert(parsed_from(lines@, files@, from));
    r
}

// ---------------------------------------------------------------------------
// Transfers and previews
// ---------------------------------------------------------------------------

/// What a transfer loop does after reading a chunk.
#[derive(Debug, Clone, Copy, PartialEq, Eq)]
pub enum TransferStep {
    /// The source is exhausted: the transfer is complete.
    Finished,
    /// Write the chunk, then report `done` of `total` bytes.
    Report { done: u64, total: u64 },
}

/// The step after reading `n` bytes when `done` of `total` were already
/// transferred: an empty read ends the transfer, else the count grows by `n`.
pub fn transfer_step(done: u64, total: u64, n: usize) -> (r: TransferStep)
    requires
        done + n <= u64::MAX,
    ensures
        r == (if n == 0 {
            TransferStep::Finished
        } else {
            TransferStep::Report { done: (done + n) as u64, total }
        }),
{
    if n == 0 {
        TransferStep::Finished
    } else {
        TransferStep::Report { done: done + n as u64, total }
    }
}

/// How many bytes a preview reads.
pub const PREVIEW_BYTES: usize = 4096;

/// The text `String::from_utf8_lossy` makes of `b`.
pub uninterp spec fn lossy_text(b: Seq<u8>) -> Seq<char>;

/// Calls `String::from_utf8_lossy`. Trusted: the result is a function of the
/// bytes, named `lossy_text`; as its documentation says, valid UTF-8 comes
/// back unchanged. How invalid sequences are replaced is left unsaid here.
#[verifier::external_body]
fn utf8_lossy(b: &[u8]) -> (r: String)
    ensures
        r@ == lossy_text(b@),
        vstd::utf8::valid_utf8(b@) ==> r@ == vstd::utf8::decode_utf8(b@),
{
    String::from_utf8_lossy(b).into_owned()
}

/// The preview text of the first `n` bytes of `buf` (all of it when shorter),
/// invalid UTF-8 replaced.
pub fn preview_text(buf: Vec<u8>, n: usize) -> (r: String)
    ensures
        r@ == lossy_text(buf@.take(if n < buf@.len() { n as int } else { buf@.len() as int })),
{
    let ghost orig = buf@;
    let mut buf = buf;
    buf.truncate(n);
    assert(buf@ =~= orig.take(if n < orig.len() { n as int } else { orig.len() as int }));
    utf8_lossy(buf.as_slice())
}

// ---------------------------------------------------------------------------
// What the transfer task reports
// ---------------------------------------------------------------------------

/// Whether the transfer task still serves commands.
#[derive(Debug, Clone, Copy, PartialEq, Eq, Structural)]
pub enum TaskState {
    /// Commands are carried out as they arrive.
    Running,
    /// A `Disconnect` arrived; nothing more is carried out.
    Stopped,
}

/// A call the transfer task makes on its backend.
pub enum BackendCall {
    /// List a remote directory.
    ListDir(String),
    /// Download `remote` to `local`, reporting progress under `transfer_id`.
    Download { remote: String, local: String, transfer_id: TransferId },
    /// Upload `local` to `remote`, reporting progress under `transfer_id`.
    Upload { local: String, remote: String, transfer_id: TransferId },
    /// Delete a remote path.
    Delete(String),
    /// Create a remote directory.
    MkDir(String),
    /// Rename a remote path.
    Rename { from: String, to: String },
    /// Read the first bytes of a remote file.
    ReadPreview(String),
}

/// The backend call a command asks for; `Disconnect` asks for none.
pub open spec fn call_of(cmd: SftpCommand) -> Option<BackendCall> {
    match cmd {
        SftpCommand::ListDir(p) => Some(BackendCall::ListDir(p)),
        SftpCommand::Download { remote, local, transfer_id } => Some(
            BackendCall::Download { remote, local, transfer_id },
        ),
        SftpCommand::Upload { local, remote, transfer_id } => Some(
            BackendCall::Upload { local, remote, transfer_id },
        ),
        SftpCommand::Delete(p) => Some(BackendCall::Delete(p)),
        SftpCommand::MkDir(p) => Some(BackendCall::MkDir(p)),
        SftpCommand::Rename { from, to } => Some(BackendCall::Rename { from, to }),
        SftpCommand::ReadPreview(p) => Some(BackendCall::ReadPreview(p)),
        SftpCommand::Disconnect => None,
    }
}

/// The task's next state and the backend call it makes, on receiving `cmd`
/// in `state`: a running task makes the call the command asks for, and stops
/// on `Disconnect`; a stopped task makes no call.
pub open spec fn task_step_spec(state: TaskState, cmd: SftpCommand) -> (TaskState, Option<BackendCall>) {
    match state {
        TaskState::Stopped => (TaskState::Stopped, None),
        TaskState::Running => match call_of(cmd) {
            Some(c) => (TaskState::Running, Some(c)),
            None => (TaskState::Stopped, None),
        },
    }
}

/// One step of the transfer task: what it does on receiving `cmd` in
/// `state`.
pub fn task_step(state: TaskState, cmd: SftpCommand) -> (r: (TaskState, Option<BackendCall>))
    ensures
        r == task_step_spec(state, cmd),
{
    match state {
        TaskState::Stopped => (TaskState::Stopped, None),
        TaskState::Running => {
            let call = match cmd {
                SftpCommand::ListDir(p) => BackendCall::ListDir(p),
                SftpCommand::Download { remote, local, transfer_id } => BackendCall::Download {
                    remote,
                    local,
                    transfer_id,
                },
                SftpCommand::Upload { local, remote, transfer_id } => BackendCall::Upload {
                    local,
                    remote,
                    transfer_id,
                },
                SftpCommand::Delete(p) => BackendCall::Delete(p),
                SftpCommand::MkDir(p) => BackendCall::MkDir(p),
                SftpCommand::Rename { from, to } => BackendCall::Rename { from, to },
                SftpCommand::ReadPreview(p) => BackendCall::ReadPreview(p),
                SftpCommand::Disconnect => {
                    return (TaskState::Stopped, None);
                },
            };
            (TaskState::Running, Some(call))
        },
    }
}

/// The backend calls a task in `state` makes for the commands `cmds`,
/// received in order.
pub open spec fn run_calls(state: TaskState, cmds: Seq<SftpCommand>) -> Seq<BackendCall>
    decreases cmds.len(),
{
    if cmds.len() == 0 {
        Seq::empty()
    } else {
        let step = task_step_spec(state, cmds[0]);
        let rest = run_calls(step.0, cmds.drop_first());
        match step.1 {
            Some(c) => seq![c] + rest,
            None => rest,
        }
    }
}

/// The commands of `cmds` before the first `Disconnect` (all of them when
/// there is none).
pub open spec fn before_disconnect(cmds: Seq<SftpCommand>) -> Seq<SftpCommand>
    decreases cmds.len(),
{
    if cmds.len() == 0 || cmds[0] is Disconnect {
        Seq::empty()
    } else {
        seq![cmds[0]] + before_disconnect(cmds.drop_first())
    }
}

/// A stopped task makes no more backend calls.
pub proof fn lemma_stopped_task_makes_no_calls(cmds: Seq<SftpCommand>)
    ensures
        run_calls(TaskState::Stopped, cmds) == Seq::<BackendCall>::empty(),
    decreases cmds.len(),
{
    if cmds.len() > 0 {
        lemma_stopped_task_makes_no_calls(cmds.drop_first());
    }
}

/// The transfer task calls its backend once for each command before the
/// first `Disconnect`, in the order they arrive, with the call that command
/// asks for, and never again once a `Disconnect` has arrived.
pub proof fn lemma_task_calls_stop_at_disconnect(cmds: Seq<SftpCommand>)
    ensures
        run_calls(TaskState::Running, cmds) == before_disconnect(cmds).map_values(
            |c: SftpCommand| call_of(c)->0,
        ),
    decreases cmds.len(),
{
    if cmds.len() > 0 {
        if cmds[0] is Disconnect {
            lemma_stopped_task_makes_no_calls(cmds.drop_first());
            assert(before_disconnect(cmds) =~= Seq::<SftpCommand>::empty());
            assert(before_disconnect(cmds).map_values(|c: SftpCommand| call_of(c)->0) =~= Seq::<
                BackendCall,
            >::empty());
        } else {
            lemma_task_calls_stop_at_disconnect(cmds.drop_first());
            let f = |c: SftpCommand| call_of(c)->0;
            let b = before_disconnect(cmds.drop_first());
            assert(before_disconnect(cmds) == seq![cmds[0]] + b);
            assert((seq![cmds[0]] + b).map_values(f) =~= seq![f(cmds[0])] + b.map_values(f));
        }
    } else {
        assert(before_disconnect(cmds).map_values(|c: SftpCommand| call_of(c)->0) =~= Seq::<
            BackendCall,
        >::empty());
    }
}

/// A running task hands each command's own arguments to the backend, in the
/// same roles: a download fetches the command's remote path into its local
/// path under its transfer id, an upload sends its local path to its remote
/// path, and each other command names its own paths; it keeps running, and
/// only `Disconnect` stops it, with no call. A stopped task makes no call.
pub proof fn lemma_task_step_passes_arguments(cmd: SftpCommand)
    ensures
        task_step_spec(TaskState::Stopped, cmd) == (TaskState::Stopped, None::<BackendCall>),
        match cmd {
            SftpCommand::ListDir(p) => task_step_spec(TaskState::Running, cmd) == (
                TaskState::Running,
                Some(BackendCall::ListDir(p)),
            ),
            SftpCommand::Download { remote, local, transfer_id } => task_step_spec(
                TaskState::Running,
                cmd,
            ) == (
                TaskState::Running,
                Some(
                    (BackendCall::Download {
                        remote: remote,
                        local: local,
                        transfer_id: transfer_id,
                    }),
                ),
            ),
            SftpCommand::Upload { local, remote, transfer_id } => task_step_spec(
                TaskState::Running,
                cmd,
            ) == (
                TaskState::Running,
                Some(
                    (BackendCall::Upload {
                        local: local,
                        remote: remote,
                        transfer_id: transfer_id,
                    }),
                ),
            ),
            SftpCommand::Delete(p) => task_step_spec(TaskState::Running, cmd) == (
                TaskState::Running,
                Some(BackendCall::Delete(p)),
            ),
            SftpCommand::MkDir(p) => task_step_spec(TaskState::Running, cmd) == (
                TaskState::Running,
                Some(BackendCall::MkDir(p)),
            ),
            SftpCommand::Rename { from, to } => task_step_spec(TaskState::Running, cmd) == (
                TaskState::Running,
                Some((BackendCall::Rename { from: from, to: to })),
            ),
            SftpCommand::ReadPreview(p) => task_step_spec(TaskState::Running, cmd) == (
                TaskState::Running,
                Some(BackendCall::ReadPreview(p)),
            ),
            SftpCommand::Disconnect => task_step_spec(TaskState::Running, cmd) == (
                TaskState::Stopped,
                None::<BackendCall>,
            ),
        },
{
}

/// How one command of the transfer task ended.
pub enum TaskOutcome {
    /// A listing of `path`, or why it failed.
    Listed { path: String, result: Result<Vec<FileEntry>, String> },
    /// A download, upload, delete, mkdir or rename, and whether it failed.
    Done(Result<(), String>),
    /// A preview of `path`, or why it failed.
    Previewed { path: String, result: Result<String, String> },
}

/// What the transfer task reports to the frontends.
pub enum TaskEvent {
    /// A directory listing arrived.
    DirListed { path: String, entries: Vec<FileEntry> },
    /// The backend is unusable; the reason is shown.
    Disconnected { reason: String },
    /// An operation finished.
    OpDone { result: Result<(), String> },
    /// A preview is ready.
    PreviewReady { path: String, content: String },
}

/// The report for a finished command: a failed listing takes the backend
/// down with the reason `ListDir failed: <error>`, a failed preview is
/// dropped silently, every other outcome is reported as it is.
pub fn task_event(outcome: TaskOutcome) -> (r: Option<TaskEvent>)
    ensures
        match outcome {
            TaskOutcome::Listed { path, result: Ok(entries) } => r == Some(
                TaskEvent::DirListed { path, entries },
            ),
            TaskOutcome::Listed { path: _, result: Err(e) } => r is Some && (match r->0 {
                TaskEvent::Disconnected { reason } => reason@ == "ListDir failed: "@ + e@,
                _ => false,
            }),
            TaskOutcome::Done(result) => r == Some(TaskEvent::OpDone { result }),
            TaskOutcome::Previewed { path, result: Ok(content) } => r == Some(
                TaskEvent::PreviewReady { path, content },
            ),
            TaskOutcome::Previewed { path: _, result: Err(_) } => r is None,
        },
{
    match outcome {
        TaskOutcome::Listed { path, result } => match result {
            Ok(entries) => Some(TaskEvent::DirListed { path, entries }),
            Err(e) => {
                let v = chars_of(e.as_str());
                let reason = concat_text("ListDir failed: ", &v, "");
                proof {
                    reveal_strlit("");
                    assert("ListDir failed: "@ + v@ + ""@ =~= "ListDir failed: "@ + e@);
                }
                Some(TaskEvent::Disconnected { reason })
            },
        },
        TaskOutcome::Done(result) => Some(TaskEvent::OpDone { result }),
        TaskOutcome::Previewed { path, result } => match result {
            Ok(content) => Some(TaskEvent::PreviewReady { path, content }),
            Err(_) => None,
        },
    }
}

// ---------------------------------------------------------------------------
// Choosing and logging in to the Files backend
// ---------------------------------------------------------------------------

/// The FTP protocol's own well-known port; unrelated to `Host::port`, which
/// is the SSH port used for the shell.
pub const FTP_PORT: u16 = 21;

/// Which backend serves a host's Files tab.
#[derive(Debug, Clone, Copy, PartialEq, Eq, Structural)]
pub enum BackendKind {
    /// SFTP over the SSH connection.
    Sftp,
    /// Plain FTP, or explicit FTPS when `tls`.
    Ftp { tls: bool },
}

/// The backend that a host's file access selects.
pub open spec fn backend_kind_of(a: FileAccess) -> Option<BackendKind> {
    match a {
        FileAccess::Sftp => Some(BackendKind::Sftp),
        FileAccess::Ftp => Some(BackendKind::Ftp { tls: false }),
        FileAccess::Ftps => Some(BackendKind::Ftp { tls: true }),
        FileAccess::Disabled => None,
    }
}

/// Whether `r` is the backend choice for `host`: the backend its file access
/// selects, or the message `'<name>' has file access disabled`.
pub open spec fn is_backend_choice(host: Host, r: Result<BackendKind, String>) -> bool {
    match r {
        Ok(k) => backend_kind_of(host.file_access) == Some(k),
        Err(e) => backend_kind_of(host.file_access) is None && e@ == "'"@ + host.name@
            + "' has file access disabled"@,
    }
}

/// An FTP or FTPS host is served by the FTP backend, over TLS exactly for
/// FTPS; only an SFTP host gets the SFTP backend; a host with file access
/// disabled gets none.
pub proof fn lemma_backend_follows_file_access(host: Host, r: Result<BackendKind, String>)
    requires
        is_backend_choice(host, r),
    ensures
        host.file_access == FileAccess::Ftp ==> r == Ok::<BackendKind, String>(
            BackendKind::Ftp { tls: false },
        ),
        host.file_access == FileAccess::Ftps ==> r == Ok::<BackendKind, String>(
            BackendKind::Ftp { tls: true },
        ),
        host.file_access == FileAccess::Sftp ==> r == Ok::<BackendKind, String>(BackendKind::Sftp),
        host.file_access == FileAccess::Disabled ==> r is Err,
        r == Ok::<BackendKind, String>(BackendKind::Sftp) ==> host.file_access == FileAccess::Sftp,
{
}

/// Picks the backend for `host`'s Files tab; a host with file access
/// disabled gets the message `'<name>' has file access disabled`.
pub fn choose_backend(host: &Host) -> (r: Result<BackendKind, String>)
    ensures
        is_backend_choice(*host, r),
{
    match host.file_access {
        FileAccess::Sftp => Ok(BackendKind::Sftp),
        FileAccess::Ftp => Ok(BackendKind::Ftp { tls: false }),
        FileAccess::Ftps => Ok(BackendKind::Ftp { tls: true }),
        FileAccess::Disabled => {
            let v = chars_of(host.name.as_str());
            Err(concat_text("'", &v, "' has file access disabled"))
        },
    }
}

/// Why an FTP login cannot start.
#[derive(Debug, Clone, PartialEq, Eq)]
pub enum FtpSetupError {
    /// The host's file access is not FTP or FTPS.
    NotFtp,
    /// Neither an FTP nor an SSH password is set; carries the host's name.
    NoPassword(String),
}

impl FtpSetupError {
    /// The message shown for this error.
    pub fn message(&self) -> (r: String)
        ensures
            r@ == (match self {
                FtpSetupError::NotFtp => "FtpBackend::connect called for a non-FTP file_access"@,
                FtpSetupError::NoPassword(n) => "host '"@ + n@
                    + "' has no password set — FTP login needs one (SSH key auth doesn't carry over to FTP)"@,
            }),
    {
        match self {
            FtpSetupError::NotFtp => "FtpBackend::connect called for a non-FTP file_access".to_owned(),
            FtpSetupError::NoPassword(n) => {
                let v = chars_of(n.as_str());
                concat_text(
                    "host '",
                    &v,
                    "' has no password set — FTP login needs one (SSH key auth doesn't carry over to FTP)",
                )
            },
        }
    }
}

/// Where an FTP control connection goes.
#[derive(Debug, Clone)]
pub struct FtpEndpoint {
    /// `hostname:port`.
    pub address: String,
    /// The host name TLS checks the certificate against.
    pub server_name: String,
    /// Whether to upgrade with `AUTH TLS` (explicit FTPS).
    pub tls: bool,
}

/// The FTP port a host dials: its override, else 21.
pub open spec fn ftp_port_of(h: Host) -> u16 {
    match h.ftp_port {
        Some(p) => p,
        None => FTP_PORT,
    }
}

/// Whether `r` is where `host`'s FTP connection goes (see [`ftp_endpoint`]).
pub open spec fn is_ftp_endpoint(host: Host, r: Result<FtpEndpoint, FtpSetupError>) -> bool {
    match r {
        Ok(e) => {
            &&& (host.file_access == FileAccess::Ftp || host.file_access == FileAccess::Ftps)
            &&& e.address@ == host.hostname@ + ":"@ + decimal(ftp_port_of(host) as nat)
            &&& e.server_name@ == host.hostname@
            &&& e.tls == (host.file_access == FileAccess::Ftps)
        },
        Err(err) => err == FtpSetupError::NotFtp && host.file_access != FileAccess::Ftp
            && host.file_access != FileAccess::Ftps,
    }
}

/// An FTP or FTPS host is dialled at its address on its FTP port override,
/// or on 21 without one, never on its SSH port for that reason; the port is
/// written in decimal after a `:`. Other hosts are refused.
pub proof fn lemma_ftp_endpoint_port(host: Host, r: Result<FtpEndpoint, FtpSetupError>)
    requires
        is_ftp_endpoint(host, r),
    ensures
        (host.file_access == FileAccess::Ftp || host.file_access == FileAccess::Ftps) <==> r is Ok,
        r matches Ok(e) ==> e.address@ == host.hostname@ + ":"@ + decimal(
            (match host.ftp_port {
                Some(p) => p,
                None => 21u16,
            }) as nat,
        ),
        r matches Ok(e) ==> parse_u16_spec(e.address@.skip(host.hostname@.len() + 1int)) == Some(
            match host.ftp_port {
                Some(p) => p,
                None => 21u16,
            },
        ),
{
    if let Ok(e) = r {
        let p = ftp_port_of(host);
        reveal_strlit(":");
        lemma_parse_decimal(p);
        assert(e.address@.skip(host.hostname@.len() + 1int) =~= decimal(p as nat));
    }
}

/// Where `host`'s FTP connection goes: `hostname:port` with the FTP port
/// override or 21 (never the SSH port), TLS for FTPS.
pub fn ftp_endpoint(host: &Host) -> (r: Result<FtpEndpoint, FtpSetupError>)
    ensures
        is_ftp_endpoint(*host, r),
{
    let tls = match host.file_access {
        FileAccess::Ftp => false,
        FileAccess::Ftps => true,
        _ => {
            return Err(FtpSetupError::NotFtp);
        },
    };
    let port = match host.ftp_port {
        Some(p) => p,
        None => FTP_PORT,
    };
    let digits = chars_of(format_u16(port).as_str());
    let mut tail: Vec<char> = Vec::new();
    tail.push(':');
    let mut k: usize = 0;
    while k < digits.len()
        invariant
            k <= digits.len(),
            tail@ == seq![':'] + digits@.take(k as int),
        decreases digits.len() - k,
    {
        tail.push(digits[k]);
        assert(tail@ =~= seq![':'] + digits@.take(k + 1));
        k += 1;
    }
    proof {
        reveal_strlit("");
        reveal_strlit(":");
        assert(digits@.take(digits.len() as int) =~= digits@);
        assert(":"@ =~= seq![':']);
    }
    let address = concat_text(host.hostname.as_str(), &tail, "");
    assert(address@ =~= host.hostname@ + ":"@ + decimal(port as nat));
    Ok(FtpEndpoint { address, server_name: copy_string(&host.hostname), tls })
}

/// The FTP login of a host: the FTP user override or the SSH user, and the
/// FTP password override or the SSH password. FTP has no key login, so one
/// of the two passwords is required.
pub fn ftp_credentials(host: &Host) -> (r: Result<(String, String), FtpSetupError>)
    ensures
        match r {
            Ok((u, p)) => {
                &&& u@ == (match host.ftp_user {
                    Some(x) => x@,
                    None => host.user@,
                })
                &&& Some(p@) == (match host.ftp_password {
                    Some(x) => Some(x@),
                    None => opt_view(host.password),
                })
            },
            Err(e) => host.ftp_password is None && host.password is None
                && e == FtpSetupError::NoPassword(host.name),
        },
{
    let user = match &host.ftp_user {
        Some(u) => copy_string(u),
        None => copy_string(&host.user),
    };
    let password = match &host.ftp_password {
        Some(p) => copy_string(p),
        None => match &host.password {
            Some(p) => copy_string(p),
            None => {
                return Err(FtpSetupError::NoPassword(host.name.clone()));
            },
        },
    };
    Ok((user, password))
}

} // verus!
