//! Packing a file system, or one directory of it, into a ZIP archive.
use crate::codec::common::rom::IoError;
use crate::codec::nds::fs::dir::NdsDirectory;
use crate::codec::nds::fs::path::NdsPath;
use crate::codec::nds::fs::{nested_fs_of, spec_get_entry, NdsFileSystem, NdsFileSystemEntry, ROOT_DIR_ID};
use crate::codec::nds::fs::path::path_components;
use crate::nds::fs::file::{brotli_decompressed, NdsFile};
use crate::platform::nds::fs::tree::{join_path, lemma_items_ok_at, tree_items, tree_ok, TreeItem};
use crate::text::string_push;
use std::io::{Cursor, Write};
use vstd::prelude::*;

verus! {

/// An archive being written in memory: a `zip::ZipWriter` over a growing vector. The writer
/// is kept whole; its entries are known through `zip_contents`.
#[verifier::external_body]
pub struct ZipSink {
    inner: zip::ZipWriter<Cursor<Vec<u8>>>,
}

#[verifier::external_type_specification]
#[verifier::external_body]
pub struct ExZipError(zip::result::ZipError);

/// One entry of an archive: its name, whether it is a directory, and its bytes.
pub type ZipEntry = (Seq<char>, bool, Seq<u8>);

/// The entries added so far to an archive being written, in order.
pub uninterp spec fn zip_contents(w: ZipSink) -> Seq<(Seq<char>, bool, Seq<u8>)>;

/// The bytes of a finished archive with the given entries (files deflated, directories
/// stored), written one after the other into an empty archive, or `None` when the writer
/// refuses one of them (adding it or writing its bytes) or cannot finish.
pub uninterp spec fn zip_archive(entries: Seq<(Seq<char>, bool, Seq<u8>)>) -> Option<Seq<u8>>;

/// Whether no archive whose entries begin with `entries` can be made: the writer has refused
/// one of them.
pub open spec fn zip_refused(entries: Seq<ZipEntry>) -> bool {
    forall|all: Seq<ZipEntry>| entries.is_prefix_of(all) ==> #[trigger] zip_archive(all) is None
}

/// Starts an archive in memory (`zip::ZipWriter::new` on an empty cursor); it has no
/// entries yet.
#[verifier::external_body]
fn zip_writer_new() -> (w: ZipSink)
    ensures
        zip_contents(w) == Seq::<(Seq<char>, bool, Seq<u8>)>::empty(),
{
    ZipSink { inner: zip::ZipWriter::new(Cursor::new(Vec::new())) }
}

/// Adds a directory entry (`zip::ZipWriter::add_directory`, deflate options). When it
/// succeeds the archive has one more entry, a directory of that name. Whether the crate
/// refuses depends on the entries so far and the name alone (its checks look at the names
/// already written, and writing into memory does not fail otherwise), so a refusal means
/// that no archive going on with these entries can be made.
#[verifier::external_body]
fn zip_add_directory(w: &mut ZipSink, name: &str) -> (r: Result<(), zip::result::ZipError>)
    ensures
        r is Ok ==> zip_contents(*final(w)) == zip_contents(*old(w)).push((name@, true, Seq::empty())),
        r is Err ==> zip_refused(zip_contents(*old(w)).push((name@, true, Seq::empty()))),
{
    let opts = zip::write::SimpleFileOptions::default().compression_method(zip::CompressionMethod::Deflated);
    w.inner.add_directory(name, opts)
}

/// Starts a file entry (`zip::ZipWriter::start_file`, deflated). When it succeeds the archive
/// has one more entry, an empty file of that name. Whether the crate refuses depends on the
/// entries so far and the name alone (the bytes come later), so a refusal means that no
/// archive going on with these entries and a file of that name, whatever its bytes, can be
/// made.
#[verifier::external_body]
fn zip_start_file(w: &mut ZipSink, name: &str) -> (r: Result<(), zip::result::ZipError>)
    ensures
        r is Ok ==> zip_contents(*final(w)) == zip_contents(*old(w)).push((name@, false, Seq::empty())),
        r is Err ==> forall|d: Seq<u8>| #[trigger] zip_refused(zip_contents(*old(w)).push((name@, false, d))),
{
    let opts = zip::write::SimpleFileOptions::default().compression_method(zip::CompressionMethod::Deflated);
    w.inner.start_file(name, opts)
}

/// Writes bytes into the file entry last started (`Write::write_all` on the writer). When it
/// succeeds those bytes follow the entry's earlier ones. Whether the writer fails depends on
/// the entries so far and the bytes written (into memory it fails only on an over-large file),
/// so a failure means that no archive going on with the entries, the last holding these
/// bytes too, can be made.
#[verifier::external_body]
fn zip_write_all(w: &mut ZipSink, data: &[u8]) -> (r: Result<(), std::io::Error>)
    requires
        zip_contents(*old(w)).len() > 0,
        !zip_contents(*old(w)).last().1,
    ensures
        r is Ok ==> zip_contents(*final(w)) == zip_contents(*old(w)).update(zip_contents(*old(w)).len() - 1,
            (zip_contents(*old(w)).last().0, false, zip_contents(*old(w)).last().2 + data@)),
        r is Err ==> zip_refused(zip_contents(*old(w)).update(zip_contents(*old(w)).len() - 1,
            (zip_contents(*old(w)).last().0, false, zip_contents(*old(w)).last().2 + data@))),
{
    w.inner.write_all(data)
}

/// Finishes the archive (`zip::ZipWriter::finish`) and hands back its bytes.
#[verifier::external_body]
fn zip_finish(w: ZipSink) -> (r: Result<Vec<u8>, zip::result::ZipError>)
    ensures
        r is Ok <==> zip_archive(zip_contents(w)) is Some,
        r matches Ok(v) ==> zip_archive(zip_contents(w)) == Some(v@),
{
    let cursor = w.inner.finish()?;
    Ok(cursor.into_inner())
}

/// Why an archive could not be made.
#[derive(Debug, Clone, PartialEq, Eq)]
pub enum ZipFsError {
    /// The ZIP writer refused an entry or could not finish.
    Zip,
    /// A file's bytes could not be restored.
    Io(IoError),
    /// No directory has the given path.
    DirNotFound(String),
}

impl ZipFsError {
    /// The human-readable description of the error.
    pub fn message(&self) -> (r: String)
        ensures
            r@ == (match self {
                ZipFsError::Zip => "ZIP error"@,
                ZipFsError::Io(_) => "I/O error"@,
                ZipFsError::DirNotFound(p) => "Directory not found: "@ + p@,
            }),
    {
        match self {
            ZipFsError::Zip => String::from_str("ZIP error"),
            ZipFsError::Io(_) => String::from_str("I/O error"),
            ZipFsError::DirNotFound(p) => {
                let mut r = String::from_str("Directory not found: ");
                r.append(p.as_str());
                r
            },
        }
    }
}

/// The bytes of a file, restored from their compressed form.
pub open spec fn file_raw(f: NdsFile) -> Option<Seq<u8>> {
    brotli_decompressed(f.data.compressed_bytes())
}

/// What directory `dir_id` of `fs` adds to an archive: its files first, then its
/// sub-directories, each in file-system order.
pub open spec fn zip_items(fs: NdsFileSystem, dir_id: u16) -> Seq<TreeItem> {
    fs.files@.filter(|f: NdsFile| f.parent_dir_id == dir_id).map_values(|f: NdsFile| TreeItem::File(f))
        + fs.directories@.filter(|d: NdsDirectory| d.parent_dir_id == dir_id && d.id != dir_id).map_values(|d: NdsDirectory| TreeItem::Dir(d))
}

/// The entries that packing directory `dir_id` of `fs` under `prefix` adds, or `None` when
/// some file's bytes cannot be restored (or the walk goes deeper than `k`).
pub open spec fn zip_walk(fs: NdsFileSystem, dir_id: u16, prefix: Seq<char>, expand: bool, k: nat) -> Option<Seq<ZipEntry>>
    decreases k, 0nat, 0nat,
{
    if k == 0 {
        None
    } else {
        zip_walk_items(fs, zip_items(fs, dir_id), prefix, expand, (k - 1) as nat)
    }
}

/// The entries that the items add, in order.
pub open spec fn zip_walk_items(fs: NdsFileSystem, items: Seq<TreeItem>, prefix: Seq<char>, expand: bool, k: nat) -> Option<Seq<ZipEntry>>
    decreases k, 2nat, items.len(),
{
    if items.len() == 0 {
        Some(Seq::empty())
    } else {
        match zip_walk_items(fs, items.drop_last(), prefix, expand, k) {
            None => None,
            Some(a) => match zip_walk_item(fs, items.last(), prefix, expand, k) {
                None => None,
                Some(b) => Some(a + b),
            },
        }
    }
}

/// The entries that one item adds: a file's bytes, or a directory entry followed by what the
/// directory (or, when archives are expanded, the archive's file system) holds.
pub open spec fn zip_walk_item(fs: NdsFileSystem, item: TreeItem, prefix: Seq<char>, expand: bool, k: nat) -> Option<Seq<ZipEntry>>
    decreases k, 1nat, 0nat,
{
    match item {
        TreeItem::File(f) => {
            let path = join_path(prefix, f.name@);
            if expand && nested_fs_of(f) is Some {
                match zip_walk(nested_fs_of(f)->Some_0, ROOT_DIR_ID, path, expand, k) {
                    None => None,
                    Some(w) => Some(seq![(path, true, Seq::<u8>::empty())] + w),
                }
            } else {
                match file_raw(f) {
                    None => None,
                    Some(d) => Some(seq![(path, false, d)]),
                }
            }
        },
        TreeItem::Dir(d) => {
            let path = join_path(prefix, d.name@);
            match zip_walk(fs, d.id, path, expand, k) {
                None => None,
                Some(w) => Some(seq![(path, true, Seq::<u8>::empty())] + w),
            }
        },
    }
}

/// The text `prefix/name`, or `name` when the prefix is empty.
fn child_path(prefix: &str, name: &str) -> (r: String)
    ensures
        r@ == join_path(prefix@, name@),
{
    let mut r = String::new();
    if prefix.unicode_len() > 0 {
        r.append(prefix);
        string_push(&mut r, '/');
    }
    r.append(name);
    r
}

/// Once some item cannot be packed, nothing after it changes that.
proof fn lemma_zip_walk_prefix_none(fs: NdsFileSystem, items: Seq<TreeItem>, prefix: Seq<char>, expand: bool, k: nat, m: int, n: int)
    requires
        0 <= m <= n <= items.len(),
        zip_walk_items(fs, items.take(m), prefix, expand, k) is None,
    ensures
        zip_walk_items(fs, items.take(n), prefix, expand, k) is None,
    decreases n - m,
{
    if n > m {
        lemma_zip_walk_prefix_none(fs, items, prefix, expand, k, m, n - 1);
        assert(items.take(n).drop_last() =~= items.take(n - 1));
    }
}

/// A walk that ends within `k` levels also ends within the tree's order of items.
proof fn lemma_zip_items_ok(fs: NdsFileSystem, dir_id: u16, k: nat, i: int)
    requires
        tree_ok(fs, dir_id, k),
        0 <= i < zip_items(fs, dir_id).len(),
    ensures
        match zip_items(fs, dir_id)[i] {
            TreeItem::Dir(d) => tree_ok(fs, d.id, (k - 1) as nat),
            TreeItem::File(f) => match nested_fs_of(f) {
                Some(n) => tree_ok(n, ROOT_DIR_ID, (k - 1) as nat),
                None => true,
            },
        },
{
    let t = tree_items(fs, dir_id);
    let z = zip_items(fs, dir_id);
    let df = fs.directories@.filter(|d: NdsDirectory| d.parent_dir_id == dir_id && d.id != dir_id);
    let ff = fs.files@.filter(|f: NdsFile| f.parent_dir_id == dir_id);
    if i < ff.len() {
        assert(z[i] == t[df.len() + i]);
        lemma_items_ok_at(fs, t, (k - 1) as nat, df.len() + i);
    } else {
        assert(z[i] == t[i - ff.len()]);
        lemma_items_ok_at(fs, t, (k - 1) as nat, i - ff.len());
    }
}

/// A prefix of a prefix is a prefix.
proof fn lemma_prefix_trans(a: Seq<ZipEntry>, b: Seq<ZipEntry>, c: Seq<ZipEntry>)
    requires
        a.is_prefix_of(b),
        b.is_prefix_of(c),
    ensures
        a.is_prefix_of(c),
{
    assert forall|j: int| 0 <= j < a.len() implies a[j] == c.subrange(0, a.len() as int)[j] by {
        assert(a[j] == b.subrange(0, a.len() as int)[j]);
        assert(b[j] == c.subrange(0, b.len() as int)[j]);
    }
    assert(a =~= c.subrange(0, a.len() as int));
}

/// Entries that follow a refused beginning are refused too.
proof fn lemma_refused_extend(a: Seq<ZipEntry>, b: Seq<ZipEntry>)
    requires
        zip_refused(a),
        a.is_prefix_of(b),
    ensures
        zip_refused(b),
{
    assert forall|all: Seq<ZipEntry>| b.is_prefix_of(all) implies #[trigger] zip_archive(all) is None by {
        lemma_prefix_trans(a, b, all);
    }
}

/// Entries whose beginning, up to one more entry `x`, was refused are refused.
proof fn lemma_refused_first(a: Seq<ZipEntry>, x: ZipEntry, e: Seq<ZipEntry>)
    requires
        zip_refused(a.push(x)),
        e.len() > 0,
        e[0] == x,
    ensures
        zip_refused(a + e),
{
    assert(a.push(x).is_prefix_of(a + e)) by {
        assert(a.push(x) =~= (a + e).subrange(0, a.len() + 1int));
    }
    lemma_refused_extend(a.push(x), a + e);
}

/// The entries of the first `m` items begin those of the first `n`.
proof fn lemma_zip_walk_grows(fs: NdsFileSystem, items: Seq<TreeItem>, prefix: Seq<char>, expand: bool, k: nat, m: int, n: int)
    requires
        0 <= m <= n <= items.len(),
        zip_walk_items(fs, items.take(n), prefix, expand, k) is Some,
    ensures
        zip_walk_items(fs, items.take(m), prefix, expand, k) is Some,
        zip_walk_items(fs, items.take(m), prefix, expand, k)->Some_0.is_prefix_of(zip_walk_items(fs, items.take(n), prefix, expand, k)->Some_0),
    decreases n - m,
{
    let wn = zip_walk_items(fs, items.take(n), prefix, expand, k)->Some_0;
    if n > m {
        assert(items.take(n).drop_last() =~= items.take(n - 1));
        let wp = zip_walk_items(fs, items.take(n - 1), prefix, expand, k)->Some_0;
        lemma_zip_walk_grows(fs, items, prefix, expand, k, m, n - 1);
        assert(wp.is_prefix_of(wn)) by {
            assert(wp =~= wn.subrange(0, wp.len() as int));
        }
        lemma_prefix_trans(zip_walk_items(fs, items.take(m), prefix, expand, k)->Some_0, wp, wn);
    } else {
        assert(wn =~= wn.subrange(0, wn.len() as int));
    }
}

/// When the writer has refused the entries of item `i` (after those of the items before it),
/// it has refused the entries of all the items, whenever these can be walked.
proof fn lemma_zip_refused_at(fs: NdsFileSystem, items: Seq<TreeItem>, prefix: Seq<char>, expand: bool, k: nat, i: int, start: Seq<ZipEntry>)
    requires
        0 <= i < items.len(),
        zip_walk_items(fs, items.take(i), prefix, expand, k) is Some,
        zip_walk_item(fs, items[i], prefix, expand, k) matches Some(e)
            ==> zip_refused(start + zip_walk_items(fs, items.take(i), prefix, expand, k)->Some_0 + e),
    ensures
        zip_walk_items(fs, items, prefix, expand, k) matches Some(wk) ==> zip_refused(start + wk),
{
    if zip_walk_items(fs, items, prefix, expand, k) is Some {
        assert(items.take(items.len() as int) =~= items);
        lemma_zip_walk_grows(fs, items, prefix, expand, k, i + 1, items.len() as int);
        assert(items.take(i + 1).drop_last() =~= items.take(i));
        assert(items.take(i + 1).last() == items[i]);
        let wi = zip_walk_items(fs, items.take(i), prefix, expand, k)->Some_0;
        let e = zip_walk_item(fs, items[i], prefix, expand, k)->Some_0;
        let w1 = zip_walk_items(fs, items.take(i + 1), prefix, expand, k)->Some_0;
        let wk = zip_walk_items(fs, items, prefix, expand, k)->Some_0;
        assert(w1 == wi + e);
        assert((start + wi + e).is_prefix_of(start + wk)) by {
            assert forall|j: int| 0 <= j < (start + wi + e).len() implies (start + wi + e)[j] == (start + wk)[j] by {
                if j >= start.len() {
                    assert(w1[j - start.len()] == wk.subrange(0, w1.len() as int)[j - start.len()]);
                }
            }
            assert((start + wi + e) =~= (start + wk).subrange(0, (start + wi + e).len() as int));
        }
        lemma_refused_extend(start + wi + e, start + wk);
    }
}

/// What a file of a packed directory adds stands, in one piece, among the entries.
proof fn lemma_file_entries_in_walk(fs: NdsFileSystem, dir_id: u16, prefix: Seq<char>, expand: bool, k: nat, fi: int) -> (s: int)
    requires
        0 <= fi < fs.files@.len(),
        fs.files@[fi].parent_dir_id == dir_id,
        zip_walk(fs, dir_id, prefix, expand, k) is Some,
    ensures
        k > 0,
        zip_walk_item(fs, TreeItem::File(fs.files@[fi]), prefix, expand, (k - 1) as nat) is Some,
        0 <= s,
        s + zip_walk_item(fs, TreeItem::File(fs.files@[fi]), prefix, expand, (k - 1) as nat)->Some_0.len()
            <= zip_walk(fs, dir_id, prefix, expand, k)->Some_0.len(),
        zip_walk(fs, dir_id, prefix, expand, k)->Some_0.subrange(s,
            s + zip_walk_item(fs, TreeItem::File(fs.files@[fi]), prefix, expand, (k - 1) as nat)->Some_0.len())
            == zip_walk_item(fs, TreeItem::File(fs.files@[fi]), prefix, expand, (k - 1) as nat)->Some_0,
{
    let f = fs.files@[fi];
    let pred = |x: NdsFile| x.parent_dir_id == dir_id;
    let ff = fs.files@.filter(pred);
    let items = zip_items(fs, dir_id);
    let kk = (k - 1) as nat;
    fs.files@.lemma_filter_contains(pred, fi);
    let p = choose|p: int| 0 <= p < ff.len() && ff[p] == f;
    assert(items[p] == TreeItem::File(f));
    assert(items.take(items.len() as int) =~= items);
    lemma_zip_walk_grows(fs, items, prefix, expand, kk, p + 1, items.len() as int);
    assert(items.take(p + 1).drop_last() =~= items.take(p));
    assert(items.take(p + 1).last() == items[p]);
    let w = zip_walk(fs, dir_id, prefix, expand, k)->Some_0;
    let wp = zip_walk_items(fs, items.take(p), prefix, expand, kk)->Some_0;
    let w1 = zip_walk_items(fs, items.take(p + 1), prefix, expand, kk)->Some_0;
    let e = zip_walk_item(fs, items[p], prefix, expand, kk)->Some_0;
    assert(w1 == wp + e);
    let s = wp.len() as int;
    assert(w.subrange(s, s + e.len()) =~= e) by {
        assert forall|q: int| 0 <= q < e.len() implies w.subrange(s, s + e.len())[q] == e[q] by {
            assert(w1[s + q] == w.subrange(0, w1.len() as int)[s + q]);
        }
    }
    s
}

/// Every sub-directory of a packed directory is packed as a directory entry at its path (the
/// prefix joined with its name), followed at once by the entries of what it holds, packed
/// under that path.
pub proof fn lemma_zip_packs_subdirs(fs: NdsFileSystem, dir_id: u16, prefix: Seq<char>, expand: bool, k: nat, di: int)
    requires
        0 <= di < fs.directories@.len(),
        fs.directories@[di].parent_dir_id == dir_id,
        fs.directories@[di].id != dir_id,
        zip_walk(fs, dir_id, prefix, expand, k) is Some,
    ensures
        ({
            let d = fs.directories@[di];
            let w = zip_walk(fs, dir_id, prefix, expand, k)->Some_0;
            let path = join_path(prefix, d.name@);
            let sub = zip_walk(fs, d.id, path, expand, (k - 1) as nat);
            &&& sub is Some
            &&& exists|s: int| 0 <= s && s + 1 + sub->Some_0.len() <= w.len()
                && #[trigger] w.subrange(s, s + 1 + sub->Some_0.len()) == seq![(path, true, Seq::<u8>::empty())] + sub->Some_0
        }),
{
    let d = fs.directories@[di];
    let dpred = |x: NdsDirectory| x.parent_dir_id == dir_id && x.id != dir_id;
    let ff = fs.files@.filter(|f: NdsFile| f.parent_dir_id == dir_id);
    let df = fs.directories@.filter(dpred);
    let items = zip_items(fs, dir_id);
    let kk = (k - 1) as nat;
    fs.directories@.lemma_filter_contains(dpred, di);
    let q = choose|q: int| 0 <= q < df.len() && df[q] == d;
    let p = ff.len() + q;
    assert(items[p] == TreeItem::Dir(d));
    assert(items.take(items.len() as int) =~= items);
    lemma_zip_walk_grows(fs, items, prefix, expand, kk, p + 1, items.len() as int);
    assert(items.take(p + 1).drop_last() =~= items.take(p));
    assert(items.take(p + 1).last() == items[p]);
    let w = zip_walk(fs, dir_id, prefix, expand, k)->Some_0;
    let wp = zip_walk_items(fs, items.take(p), prefix, expand, kk)->Some_0;
    let w1 = zip_walk_items(fs, items.take(p + 1), prefix, expand, kk)->Some_0;
    let e = zip_walk_item(fs, items[p], prefix, expand, kk)->Some_0;
    assert(w1 == wp + e);
    let s = wp.len() as int;
    assert(w.subrange(s, s + e.len()) =~= e) by {
        assert forall|j: int| 0 <= j < e.len() implies w.subrange(s, s + e.len())[j] == e[j] by {
            assert(w1[s + j] == w.subrange(0, w1.len() as int)[s + j]);
        }
    }
    let path = join_path(prefix, d.name@);
    let sub = zip_walk(fs, d.id, path, expand, kk);
    assert(w.subrange(s, s + 1 + sub->Some_0.len()) == seq![(path, true, Seq::<u8>::empty())] + sub->Some_0);
}

/// With archives expanded, every archive file of a packed directory is packed as a
/// directory: its path (the prefix joined with its name) stands in the entries as a
/// directory entry, followed at once by the entries of the archive's own file system, packed
/// from its root under that path.
pub proof fn lemma_zip_expands_archives(fs: NdsFileSystem, dir_id: u16, prefix: Seq<char>, k: nat, fi: int)
    requires
        0 <= fi < fs.files@.len(),
        fs.files@[fi].parent_dir_id == dir_id,
        nested_fs_of(fs.files@[fi]) is Some,
        zip_walk(fs, dir_id, prefix, true, k) is Some,
    ensures
        ({
            let f = fs.files@[fi];
            let w = zip_walk(fs, dir_id, prefix, true, k)->Some_0;
            let path = join_path(prefix, f.name@);
            let sub = zip_walk(nested_fs_of(f)->Some_0, ROOT_DIR_ID, path, true, (k - 1) as nat);
            &&& sub is Some
            &&& exists|s: int| 0 <= s && s + 1 + sub->Some_0.len() <= w.len()
                && #[trigger] w.subrange(s, s + 1 + sub->Some_0.len()) == seq![(path, true, Seq::<u8>::empty())] + sub->Some_0
        }),
{
    let s = lemma_file_entries_in_walk(fs, dir_id, prefix, true, k, fi);
    let f = fs.files@[fi];
    let w = zip_walk(fs, dir_id, prefix, true, k)->Some_0;
    let path = join_path(prefix, f.name@);
    let sub = zip_walk(nested_fs_of(f)->Some_0, ROOT_DIR_ID, path, true, (k - 1) as nat);
    assert(w.subrange(s, s + 1 + sub->Some_0.len()) == seq![(path, true, Seq::<u8>::empty())] + sub->Some_0);
}

/// Without expanding archives, every file of a packed directory, archive or not, is packed
/// as one file entry: its path (the prefix joined with its name) and its restored bytes.
pub proof fn lemma_zip_keeps_files(fs: NdsFileSystem, dir_id: u16, prefix: Seq<char>, k: nat, fi: int)
    requires
        0 <= fi < fs.files@.len(),
        fs.files@[fi].parent_dir_id == dir_id,
        zip_walk(fs, dir_id, prefix, false, k) is Some,
    ensures
        file_raw(fs.files@[fi]) is Some,
        zip_walk(fs, dir_id, prefix, false, k)->Some_0.contains(
            (join_path(prefix, fs.files@[fi].name@), false, file_raw(fs.files@[fi])->Some_0)),
{
    let s = lemma_file_entries_in_walk(fs, dir_id, prefix, false, k, fi);
    let w = zip_walk(fs, dir_id, prefix, false, k)->Some_0;
    assert(w[s] == w.subrange(s, s + 1)[0]);
}

impl NdsFileSystem {
    /// Adds to `w` what directory `dir_id` holds, under `prefix`.
    fn write_dir_to_zip(&self, w: &mut ZipSink, dir_id: u16, prefix: &str, expand_nested: bool, Ghost(k): Ghost<nat>)
        -> (r: Result<(), ZipFsError>)
        requires
            tree_ok(*self, dir_id, k),
        ensures
            r is Ok ==> zip_walk(*self, dir_id, prefix@, expand_nested, k) is Some
                && zip_contents(*final(w)) == zip_contents(*old(w)) + zip_walk(*self, dir_id, prefix@, expand_nested, k)->Some_0,
            r matches Err(ZipFsError::Io(_)) ==> zip_walk(*self, dir_id, prefix@, expand_nested, k) is None,
            r matches Err(ZipFsError::Zip) ==> (zip_walk(*self, dir_id, prefix@, expand_nested, k) matches Some(wk)
                ==> zip_refused(zip_contents(*old(w)) + wk)),
            !(r matches Err(ZipFsError::DirNotFound(_))),
        decreases k, 0nat,
    {
        let files = self.child_files(dir_id);
        let dirs = self.child_dirs(dir_id);
        let ghost items = zip_items(*self, dir_id);
        let ghost ff = self.files@.filter(|f: NdsFile| f.parent_dir_id == dir_id);
        let ghost df = self.directories@.filter(|d: NdsDirectory| d.parent_dir_id == dir_id && d.id != dir_id);
        let nf = files.len();
        let nd = dirs.len();
        let ghost start = zip_contents(*w);
        proof {
            assert(files@.map_values(|f: &NdsFile| *f) == ff);
            assert(dirs@.map_values(|d: &NdsDirectory| *d) == df);
            assert forall|i: int| 0 <= i < nf implies #[trigger] items[i] == TreeItem::File(*files@[i]) by {
                assert(ff[i] == *files@[i]);
            }
            assert forall|i: int| nf <= i < nf + nd implies #[trigger] items[i] == TreeItem::Dir(*dirs@[i - nf]) by {
                assert(df[i - nf] == *dirs@[i - nf]);
            }
            assert(items.take(0) =~= Seq::<TreeItem>::empty());
            assert(start + Seq::<ZipEntry>::empty() =~= start);
        }
        let mut i: usize = 0;
        while i < nf
            invariant
                i <= nf,
                nf == files@.len(),
                nd == dirs@.len(),
                k > 0,
                tree_ok(*self, dir_id, k),
                items == zip_items(*self, dir_id),
                items.len() == nf + nd,
                start == zip_contents(*old(w)),
                zip_walk(*self, dir_id, prefix@, expand_nested, k) == zip_walk_items(*self, items, prefix@, expand_nested, (k - 1) as nat),
                forall|q: int| 0 <= q < nf ==> #[trigger] items[q] == TreeItem::File(*files@[q]),
                zip_walk_items(*self, items.take(i as int), prefix@, expand_nested, (k - 1) as nat) is Some,
                zip_contents(*w) == start + zip_walk_items(*self, items.take(i as int), prefix@, expand_nested, (k - 1) as nat)->Some_0,
            decreases nf - i,
        {
            let file = files[i];
            let ghost before = zip_contents(*w);
            proof {
                assert(items.take(i + 1).drop_last() =~= items.take(i as int));
                assert(items.take(i + 1).last() == items[i as int]);
                lemma_zip_items_ok(*self, dir_id, k, i as int);
            }
            let path = child_path(prefix, file.name.as_str());
            let nested = if expand_nested { file.data.nested_fs() } else { None };
            match nested {
                Some(n) => {
                    let ghost dir_entry = (path@, true, Seq::<u8>::empty());
                    proof {
                        assert(zip_walk_item(*self, items[i as int], prefix@, expand_nested, (k - 1) as nat)
                            == (match zip_walk(*n, ROOT_DIR_ID, path@, expand_nested, (k - 1) as nat) {
                                None => None,
                                Some(sub) => Some(seq![dir_entry] + sub),
                            }));
                    }
                    match zip_add_directory(w, path.as_str()) {
                        Ok(()) => {},
                        Err(_) => {
                            proof {
                                let prev = zip_walk_items(*self, items.take(i as int), prefix@, expand_nested, (k - 1) as nat)->Some_0;
                                if let Some(e) = zip_walk_item(*self, items[i as int], prefix@, expand_nested, (k - 1) as nat) {
                                    lemma_refused_first(start + prev, dir_entry, e);
                                }
                                lemma_zip_refused_at(*self, items, prefix@, expand_nested, (k - 1) as nat, i as int, start);
                                assert(items.take(items.len() as int) =~= items);
                            }
                            return Err(ZipFsError::Zip);
                        },
                    }
                    let ghost mid = zip_contents(*w);
                    let rr = n.write_dir_to_zip(w, ROOT_DIR_ID, path.as_str(), expand_nested, Ghost((k - 1) as nat));
                    match rr {
                        Ok(()) => {},
                        Err(e) => {
                            proof {
                                if e is Io {
                                    lemma_zip_walk_prefix_none(*self, items, prefix@, expand_nested, (k - 1) as nat, i + 1, items.len() as int);
                                    assert(items.take(items.len() as int) =~= items);
                                }
                                if e is Zip {
                                    let prev = zip_walk_items(*self, items.take(i as int), prefix@, expand_nested, (k - 1) as nat)->Some_0;
                                    if let Some(sub) = zip_walk(*n, ROOT_DIR_ID, path@, expand_nested, (k - 1) as nat) {
                                        assert(start + prev + (seq![dir_entry] + sub) =~= mid + sub);
                                    }
                                    lemma_zip_refused_at(*self, items, prefix@, expand_nested, (k - 1) as nat, i as int, start);
                                    assert(items.take(items.len() as int) =~= items);
                                }
                            }
                            return Err(e);
                        },
                    }
                    proof {
                        let sub = zip_walk(*n, ROOT_DIR_ID, path@, expand_nested, (k - 1) as nat)->Some_0;
                        let prev = zip_walk_items(*self, items.take(i as int), prefix@, expand_nested, (k - 1) as nat)->Some_0;
                        assert(zip_walk_item(*self, items[i as int], prefix@, expand_nested, (k - 1) as nat)
                            == Some(seq![(path@, true, Seq::<u8>::empty())] + sub));
                        assert(zip_walk_items(*self, items.take(i + 1), prefix@, expand_nested, (k - 1) as nat)
                            == Some(prev + (seq![(path@, true, Seq::<u8>::empty())] + sub)));
                        assert(zip_contents(*w) =~= start + (prev + (seq![(path@, true, Seq::<u8>::empty())] + sub)));
                    }
                },
                None => {
                    let raw = match file.data.raw() {
                        Ok(v) => v,
                        Err(e) => {
                            proof {
                                assert(zip_walk_item(*self, items[i as int], prefix@, expand_nested, (k - 1) as nat) is None);
                                lemma_zip_walk_prefix_none(*self, items, prefix@, expand_nested, (k - 1) as nat, i + 1, items.len() as int);
                                assert(items.take(items.len() as int) =~= items);
                            }
                            return Err(ZipFsError::Io(e));
                        },
                    };
                    let ghost file_entry = (path@, false, raw@);
                    proof {
                        assert(zip_walk_item(*self, items[i as int], prefix@, expand_nested, (k - 1) as nat) == Some(seq![file_entry]));
                    }
                    match zip_start_file(w, path.as_str()) {
                        Ok(()) => {},
                        Err(_) => {
                            proof {
                                let prev = zip_walk_items(*self, items.take(i as int), prefix@, expand_nested, (k - 1) as nat)->Some_0;
                                assert(zip_refused(before.push((path@, false, raw@))));
                                lemma_refused_first(start + prev, file_entry, seq![file_entry]);
                                lemma_zip_refused_at(*self, items, prefix@, expand_nested, (k - 1) as nat, i as int, start);
                                assert(items.take(items.len() as int) =~= items);
                            }
                            return Err(ZipFsError::Zip);
                        },
                    }
                    match zip_write_all(w, raw.as_slice()) {
                        Ok(()) => {},
                        Err(_) => {
                            proof {
                                let prev = zip_walk_items(*self, items.take(i as int), prefix@, expand_nested, (k - 1) as nat)->Some_0;
                                let c = before.push((path@, false, Seq::<u8>::empty()));
                                assert(c.update(c.len() - 1, (c.last().0, false, c.last().2 + raw@)) =~= before.push(file_entry));
                                lemma_refused_first(start + prev, file_entry, seq![file_entry]);
                                lemma_zip_refused_at(*self, items, prefix@, expand_nested, (k - 1) as nat, i as int, start);
                                assert(items.take(items.len() as int) =~= items);
                            }
                            return Err(ZipFsError::Zip);
                        },
                    }
                    proof {
                        let prev = zip_walk_items(*self, items.take(i as int), prefix@, expand_nested, (k - 1) as nat)->Some_0;
                        assert(zip_walk_item(*self, items[i as int], prefix@, expand_nested, (k - 1) as nat) == Some(seq![(path@, false, raw@)]));
                        assert(zip_walk_items(*self, items.take(i + 1), prefix@, expand_nested, (k - 1) as nat)
                            == Some(prev + seq![(path@, false, raw@)]));
                        assert(zip_contents(*w) =~= start + (prev + seq![(path@, false, raw@)]));
                    }
                },
            }
            i = i + 1;
        }
        let mut j: usize = 0;
        while j < nd
            invariant
                j <= nd,
                nf == files@.len(),
                nd == dirs@.len(),
                k > 0,
                tree_ok(*self, dir_id, k),
                items == zip_items(*self, dir_id),
                items.len() == nf + nd,
                start == zip_contents(*old(w)),
                zip_walk(*self, dir_id, prefix@, expand_nested, k) == zip_walk_items(*self, items, prefix@, expand_nested, (k - 1) as nat),
                forall|q: int| nf <= q < nf + nd ==> #[trigger] items[q] == TreeItem::Dir(*dirs@[q - nf]),
                zip_walk_items(*self, items.take(nf + j), prefix@, expand_nested, (k - 1) as nat) is Some,
                zip_contents(*w) == start + zip_walk_items(*self, items.take(nf + j), prefix@, expand_nested, (k - 1) as nat)->Some_0,
            decreases nd - j,
        {
            let dir = dirs[j];
            let ghost before = zip_contents(*w);
            proof {
                assert(items.take(nf + j + 1).drop_last() =~= items.take(nf + j));
                assert(items.take(nf + j + 1).last() == items[nf + j]);
                assert(items[nf + j] == TreeItem::Dir(*dirs@[j as int]));
                lemma_zip_items_ok(*self, dir_id, k, nf + j);
            }
            let path = child_path(prefix, dir.name.as_str());
            let ghost dir_entry = (path@, true, Seq::<u8>::empty());
            proof {
                assert(zip_walk_item(*self, items[nf + j], prefix@, expand_nested, (k - 1) as nat)
                    == (match zip_walk(*self, dir.id, path@, expand_nested, (k - 1) as nat) {
                        None => None,
                        Some(sub) => Some(seq![dir_entry] + sub),
                    }));
            }
            match zip_add_directory(w, path.as_str()) {
                Ok(()) => {},
                Err(_) => {
                    proof {
                        let prev = zip_walk_items(*self, items.take(nf + j), prefix@, expand_nested, (k - 1) as nat)->Some_0;
                        if let Some(e) = zip_walk_item(*self, items[nf + j], prefix@, expand_nested, (k - 1) as nat) {
                            lemma_refused_first(start + prev, dir_entry, e);
                        }
                        lemma_zip_refused_at(*self, items, prefix@, expand_nested, (k - 1) as nat, nf + j, start);
                        assert(items.take(items.len() as int) =~= items);
                    }
                    return Err(ZipFsError::Zip);
                },
            }
            let ghost mid = zip_contents(*w);
            let rr = self.write_dir_to_zip(w, dir.id, path.as_str(), expand_nested, Ghost((k - 1) as nat));
            match rr {
                Ok(()) => {},
                Err(e) => {
                    proof {
                        if e is Io {
                            lemma_zip_walk_prefix_none(*self, items, prefix@, expand_nested, (k - 1) as nat, nf + j + 1, items.len() as int);
                            assert(items.take(items.len() as int) =~= items);
                        }
                        if e is Zip {
                            let prev = zip_walk_items(*self, items.take(nf + j), prefix@, expand_nested, (k - 1) as nat)->Some_0;
                            if let Some(sub) = zip_walk(*self, dir.id, path@, expand_nested, (k - 1) as nat) {
                                assert(start + prev + (seq![dir_entry] + sub) =~= mid + sub);
                            }
                            lemma_zip_refused_at(*self, items, prefix@, expand_nested, (k - 1) as nat, nf + j, start);
                            assert(items.take(items.len() as int) =~= items);
                        }
                    }
                    return Err(e);
                },
            }
            proof {
                let sub = zip_walk(*self, dir.id, path@, expand_nested, (k - 1) as nat)->Some_0;
                let prev = zip_walk_items(*self, items.take(nf + j), prefix@, expand_nested, (k - 1) as nat)->Some_0;
                assert(zip_walk_item(*self, items[nf + j], prefix@, expand_nested, (k - 1) as nat)
                    == Some(seq![(path@, true, Seq::<u8>::empty())] + sub));
                assert(zip_walk_items(*self, items.take(nf + j + 1), prefix@, expand_nested, (k - 1) as nat)
                    == Some(prev + (seq![(path@, true, Seq::<u8>::empty())] + sub)));
                assert(zip_contents(*w) =~= start + (prev + (seq![(path@, true, Seq::<u8>::empty())] + sub)));
            }
            j = j + 1;
        }
        proof {
            assert(items.take(nf + nd) =~= items);
        }
        Ok(())
    }

    /// Packs directory `dir_id` into a ZIP archive; with `expand_nested`, archives inside it
    /// become directories holding their own files.
    pub fn zip_dir_by_id(&self, dir_id: u16, expand_nested: bool) -> (r: Result<Vec<u8>, ZipFsError>)
        requires
            exists|k: nat| tree_ok(*self, dir_id, k),
        ensures
            r matches Ok(bytes) ==> ({
                let walk = zip_walk(*self, dir_id, Seq::empty(), expand_nested, choose|k: nat| tree_ok(*self, dir_id, k));
                walk is Some && zip_archive(walk->Some_0) == Some(bytes@)
            }),
            r matches Err(ZipFsError::Io(_)) ==> zip_walk(*self, dir_id, Seq::empty(), expand_nested, choose|k: nat| tree_ok(*self, dir_id, k)) is None,
            !(r matches Err(ZipFsError::DirNotFound(_))),
            zip_walk(*self, dir_id, Seq::empty(), expand_nested, choose|k: nat| tree_ok(*self, dir_id, k)) matches Some(wk)
                && zip_archive(wk) is Some ==> r is Ok,
    {
        let ghost k = choose|k: nat| tree_ok(*self, dir_id, k);
        let mut w = zip_writer_new();
        let prefix = String::new();
        match self.write_dir_to_zip(&mut w, dir_id, prefix.as_str(), expand_nested, Ghost(k)) {
            Ok(()) => {},
            Err(e) => {
                proof {
                    if let Some(wk) = zip_walk(*self, dir_id, Seq::empty(), expand_nested, k) {
                        if e is Zip {
                            assert(Seq::<ZipEntry>::empty() + wk =~= wk);
                            assert(wk.is_prefix_of(wk)) by {
                                assert(wk =~= wk.subrange(0, wk.len() as int));
                            }
                            assert(zip_archive(wk) is None);
                        }
                    }
                }
                return Err(e);
            },
        }
        proof {
            assert(zip_contents(w) =~= zip_walk(*self, dir_id, Seq::empty(), expand_nested, k)->Some_0);
        }
        match zip_finish(w) {
            Ok(v) => Ok(v),
            Err(_) => Err(ZipFsError::Zip),
        }
    }

    /// Packs the whole file system into a ZIP archive.
    pub fn to_zip(&self, expand_nested: bool) -> (r: Result<Vec<u8>, ZipFsError>)
        requires
            exists|k: nat| tree_ok(*self, ROOT_DIR_ID, k),
        ensures
            r matches Ok(bytes) ==> ({
                let walk = zip_walk(*self, ROOT_DIR_ID, Seq::empty(), expand_nested, choose|k: nat| tree_ok(*self, ROOT_DIR_ID, k));
                walk is Some && zip_archive(walk->Some_0) == Some(bytes@)
            }),
            r matches Err(ZipFsError::Io(_)) ==> zip_walk(*self, ROOT_DIR_ID, Seq::empty(), expand_nested, choose|k: nat| tree_ok(*self, ROOT_DIR_ID, k)) is None,
            !(r matches Err(ZipFsError::DirNotFound(_))),
            zip_walk(*self, ROOT_DIR_ID, Seq::empty(), expand_nested, choose|k: nat| tree_ok(*self, ROOT_DIR_ID, k)) matches Some(wk)
                && zip_archive(wk) is Some ==> r is Ok,
    {
        self.zip_dir_by_id(ROOT_DIR_ID, expand_nested)
    }

    /// Packs the directory that `path` names into a ZIP archive; an error names the path
    /// when it names no directory.
    pub fn zip_dir_by_path(&self, path: NdsPath, expand_nested: bool) -> (r: Result<Vec<u8>, ZipFsError>)
        requires
            path_components(path@).len() == 0 ==> self.directories@.len() > 0,
            spec_get_entry(self, path@) matches Some(NdsFileSystemEntry::Directory(d)) ==> exists|k: nat| tree_ok(*self, d.id, k),
        ensures
            !(spec_get_entry(self, path@) matches Some(NdsFileSystemEntry::Directory(_))) ==> (r matches Err(ZipFsError::DirNotFound(p)) && p@ == path@),
            spec_get_entry(self, path@) matches Some(NdsFileSystemEntry::Directory(d)) ==> {
                let k = choose|k: nat| tree_ok(*self, d.id, k);
                &&& !(r matches Err(ZipFsError::DirNotFound(_)))
                &&& r matches Ok(bytes) ==> (zip_walk(*self, d.id, Seq::empty(), expand_nested, k) is Some
                    && zip_archive(zip_walk(*self, d.id, Seq::empty(), expand_nested, k)->Some_0) == Some(bytes@))
                &&& r matches Err(ZipFsError::Io(_)) ==> zip_walk(*self, d.id, Seq::empty(), expand_nested, k) is None
                &&& (zip_walk(*self, d.id, Seq::empty(), expand_nested, k) matches Some(wk) && zip_archive(wk) is Some ==> r is Ok)
            },
    {
        let text = path.to_display_string();
        match self.get_dir(path) {
            Some(dir) => self.zip_dir_by_id(dir.id, expand_nested),
            None => Err(ZipFsError::DirNotFound(text)),
        }
    }
}

} // verus!
