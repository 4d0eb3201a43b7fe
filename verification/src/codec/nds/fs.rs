//! The NitroROM file system: directories and files named by the FNT, placed by the FAT.
use crate::codec::common::rom::{IoError, RomReadError};
use crate::codec::nds::fs::dir::NdsDirectory;
use crate::codec::nds::fs::path::{path_components, string_views, NdsPath};
use crate::codec::nds::rom::fat::{Fat, FatEntry};
use crate::codec::nds::rom::fnt::{fnt_sub_entry_len, read_fnt_main_entries, spec_fnt_main_entry, FntMainEntry, FntSubEntry};
use crate::nds::fs::file::{brotli_compressed, NdsFile, NdsFileData};
use crate::nds::rom::NdsRomReadError;
use crate::rw::bytes::{bytes_at, copy_range, read_u16_le, spec_u16_le};
use crate::platform::nds::formats::ParsedNdsFile;
use crate::text::{decimal, str_eq, string_push, usize_to_decimal, utf8_lossy};
use vstd::prelude::*;

pub mod archive;
pub mod dir;
pub mod listing;
pub mod file;
pub mod path;

verus! {

/// The id of the root directory.
pub const ROOT_DIR_ID: u16 = 0xF000;

/// A parsed file system.
pub struct NdsFileSystem {
    pub directories: Vec<NdsDirectory>,
    pub files: Vec<NdsFile>,
}

/// A directory as the tables describe it.
pub struct DirShape {
    pub id: u16,
    pub name: Seq<char>,
    pub parent: u16,
}

/// A file as the tables describe it, with its bytes.
pub struct FileShape {
    pub id: u16,
    pub name: Seq<char>,
    pub parent: u16,
    pub raw: Seq<u8>,
}

/// The directories and files that the tables describe, in reading order.
pub struct FsShape {
    pub dirs: Seq<DirShape>,
    pub files: Seq<FileShape>,
}

/// The FAT of `fat_size` bytes at `pos`, when it can be read.
pub open spec fn fat_table(s: Seq<u8>, pos: int, fat_size: u32) -> Option<Seq<FatEntry>> {
    if fat_size / 8 == 0 || pos + 8 * (fat_size / 8) <= s.len() {
        Some(Seq::new((fat_size / 8) as nat, |i: int| crate::codec::nds::rom::fat::spec_fat_entry(s, pos + 8 * i)))
    } else {
        None
    }
}

/// The length of the file a FAT entry describes (zero when the end lies before the start).
pub open spec fn fat_entry_size(e: FatEntry) -> int {
    if e.end_address >= e.start_address { e.end_address - e.start_address } else { 0 }
}

/// `n` written in decimal with at least four digits.
pub open spec fn zero_pad4(n: nat) -> Seq<char> {
    let d = decimal(n);
    if d.len() < 4 { Seq::new((4 - d.len()) as nat, |i: int| '0') + d } else { d }
}

/// Walks a directory's sub-table from `pos`: directories and files are appended to `acc`
/// until the end marker. Files take consecutive ids from `file_id`; their bytes are read
/// from `img_base` plus their FAT start.
pub open spec fn walk_sub_table(s: Seq<u8>, fat: Seq<FatEntry>, img_base: int, pos: int, dir_id: u16, file_id: u16, acc: FsShape) -> Result<FsShape, RomReadError>
    decreases s.len() - pos,
{
    if pos < 0 || pos >= s.len() || pos + fnt_sub_entry_len(s[pos]) > s.len() {
        Err(RomReadError::Nds(NdsRomReadError::FNTRead))
    } else {
        let t = s[pos];
        if t == 0 {
            Ok(acc)
        } else {
            let n = (t % 128) as int;
            let name = utf8_lossy(s.subrange(pos + 1, pos + 1 + n));
            let next = pos + fnt_sub_entry_len(t);
            if t >= 0x80 {
                let d = DirShape { id: spec_u16_le(s, pos + 1 + n), name, parent: dir_id };
                walk_sub_table(s, fat, img_base, next, dir_id, file_id, FsShape { dirs: acc.dirs.push(d), files: acc.files })
            } else if file_id >= fat.len() {
                Err(RomReadError::Nds(NdsRomReadError::FNTRead))
            } else {
                let e = fat[file_id as int];
                let start = img_base + e.start_address;
                let raw = bytes_at(s, start, fat_entry_size(e));
                if raw is None {
                    Err(RomReadError::Io(IoError::UnexpectedEof))
                } else if brotli_compressed(raw->Some_0) is None {
                    Err(RomReadError::Io(IoError::Other))
                } else {
                    let f = FileShape { id: file_id, name, parent: dir_id, raw: raw->Some_0 };
                    walk_sub_table(s, fat, img_base, next, dir_id, ((file_id + 1) % 65536) as u16, FsShape { dirs: acc.dirs, files: acc.files.push(f) })
                }
            }
        }
    }
}

/// Walks the sub-tables of the directories `main[i..]`; directory `i` has id `0xF000 + i`.
pub open spec fn walk_dirs(s: Seq<u8>, fat: Seq<FatEntry>, fnt_base: int, img_base: int, main: Seq<FntMainEntry>, i: nat, acc: FsShape) -> Result<FsShape, RomReadError>
    decreases main.len() - i,
{
    if i >= main.len() {
        Ok(acc)
    } else {
        let dir_id = ((0xF000 + i) % 65536) as u16;
        match walk_sub_table(s, fat, img_base, fnt_base + main[i as int].sub_table_offset, dir_id, main[i as int].first_file_id, acc) {
            Ok(a) => walk_dirs(s, fat, fnt_base, img_base, main, i + 1, a),
            Err(e) => Err(e),
        }
    }
}

/// Whether one of `files` has the id `id`.
pub open spec fn id_claimed(files: Seq<FileShape>, id: u16) -> bool {
    exists|j: int| 0 <= j < files.len() && files[j].id == id
}

/// Adds, for each used FAT entry from `idx` on whose id no named file took, a file in the
/// root directory named by its index.
pub open spec fn walk_unclaimed(s: Seq<u8>, fat: Seq<FatEntry>, img_base: int, named: Seq<FileShape>, idx: nat, acc: FsShape) -> Result<FsShape, RomReadError>
    decreases fat.len() - idx,
{
    if idx >= fat.len() {
        Ok(acc)
    } else {
        let fid = (idx % 65536) as u16;
        let e = fat[idx as int];
        if id_claimed(named, fid) || (e.start_address == 0 && e.end_address == 0) {
            walk_unclaimed(s, fat, img_base, named, idx + 1, acc)
        } else {
            let start = img_base + e.start_address;
            let raw = bytes_at(s, start, fat_entry_size(e));
            if raw is None {
                Err(RomReadError::Io(IoError::UnexpectedEof))
            } else if brotli_compressed(raw->Some_0) is None {
                Err(RomReadError::Io(IoError::Other))
            } else {
                let f = FileShape { id: fid, name: zero_pad4(idx), parent: 0xF000, raw: raw->Some_0 };
                walk_unclaimed(s, fat, img_base, named, idx + 1, FsShape { dirs: acc.dirs, files: acc.files.push(f) })
            }
        }
    }
}

/// The root directory alone.
pub open spec fn root_shape() -> FsShape {
    FsShape { dirs: seq![DirShape { id: 0xF000, name: Seq::empty(), parent: 0xF000 }], files: Seq::empty() }
}

/// What reading the tables gives: the FNT at `fnt_base` (whose first entry also counts the
/// directories), the FAT `fat`, and file bytes relative to `img_base`.
pub open spec fn spec_fs_result(s: Seq<u8>, fat: Seq<FatEntry>, fnt_base: int, img_base: int) -> Result<FsShape, RomReadError> {
    if fnt_base < 0 || fnt_base + 8 > s.len() {
        Err(RomReadError::Nds(NdsRomReadError::FNTRead))
    } else {
        let total = spec_u16_le(s, fnt_base + 6);
        if fnt_base + 8 * total > s.len() {
            Err(RomReadError::Nds(NdsRomReadError::FNTRead))
        } else {
            let main = Seq::new(total as nat, |i: int| spec_fnt_main_entry(s, fnt_base + 8 * i));
            match walk_dirs(s, fat, fnt_base, img_base, main, 0, root_shape()) {
                Ok(a) => walk_unclaimed(s, fat, img_base, a.files, 0, a),
                Err(e) => Err(e),
            }
        }
    }
}

/// Whether the directories are the described ones.
pub open spec fn dirs_match(dirs: Seq<NdsDirectory>, shape: Seq<DirShape>) -> bool {
    &&& dirs.len() == shape.len()
    &&& forall|i: int| 0 <= i < dirs.len() ==> {
        &&& #[trigger] dirs[i].id == shape[i].id
        &&& dirs[i].name@ == shape[i].name
        &&& dirs[i].parent_dir_id == shape[i].parent
    }
}

/// Whether the files carry the described ids, names, parents and sizes.
pub open spec fn files_match(files: Seq<NdsFile>, shape: Seq<FileShape>) -> bool {
    &&& files.len() == shape.len()
    &&& forall|i: int| 0 <= i < files.len() ==> {
        &&& #[trigger] files[i].id == shape[i].id
        &&& files[i].name@ == shape[i].name
        &&& files[i].parent_dir_id == shape[i].parent
        &&& files[i].size == shape[i].raw.len()
    }
}

/// Whether each file's contents are built from the bytes of the file at the same place in
/// `shape`.
pub open spec fn files_built(files: Seq<NdsFile>, shape: Seq<FileShape>) -> bool
    decreases files,
{
    if files.len() == 0 {
        true
    } else {
        &&& files.last().data.built_from(shape[files.len() - 1].raw)
        &&& files_built(files.drop_last(), shape)
    }
}

/// `files_built` from the contents of each file.
pub proof fn lemma_files_built_intro(files: Seq<NdsFile>, shape: Seq<FileShape>)
    requires
        forall|j: int| 0 <= j < files.len() ==> #[trigger] files[j].data.built_from(shape[j].raw),
    ensures
        files_built(files, shape),
    decreases files.len(),
{
    if files.len() > 0 {
        let rest = files.drop_last();
        assert forall|j: int| 0 <= j < rest.len() implies #[trigger] rest[j].data.built_from(shape[j].raw) by {
            assert(rest[j] == files[j]);
        }
        lemma_files_built_intro(rest, shape);
        assert(files.last() == files[files.len() - 1]);
        assert(files.last().data.built_from(shape[files.len() - 1].raw));
    }
}

/// Each file's contents, from `files_built`.
pub proof fn lemma_files_built_elim(files: Seq<NdsFile>, shape: Seq<FileShape>, j: int)
    requires
        files_built(files, shape),
        0 <= j < files.len(),
    ensures
        files[j].data.built_from(shape[j].raw),
    decreases files.len(),
{
    if j < files.len() - 1 {
        lemma_files_built_elim(files.drop_last(), shape, j);
        assert(files.drop_last()[j] == files[j]);
    }
}

impl NdsFileSystem {
    /// Whether the file system is what reading the tables gives, each file's contents built
    /// from its bytes.
    pub open spec fn read_from(&self, s: Seq<u8>, fat: Seq<FatEntry>, fnt_base: int, img_base: int) -> bool
        decreases self,
    {
        &&& spec_fs_result(s, fat, fnt_base, img_base) matches Ok(shape) && {
            &&& dirs_match(self.directories@, shape.dirs)
            &&& files_match(self.files@, shape.files)
            &&& files_built(self.files@, shape.files)
        }
    }
}

} // verus!

verus! {

/// The result of walking the directories from `i` on and then adding the unnamed files.
pub open spec fn finish_dirs(s: Seq<u8>, fat: Seq<FatEntry>, fnt_base: int, img_base: int, main: Seq<FntMainEntry>, i: nat, acc: FsShape) -> Result<FsShape, RomReadError> {
    match walk_dirs(s, fat, fnt_base, img_base, main, i, acc) {
        Ok(a) => walk_unclaimed(s, fat, img_base, a.files, 0, a),
        Err(e) => Err(e),
    }
}

/// The result of finishing directory `i`'s sub-table from `pos`, then the rest.
pub open spec fn finish_sub(s: Seq<u8>, fat: Seq<FatEntry>, fnt_base: int, img_base: int, main: Seq<FntMainEntry>, i: nat, pos: int, dir_id: u16, file_id: u16, acc: FsShape) -> Result<FsShape, RomReadError> {
    match walk_sub_table(s, fat, img_base, pos, dir_id, file_id, acc) {
        Ok(a) => finish_dirs(s, fat, fnt_base, img_base, main, i + 1, a),
        Err(e) => Err(e),
    }
}

/// Adding a directory to both sides keeps them matched.
proof fn lemma_dirs_push(dirs: Seq<NdsDirectory>, shape: Seq<DirShape>, d: NdsDirectory, ds: DirShape)
    requires
        dirs_match(dirs, shape),
        d.id == ds.id,
        d.name@ == ds.name,
        d.parent_dir_id == ds.parent,
    ensures
        dirs_match(dirs.push(d), shape.push(ds)),
{
    assert forall|j: int| 0 <= j < dirs.push(d).len() implies {
        &&& #[trigger] dirs.push(d)[j].id == shape.push(ds)[j].id
        &&& dirs.push(d)[j].name@ == shape.push(ds)[j].name
        &&& dirs.push(d)[j].parent_dir_id == shape.push(ds)[j].parent
    } by {
        if j < dirs.len() {
            assert(dirs.push(d)[j] == dirs[j]);
            assert(shape.push(ds)[j] == shape[j]);
            assert(dirs[j].id == shape[j].id);
        } else {
            assert(dirs.push(d)[j] == d);
            assert(shape.push(ds)[j] == ds);
        }
    }
}

/// Adding a file to both sides keeps them matched, contents included.
proof fn lemma_files_push(files: Seq<NdsFile>, shape: Seq<FileShape>, f: NdsFile, fs: FileShape)
    requires
        files_match(files, shape),
        forall|j: int| 0 <= j < files.len() ==> #[trigger] files[j].data.built_from(shape[j].raw),
        f.id == fs.id,
        f.name@ == fs.name,
        f.parent_dir_id == fs.parent,
        f.size == fs.raw.len(),
        f.data.built_from(fs.raw),
    ensures
        files_match(files.push(f), shape.push(fs)),
        forall|j: int| 0 <= j < files.push(f).len() ==> #[trigger] files.push(f)[j].data.built_from(shape.push(fs)[j].raw),
{
    assert forall|j: int| 0 <= j < files.push(f).len() implies {
        &&& #[trigger] files.push(f)[j].id == shape.push(fs)[j].id
        &&& files.push(f)[j].name@ == shape.push(fs)[j].name
        &&& files.push(f)[j].parent_dir_id == shape.push(fs)[j].parent
        &&& files.push(f)[j].size == shape.push(fs)[j].raw.len()
    } by {
        if j < files.len() {
            assert(files.push(f)[j] == files[j]);
            assert(shape.push(fs)[j] == shape[j]);
            assert(files[j].id == shape[j].id);
        } else {
            assert(files.push(f)[j] == f);
            assert(shape.push(fs)[j] == fs);
        }
    }
    assert forall|j: int| 0 <= j < files.push(f).len() implies #[trigger] files.push(f)[j].data.built_from(shape.push(fs)[j].raw) by {
        if j < files.len() {
            assert(files.push(f)[j] == files[j]);
            assert(shape.push(fs)[j] == shape[j]);
        }
    }
}

/// One step of a sub-table walk over a directory entry.
proof fn lemma_walk_dir_entry(s: Seq<u8>, fat: Seq<FatEntry>, img_base: int, pos: int, dir_id: u16, file_id: u16, acc: FsShape)
    requires
        0 <= pos < s.len(),
        pos + fnt_sub_entry_len(s[pos]) <= s.len(),
        s[pos] >= 0x80,
    ensures
        walk_sub_table(s, fat, img_base, pos, dir_id, file_id, acc) == walk_sub_table(s, fat, img_base, pos + fnt_sub_entry_len(s[pos]), dir_id, file_id,
            FsShape { dirs: acc.dirs.push(DirShape { id: spec_u16_le(s, pos + 1 + (s[pos] % 128) as int), name: utf8_lossy(s.subrange(pos + 1, pos + 1 + (s[pos] % 128) as int)), parent: dir_id }), files: acc.files }),
{
}

/// One step of a sub-table walk over a file entry whose bytes were read.
proof fn lemma_walk_file_entry(s: Seq<u8>, fat: Seq<FatEntry>, img_base: int, pos: int, dir_id: u16, file_id: u16, acc: FsShape)
    requires
        0 <= pos < s.len(),
        pos + fnt_sub_entry_len(s[pos]) <= s.len(),
        0 < s[pos] < 0x80,
        file_id < fat.len(),
        bytes_at(s, img_base + fat[file_id as int].start_address, fat_entry_size(fat[file_id as int])) is Some,
        brotli_compressed(bytes_at(s, img_base + fat[file_id as int].start_address, fat_entry_size(fat[file_id as int]))->Some_0) is Some,
    ensures
        ({
            let start = img_base + fat[file_id as int].start_address;
            let f = FileShape { id: file_id, name: utf8_lossy(s.subrange(pos + 1, pos + 1 + (s[pos] % 128) as int)), parent: dir_id, raw: bytes_at(s, start, fat_entry_size(fat[file_id as int]))->Some_0 };
            walk_sub_table(s, fat, img_base, pos, dir_id, file_id, acc) == walk_sub_table(s, fat, img_base, pos + fnt_sub_entry_len(s[pos]), dir_id, ((file_id + 1) % 65536) as u16,
                FsShape { dirs: acc.dirs, files: acc.files.push(f) })
        }),
{
}

/// `n` in decimal, left-padded with zeros to four digits.
fn zero_pad4_string(n: usize) -> (r: String)
    ensures
        r@ == zero_pad4(n as nat),
{
    let d = usize_to_decimal(n);
    let l = d.as_str().unicode_len();
    let mut r = String::new();
    if l < 4 {
        let mut k: usize = 0;
        while k < 4 - l
            invariant
                l < 4,
                k <= 4 - l,
                r@ == Seq::new(k as nat, |i: int| '0'),
            decreases 4 - l - k,
        {
            string_push(&mut r, '0');
            k = k + 1;
            assert(r@ =~= Seq::new(k as nat, |i: int| '0'));
        }
    }
    r.append(d.as_str());
    r
}

/// Reads the bytes of the file a FAT entry places at `img_base` plus its start, and builds
/// its contents.
fn read_file_data(data: &[u8], e: FatEntry, img_base: usize) -> (r: Result<(NdsFileData, usize), RomReadError>)
    ensures
        ({
            let start = img_base + e.start_address;
            let raw = bytes_at(data@, start, fat_entry_size(e));
            &&& r is Ok <==> (raw is Some && brotli_compressed(raw->Some_0) is Some)
            &&& r matches Ok((d, sz)) ==> sz == fat_entry_size(e) && d.built_from(raw->Some_0)
            &&& r matches Err(err) ==> err == (if raw is None { RomReadError::Io(IoError::UnexpectedEof) } else { RomReadError::Io(IoError::Other) })
        }),
    decreases (if img_base <= data@.len() { data@.len() - img_base } else { 0 }), 3nat,
{
    let n = data.len();
    let size = e.size() as usize;
    let start = e.start_address as usize;
    let raw = if size == 0 {
        Vec::new()
    } else {
        if img_base > n || start > n - img_base || size > n - img_base - start {
            return Err(RomReadError::Io(IoError::UnexpectedEof));
        }
        copy_range(data, img_base + start, size)
    };
    assert(bytes_at(data@, img_base + e.start_address, fat_entry_size(e)) == Some(raw@));
    match NdsFileData::new(raw) {
        Ok(d) => Ok((d, size)),
        Err(e) => Err(RomReadError::Io(e)),
    }
}

impl NdsFileSystem {
    /// Reads the file system whose FAT lies at `fat_offset` (`fat_size` bytes) and whose FNT
    /// lies at `fnt_offset`; file addresses are absolute.
    pub fn read(data: &[u8], fat_offset: u32, fat_size: u32, fnt_offset: u32) -> (r: Result<NdsFileSystem, RomReadError>)
        ensures
            r is Ok <==> (fat_table(data@, fat_offset as int, fat_size) is Some
                && spec_fs_result(data@, fat_table(data@, fat_offset as int, fat_size)->Some_0, fnt_offset as int, 0) is Ok),
            r matches Ok(fs) ==> fs.read_from(data@, fat_table(data@, fat_offset as int, fat_size)->Some_0, fnt_offset as int, 0),
            r matches Err(e) ==> (if fat_table(data@, fat_offset as int, fat_size) is None {
                e == RomReadError::Parse(crate::rw::bytes::ParseError::UnexpectedEof)
            } else {
                spec_fs_result(data@, fat_table(data@, fat_offset as int, fat_size)->Some_0, fnt_offset as int, 0) == Err::<FsShape, RomReadError>(e)
            }),
    {
        let ghost fat_spec = Seq::new((fat_size / 8) as nat, |i: int| crate::codec::nds::rom::fat::spec_fat_entry(data@, fat_offset + 8 * i));
        let fat = match Fat::read(data, fat_offset as usize, fat_size) {
            Ok(f) => f,
            Err(e) => { return Err(RomReadError::Parse(e)); }
        };
        assert(fat.entries@ =~= fat_spec);
        Self::read_tables(data, fat.entries.as_slice(), fnt_offset as usize, 0)
    }

    /// Reads a file system from its tables: the FNT at `fnt_base`, the FAT entries
    /// `fat_entries`, and file bytes relative to `img_base`.
    #[verifier::rlimit(80)]
    pub fn read_tables(data: &[u8], fat_entries: &[FatEntry], fnt_base: usize, img_base: usize) -> (r: Result<NdsFileSystem, RomReadError>)
        ensures
            r is Ok <==> spec_fs_result(data@, fat_entries@, fnt_base as int, img_base as int) is Ok,
            r matches Ok(fs) ==> fs.read_from(data@, fat_entries@, fnt_base as int, img_base as int),
            r matches Err(e) ==> spec_fs_result(data@, fat_entries@, fnt_base as int, img_base as int) == Err::<FsShape, RomReadError>(e),
        decreases (if img_base <= data@.len() { data@.len() - img_base } else { 0 }), 4nat,
    {
        let n = data.len();
        let ghost s = data@;
        let ghost fat = fat_entries@;
        let ghost result = spec_fs_result(s, fat, fnt_base as int, img_base as int);
        if fnt_base > n || n - fnt_base < 8 {
            return Err(RomReadError::Nds(NdsRomReadError::FNTRead));
        }
        let total = match read_u16_le(data, fnt_base + 6) { Some(v) => v, None => 0 };
        let main_table = match read_fnt_main_entries(data, fnt_base, total as usize) {
            Ok(v) => v,
            Err(_) => { return Err(RomReadError::Nds(NdsRomReadError::FNTRead)); }
        };
        let ghost main = Seq::new(total as nat, |i: int| spec_fnt_main_entry(s, fnt_base + 8 * i));
        assert(main_table@ =~= main);
        let mut directories: Vec<NdsDirectory> = Vec::new();
        directories.push(NdsDirectory { id: ROOT_DIR_ID, name: String::new(), parent_dir_id: ROOT_DIR_ID });
        let mut files: Vec<NdsFile> = Vec::new();
        let ghost mut acc = root_shape();
        assert(finish_dirs(s, fat, fnt_base as int, img_base as int, main, 0, acc) == result);
        let nmain = main_table.len();
        let nfat = fat_entries.len();
        let mut i: usize = 0;
        while i < nmain
            invariant
                n == s.len(),
                s == data@,
                fat == fat_entries@,
                nfat == fat.len(),
                nmain == main.len(),
                nmain <= 0xFFFF,
                main_table@ == main,
                i <= nmain,
                fnt_base + 8 <= n,
                dirs_match(directories@, acc.dirs),
                files_match(files@, acc.files),
                forall|j: int| 0 <= j < files@.len() ==> #[trigger] files@[j].data.built_from(acc.files[j].raw),
                finish_dirs(s, fat, fnt_base as int, img_base as int, main, i as nat, acc) == result,
                result == spec_fs_result(s, fat, fnt_base as int, img_base as int),
            decreases nmain - i,
        {
            let me = main_table[i];
            let dir_id: u16 = ((0xF000usize + i) % 65536) as u16;
            let mut file_id: u16 = me.first_file_id;
            let off = me.sub_table_offset as usize;
            if off > n - fnt_base {
                return Err(RomReadError::Nds(NdsRomReadError::FNTRead));
            }
            let mut pos: usize = fnt_base + off;
            assert(finish_sub(s, fat, fnt_base as int, img_base as int, main, i as nat, pos as int, dir_id, file_id, acc) == result);
            loop
                invariant_except_break
                    finish_sub(s, fat, fnt_base as int, img_base as int, main, i as nat, pos as int, dir_id, file_id, acc) == result,
                invariant
                    n == s.len(),
                    s == data@,
                    fat == fat_entries@,
                    nfat == fat.len(),
                    nmain == main.len(),
                    nmain <= 0xFFFF,
                    main_table@ == main,
                    i < nmain,
                    fnt_base + 8 <= n,
                    pos <= n,
                    dirs_match(directories@, acc.dirs),
                    files_match(files@, acc.files),
                    forall|j: int| 0 <= j < files@.len() ==> #[trigger] files@[j].data.built_from(acc.files[j].raw),
                    result == spec_fs_result(s, fat, fnt_base as int, img_base as int),
                ensures
                    finish_dirs(s, fat, fnt_base as int, img_base as int, main, (i + 1) as nat, acc) == result,
                decreases n - pos,
            {
                let entry = match FntSubEntry::read(data, pos) {
                    Ok(e) => e,
                    Err(_) => { return Err(RomReadError::Nds(NdsRomReadError::FNTRead)); }
                };
                if entry.is_end() {
                    break;
                }
                let name = entry.name();
                let name_len = entry.name_bytes.len();
                let ghost gname = utf8_lossy(s.subrange(pos + 1, pos + 1 + name_len));
                assert(name@ == gname);
                let entry_len = if entry.is_dir() { 3 + name_len } else { 1 + name_len };
                assert(entry.type_length % 128 == name_len);
                assert(entry_len == fnt_sub_entry_len(entry.type_length));
                let ghost old_dirs = directories@;
                let ghost old_files = files@;
                let ghost old_acc = acc;
                if entry.is_dir() {
                    let id = match entry.sub_dir_id { Some(v) => v, None => 0 };
                    let ghost nd = NdsDirectory { id, name, parent_dir_id: dir_id };
                    directories.push(NdsDirectory { id, name, parent_dir_id: dir_id });
                    proof {
                        let d = DirShape { id: spec_u16_le(s, pos + 1 + name_len), name: gname, parent: dir_id };
                        lemma_dirs_push(old_dirs, acc.dirs, nd, d);
                        lemma_walk_dir_entry(s, fat, img_base as int, pos as int, dir_id, file_id, acc);
                        acc = FsShape { dirs: acc.dirs.push(d), files: acc.files };
                    }
                } else {
                    if file_id as usize >= nfat {
                        return Err(RomReadError::Nds(NdsRomReadError::FNTRead));
                    }
                    let fe = fat_entries[file_id as usize];
                    let (fdata, size) = match read_file_data(data, fe, img_base) {
                        Ok(v) => v,
                        Err(e) => { return Err(e); }
                    };
                    let ghost nf = NdsFile { id: file_id, name, parent_dir_id: dir_id, size, data: fdata };
                    files.push(NdsFile { id: file_id, name, parent_dir_id: dir_id, size, data: fdata });
                    proof {
                        let start = img_base + fe.start_address;
                        let f = FileShape { id: file_id, name: gname, parent: dir_id, raw: bytes_at(s, start, size as int)->Some_0 };
                        lemma_files_push(old_files, acc.files, nf, f);
                        lemma_walk_file_entry(s, fat, img_base as int, pos as int, dir_id, file_id, acc);
                        acc = FsShape { dirs: acc.dirs, files: acc.files.push(f) };
                    }
                    file_id = if file_id == 0xFFFF { 0 } else { file_id + 1 };
                }
                pos = pos + entry_len;
            }
            i = i + 1;
        }

        let ghost named = acc.files;
        let nnamed = files.len();
        let mut claimed: Vec<bool> = Vec::new();
        let mut c: usize = 0;
        while c < 65536
            invariant
                c <= 65536,
                claimed@.len() == c,
                forall|k: int| 0 <= k < c ==> !#[trigger] claimed@[k],
            decreases 65536 - c,
        {
            claimed.push(false);
            c = c + 1;
        }
        let mut j: usize = 0;
        while j < nnamed
            invariant
                j <= nnamed,
                nnamed == files@.len(),
                files_match(files@, named),
                claimed@.len() == 65536,
                forall|k: int| 0 <= k < 65536 ==> #[trigger] claimed@[k] == (exists|m: int| 0 <= m < j && named[m].id == k),
            decreases nnamed - j,
        {
            let id = files[j].id as usize;
            claimed.set(id, true);
            j = j + 1;
            proof {
                assert forall|k: int| 0 <= k < 65536 implies #[trigger] claimed@[k] == (exists|m: int| 0 <= m < j && named[m].id == k) by {
                    if k == id as int {
                        assert(named[j - 1].id == k);
                    } else {
                        if exists|m: int| 0 <= m < j && named[m].id == k {
                            let m = choose|m: int| 0 <= m < j && named[m].id == k;
                            assert(m != j - 1);
                        }
                    }
                }
            }
        }
        proof {
            assert forall|k: int| 0 <= k < 65536 implies #[trigger] claimed@[k] == id_claimed(named, k as u16) by {
                assert((k as u16) as int == k);
            }
        }
        assert(walk_unclaimed(s, fat, img_base as int, named, 0, acc) == result);
        let mut idx: usize = 0;
        while idx < nfat
            invariant
                n == s.len(),
                s == data@,
                fat == fat_entries@,
                nfat == fat.len(),
                idx <= nfat,
                claimed@.len() == 65536,
                forall|k: int| 0 <= k < 65536 ==> #[trigger] claimed@[k] == id_claimed(named, k as u16),
                dirs_match(directories@, acc.dirs),
                files_match(files@, acc.files),
                forall|j: int| 0 <= j < files@.len() ==> #[trigger] files@[j].data.built_from(acc.files[j].raw),
                walk_unclaimed(s, fat, img_base as int, named, idx as nat, acc) == result,
                result == spec_fs_result(s, fat, fnt_base as int, img_base as int),
            decreases nfat - idx,
        {
            let fid: u16 = (idx % 65536) as u16;
            let fe = fat_entries[idx];
            assert(claimed@[fid as int] == id_claimed(named, fid));
            if claimed[fid as usize] || fe.is_unused() {
                idx = idx + 1;
                continue;
            }
            let (fdata, size) = match read_file_data(data, fe, img_base) {
                Ok(v) => v,
                Err(e) => { return Err(e); }
            };
            let name = zero_pad4_string(idx);
            let ghost old_files = files@;
            let ghost nf = NdsFile { id: fid, name, parent_dir_id: ROOT_DIR_ID, size, data: fdata };
            files.push(NdsFile { id: fid, name, parent_dir_id: ROOT_DIR_ID, size, data: fdata });
            proof {
                let start = img_base + fe.start_address;
                let f = FileShape { id: fid, name: zero_pad4(idx as nat), parent: 0xF000, raw: bytes_at(s, start, size as int)->Some_0 };
                lemma_files_push(old_files, acc.files, nf, f);
                acc = FsShape { dirs: acc.dirs, files: acc.files.push(f) };
            }
            idx = idx + 1;
        }
        assert(result == Ok::<FsShape, RomReadError>(acc));
        let fs = NdsFileSystem { directories, files };
        assert(dirs_match(fs.directories@, acc.dirs));
        assert(files_match(fs.files@, acc.files));
        assert(forall|j: int| 0 <= j < fs.files@.len() ==> #[trigger] fs.files@[j].data.built_from(acc.files[j].raw));
        assert(spec_fs_result(s, fat, fnt_base as int, img_base as int) == Ok::<FsShape, RomReadError>(acc));
        proof {
            lemma_files_built_intro(fs.files@, acc.files);
        }
        assert(fs.read_from(s, fat, fnt_base as int, img_base as int));
        return Ok(fs);
    }
}

} // verus!

verus! {

/// What a path names in a file system: a directory or a file.
pub enum NdsFileSystemEntry<'a> {
    Directory(&'a NdsDirectory),
    File(&'a NdsFile),
}

/// The position of the first file from `i` on that lies in directory `dir_id` and is named
/// `name`.
pub open spec fn find_file(files: Seq<NdsFile>, dir_id: u16, name: Seq<char>, i: int) -> Option<int>
    decreases files.len() - i,
{
    if i < 0 || i >= files.len() {
        None
    } else if files[i].parent_dir_id == dir_id && files[i].name@ == name {
        Some(i)
    } else {
        find_file(files, dir_id, name, i + 1)
    }
}

/// The position of the first directory from `i` on whose parent is `dir_id` and which is
/// named `name`.
pub open spec fn find_dir(dirs: Seq<NdsDirectory>, dir_id: u16, name: Seq<char>, i: int) -> Option<int>
    decreases dirs.len() - i,
{
    if i < 0 || i >= dirs.len() {
        None
    } else if dirs[i].parent_dir_id == dir_id && dirs[i].name@ == name {
        Some(i)
    } else {
        find_dir(dirs, dir_id, name, i + 1)
    }
}

/// The file system inside a file, when the file is an archive.
pub open spec fn nested_fs_of(f: NdsFile) -> Option<NdsFileSystem> {
    match f.data {
        NdsFileData::Parsed { parsed: ParsedNdsFile::Narc(narc), .. } => Some(narc.fs),
        _ => None,
    }
}

/// What the components `comps[i..]` name, starting in directory `dir_id` of `fs`: at each
/// step a file of that name is looked for first (and, when components remain, the walk goes
/// on at the root of the archive inside it), then a directory.
pub open spec fn resolve_from<'a>(fs: &'a NdsFileSystem, comps: Seq<Seq<char>>, i: int, dir_id: u16) -> Option<NdsFileSystemEntry<'a>>
    decreases comps.len() - i,
{
    if i < 0 || i >= comps.len() {
        None
    } else {
        match find_file(fs.files@, dir_id, comps[i], 0) {
            Some(j) => if i + 1 == comps.len() {
                Some(NdsFileSystemEntry::File(&fs.files@[j]))
            } else {
                match fs.files@[j].data {
                    NdsFileData::Parsed { parsed: ParsedNdsFile::Narc(narc), .. } => resolve_from(&narc.fs, comps, i + 1, ROOT_DIR_ID),
                    _ => None,
                }
            },
            None => match find_dir(fs.directories@, dir_id, comps[i], 0) {
                Some(k) => if i + 1 == comps.len() {
                    Some(NdsFileSystemEntry::Directory(&fs.directories@[k]))
                } else {
                    resolve_from(fs, comps, i + 1, fs.directories@[k].id)
                },
                None => None,
            },
        }
    }
}

/// What `path` names in `fs`: the first directory for the empty path, else the walk from
/// the root.
pub open spec fn spec_get_entry<'a>(fs: &'a NdsFileSystem, path: Seq<char>) -> Option<NdsFileSystemEntry<'a>> {
    if path_components(path).len() == 0 {
        Some(NdsFileSystemEntry::Directory(&fs.directories@[0]))
    } else {
        resolve_from(fs, path_components(path), 0, ROOT_DIR_ID)
    }
}

/// The file found from position `i` on is the first from there that lies in the directory
/// asked for and has the name asked for; none is found when no file from there does.
pub proof fn lemma_find_file_matches(files: Seq<NdsFile>, dir_id: u16, name: Seq<char>, i: int)
    requires
        0 <= i,
    ensures
        find_file(files, dir_id, name, i) matches Some(j) ==> {
            &&& i <= j < files.len()
            &&& files[j].parent_dir_id == dir_id && files[j].name@ == name
            &&& forall|p: int| i <= p < j ==> !(#[trigger] files[p].parent_dir_id == dir_id && files[p].name@ == name)
        },
        find_file(files, dir_id, name, i) is None ==>
            forall|p: int| i <= p < files.len() ==> !(#[trigger] files[p].parent_dir_id == dir_id && files[p].name@ == name),
    decreases files.len() - i,
{
    if !(i >= files.len()) && !(files[i].parent_dir_id == dir_id && files[i].name@ == name) {
        lemma_find_file_matches(files, dir_id, name, i + 1);
    }
}

/// The directory found from position `i` on is the first from there whose parent is the
/// directory asked for and which has the name asked for; none is found when none from there
/// does.
pub proof fn lemma_find_dir_matches(dirs: Seq<NdsDirectory>, dir_id: u16, name: Seq<char>, i: int)
    requires
        0 <= i,
    ensures
        find_dir(dirs, dir_id, name, i) matches Some(j) ==> {
            &&& i <= j < dirs.len()
            &&& dirs[j].parent_dir_id == dir_id && dirs[j].name@ == name
            &&& forall|p: int| i <= p < j ==> !(#[trigger] dirs[p].parent_dir_id == dir_id && dirs[p].name@ == name)
        },
        find_dir(dirs, dir_id, name, i) is None ==>
            forall|p: int| i <= p < dirs.len() ==> !(#[trigger] dirs[p].parent_dir_id == dir_id && dirs[p].name@ == name),
    decreases dirs.len() - i,
{
    if !(i >= dirs.len()) && !(dirs[i].parent_dir_id == dir_id && dirs[i].name@ == name) {
        lemma_find_dir_matches(dirs, dir_id, name, i + 1);
    }
}

/// The walk of `comps[i..]` from directory `dir_id` finds a file only inside the directory
/// that the leading components walk to: the file bears the last component as its name, and
/// its parent is `dir_id` when one component is left, the directory the components before
/// the last name when that is a directory, and the root of the archive they name when that
/// is an archive.
pub proof fn lemma_resolve_file_in_dir(fs: &NdsFileSystem, comps: Seq<Seq<char>>, i: int, dir_id: u16)
    requires
        resolve_from(fs, comps, i, dir_id) matches Some(NdsFileSystemEntry::File(_)),
    ensures
        ({
            let f = resolve_from(fs, comps, i, dir_id)->Some_0->File_0;
            &&& 0 <= i < comps.len()
            &&& f.name@ == comps.last()
            &&& comps.len() == i + 1 ==> f.parent_dir_id == dir_id
            &&& comps.len() > i + 1 ==> match resolve_from(fs, comps.drop_last(), i, dir_id) {
                Some(NdsFileSystemEntry::Directory(d)) => f.parent_dir_id == d.id,
                Some(NdsFileSystemEntry::File(a)) => nested_fs_of(*a) is Some && f.parent_dir_id == ROOT_DIR_ID,
                None => false,
            }
        }),
    decreases comps.len() - i,
{
    let dl = comps.drop_last();
    if i + 1 < comps.len() {
        assert(dl[i] == comps[i]);
    }
    match find_file(fs.files@, dir_id, comps[i], 0) {
        Some(j) => {
            lemma_find_file_matches(fs.files@, dir_id, comps[i], 0);
            if i + 1 < comps.len() {
                match fs.files@[j].data {
                    NdsFileData::Parsed { parsed: ParsedNdsFile::Narc(narc), .. } => {
                        lemma_resolve_file_in_dir(&narc.fs, comps, i + 1, ROOT_DIR_ID);
                        if i + 2 < comps.len() {
                            assert(dl[i + 1] == comps[i + 1]);
                        }
                    },
                    _ => {},
                }
            }
        },
        None => {
            match find_dir(fs.directories@, dir_id, comps[i], 0) {
                Some(k) => {
                    lemma_find_dir_matches(fs.directories@, dir_id, comps[i], 0);
                    if i + 1 < comps.len() {
                        lemma_resolve_file_in_dir(fs, comps, i + 1, fs.directories@[k].id);
                        if i + 2 < comps.len() {
                            assert(dl[i + 1] == comps[i + 1]);
                        }
                    }
                },
                None => {},
            }
        },
    }
}

/// The walk of `comps[i..]` from directory `dir_id` finds a directory only inside the
/// directory that the leading components walk to: the directory bears the last component as
/// its name, and its parent is `dir_id` when one component is left, the directory the
/// components before the last name when that is a directory, and the root of the archive
/// they name when that is an archive.
pub proof fn lemma_resolve_dir_in_dir(fs: &NdsFileSystem, comps: Seq<Seq<char>>, i: int, dir_id: u16)
    requires
        resolve_from(fs, comps, i, dir_id) matches Some(NdsFileSystemEntry::Directory(_)),
    ensures
        ({
            let e = resolve_from(fs, comps, i, dir_id)->Some_0->Directory_0;
            &&& 0 <= i < comps.len()
            &&& e.name@ == comps.last()
            &&& comps.len() == i + 1 ==> e.parent_dir_id == dir_id
            &&& comps.len() > i + 1 ==> match resolve_from(fs, comps.drop_last(), i, dir_id) {
                Some(NdsFileSystemEntry::Directory(d)) => e.parent_dir_id == d.id,
                Some(NdsFileSystemEntry::File(a)) => nested_fs_of(*a) is Some && e.parent_dir_id == ROOT_DIR_ID,
                None => false,
            }
        }),
    decreases comps.len() - i,
{
    let dl = comps.drop_last();
    if i + 1 < comps.len() {
        assert(dl[i] == comps[i]);
    }
    match find_file(fs.files@, dir_id, comps[i], 0) {
        Some(j) => {
            lemma_find_file_matches(fs.files@, dir_id, comps[i], 0);
            if i + 1 < comps.len() {
                match fs.files@[j].data {
                    NdsFileData::Parsed { parsed: ParsedNdsFile::Narc(narc), .. } => {
                        lemma_resolve_dir_in_dir(&narc.fs, comps, i + 1, ROOT_DIR_ID);
                        if i + 2 < comps.len() {
                            assert(dl[i + 1] == comps[i + 1]);
                        }
                    },
                    _ => {},
                }
            }
        },
        None => {
            match find_dir(fs.directories@, dir_id, comps[i], 0) {
                Some(k) => {
                    lemma_find_dir_matches(fs.directories@, dir_id, comps[i], 0);
                    if i + 1 < comps.len() {
                        lemma_resolve_dir_in_dir(fs, comps, i + 1, fs.directories@[k].id);
                        if i + 2 < comps.len() {
                            assert(dl[i + 1] == comps[i + 1]);
                        }
                    }
                },
                None => {},
            }
        },
    }
}

/// A file that a path names is named by the path's last component and lies in the directory
/// that the components before it name (the root for a one-component path, the root of an
/// archive when they name an archive).
pub proof fn lemma_get_file_in_dir(fs: &NdsFileSystem, path: Seq<char>)
    requires
        spec_get_entry(fs, path) matches Some(NdsFileSystemEntry::File(_)),
    ensures
        ({
            let comps = path_components(path);
            let f = spec_get_entry(fs, path)->Some_0->File_0;
            &&& comps.len() > 0
            &&& f.name@ == comps.last()
            &&& comps.len() == 1 ==> f.parent_dir_id == ROOT_DIR_ID
            &&& comps.len() > 1 ==> match resolve_from(fs, comps.drop_last(), 0, ROOT_DIR_ID) {
                Some(NdsFileSystemEntry::Directory(d)) => f.parent_dir_id == d.id,
                Some(NdsFileSystemEntry::File(a)) => nested_fs_of(*a) is Some && f.parent_dir_id == ROOT_DIR_ID,
                None => false,
            }
        }),
{
    lemma_resolve_file_in_dir(fs, path_components(path), 0, ROOT_DIR_ID);
}

/// A directory that a non-empty path names is named by the path's last component and is a
/// sub-directory of the directory that the components before it name (the root for a
/// one-component path, the root of an archive when they name an archive).
pub proof fn lemma_get_dir_in_dir(fs: &NdsFileSystem, path: Seq<char>)
    requires
        path_components(path).len() > 0,
        spec_get_entry(fs, path) matches Some(NdsFileSystemEntry::Directory(_)),
    ensures
        ({
            let comps = path_components(path);
            let d = spec_get_entry(fs, path)->Some_0->Directory_0;
            &&& d.name@ == comps.last()
            &&& comps.len() == 1 ==> d.parent_dir_id == ROOT_DIR_ID
            &&& comps.len() > 1 ==> match resolve_from(fs, comps.drop_last(), 0, ROOT_DIR_ID) {
                Some(NdsFileSystemEntry::Directory(p)) => d.parent_dir_id == p.id,
                Some(NdsFileSystemEntry::File(a)) => nested_fs_of(*a) is Some && d.parent_dir_id == ROOT_DIR_ID,
                None => false,
            }
        }),
{
    lemma_resolve_dir_in_dir(fs, path_components(path), 0, ROOT_DIR_ID);
}

impl NdsFileSystem {
    /// The entry that `path` names, if any.
    pub fn get_entry<'a>(&'a self, path: NdsPath) -> (r: Option<NdsFileSystemEntry<'a>>)
        requires
            path_components(path@).len() == 0 ==> self.directories@.len() > 0,
        ensures
            r == spec_get_entry(self, path@),
    {
        if path.is_empty() {
            return Some(NdsFileSystemEntry::Directory(&self.directories[0]));
        }
        let components = path.components();
        self.resolve(&components, 0)
    }

    fn resolve<'a>(&'a self, components: &Vec<String>, start: usize) -> (r: Option<NdsFileSystemEntry<'a>>)
        ensures
            r == resolve_from(self, string_views(components@), start as int, ROOT_DIR_ID),
        decreases components@.len() - start,
    {
        let ghost comps = string_views(components@);
        let n = components.len();
        let mut current_dir_id: u16 = ROOT_DIR_ID;
        let mut i: usize = start;
        while i < n
            invariant
                n == components@.len(),
                comps == string_views(components@),
                start <= i,
                resolve_from(self, comps, start as int, ROOT_DIR_ID) == resolve_from(self, comps, i as int, current_dir_id),
            decreases n - i,
        {
            let name = components[i].as_str();
            assert(name@ == comps[i as int]);
            let last = i + 1 == n;
            match self.file_in(current_dir_id, name) {
                Some(file) => {
                    if last {
                        return Some(NdsFileSystemEntry::File(file));
                    }
                    return match file.data.nested_fs() {
                        Some(nested) => nested.resolve(components, i + 1),
                        None => None,
                    };
                },
                None => {},
            }
            match self.dir_in(current_dir_id, name) {
                Some(dir) => {
                    if last {
                        return Some(NdsFileSystemEntry::Directory(dir));
                    }
                    current_dir_id = dir.id;
                },
                None => {
                    return None;
                },
            }
            i = i + 1;
        }
        None
    }

    /// The first file in directory `dir_id` named `name`.
    fn file_in(&self, dir_id: u16, name: &str) -> (r: Option<&NdsFile>)
        ensures
            r == (match find_file(self.files@, dir_id, name@, 0) {
                Some(j) => Some(&self.files@[j]),
                None => None::<&NdsFile>,
            }),
    {
        let n = self.files.len();
        let mut i: usize = 0;
        while i < n
            invariant
                i <= n,
                n == self.files@.len(),
                find_file(self.files@, dir_id, name@, 0) == find_file(self.files@, dir_id, name@, i as int),
            decreases n - i,
        {
            let f = &self.files[i];
            if f.parent_dir_id == dir_id && str_eq(f.name.as_str(), name) {
                return Some(f);
            }
            i = i + 1;
        }
        None
    }

    /// The first directory in directory `dir_id` named `name`.
    fn dir_in(&self, dir_id: u16, name: &str) -> (r: Option<&NdsDirectory>)
        ensures
            r == (match find_dir(self.directories@, dir_id, name@, 0) {
                Some(j) => Some(&self.directories@[j]),
                None => None::<&NdsDirectory>,
            }),
    {
        let n = self.directories.len();
        let mut i: usize = 0;
        while i < n
            invariant
                i <= n,
                n == self.directories@.len(),
                find_dir(self.directories@, dir_id, name@, 0) == find_dir(self.directories@, dir_id, name@, i as int),
            decreases n - i,
        {
            let d = &self.directories[i];
            if d.parent_dir_id == dir_id && str_eq(d.name.as_str(), name) {
                return Some(d);
            }
            i = i + 1;
        }
        None
    }

    /// The file that `path` names, if it names a file.
    pub fn get_file<'a>(&'a self, path: NdsPath) -> (r: Option<&'a NdsFile>)
        requires
            path_components(path@).len() == 0 ==> self.directories@.len() > 0,
        ensures
            r == (match spec_get_entry(self, path@) {
                Some(NdsFileSystemEntry::File(f)) => Some(f),
                _ => None::<&NdsFile>,
            }),
    {
        match self.get_entry(path) {
            Some(NdsFileSystemEntry::File(f)) => Some(f),
            _ => None,
        }
    }

    /// The directory that `path` names, if it names a directory.
    pub fn get_dir<'a>(&'a self, path: NdsPath) -> (r: Option<&'a NdsDirectory>)
        requires
            path_components(path@).len() == 0 ==> self.directories@.len() > 0,
        ensures
            r == (match spec_get_entry(self, path@) {
                Some(NdsFileSystemEntry::Directory(d)) => Some(d),
                _ => None::<&NdsDirectory>,
            }),
    {
        match self.get_entry(path) {
            Some(NdsFileSystemEntry::Directory(d)) => Some(d),
            _ => None,
        }
    }

    /// The directories whose parent is `dir_id`, other than `dir_id` itself, in order.
    pub fn child_dirs(&self, dir_id: u16) -> (r: Vec<&NdsDirectory>)
        ensures
            r@.map_values(|d: &NdsDirectory| *d) == self.directories@.filter(|d: NdsDirectory| d.parent_dir_id == dir_id && d.id != dir_id),
    {
        let ghost pred = |d: NdsDirectory| d.parent_dir_id == dir_id && d.id != dir_id;
        let n = self.directories.len();
        let mut out: Vec<&NdsDirectory> = Vec::new();
        let mut i: usize = 0;
        assert(self.directories@.subrange(0, 0).filter(pred) =~= Seq::<NdsDirectory>::empty()) by {
            reveal(Seq::filter);
        }
        while i < n
            invariant
                i <= n,
                n == self.directories@.len(),
                pred == (|d: NdsDirectory| d.parent_dir_id == dir_id && d.id != dir_id),
                out@.map_values(|d: &NdsDirectory| *d) == self.directories@.subrange(0, i as int).filter(pred),
            decreases n - i,
        {
            let d = &self.directories[i];
            let ghost before = out@;
            proof {
                let s = self.directories@.subrange(0, i as int);
                assert(self.directories@.subrange(0, i + 1) =~= s.push(*d));
                s.lemma_filter_push(*d, pred);
            }
            if d.parent_dir_id == dir_id && d.id != dir_id {
                out.push(d);
                assert(out@.map_values(|d: &NdsDirectory| *d) =~= before.map_values(|d: &NdsDirectory| *d).push(*d));
            }
            i = i + 1;
        }
        assert(self.directories@.subrange(0, n as int) =~= self.directories@);
        out
    }

    /// The files whose parent is `dir_id`, in order.
    pub fn child_files(&self, dir_id: u16) -> (r: Vec<&NdsFile>)
        ensures
            r@.map_values(|f: &NdsFile| *f) == self.files@.filter(|f: NdsFile| f.parent_dir_id == dir_id),
    {
        let ghost pred = |f: NdsFile| f.parent_dir_id == dir_id;
        let n = self.files.len();
        let mut out: Vec<&NdsFile> = Vec::new();
        let mut i: usize = 0;
        assert(self.files@.subrange(0, 0).filter(pred) =~= Seq::<NdsFile>::empty()) by {
            reveal(Seq::filter);
        }
        while i < n
            invariant
                i <= n,
                n == self.files@.len(),
                pred == (|f: NdsFile| f.parent_dir_id == dir_id),
                out@.map_values(|f: &NdsFile| *f) == self.files@.subrange(0, i as int).filter(pred),
            decreases n - i,
        {
            let f = &self.files[i];
            let ghost before = out@;
            proof {
                let s = self.files@.subrange(0, i as int);
                assert(self.files@.subrange(0, i + 1) =~= s.push(*f));
                s.lemma_filter_push(*f, pred);
            }
            if f.parent_dir_id == dir_id {
                out.push(f);
                assert(out@.map_values(|f: &NdsFile| *f) =~= before.map_values(|f: &NdsFile| *f).push(*f));
            }
            i = i + 1;
        }
        assert(self.files@.subrange(0, n as int) =~= self.files@);
        out
    }
}

} // verus!

verus! {

/// Whether every file of `files` carries the bytes that the FAT entry with its id places,
/// relative to `img_base`.
pub open spec fn files_at_fat(s: Seq<u8>, fat: Seq<FatEntry>, img_base: int, files: Seq<FileShape>) -> bool {
    forall|j: int| 0 <= j < files.len() ==> {
        &&& (#[trigger] files[j]).id < fat.len()
        &&& bytes_at(s, img_base + fat[files[j].id as int].start_address, fat_entry_size(fat[files[j].id as int])) == Some(files[j].raw)
    }
}

proof fn lemma_walk_sub_table_fat(s: Seq<u8>, fat: Seq<FatEntry>, img_base: int, pos: int, dir_id: u16, file_id: u16, acc: FsShape)
    requires
        fat.len() <= 0x10000,
        files_at_fat(s, fat, img_base, acc.files),
    ensures
        walk_sub_table(s, fat, img_base, pos, dir_id, file_id, acc) matches Ok(a) ==> files_at_fat(s, fat, img_base, a.files),
    decreases s.len() - pos,
{
    if !(pos < 0 || pos >= s.len() || pos + fnt_sub_entry_len(s[pos]) > s.len()) {
        let t = s[pos];
        if t != 0 {
            let n = (t % 128) as int;
            let name = utf8_lossy(s.subrange(pos + 1, pos + 1 + n));
            let next = pos + fnt_sub_entry_len(t);
            if t >= 0x80 {
                let d = DirShape { id: spec_u16_le(s, pos + 1 + n), name, parent: dir_id };
                lemma_walk_sub_table_fat(s, fat, img_base, next, dir_id, file_id, FsShape { dirs: acc.dirs.push(d), files: acc.files });
            } else if file_id < fat.len() {
                let e = fat[file_id as int];
                let raw = bytes_at(s, img_base + e.start_address, fat_entry_size(e));
                if raw is Some && brotli_compressed(raw->Some_0) is Some {
                    let f = FileShape { id: file_id, name, parent: dir_id, raw: raw->Some_0 };
                    let files2 = acc.files.push(f);
                    assert forall|j: int| 0 <= j < files2.len() implies {
                        &&& (#[trigger] files2[j]).id < fat.len()
                        &&& bytes_at(s, img_base + fat[files2[j].id as int].start_address, fat_entry_size(fat[files2[j].id as int])) == Some(files2[j].raw)
                    } by {
                        if j < acc.files.len() {
                            assert(files2[j] == acc.files[j]);
                        }
                    }
                    lemma_walk_sub_table_fat(s, fat, img_base, next, dir_id, ((file_id + 1) % 65536) as u16, FsShape { dirs: acc.dirs, files: files2 });
                }
            }
        }
    }
}

proof fn lemma_walk_dirs_fat(s: Seq<u8>, fat: Seq<FatEntry>, fnt_base: int, img_base: int, main: Seq<FntMainEntry>, i: nat, acc: FsShape)
    requires
        fat.len() <= 0x10000,
        files_at_fat(s, fat, img_base, acc.files),
    ensures
        walk_dirs(s, fat, fnt_base, img_base, main, i, acc) matches Ok(a) ==> files_at_fat(s, fat, img_base, a.files),
    decreases main.len() - i,
{
    if i < main.len() {
        let dir_id = ((0xF000 + i) % 65536) as u16;
        let r = walk_sub_table(s, fat, img_base, fnt_base + main[i as int].sub_table_offset, dir_id, main[i as int].first_file_id, acc);
        lemma_walk_sub_table_fat(s, fat, img_base, fnt_base + main[i as int].sub_table_offset, dir_id, main[i as int].first_file_id, acc);
        if r is Ok {
            lemma_walk_dirs_fat(s, fat, fnt_base, img_base, main, i + 1, r->Ok_0);
        }
    }
}

proof fn lemma_walk_unclaimed_fat(s: Seq<u8>, fat: Seq<FatEntry>, img_base: int, named: Seq<FileShape>, idx: nat, acc: FsShape)
    requires
        fat.len() <= 0x10000,
        files_at_fat(s, fat, img_base, acc.files),
    ensures
        walk_unclaimed(s, fat, img_base, named, idx, acc) matches Ok(a) ==> files_at_fat(s, fat, img_base, a.files),
    decreases fat.len() - idx,
{
    if idx < fat.len() {
        let fid = (idx % 65536) as u16;
        let e = fat[idx as int];
        if id_claimed(named, fid) || (e.start_address == 0 && e.end_address == 0) {
            lemma_walk_unclaimed_fat(s, fat, img_base, named, idx + 1, acc);
        } else {
            let raw = bytes_at(s, img_base + e.start_address, fat_entry_size(e));
            if raw is Some && brotli_compressed(raw->Some_0) is Some {
                assert(fid as int == idx);
                let f = FileShape { id: fid, name: zero_pad4(idx), parent: 0xF000, raw: raw->Some_0 };
                let files2 = acc.files.push(f);
                assert forall|j: int| 0 <= j < files2.len() implies {
                    &&& (#[trigger] files2[j]).id < fat.len()
                    &&& bytes_at(s, img_base + fat[files2[j].id as int].start_address, fat_entry_size(fat[files2[j].id as int])) == Some(files2[j].raw)
                } by {
                    if j < acc.files.len() {
                        assert(files2[j] == acc.files[j]);
                    }
                }
                lemma_walk_unclaimed_fat(s, fat, img_base, named, idx + 1, FsShape { dirs: acc.dirs, files: files2 });
            }
        }
    }
}

/// What reading a file system gives back of each file is the run of bytes that the FAT
/// entry with the file's id describes (for tables of at most 65536 entries, where ids and
/// FAT positions coincide).
pub proof fn lemma_fs_files_at_fat(s: Seq<u8>, fat: Seq<FatEntry>, fnt_base: int, img_base: int)
    requires
        fat.len() <= 0x10000,
    ensures
        spec_fs_result(s, fat, fnt_base, img_base) matches Ok(shape) ==> files_at_fat(s, fat, img_base, shape.files),
{
    if !(fnt_base < 0 || fnt_base + 8 > s.len()) {
        let total = spec_u16_le(s, fnt_base + 6);
        if fnt_base + 8 * total <= s.len() {
            let main = Seq::new(total as nat, |i: int| spec_fnt_main_entry(s, fnt_base + 8 * i));
            assert(files_at_fat(s, fat, img_base, root_shape().files));
            lemma_walk_dirs_fat(s, fat, fnt_base, img_base, main, 0, root_shape());
            let r = walk_dirs(s, fat, fnt_base, img_base, main, 0, root_shape());
            if r is Ok {
                lemma_walk_unclaimed_fat(s, fat, img_base, r->Ok_0.files, 0, r->Ok_0);
            }
        }
    }
}

/// A file of a file system read from `s` holds the bytes that its FAT entry describes: its
/// contents were built from exactly those bytes, and its size is their number.
pub proof fn lemma_read_file_contents(fs: NdsFileSystem, s: Seq<u8>, fat: Seq<FatEntry>, fnt_base: int, img_base: int, j: int)
    requires
        fs.read_from(s, fat, fnt_base, img_base),
        fat.len() <= 0x10000,
        0 <= j < fs.files@.len(),
    ensures
        fs.files@[j].id < fat.len(),
        ({
            let e = fat[fs.files@[j].id as int];
            &&& bytes_at(s, img_base + e.start_address, fat_entry_size(e)) is Some
            &&& fs.files@[j].data.built_from(bytes_at(s, img_base + e.start_address, fat_entry_size(e))->Some_0)
            &&& fs.files@[j].size == fat_entry_size(e)
        }),
{
    let shape = spec_fs_result(s, fat, fnt_base, img_base)->Ok_0;
    lemma_fs_files_at_fat(s, fat, fnt_base, img_base);
    lemma_files_built_elim(fs.files@, shape.files, j);
    assert(fs.files@[j].id == shape.files[j].id);
    assert(shape.files[j].id < fat.len());
}

/// Whether the shape `b` extends `a`: `a`'s directories and files come first in `b`.
pub open spec fn shape_grows(a: FsShape, b: FsShape) -> bool {
    a.dirs.is_prefix_of(b.dirs) && a.files.is_prefix_of(b.files)
}

proof fn lemma_prefix_trans<A>(a: Seq<A>, b: Seq<A>, c: Seq<A>)
    requires
        a.is_prefix_of(b),
        b.is_prefix_of(c),
    ensures
        a.is_prefix_of(c),
{
    assert forall|j: int| 0 <= j < a.len() implies a[j] == c.subrange(0, a.len() as int)[j] by {
        assert(a[j] == b.subrange(0, a.len() as int)[j]);
        assert(b[j] == c.subrange(0, b.len() as int)[j]);
    }
    assert(a =~= c.subrange(0, a.len() as int));
}

proof fn lemma_prefix_push<A>(a: Seq<A>, x: A)
    ensures
        a.is_prefix_of(a.push(x)),
        a.is_prefix_of(a),
{
    assert(a =~= a.push(x).subrange(0, a.len() as int));
    assert(a =~= a.subrange(0, a.len() as int));
}

proof fn lemma_grows_trans(a: FsShape, b: FsShape, c: FsShape)
    requires
        shape_grows(a, b),
        shape_grows(b, c),
    ensures
        shape_grows(a, c),
{
    lemma_prefix_trans(a.dirs, b.dirs, c.dirs);
    lemma_prefix_trans(a.files, b.files, c.files);
}

/// Walking a sub-table only adds directories and files after those already there.
proof fn lemma_sub_table_grows(s: Seq<u8>, fat: Seq<FatEntry>, img_base: int, pos: int, dir_id: u16, file_id: u16, acc: FsShape)
    ensures
        walk_sub_table(s, fat, img_base, pos, dir_id, file_id, acc) matches Ok(r) ==> shape_grows(acc, r),
    decreases s.len() - pos,
{
    lemma_prefix_push(acc.dirs, DirShape { id: 0, name: Seq::empty(), parent: 0 });
    lemma_prefix_push(acc.files, FileShape { id: 0, name: Seq::empty(), parent: 0, raw: Seq::empty() });
    if !(pos < 0 || pos >= s.len() || pos + fnt_sub_entry_len(s[pos]) > s.len()) && s[pos] != 0 {
        let t = s[pos];
        let n = (t % 128) as int;
        let name = utf8_lossy(s.subrange(pos + 1, pos + 1 + n));
        let next = pos + fnt_sub_entry_len(t);
        if t >= 0x80 {
            let d = DirShape { id: spec_u16_le(s, pos + 1 + n), name, parent: dir_id };
            let acc2 = FsShape { dirs: acc.dirs.push(d), files: acc.files };
            lemma_prefix_push(acc.dirs, d);
            lemma_sub_table_grows(s, fat, img_base, next, dir_id, file_id, acc2);
            if let Ok(r) = walk_sub_table(s, fat, img_base, pos, dir_id, file_id, acc) {
                lemma_grows_trans(acc, acc2, r);
            }
        } else if file_id < fat.len() {
            let e = fat[file_id as int];
            let raw = bytes_at(s, img_base + e.start_address, fat_entry_size(e));
            if raw is Some && brotli_compressed(raw->Some_0) is Some {
                let f = FileShape { id: file_id, name, parent: dir_id, raw: raw->Some_0 };
                let acc2 = FsShape { dirs: acc.dirs, files: acc.files.push(f) };
                lemma_prefix_push(acc.files, f);
                lemma_sub_table_grows(s, fat, img_base, next, dir_id, ((file_id + 1) % 65536) as u16, acc2);
                if let Ok(r) = walk_sub_table(s, fat, img_base, pos, dir_id, file_id, acc) {
                    lemma_grows_trans(acc, acc2, r);
                }
            }
        }
    }
}

/// Walking the directories only adds directories and files after those already there.
proof fn lemma_dirs_grow(s: Seq<u8>, fat: Seq<FatEntry>, fnt_base: int, img_base: int, main: Seq<FntMainEntry>, i: nat, acc: FsShape)
    ensures
        walk_dirs(s, fat, fnt_base, img_base, main, i, acc) matches Ok(r) ==> shape_grows(acc, r),
    decreases main.len() - i,
{
    lemma_prefix_push(acc.dirs, DirShape { id: 0, name: Seq::empty(), parent: 0 });
    lemma_prefix_push(acc.files, FileShape { id: 0, name: Seq::empty(), parent: 0, raw: Seq::empty() });
    if i < main.len() {
        let dir_id = ((0xF000 + i) % 65536) as u16;
        let w = walk_sub_table(s, fat, img_base, fnt_base + main[i as int].sub_table_offset, dir_id, main[i as int].first_file_id, acc);
        lemma_sub_table_grows(s, fat, img_base, fnt_base + main[i as int].sub_table_offset, dir_id, main[i as int].first_file_id, acc);
        if let Ok(a) = w {
            lemma_dirs_grow(s, fat, fnt_base, img_base, main, i + 1, a);
            if let Ok(r) = walk_dirs(s, fat, fnt_base, img_base, main, i, acc) {
                lemma_grows_trans(acc, a, r);
            }
        }
    }
}

/// Adding the unnamed files keeps what was there first; and every used FAT entry from `i` on
/// ends up with a file of its index, when the named files come first.
proof fn lemma_unclaimed_covers(s: Seq<u8>, fat: Seq<FatEntry>, img_base: int, named: Seq<FileShape>, i: nat, acc: FsShape, idx: int)
    requires
        named.is_prefix_of(acc.files),
    ensures
        walk_unclaimed(s, fat, img_base, named, i, acc) matches Ok(r) ==> {
            &&& shape_grows(acc, r)
            &&& (fat.len() <= 0x10000 && i <= idx < fat.len() && !(fat[idx].start_address == 0 && fat[idx].end_address == 0))
                ==> exists|k: int| 0 <= k < r.files.len() && r.files[k].id == idx
        },
    decreases fat.len() - i,
{
    lemma_prefix_push(acc.dirs, DirShape { id: 0, name: Seq::empty(), parent: 0 });
    lemma_prefix_push(acc.files, FileShape { id: 0, name: Seq::empty(), parent: 0, raw: Seq::empty() });
    if i < fat.len() {
        let fid = (i % 65536) as u16;
        let e = fat[i as int];
        if id_claimed(named, fid) || (e.start_address == 0 && e.end_address == 0) {
            lemma_unclaimed_covers(s, fat, img_base, named, i + 1, acc, idx);
            if let Ok(r) = walk_unclaimed(s, fat, img_base, named, i, acc) {
                if idx == i && id_claimed(named, fid) && fat.len() <= 0x10000 {
                    let j = choose|j: int| 0 <= j < named.len() && named[j].id == fid;
                    lemma_prefix_trans(named, acc.files, r.files);
                    assert(r.files[j] == r.files.subrange(0, named.len() as int)[j]);
                    assert(r.files[j].id == idx);
                }
            }
        } else {
            let raw = bytes_at(s, img_base + e.start_address, fat_entry_size(e));
            if raw is Some && brotli_compressed(raw->Some_0) is Some {
                let f = FileShape { id: fid, name: zero_pad4(i), parent: 0xF000, raw: raw->Some_0 };
                let acc2 = FsShape { dirs: acc.dirs, files: acc.files.push(f) };
                lemma_prefix_push(acc.files, f);
                lemma_prefix_trans(named, acc.files, acc2.files);
                lemma_unclaimed_covers(s, fat, img_base, named, i + 1, acc2, idx);
                if let Ok(r) = walk_unclaimed(s, fat, img_base, named, i, acc) {
                    lemma_grows_trans(acc, acc2, r);
                    if idx == i && fat.len() <= 0x10000 {
                        let k = acc.files.len() as int;
                        assert(acc2.files[k] == f);
                        assert(r.files[k] == r.files.subrange(0, acc2.files.len() as int)[k]);
                        assert(r.files[k].id == idx);
                    }
                }
            }
        }
    }
}

/// A file system read from tables starts with the root directory: id 0xF000, no name, its
/// own parent.
pub proof fn lemma_fs_root(fs: NdsFileSystem, s: Seq<u8>, fat: Seq<FatEntry>, fnt_base: int, img_base: int)
    requires
        fs.read_from(s, fat, fnt_base, img_base),
    ensures
        fs.directories@.len() > 0,
        fs.directories@[0].id == ROOT_DIR_ID,
        fs.directories@[0].name@ == Seq::<char>::empty(),
        fs.directories@[0].parent_dir_id == ROOT_DIR_ID,
{
    let total = spec_u16_le(s, fnt_base + 6);
    let main = Seq::new(total as nat, |i: int| spec_fnt_main_entry(s, fnt_base + 8 * i));
    let a = walk_dirs(s, fat, fnt_base, img_base, main, 0, root_shape())->Ok_0;
    let shape = spec_fs_result(s, fat, fnt_base, img_base)->Ok_0;
    lemma_dirs_grow(s, fat, fnt_base, img_base, main, 0, root_shape());
    lemma_prefix_push(a.files, FileShape { id: 0, name: Seq::empty(), parent: 0, raw: Seq::empty() });
    lemma_unclaimed_covers(s, fat, img_base, a.files, 0, a, 0);
    lemma_grows_trans(root_shape(), a, shape);
    assert(shape.dirs[0] == shape.dirs.subrange(0, 1)[0]);
    assert(shape.dirs[0] == root_shape().dirs[0]);
    assert(fs.directories@[0].id == shape.dirs[0].id);
    assert(fs.directories@[0].name@ == shape.dirs[0].name);
    assert(fs.directories@[0].name@ =~= Seq::<char>::empty());
}

/// A file system read from tables has, for every used FAT entry (one whose addresses are
/// not both zero), a file with that entry's index as its id: named in the FNT, or else added
/// to the root (for tables of at most 65536 entries).
pub proof fn lemma_fs_used_fat_entries(fs: NdsFileSystem, s: Seq<u8>, fat: Seq<FatEntry>, fnt_base: int, img_base: int, idx: int)
    requires
        fs.read_from(s, fat, fnt_base, img_base),
        fat.len() <= 0x10000,
        0 <= idx < fat.len(),
        !(fat[idx].start_address == 0 && fat[idx].end_address == 0),
    ensures
        exists|k: int| 0 <= k < fs.files@.len() && fs.files@[k].id == idx,
{
    let total = spec_u16_le(s, fnt_base + 6);
    let main = Seq::new(total as nat, |i: int| spec_fnt_main_entry(s, fnt_base + 8 * i));
    let a = walk_dirs(s, fat, fnt_base, img_base, main, 0, root_shape())->Ok_0;
    let shape = spec_fs_result(s, fat, fnt_base, img_base)->Ok_0;
    lemma_prefix_push(a.files, FileShape { id: 0, name: Seq::empty(), parent: 0, raw: Seq::empty() });
    lemma_unclaimed_covers(s, fat, img_base, a.files, 0, a, idx);
    let k = choose|k: int| 0 <= k < shape.files.len() && shape.files[k].id == idx;
    assert(fs.files@[k].id == shape.files[k].id);
}

} // verus!
