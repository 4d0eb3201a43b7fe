//! A browsable tree of a file system: directories and files with their paths, archives
//! opened in place, and a filter that hides what does not match.
use crate::codec::nds::fs::dir::NdsDirectory;
use crate::codec::nds::fs::{nested_fs_of, NdsFileSystem, ROOT_DIR_ID};
use crate::nds::fs::file::{NdsFile, NdsFileData};
use crate::platform::nds::formats::NdsFileFormat;
use crate::text::string_push;
use vstd::prelude::*;

verus! {

/// The tree of a whole file system.
#[derive(Default)]
pub struct NdsFileTree {
    pub root: NdsFileTreeDir,
}

/// A directory of the tree.
#[derive(Default)]
pub struct NdsFileTreeDir {
    pub name: String,
    pub path: String,
    pub children: Vec<NdsFileTreeEntry>,
}

/// A file of the tree; an archive has the tree of its own file system as children.
pub struct NdsFileTreeFile {
    pub name: String,
    pub path: String,
    pub format: Option<NdsFileFormat>,
    pub size: usize,
    pub children: Option<Vec<NdsFileTreeEntry>>,
}

pub enum NdsFileTreeEntry {
    Dir(NdsFileTreeDir),
    File(NdsFileTreeFile),
}

/// What the tree shows: names containing `search` (ignoring ASCII case), files of the
/// `formats` (all formats when there are none), and, if asked, directories left empty.
pub struct NdsFileTreeFilter {
    pub search: String,
    pub formats: Vec<NdsFileFormat>,
    pub include_empty_dirs: bool,
    pub dirty: bool,
}

impl Default for NdsFileTreeFilter {
    /// Shows everything.
    fn default() -> (f: Self)
        ensures
            f.search@.len() == 0,
            f.formats@.len() == 0,
            f.include_empty_dirs,
            f.dirty,
    {
        NdsFileTreeFilter { search: String::new(), formats: Vec::new(), include_empty_dirs: true, dirty: true }
    }
}

/// `c` with ASCII upper-case letters made lower-case.
pub open spec fn ascii_lower(c: char) -> char {
    if 'A' <= c && c <= 'Z' { ((c as u32) + 32) as char } else { c }
}

/// `s` with ASCII upper-case letters made lower-case.
pub open spec fn lower(s: Seq<char>) -> Seq<char> {
    s.map_values(|c: char| ascii_lower(c))
}

/// Whether `needle` occurs in `hay`.
pub open spec fn contains_text(hay: Seq<char>, needle: Seq<char>) -> bool {
    exists|i: int| 0 <= i <= hay.len() - needle.len() && #[trigger] hay.subrange(i, i + needle.len()) == needle
}

/// Whether the filter's search accepts `name`.
pub open spec fn search_matches(f: NdsFileTreeFilter, name: Seq<char>) -> bool {
    f.search@.len() == 0 || contains_text(lower(name), lower(f.search@))
}

/// Whether the filter's formats accept a file of format `fmt`.
pub open spec fn format_matches(f: NdsFileTreeFilter, fmt: Option<NdsFileFormat>) -> bool {
    f.formats@.len() == 0 || (fmt matches Some(x) && f.formats@.contains(x))
}

impl NdsFileTreeFilter {
    /// A directory is shown when it has something to show, or when empty directories are
    /// shown and its name matches.
    pub fn matches_dir(&self, dir: &NdsFileTreeDir) -> (r: bool)
        ensures
            r == (dir.children@.len() > 0 || (search_matches(*self, dir.name@) && self.include_empty_dirs)),
    {
        let has_visible_children = dir.children.len() > 0;
        let matches_search = self.matches_search(dir.name.as_str());
        has_visible_children || (matches_search && self.include_empty_dirs)
    }

    /// A file is shown when its format and name match, or when it has something to show.
    pub fn matches_file(&self, file: &NdsFileTreeFile) -> (r: bool)
        ensures
            r == ((format_matches(*self, file.format) && search_matches(*self, file.name@))
                || (file.children matches Some(c) && c@.len() > 0)),
    {
        let matches_format = self.formats.len() == 0 || match file.format {
            Some(f) => self.contains_format(f),
            None => false,
        };
        let matches_search = self.matches_search(file.name.as_str());
        let has_visible_children = match &file.children {
            Some(c) => c.len() > 0,
            None => false,
        };
        (matches_format && matches_search) || has_visible_children
    }

    fn contains_format(&self, f: NdsFileFormat) -> (r: bool)
        ensures
            r == self.formats@.contains(f),
    {
        let mut i: usize = 0;
        while i < self.formats.len()
            invariant
                i <= self.formats@.len(),
                forall|j: int| 0 <= j < i ==> self.formats@[j] != f,
            decreases self.formats@.len() - i,
        {
            if self.formats[i] == f {
                return true;
            }
            i = i + 1;
        }
        false
    }

    fn matches_search(&self, name: &str) -> (r: bool)
        ensures
            r == search_matches(*self, name@),
    {
        if self.search.as_str().unicode_len() == 0 {
            return true;
        }
        let hay = lower_chars(name);
        let needle = lower_chars(self.search.as_str());
        contains_chars(&hay, &needle)
    }
}

/// The characters of `s`, lower-cased.
fn lower_chars(s: &str) -> (r: Vec<char>)
    ensures
        r@ == lower(s@),
{
    let n = s.unicode_len();
    let mut out: Vec<char> = Vec::new();
    let mut i: usize = 0;
    while i < n
        invariant
            i <= n,
            n == s@.len(),
            out@ == lower(s@.subrange(0, i as int)),
        decreases n - i,
    {
        let c = s.get_char(i);
        let l = if 'A' <= c && c <= 'Z' { char_plus_32(c) } else { c };
        out.push(l);
        i = i + 1;
        assert(out@ =~= lower(s@.subrange(0, i as int)));
    }
    assert(s@.subrange(0, n as int) =~= s@);
    out
}

/// The lower-case letter of an ASCII upper-case letter.
fn char_plus_32(c: char) -> (r: char)
    requires
        'A' <= c && c <= 'Z',
    ensures
        r == ascii_lower(c),
{
    let v = (c as u32) + 32;
    if v == 97 { 'a' } else if v == 98 { 'b' } else if v == 99 { 'c' } else if v == 100 { 'd' } else if v == 101 { 'e' }
    else if v == 102 { 'f' } else if v == 103 { 'g' } else if v == 104 { 'h' } else if v == 105 { 'i' } else if v == 106 { 'j' }
    else if v == 107 { 'k' } else if v == 108 { 'l' } else if v == 109 { 'm' } else if v == 110 { 'n' } else if v == 111 { 'o' }
    else if v == 112 { 'p' } else if v == 113 { 'q' } else if v == 114 { 'r' } else if v == 115 { 's' } else if v == 116 { 't' }
    else if v == 117 { 'u' } else if v == 118 { 'v' } else if v == 119 { 'w' } else if v == 120 { 'x' } else if v == 121 { 'y' }
    else { 'z' }
}

/// Whether `needle` occurs in `hay`.
fn contains_chars(hay: &Vec<char>, needle: &Vec<char>) -> (r: bool)
    ensures
        r == contains_text(hay@, needle@),
{
    let n = hay.len();
    let m = needle.len();
    if m > n {
        return false;
    }
    let mut i: usize = 0;
    while i <= n - m
        invariant
            m <= n,
            n == hay@.len(),
            m == needle@.len(),
            i <= n - m + 1,
            forall|p: int| 0 <= p < i ==> #[trigger] hay@.subrange(p, p + m) != needle@,
        decreases n - m + 1 - i,
    {
        let mut j: usize = 0;
        let mut same = true;
        while j < m
            invariant
                j <= m,
                i + m <= n,
                n == hay@.len(),
                m == needle@.len(),
                same == (forall|q: int| 0 <= q < j ==> hay@[i + q] == needle@[q]),
            decreases m - j,
        {
            if hay[i + j] != needle[j] {
                same = false;
            }
            j = j + 1;
        }
        if same {
            assert(hay@.subrange(i as int, i + m) =~= needle@);
            return true;
        }
        proof {
            if hay@.subrange(i as int, i + m) == needle@ {
                assert forall|q: int| 0 <= q < m implies hay@[i + q] == needle@[q] by {
                    assert(hay@.subrange(i as int, i + m)[q] == hay@[i + q]);
                }
            }
        }
        i = i + 1;
    }
    false
}

/// Lower-casing moves exactly the ASCII capitals `A` to `Z` (code points 65 to 90) up by 32
/// to `a` to `z`, and leaves every other character as it is.
pub proof fn lemma_ascii_lower_code(c: char)
    ensures
        (65 <= c as u32 <= 90) ==> ascii_lower(c) as u32 == c as u32 + 32,
        !(65 <= c as u32 <= 90) ==> ascii_lower(c) == c,
{
}

/// Whether the characters of `name` from `i` on agree with `search`, ignoring ASCII case.
pub open spec fn occurs_at(name: Seq<char>, search: Seq<char>, i: int) -> bool {
    0 <= i && i + search.len() <= name.len()
        && forall|q: int| 0 <= q < search.len() ==> ascii_lower(#[trigger] name[i + q]) == ascii_lower(search[q])
}

/// The search text matches a name exactly when it is empty or occurs somewhere in the
/// name, at any position, ignoring ASCII case.
pub proof fn lemma_search_anywhere(f: NdsFileTreeFilter, name: Seq<char>)
    ensures
        search_matches(f, name) == (f.search@.len() == 0 || exists|i: int| occurs_at(name, f.search@, i)),
{
    let s = f.search@;
    let m = s.len();
    if exists|i: int| occurs_at(name, s, i) {
        let i = choose|i: int| occurs_at(name, s, i);
        assert forall|q: int| 0 <= q < m implies lower(name).subrange(i, i + m)[q] == lower(s)[q] by {
            assert(ascii_lower(name[i + q]) == ascii_lower(s[q]));
        }
        assert(lower(name).subrange(i, i + m) =~= lower(s));
        assert(contains_text(lower(name), lower(s)));
    }
    if m > 0 && contains_text(lower(name), lower(s)) {
        let i = choose|i: int| 0 <= i <= lower(name).len() - lower(s).len() && #[trigger] lower(name).subrange(i, i + lower(s).len()) == lower(s);
        assert forall|q: int| 0 <= q < m implies ascii_lower(#[trigger] name[i + q]) == ascii_lower(s[q]) by {
            assert(lower(name).subrange(i, i + m)[q] == lower(s)[q]);
        }
        assert(occurs_at(name, s, i));
    }
}

/// A filter without formats accepts files of every format, recognised or not; a filter with
/// formats accepts exactly the files recognised as one of them.
pub proof fn lemma_format_filter(f: NdsFileTreeFilter, fmt: Option<NdsFileFormat>)
    ensures
        f.formats@.len() == 0 ==> format_matches(f, fmt),
        f.formats@.len() > 0 ==> (format_matches(f, fmt) <==> (fmt is Some
            && exists|i: int| 0 <= i < f.formats@.len() && f.formats@[i] == fmt->Some_0)),
{
}

/// A directory or a file, as the tree walks them.
pub enum TreeItem {
    Dir(NdsDirectory),
    File(NdsFile),
}

/// What directory `dir_id` of `fs` holds: its sub-directories (other than itself), then its
/// files, each in file-system order.
pub open spec fn tree_items(fs: NdsFileSystem, dir_id: u16) -> Seq<TreeItem> {
    fs.directories@.filter(|d: NdsDirectory| d.parent_dir_id == dir_id && d.id != dir_id).map_values(|d: NdsDirectory| TreeItem::Dir(d))
        + fs.files@.filter(|f: NdsFile| f.parent_dir_id == dir_id).map_values(|f: NdsFile| TreeItem::File(f))
}

/// The format of a file, when it was recognised.
pub open spec fn file_format(f: NdsFile) -> Option<NdsFileFormat> {
    match f.data {
        NdsFileData::Parsed { parsed, .. } => Some(parsed.spec_format()),
        NdsFileData::Raw(_) => None,
    }
}

/// Whether walking directory `dir_id` of `fs` ends within depth `k`: no chain of
/// sub-directories and archives goes on for ever.
pub open spec fn tree_ok(fs: NdsFileSystem, dir_id: u16, k: nat) -> bool
    decreases k, 0nat, 0nat,
{
    k > 0 && items_ok(fs, tree_items(fs, dir_id), (k - 1) as nat)
}

/// Whether walking each of `items` (of `fs`) ends within depth `k`.
pub open spec fn items_ok(fs: NdsFileSystem, items: Seq<TreeItem>, k: nat) -> bool
    decreases k, 1nat, items.len(),
{
    if items.len() == 0 {
        true
    } else {
        &&& items_ok(fs, items.drop_last(), k)
        &&& match items.last() {
            TreeItem::Dir(d) => tree_ok(fs, d.id, k),
            TreeItem::File(f) => match nested_fs_of(f) {
                Some(n) => tree_ok(n, ROOT_DIR_ID, k),
                None => true,
            },
        }
    }
}

/// A path joined with a name is the name alone under an empty parent, and otherwise the
/// parent, a `/`, then the name.
pub proof fn lemma_join_path_shape(parent: Seq<char>, name: Seq<char>)
    ensures
        parent.len() == 0 ==> join_path(parent, name) == name,
        parent.len() > 0 ==> ({
            let j = join_path(parent, name);
            &&& j.len() == parent.len() + 1 + name.len()
            &&& j.subrange(0, parent.len() as int) == parent
            &&& j[parent.len() as int] == '/'
            &&& j.subrange(parent.len() as int + 1, j.len() as int) == name
        }),
{
    if parent.len() > 0 {
        let j = join_path(parent, name);
        assert(j.subrange(0, parent.len() as int) =~= parent);
        assert(j.subrange(parent.len() as int + 1, j.len() as int) =~= name);
    }
}

/// Whether the tree of directory `dir_id` named `name` is shown.
pub open spec fn dir_visible(fs: NdsFileSystem, filter: NdsFileTreeFilter, dir_id: u16, name: Seq<char>, k: nat) -> bool
    decreases k, 0nat, 0nat,
{
    k > 0 && (any_visible(fs, filter, tree_items(fs, dir_id), (k - 1) as nat) || (search_matches(filter, name) && filter.include_empty_dirs))
}

/// Whether file `f` is shown.
pub open spec fn file_visible(filter: NdsFileTreeFilter, f: NdsFile, k: nat) -> bool
    decreases k, 0nat, 0nat,
{
    ||| (format_matches(filter, file_format(f)) && search_matches(filter, f.name@))
    ||| (k > 0 && (nested_fs_of(f) matches Some(n) && any_visible(n, filter, tree_items(n, ROOT_DIR_ID), (k - 1) as nat)))
}

/// Whether any of `items` (of `fs`) is shown.
pub open spec fn any_visible(fs: NdsFileSystem, filter: NdsFileTreeFilter, items: Seq<TreeItem>, k: nat) -> bool
    decreases k, 1nat, items.len(),
{
    if items.len() == 0 {
        false
    } else {
        ||| any_visible(fs, filter, items.drop_last(), k)
        ||| match items.last() {
            TreeItem::Dir(d) => dir_visible(fs, filter, d.id, d.name@, k),
            TreeItem::File(f) => file_visible(filter, f, k),
        }
    }
}

/// `parent/name`, or `name` at the top.
pub open spec fn join_path(parent: Seq<char>, name: Seq<char>) -> Seq<char> {
    if parent.len() == 0 { name } else { parent + seq!['/'] + name }
}

/// Whether `b` is the tree of directory `dir_id` of `fs`, named `name`, under `parent`.
pub open spec fn dir_built(b: NdsFileTreeDir, fs: NdsFileSystem, filter: NdsFileTreeFilter, dir_id: u16, name: Seq<char>, parent: Seq<char>, k: nat) -> bool
    decreases k, 0nat, 0nat,
{
    &&& b.name@ == name
    &&& b.path@ == join_path(parent, name)
    &&& k > 0
    &&& entries_built(b.children@, fs, filter, tree_items(fs, dir_id), b.path@, (k - 1) as nat)
}

/// Whether `b` is the tree entry of file `f` under `parent`.
pub open spec fn file_built(b: NdsFileTreeFile, f: NdsFile, filter: NdsFileTreeFilter, parent: Seq<char>, k: nat) -> bool
    decreases k, 0nat, 0nat,
{
    &&& b.name@ == f.name@
    &&& b.path@ == parent + seq!['/'] + f.name@
    &&& b.format == file_format(f)
    &&& b.size == f.size
    &&& match nested_fs_of(f) {
        None => b.children is None,
        Some(n) => k > 0 && (b.children matches Some(c) && entries_built(c@, n, filter, tree_items(n, ROOT_DIR_ID), b.path@, (k - 1) as nat)),
    }
}

/// Whether `cs` are the shown entries of `items` (of `fs`) under `path`, in order.
pub open spec fn entries_built(cs: Seq<NdsFileTreeEntry>, fs: NdsFileSystem, filter: NdsFileTreeFilter, items: Seq<TreeItem>, path: Seq<char>, k: nat) -> bool
    decreases k, 1nat, items.len(),
{
    if items.len() == 0 {
        cs.len() == 0
    } else {
        let last = items.last();
        let shown = match last {
            TreeItem::Dir(d) => dir_visible(fs, filter, d.id, d.name@, k),
            TreeItem::File(f) => file_visible(filter, f, k),
        };
        if shown {
            &&& cs.len() > 0
            &&& match (cs.last(), last) {
                (NdsFileTreeEntry::Dir(b), TreeItem::Dir(d)) => dir_built(b, fs, filter, d.id, d.name@, path, k),
                (NdsFileTreeEntry::File(b), TreeItem::File(f)) => file_built(b, f, filter, path, k),
                _ => false,
            }
            &&& entries_built(cs.drop_last(), fs, filter, items.drop_last(), path, k)
        } else {
            entries_built(cs, fs, filter, items.drop_last(), path, k)
        }
    }
}

/// Among the entries built of `items`, a file item whose format and name pass the filter has
/// an entry of its own, named as the file, at `path/name`, of the file's size.
proof fn lemma_entries_show_file(cs: Seq<NdsFileTreeEntry>, fs: NdsFileSystem, filter: NdsFileTreeFilter, items: Seq<TreeItem>, path: Seq<char>, k: nat, i: int, f: NdsFile)
    requires
        entries_built(cs, fs, filter, items, path, k),
        0 <= i < items.len(),
        items[i] == TreeItem::File(f),
        format_matches(filter, file_format(f)),
        search_matches(filter, f.name@),
    ensures
        exists|j: int| 0 <= j < cs.len() && (#[trigger] cs[j] matches NdsFileTreeEntry::File(b)
            && b.name@ == f.name@ && b.path@ == path + seq!['/'] + f.name@ && b.size == f.size && b.format == file_format(f)),
    decreases items.len(),
{
    let last = items.last();
    if i == items.len() - 1 {
        assert(last == TreeItem::File(f));
        assert(file_visible(filter, f, k));
        assert(cs.len() > 0);
        let j = cs.len() - 1;
        assert(cs[j] == cs.last());
        assert(cs.last() is File);
        let e = cs.last()->File_0;
        assert(file_built(e, f, filter, path, k));
        assert(cs[j] matches NdsFileTreeEntry::File(b)
            && b.name@ == f.name@ && b.path@ == path + seq!['/'] + f.name@ && b.size == f.size && b.format == file_format(f));
    } else {
        let shown = match last {
            TreeItem::Dir(d) => dir_visible(fs, filter, d.id, d.name@, k),
            TreeItem::File(g) => file_visible(filter, g, k),
        };
        assert(items.drop_last()[i] == items[i]);
        if shown {
            lemma_entries_show_file(cs.drop_last(), fs, filter, items.drop_last(), path, k, i, f);
            let j = choose|j: int| 0 <= j < cs.drop_last().len() && (#[trigger] cs.drop_last()[j] matches NdsFileTreeEntry::File(b)
                && b.name@ == f.name@ && b.path@ == path + seq!['/'] + f.name@ && b.size == f.size && b.format == file_format(f));
            assert(cs[j] == cs.drop_last()[j]);
        } else {
            lemma_entries_show_file(cs, fs, filter, items.drop_last(), path, k, i, f);
        }
    }
}

/// The tree of a directory shows each file of the directory whose format and name pass the
/// filter: among its children stands an entry named as the file, at the directory's path
/// followed by `/` and the file's name, with the file's size and format.
pub proof fn lemma_tree_shows_matching_files(b: NdsFileTreeDir, fs: NdsFileSystem, filter: NdsFileTreeFilter, dir_id: u16,
    name: Seq<char>, parent: Seq<char>, k: nat, fi: int)
    requires
        dir_built(b, fs, filter, dir_id, name, parent, k),
        0 <= fi < fs.files@.len(),
        fs.files@[fi].parent_dir_id == dir_id,
        format_matches(filter, file_format(fs.files@[fi])),
        search_matches(filter, fs.files@[fi].name@),
    ensures
        exists|j: int| 0 <= j < b.children@.len() && (#[trigger] b.children@[j] matches NdsFileTreeEntry::File(e)
            && e.name@ == fs.files@[fi].name@ && e.path@ == b.path@ + seq!['/'] + fs.files@[fi].name@
            && e.size == fs.files@[fi].size && e.format == file_format(fs.files@[fi])),
{
    let f = fs.files@[fi];
    let pred = |x: NdsFile| x.parent_dir_id == dir_id;
    let ff = fs.files@.filter(pred);
    let df = fs.directories@.filter(|d: NdsDirectory| d.parent_dir_id == dir_id && d.id != dir_id);
    let items = tree_items(fs, dir_id);
    fs.files@.lemma_filter_contains(pred, fi);
    let p = choose|p: int| 0 <= p < ff.len() && ff[p] == f;
    assert(items[df.len() + p] == TreeItem::File(f));
    lemma_entries_show_file(b.children@, fs, filter, items, b.path@, (k - 1) as nat, df.len() + p, f);
}

/// Built entries are there exactly when something is shown.
proof fn lemma_entries_nonempty(cs: Seq<NdsFileTreeEntry>, fs: NdsFileSystem, filter: NdsFileTreeFilter, items: Seq<TreeItem>, path: Seq<char>, k: nat)
    requires
        entries_built(cs, fs, filter, items, path, k),
    ensures
        cs.len() > 0 <==> any_visible(fs, filter, items, k),
    decreases items.len(),
{
    if items.len() > 0 {
        let last = items.last();
        let shown = match last {
            TreeItem::Dir(d) => dir_visible(fs, filter, d.id, d.name@, k),
            TreeItem::File(f) => file_visible(filter, f, k),
        };
        if shown {
            lemma_entries_nonempty(cs.drop_last(), fs, filter, items.drop_last(), path, k);
        } else {
            lemma_entries_nonempty(cs, fs, filter, items.drop_last(), path, k);
        }
    }
}

/// Each file entry built of `items` stands for a file item of the same name that passes the
/// filter, or that is an archive with something shown inside it.
proof fn lemma_entries_file_sound(cs: Seq<NdsFileTreeEntry>, fs: NdsFileSystem, filter: NdsFileTreeFilter, items: Seq<TreeItem>, path: Seq<char>, k: nat, j: int)
    requires
        entries_built(cs, fs, filter, items, path, k),
        0 <= j < cs.len(),
        cs[j] is File,
    ensures
        exists|i: int| 0 <= i < items.len() && (#[trigger] items[i] matches TreeItem::File(f) && cs[j]->File_0.name@ == f.name@
            && ((format_matches(filter, file_format(f)) && search_matches(filter, f.name@))
                || (cs[j]->File_0.children matches Some(c) && c@.len() > 0))),
    decreases items.len(),
{
    let last = items.last();
    let shown = match last {
        TreeItem::Dir(d) => dir_visible(fs, filter, d.id, d.name@, k),
        TreeItem::File(g) => file_visible(filter, g, k),
    };
    if shown {
        if j == cs.len() - 1 {
            assert(cs[j] == cs.last());
            let e = cs.last()->File_0;
            assert(last is File);
            let f = last->File_0;
            assert(file_built(e, f, filter, path, k));
            if !(format_matches(filter, file_format(f)) && search_matches(filter, f.name@)) {
                let n = nested_fs_of(f)->Some_0;
                lemma_entries_nonempty(e.children->Some_0@, n, filter, tree_items(n, ROOT_DIR_ID), e.path@, (k - 1) as nat);
            }
            assert(items[items.len() - 1] == last);
        } else {
            assert(cs.drop_last()[j] == cs[j]);
            lemma_entries_file_sound(cs.drop_last(), fs, filter, items.drop_last(), path, k, j);
            let i = choose|i: int| 0 <= i < items.drop_last().len() && (#[trigger] items.drop_last()[i] matches TreeItem::File(f)
                && cs.drop_last()[j]->File_0.name@ == f.name@
                && ((format_matches(filter, file_format(f)) && search_matches(filter, f.name@))
                    || (cs.drop_last()[j]->File_0.children matches Some(c) && c@.len() > 0)));
            assert(items[i] == items.drop_last()[i]);
        }
    } else {
        lemma_entries_file_sound(cs, fs, filter, items.drop_last(), path, k, j);
        let i = choose|i: int| 0 <= i < items.drop_last().len() && (#[trigger] items.drop_last()[i] matches TreeItem::File(f)
            && cs[j]->File_0.name@ == f.name@
            && ((format_matches(filter, file_format(f)) && search_matches(filter, f.name@))
                || (cs[j]->File_0.children matches Some(c) && c@.len() > 0)));
        assert(items[i] == items.drop_last()[i]);
    }
}

/// Each file entry of the tree of a directory stands for a file of that directory with the
/// same name, which passes the filter (format and name) or is an archive with something shown
/// inside it.
pub proof fn lemma_tree_files_match(b: NdsFileTreeDir, fs: NdsFileSystem, filter: NdsFileTreeFilter, dir_id: u16,
    name: Seq<char>, parent: Seq<char>, k: nat, j: int)
    requires
        dir_built(b, fs, filter, dir_id, name, parent, k),
        0 <= j < b.children@.len(),
        b.children@[j] is File,
    ensures
        exists|f: NdsFile| fs.files@.contains(f) && f.parent_dir_id == dir_id && #[trigger] f.name@ == b.children@[j]->File_0.name@
            && ((format_matches(filter, file_format(f)) && search_matches(filter, f.name@))
                || (b.children@[j]->File_0.children matches Some(c) && c@.len() > 0)),
{
    let pred = |x: NdsFile| x.parent_dir_id == dir_id;
    let ff = fs.files@.filter(pred);
    let df = fs.directories@.filter(|d: NdsDirectory| d.parent_dir_id == dir_id && d.id != dir_id);
    let items = tree_items(fs, dir_id);
    lemma_entries_file_sound(b.children@, fs, filter, items, b.path@, (k - 1) as nat, j);
    let i = choose|i: int| 0 <= i < items.len() && (#[trigger] items[i] matches TreeItem::File(f) && b.children@[j]->File_0.name@ == f.name@
        && ((format_matches(filter, file_format(f)) && search_matches(filter, f.name@))
            || (b.children@[j]->File_0.children matches Some(c) && c@.len() > 0)));
    let f = items[i]->File_0;
    if i < df.len() {
        assert(items[i] is Dir);
    }
    let p = i - df.len();
    assert(items[i] == TreeItem::File(ff[p]));
    fs.files@.lemma_filter_pred(pred, p);
    fs.files@.lemma_filter_contains_rev(pred, ff[p]);
    assert(ff.contains(ff[p]));
}

/// `parent/name`, or `name` when `parent` is empty.
fn join(parent: &str, name: &str) -> (r: String)
    ensures
        r@ == join_path(parent@, name@),
{
    let mut r = String::new();
    if parent.unicode_len() > 0 {
        r.append(parent);
        string_push(&mut r, '/');
    }
    r.append(name);
    r
}

/// The shown entries of directory `dir_id` of `fs`, under `path`.
fn build_children(fs: &NdsFileSystem, filter: &NdsFileTreeFilter, dir_id: u16, path: &str, Ghost(k): Ghost<nat>) -> (r: Vec<NdsFileTreeEntry>)
    requires
        items_ok(*fs, tree_items(*fs, dir_id), k),
    ensures
        entries_built(r@, *fs, *filter, tree_items(*fs, dir_id), path@, k),
    decreases k, 1nat,
{
    let dirs = fs.child_dirs(dir_id);
    let files = fs.child_files(dir_id);
    let ghost items = tree_items(*fs, dir_id);
    let ghost dseq = fs.directories@.filter(|d: NdsDirectory| d.parent_dir_id == dir_id && d.id != dir_id);
    let ghost fseq = fs.files@.filter(|f: NdsFile| f.parent_dir_id == dir_id);
    let nd = dirs.len();
    let nf = files.len();
    proof {
        assert(dirs@.map_values(|d: &NdsDirectory| *d) == dseq);
        assert(files@.map_values(|f: &NdsFile| *f) == fseq);
        assert(items.len() == nd + nf);
        assert forall|i: int| 0 <= i < nd implies #[trigger] items[i] == TreeItem::Dir(*dirs@[i]) by {
            assert(dseq[i] == *dirs@[i]);
        }
        assert forall|i: int| nd <= i < nd + nf implies #[trigger] items[i] == TreeItem::File(*files@[i - nd]) by {
            assert(fseq[i - nd] == *files@[i - nd]);
        }
        assert(items.take(0) =~= Seq::<TreeItem>::empty());
    }
    let mut children: Vec<NdsFileTreeEntry> = Vec::new();
    let mut i: usize = 0;
    while i < nd
        invariant
            i <= nd,
            nd == dirs@.len(),
            nf == files@.len(),
            items == tree_items(*fs, dir_id),
            items.len() == nd + nf,
            items_ok(*fs, items, k),
            forall|j: int| 0 <= j < nd ==> #[trigger] items[j] == TreeItem::Dir(*dirs@[j]),
            entries_built(children@, *fs, *filter, items.take(i as int), path@, k),
        decreases nd - i,
    {
        let ghost before = children@;
        proof {
            assert(items.take(i + 1).drop_last() =~= items.take(i as int));
            assert(items.take(i + 1).last() == items[i as int]);
            lemma_items_ok_at(*fs, items, k, i as int);
        }
        let d = dirs[i];
        let b = build_dir(fs, filter, d.id, d.name.clone(), String::from_str(path), Ghost(k));
        proof {
            lemma_entries_nonempty(b.children@, *fs, *filter, tree_items(*fs, d.id), b.path@, (k - 1) as nat);
        }
        if filter.matches_dir(&b) {
            children.push(NdsFileTreeEntry::Dir(b));
            proof {
                assert(children@.drop_last() =~= before);
            }
        }
        i = i + 1;
    }
    let mut j: usize = 0;
    while j < nf
        invariant
            j <= nf,
            nd == dirs@.len(),
            nf == files@.len(),
            items == tree_items(*fs, dir_id),
            items.len() == nd + nf,
            items_ok(*fs, items, k),
            forall|q: int| nd <= q < nd + nf ==> #[trigger] items[q] == TreeItem::File(*files@[q - nd]),
            entries_built(children@, *fs, *filter, items.take(nd + j), path@, k),
        decreases nf - j,
    {
        let ghost before = children@;
        proof {
            assert(items.take(nd + j + 1).drop_last() =~= items.take(nd + j));
            assert(items.take(nd + j + 1).last() == items[nd + j]);
            assert(items[nd + j] == TreeItem::File(*files@[j as int]));
            lemma_items_ok_at(*fs, items, k, nd + j);
        }
        let f = files[j];
        let b = build_file(f, String::from_str(path), filter, Ghost(k));
        proof {
            match nested_fs_of(*f) {
                Some(n) => {
                    let c = b.children->Some_0;
                    lemma_entries_nonempty(c@, n, *filter, tree_items(n, ROOT_DIR_ID), b.path@, (k - 1) as nat);
                },
                None => {},
            }
        }
        if filter.matches_file(&b) {
            children.push(NdsFileTreeEntry::File(b));
            proof {
                assert(children@.drop_last() =~= before);
            }
        }
        j = j + 1;
    }
    proof {
        assert(items.take(nd + nf) =~= items);
    }
    children
}

/// The walk of item `i` of `items` ends within depth `k`.
pub proof fn lemma_items_ok_at(fs: NdsFileSystem, items: Seq<TreeItem>, k: nat, i: int)
    requires
        items_ok(fs, items, k),
        0 <= i < items.len(),
    ensures
        match items[i] {
            TreeItem::Dir(d) => tree_ok(fs, d.id, k),
            TreeItem::File(f) => match nested_fs_of(f) {
                Some(n) => tree_ok(n, ROOT_DIR_ID, k),
                None => true,
            },
        },
    decreases items.len(),
{
    if i < items.len() - 1 {
        lemma_items_ok_at(fs, items.drop_last(), k, i);
        assert(items.drop_last()[i] == items[i]);
    }
}

/// The tree of directory `dir_id` of `fs`, named `name`, under `parent_path`.
fn build_dir(fs: &NdsFileSystem, filter: &NdsFileTreeFilter, dir_id: u16, name: String, parent_path: String, Ghost(k): Ghost<nat>) -> (r: NdsFileTreeDir)
    requires
        tree_ok(*fs, dir_id, k),
    ensures
        dir_built(r, *fs, *filter, dir_id, name@, parent_path@, k),
    decreases k, 0nat,
{
    let path = join(parent_path.as_str(), name.as_str());
    let children = build_children(fs, filter, dir_id, path.as_str(), Ghost((k - 1) as nat));
    NdsFileTreeDir { name, path, children }
}

/// The tree entry of `file` under `path`.
fn build_file(file: &NdsFile, path: String, filter: &NdsFileTreeFilter, Ghost(k): Ghost<nat>) -> (r: NdsFileTreeFile)
    requires
        nested_fs_of(*file) matches Some(n) ==> tree_ok(n, ROOT_DIR_ID, k),
    ensures
        file_built(r, *file, *filter, path@, k),
    decreases k, 0nat,
{
    let ghost path0 = path@;
    let mut p = path;
    string_push(&mut p, '/');
    p.append(file.name.as_str());
    assert(p@ =~= path0 + seq!['/'] + file.name@);
    let children = match file.data.nested_fs() {
        Some(nested) => Some(build_children(nested, filter, ROOT_DIR_ID, p.as_str(), Ghost((k - 1) as nat))),
        None => None,
    };
    NdsFileTreeFile { name: file.name.clone(), path: p, format: file.data.format(), size: file.size, children }
}

/// Whether walking directory `dir_id` of `fs` ends within depth `k`.
fn walk_ends_within(fs: &NdsFileSystem, dir_id: u16, k: usize) -> (r: bool)
    ensures
        r == tree_ok(*fs, dir_id, k as nat),
    decreases k,
{
    if k == 0 {
        return false;
    }
    let dirs = fs.child_dirs(dir_id);
    let files = fs.child_files(dir_id);
    let ghost items = tree_items(*fs, dir_id);
    let ghost dseq = fs.directories@.filter(|d: NdsDirectory| d.parent_dir_id == dir_id && d.id != dir_id);
    let ghost fseq = fs.files@.filter(|f: NdsFile| f.parent_dir_id == dir_id);
    let nd = dirs.len();
    let nf = files.len();
    proof {
        assert(dirs@.map_values(|d: &NdsDirectory| *d) == dseq);
        assert(files@.map_values(|f: &NdsFile| *f) == fseq);
        assert(items.len() == nd + nf);
        assert forall|i: int| 0 <= i < nd implies #[trigger] items[i] == TreeItem::Dir(*dirs@[i]) by {
            assert(dseq[i] == *dirs@[i]);
        }
        assert forall|i: int| nd <= i < nd + nf implies #[trigger] items[i] == TreeItem::File(*files@[i - nd]) by {
            assert(fseq[i - nd] == *files@[i - nd]);
        }
        assert(items.take(0) =~= Seq::<TreeItem>::empty());
    }
    let mut ok = true;
    let mut i: usize = 0;
    while i < nd
        invariant
            0 < k,
            i <= nd,
            nd == dirs@.len(),
            items == tree_items(*fs, dir_id),
            items.len() == nd + nf,
            forall|j: int| 0 <= j < nd ==> #[trigger] items[j] == TreeItem::Dir(*dirs@[j]),
            ok == items_ok(*fs, items.take(i as int), (k - 1) as nat),
        decreases nd - i,
    {
        proof {
            assert(items.take(i + 1).drop_last() =~= items.take(i as int));
            assert(items.take(i + 1).last() == items[i as int]);
        }
        if ok {
            ok = walk_ends_within(fs, dirs[i].id, k - 1);
        }
        i = i + 1;
    }
    let mut j: usize = 0;
    while j < nf
        invariant
            0 < k,
            j <= nf,
            nd == dirs@.len(),
            nf == files@.len(),
            items == tree_items(*fs, dir_id),
            items.len() == nd + nf,
            forall|q: int| nd <= q < nd + nf ==> #[trigger] items[q] == TreeItem::File(*files@[q - nd]),
            ok == items_ok(*fs, items.take(nd + j), (k - 1) as nat),
        decreases nf - j,
    {
        proof {
            assert(items.take(nd + j + 1).drop_last() =~= items.take(nd + j));
            assert(items.take(nd + j + 1).last() == items[nd + j]);
            assert(items[nd + j] == TreeItem::File(*files@[j as int]));
        }
        if ok {
            match files[j].data.nested_fs() {
                Some(nested) => {
                    ok = walk_ends_within(nested, ROOT_DIR_ID, k - 1);
                },
                None => {},
            }
        }
        j = j + 1;
    }
    assert(items.take(nd + nf) =~= items);
    ok
}

impl NdsFileSystem {
    /// Whether walking the whole file system, archives included, ends within depth `depth`:
    /// the test that the tree, listing and archive functions need passed.
    pub fn walk_ends_within(&self, depth: usize) -> (r: bool)
        ensures
            r == tree_ok(*self, ROOT_DIR_ID, depth as nat),
    {
        walk_ends_within(self, ROOT_DIR_ID, depth)
    }
}

impl NdsFileTree {
    /// The tree of the whole file system.
    pub fn build(fs: &NdsFileSystem, filter: &NdsFileTreeFilter) -> (r: Self)
        requires
            exists|k: nat| tree_ok(*fs, ROOT_DIR_ID, k),
        ensures
            dir_built(r.root, *fs, *filter, ROOT_DIR_ID, Seq::empty(), Seq::empty(), choose|k: nat| tree_ok(*fs, ROOT_DIR_ID, k)),
    {
        let ghost k = choose|k: nat| tree_ok(*fs, ROOT_DIR_ID, k);
        NdsFileTree { root: build_dir(fs, filter, ROOT_DIR_ID, String::new(), String::new(), Ghost(k)) }
    }
}

impl NdsFileTreeDir {
    /// The tree of directory `dir_id` of `fs`, named `name`, under `parent_path`.
    pub fn build(fs: &NdsFileSystem, filter: &NdsFileTreeFilter, dir_id: u16, name: String, parent_path: String) -> (r: Self)
        requires
            exists|k: nat| tree_ok(*fs, dir_id, k),
        ensures
            dir_built(r, *fs, *filter, dir_id, name@, parent_path@, choose|k: nat| tree_ok(*fs, dir_id, k)),
    {
        let ghost k = choose|k: nat| tree_ok(*fs, dir_id, k);
        build_dir(fs, filter, dir_id, name, parent_path, Ghost(k))
    }
}

impl NdsFileTreeFile {
    /// The tree entry of `file` under `path`.
    pub fn build(file: &NdsFile, path: String, filter: &NdsFileTreeFilter) -> (r: Self)
        requires
            nested_fs_of(*file) matches Some(n) ==> exists|k: nat| tree_ok(n, ROOT_DIR_ID, k),
        ensures
            file_built(r, *file, *filter, path@, match nested_fs_of(*file) {
                Some(n) => choose|k: nat| tree_ok(n, ROOT_DIR_ID, k),
                None => 0,
            }),
    {
        let ghost k = match nested_fs_of(*file) {
            Some(n) => choose|k: nat| tree_ok(n, ROOT_DIR_ID, k),
            None => 0,
        };
        build_file(file, path, filter, Ghost(k))
    }
}

} // verus!
