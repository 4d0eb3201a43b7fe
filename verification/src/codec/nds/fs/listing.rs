//! The lines of a drawn directory tree: children sorted by name, with branch markers.
use crate::codec::nds::fs::dir::NdsDirectory;
use crate::codec::nds::fs::{NdsFileSystem, ROOT_DIR_ID};
use crate::nds::fs::file::NdsFile;
use crate::platform::nds::fs::tree::{lemma_items_ok_at, tree_items, tree_ok, TreeItem};
use vstd::prelude::*;

verus! {

/// Something with a name to sort by.
pub trait Named {
    spec fn spec_name(&self) -> Seq<char>;

    fn name_str(&self) -> (r: &str)
        ensures
            r@ == self.spec_name(),
    ;
}

impl Named for NdsDirectory {
    open spec fn spec_name(&self) -> Seq<char> {
        self.name@
    }

    fn name_str(&self) -> (r: &str) {
        self.name.as_str()
    }
}

impl Named for NdsFile {
    open spec fn spec_name(&self) -> Seq<char> {
        self.name@
    }

    fn name_str(&self) -> (r: &str) {
        self.name.as_str()
    }
}

/// Whether `a` comes no later than `b` in character order (a prefix comes first).
pub open spec fn name_le(a: Seq<char>, b: Seq<char>) -> bool
    decreases a.len(),
{
    if a.len() == 0 {
        true
    } else if b.len() == 0 {
        false
    } else if (a[0] as u32) < (b[0] as u32) {
        true
    } else if (a[0] as u32) > (b[0] as u32) {
        false
    } else {
        name_le(a.drop_first(), b.drop_first())
    }
}

/// `x` inserted into `s` after every element whose name comes no later than its own, scanning
/// from the end.
pub open spec fn insert_by_name<T: Named>(s: Seq<T>, x: T) -> Seq<T>
    decreases s.len(),
{
    if s.len() == 0 {
        seq![x]
    } else if name_le(s.last().spec_name(), x.spec_name()) {
        s.push(x)
    } else {
        insert_by_name(s.drop_last(), x).push(s.last())
    }
}

/// `s` sorted by name, keeping the order of equal names.
pub open spec fn sort_by_name<T: Named>(s: Seq<T>) -> Seq<T>
    decreases s.len(),
{
    if s.len() == 0 {
        s
    } else {
        insert_by_name(sort_by_name(s.drop_last()), s.last())
    }
}

/// Whether the text `a` comes no later than `b`.
fn name_le_exec(a: &str, b: &str) -> (r: bool)
    ensures
        r == name_le(a@, b@),
{
    let na = a.unicode_len();
    let nb = b.unicode_len();
    let mut i: usize = 0;
    assert(a@.skip(0) =~= a@);
    assert(b@.skip(0) =~= b@);
    while i < na && i < nb
        invariant
            na == a@.len(),
            nb == b@.len(),
            i <= na,
            i <= nb,
            name_le(a@, b@) == name_le(a@.skip(i as int), b@.skip(i as int)),
        decreases na - i,
    {
        let ca = a.get_char(i);
        let cb = b.get_char(i);
        proof {
            assert(a@.skip(i as int)[0] == ca);
            assert(b@.skip(i as int)[0] == cb);
            assert(a@.skip(i as int).drop_first() =~= a@.skip(i + 1));
            assert(b@.skip(i as int).drop_first() =~= b@.skip(i + 1));
        }
        if (ca as u32) < (cb as u32) {
            return true;
        }
        if (ca as u32) > (cb as u32) {
            return false;
        }
        i = i + 1;
    }
    proof {
        if i == na {
            assert(a@.skip(i as int).len() == 0);
        } else {
            assert(b@.skip(i as int).len() == 0);
        }
    }
    i == na
}

/// The references in `v` sorted by the names they point at, keeping the order of equal
/// names.
fn sort_refs<'a, T: Named>(v: Vec<&'a T>) -> (r: Vec<&'a T>)
    ensures
        r@.map_values(|x: &T| *x) == sort_by_name(v@.map_values(|x: &T| *x)),
{
    let ghost src = v@.map_values(|x: &T| *x);
    let mut out: Vec<&'a T> = Vec::new();
    let n = v.len();
    let mut i: usize = 0;
    assert(src.take(0) =~= Seq::<T>::empty());
    assert(out@.map_values(|x: &T| *x) =~= Seq::<T>::empty());
    while i < n
        invariant
            i <= n,
            n == v@.len(),
            src == v@.map_values(|x: &T| *x),
            out@.map_values(|x: &T| *x) == sort_by_name(src.take(i as int)),
        decreases n - i,
    {
        let x = v[i];
        let ghost cur = out@.map_values(|y: &T| *y);
        let mut j: usize = out.len();
        proof {
            assert(cur.take(j as int) =~= cur);
            assert(cur.skip(j as int) =~= Seq::<T>::empty());
            assert(insert_by_name(cur, *x) + Seq::<T>::empty() =~= insert_by_name(cur, *x));
        }
        while j > 0 && !name_le_exec(out[j - 1].name_str(), x.name_str())
            invariant
                j <= out@.len(),
                cur == out@.map_values(|y: &T| *y),
                insert_by_name(cur, *x) == insert_by_name(cur.take(j as int), *x) + cur.skip(j as int),
            decreases j,
        {
            proof {
                let t = cur.take(j as int);
                assert(t.last() == cur[j - 1]);
                assert(t.drop_last() =~= cur.take(j - 1));
                assert(seq![cur[j - 1]] + cur.skip(j as int) =~= cur.skip(j - 1));
                assert(insert_by_name(t, *x) == insert_by_name(cur.take(j - 1), *x).push(cur[j - 1]));
                assert(insert_by_name(cur.take(j - 1), *x).push(cur[j - 1]) + cur.skip(j as int)
                    =~= insert_by_name(cur.take(j - 1), *x) + cur.skip(j - 1));
            }
            j = j - 1;
        }
        proof {
            let t = cur.take(j as int);
            if j > 0 {
                assert(t.last() == cur[j - 1]);
            }
            assert(insert_by_name(t, *x) == t.push(*x));
            assert(src.take(i + 1).drop_last() =~= src.take(i as int));
            assert(src.take(i + 1).last() == *x);
        }
        out.insert(j, x);
        proof {
            assert(out@.map_values(|y: &T| *y) =~= cur.take(j as int).push(*x) + cur.skip(j as int));
        }
        i = i + 1;
    }
    assert(src.take(n as int) =~= src);
    out
}

/// One line of a drawn tree: the indentation with its branch marker, the name, and for a
/// file its size.
pub struct TreeLine {
    pub prefix: String,
    pub name: String,
    pub size: Option<usize>,
}

/// The branch marker of the last entry of a directory.
pub open spec fn last_marker() -> Seq<char> {
    "└── "@
}

/// The branch marker of the other entries.
pub open spec fn mid_marker() -> Seq<char> {
    "├── "@
}

/// The indentation below the last entry of a directory.
pub open spec fn last_indent() -> Seq<char> {
    "    "@
}

/// The indentation below the other entries.
pub open spec fn mid_indent() -> Seq<char> {
    "│   "@
}

/// A line as plain values: indentation and marker, name, size of a file.
pub type LineView = (Seq<char>, Seq<char>, Option<usize>);

/// The lines drawing directory `dir_id` of `fs` with indentation `prefix`: its
/// sub-directories by name, each followed by its own lines, then its files by name.
pub open spec fn dir_lines(fs: NdsFileSystem, dir_id: u16, prefix: Seq<char>, k: nat) -> Seq<LineView>
    decreases k, 0nat, 0nat,
{
    if k == 0 {
        Seq::empty()
    } else {
        let ds = sort_by_name(fs.directories@.filter(|d: NdsDirectory| d.parent_dir_id == dir_id && d.id != dir_id));
        let fls = sort_by_name(fs.files@.filter(|f: NdsFile| f.parent_dir_id == dir_id));
        subdir_lines(fs, ds, 0, fls.len() as int, prefix, (k - 1) as nat) + file_lines(fls, 0, prefix)
    }
}

/// The lines of sub-directories `ds[i..]`; `nf` files follow them.
pub open spec fn subdir_lines(fs: NdsFileSystem, ds: Seq<NdsDirectory>, i: int, nf: int, prefix: Seq<char>, k: nat) -> Seq<LineView>
    decreases k, 1nat, ds.len() - i,
{
    if i < 0 || i >= ds.len() {
        Seq::empty()
    } else {
        let is_last = i == ds.len() - 1 && nf == 0;
        let marker = if is_last { last_marker() } else { mid_marker() };
        let indent = if is_last { last_indent() } else { mid_indent() };
        seq![(prefix + marker, ds[i].name@, None::<usize>)] + dir_lines(fs, ds[i].id, prefix + indent, k)
            + subdir_lines(fs, ds, i + 1, nf, prefix, k)
    }
}

/// The lines of files `fls[i..]`.
pub open spec fn file_lines(fls: Seq<NdsFile>, i: int, prefix: Seq<char>) -> Seq<LineView>
    decreases fls.len() - i,
{
    if i < 0 || i >= fls.len() {
        Seq::empty()
    } else {
        let marker = if i == fls.len() - 1 { last_marker() } else { mid_marker() };
        seq![(prefix + marker, fls[i].name@, Some(fls[i].size))] + file_lines(fls, i + 1, prefix)
    }
}

/// The lines of files `fls[i..]`: one per file, in order, each the indentation followed by
/// `└── ` for the last file and `├── ` for the others, the file's name, and its size.
proof fn lemma_file_lines_at(fls: Seq<NdsFile>, i: int, prefix: Seq<char>)
    requires
        0 <= i <= fls.len(),
    ensures
        file_lines(fls, i, prefix).len() == fls.len() - i,
        forall|q: int| i <= q < fls.len() ==> #[trigger] file_lines(fls, i, prefix)[q - i]
            == (prefix + (if q == fls.len() - 1 { "└── "@ } else { "├── "@ }), fls[q].name@, Some(fls[q].size)),
    decreases fls.len() - i,
{
    reveal_strlit("└── ");
    reveal_strlit("├── ");
    if i < fls.len() {
        lemma_file_lines_at(fls, i + 1, prefix);
        let rest = file_lines(fls, i + 1, prefix);
        let all = file_lines(fls, i, prefix);
        assert forall|q: int| i <= q < fls.len() implies #[trigger] all[q - i]
            == (prefix + (if q == fls.len() - 1 { "└── "@ } else { "├── "@ }), fls[q].name@, Some(fls[q].size)) by {
            if q > i {
                assert(all[q - i] == rest[q - (i + 1)]);
            }
        }
    }
}

/// The lines drawing a directory end with its files, sorted by name: the `j`-th of the `n`
/// last lines is the indentation followed by `└── ` for the last file and `├── ` for the
/// others, the name of the `j`-th file by name order, and its size.
pub proof fn lemma_dir_lines_end_with_files(fs: NdsFileSystem, dir_id: u16, prefix: Seq<char>, k: nat, j: int)
    requires
        k > 0,
        0 <= j < fs.files@.filter(|f: NdsFile| f.parent_dir_id == dir_id).len(),
    ensures
        ({
            let fls = sort_by_name(fs.files@.filter(|f: NdsFile| f.parent_dir_id == dir_id));
            let lines = dir_lines(fs, dir_id, prefix, k);
            let n = fls.len();
            &&& n <= lines.len()
            &&& lines[lines.len() - n + j]
                == (prefix + (if j == n - 1 { "└── "@ } else { "├── "@ }), fls[j].name@, Some(fls[j].size))
        }),
{
    let ff = fs.files@.filter(|f: NdsFile| f.parent_dir_id == dir_id);
    let fls = sort_by_name(ff);
    lemma_sort_elements(ff, 0);
    lemma_file_lines_at(fls, 0, prefix);
    let ds = sort_by_name(fs.directories@.filter(|d: NdsDirectory| d.parent_dir_id == dir_id && d.id != dir_id));
    let a = subdir_lines(fs, ds, 0, fls.len() as int, prefix, (k - 1) as nat);
    let b = file_lines(fls, 0, prefix);
    let lines = dir_lines(fs, dir_id, prefix, k);
    assert(lines == a + b);
    assert(lines[lines.len() - fls.len() + j] == b[j - 0]);
}

/// The lines as plain values.
pub open spec fn line_views(v: Seq<TreeLine>) -> Seq<LineView> {
    v.map_values(|l: TreeLine| (l.prefix@, l.name@, l.size))
}

fn concat(a: &str, b: &str) -> (r: String)
    ensures
        r@ == a@ + b@,
{
    let mut r = String::from_str(a);
    r.append(b);
    r
}

impl NdsFileSystem {
    /// The lines that draw the whole file system below its root.
    pub fn tree_lines(&self) -> (r: Vec<TreeLine>)
        requires
            exists|k: nat| tree_ok(*self, ROOT_DIR_ID, k),
        ensures
            line_views(r@) == dir_lines(*self, ROOT_DIR_ID, Seq::empty(), choose|k: nat| tree_ok(*self, ROOT_DIR_ID, k)),
    {
        let ghost k = choose|k: nat| tree_ok(*self, ROOT_DIR_ID, k);
        let mut out: Vec<TreeLine> = Vec::new();
        let root = String::new();
        assert(line_views(out@) =~= Seq::<LineView>::empty());
        self.push_dir_lines(&mut out, ROOT_DIR_ID, root.as_str(), Ghost(k));
        assert(line_views(out@) =~= dir_lines(*self, ROOT_DIR_ID, Seq::empty(), k));
        out
    }

    /// Appends the lines of directory `dir_id` drawn with indentation `prefix`.
    fn push_dir_lines(&self, out: &mut Vec<TreeLine>, dir_id: u16, prefix: &str, Ghost(k): Ghost<nat>)
        requires
            tree_ok(*self, dir_id, k),
        ensures
            line_views(final(out)@) == line_views(old(out)@) + dir_lines(*self, dir_id, prefix@, k),
        decreases k, 0nat,
    {
        let dirs = sort_refs(self.child_dirs(dir_id));
        let files = sort_refs(self.child_files(dir_id));
        let ghost df = self.directories@.filter(|d: NdsDirectory| d.parent_dir_id == dir_id && d.id != dir_id);
        let ghost ff = self.files@.filter(|f: NdsFile| f.parent_dir_id == dir_id);
        let ghost ds = dirs@.map_values(|d: &NdsDirectory| *d);
        let ghost fls = files@.map_values(|f: &NdsFile| *f);
        let nd = dirs.len();
        let nf = files.len();
        let ghost start = line_views(out@);
        proof {
            assert(ds == sort_by_name(df));
            assert(fls == sort_by_name(ff));
            assert(start + Seq::<LineView>::empty() =~= start);
        }
        let mut i: usize = 0;
        while i < nd
            invariant
                i <= nd,
                nd == dirs@.len(),
                nf == files@.len(),
                ds == dirs@.map_values(|d: &NdsDirectory| *d),
                ds == sort_by_name(df),
                df == self.directories@.filter(|d: NdsDirectory| d.parent_dir_id == dir_id && d.id != dir_id),
                fls.len() == nf,
                tree_ok(*self, dir_id, k),
                line_views(out@) + subdir_lines(*self, ds, i as int, nf as int, prefix@, (k - 1) as nat)
                    == start + subdir_lines(*self, ds, 0, nf as int, prefix@, (k - 1) as nat),
            decreases nd - i,
        {
            let d = dirs[i];
            let is_last = i == nd - 1 && nf == 0;
            let marker = if is_last { "└── " } else { "├── " };
            let indent = if is_last { "    " } else { "│   " };
            let ghost before = line_views(out@);
            proof {
                lemma_sorted_dir_ok(*self, dir_id, k, df, ds, i as int);
            }
            out.push(TreeLine { prefix: concat(prefix, marker), name: d.name.clone(), size: None });
            let sub_prefix = concat(prefix, indent);
            self.push_dir_lines(out, d.id, sub_prefix.as_str(), Ghost((k - 1) as nat));
            proof {
                let line: LineView = (prefix@ + marker@, ds[i as int].name@, None::<usize>);
                let sub = dir_lines(*self, ds[i as int].id, sub_prefix@, (k - 1) as nat);
                assert(line_views(out@) =~= before + seq![line] + sub);
                assert(subdir_lines(*self, ds, i as int, nf as int, prefix@, (k - 1) as nat)
                    == seq![line] + sub + subdir_lines(*self, ds, i + 1, nf as int, prefix@, (k - 1) as nat));
                assert(line_views(out@) + subdir_lines(*self, ds, i + 1, nf as int, prefix@, (k - 1) as nat)
                    =~= before + subdir_lines(*self, ds, i as int, nf as int, prefix@, (k - 1) as nat));
            }
            i = i + 1;
        }
        let ghost mid = line_views(out@);
        proof {
            assert(mid == start + subdir_lines(*self, ds, 0, nf as int, prefix@, (k - 1) as nat));
            assert(mid + Seq::<LineView>::empty() =~= mid);
        }
        let mut j: usize = 0;
        while j < nf
            invariant
                j <= nf,
                nf == files@.len(),
                fls == files@.map_values(|f: &NdsFile| *f),
                line_views(out@) + file_lines(fls, j as int, prefix@) == mid + file_lines(fls, 0, prefix@),
            decreases nf - j,
        {
            let f = files[j];
            let marker = if j == nf - 1 { "└── " } else { "├── " };
            let ghost before = line_views(out@);
            out.push(TreeLine { prefix: concat(prefix, marker), name: f.name.clone(), size: Some(f.size) });
            proof {
                let line: LineView = (prefix@ + marker@, fls[j as int].name@, Some(fls[j as int].size));
                assert(line_views(out@) =~= before + seq![line]);
                assert(file_lines(fls, j as int, prefix@) == seq![line] + file_lines(fls, j + 1, prefix@));
                assert(line_views(out@) + file_lines(fls, j + 1, prefix@) =~= before + file_lines(fls, j as int, prefix@));
            }
            j = j + 1;
        }
        proof {
            assert(line_views(out@) =~= start + (subdir_lines(*self, ds, 0, nf as int, prefix@, (k - 1) as nat) + file_lines(fls, 0, prefix@)));
        }
    }
}

/// A sub-directory reached in name order is one whose walk ends one level deeper.
proof fn lemma_sorted_dir_ok(fs: NdsFileSystem, dir_id: u16, k: nat, df: Seq<NdsDirectory>, ds: Seq<NdsDirectory>, i: int)
    requires
        tree_ok(fs, dir_id, k),
        df == fs.directories@.filter(|d: NdsDirectory| d.parent_dir_id == dir_id && d.id != dir_id),
        ds == sort_by_name(df),
        0 <= i < ds.len(),
    ensures
        tree_ok(fs, ds[i].id, (k - 1) as nat),
{
    lemma_sort_elements(df, i);
    let j = choose|j: int| 0 <= j < df.len() && df[j] == ds[i];
    let t = tree_items(fs, dir_id);
    assert(t[j] == TreeItem::Dir(df[j]));
    lemma_items_ok_at(fs, t, (k - 1) as nat, j);
}

/// Every element of the sorted sequence comes from the input, and sorting keeps the length.
proof fn lemma_sort_elements<T: Named>(s: Seq<T>, i: int)
    ensures
        sort_by_name(s).len() == s.len(),
        0 <= i < s.len() ==> exists|j: int| 0 <= j < s.len() && s[j] == sort_by_name(s)[i],
    decreases s.len(),
{
    if s.len() > 0 {
        let rest = s.drop_last();
        lemma_sort_elements(rest, 0);
        lemma_insert_elements(sort_by_name(rest), s.last(), i);
        if 0 <= i < s.len() {
            let ins = insert_by_name(sort_by_name(rest), s.last());
            if ins[i] == s.last() {
                assert(s[s.len() - 1] == s.last());
            } else {
                let j2 = choose|j2: int| 0 <= j2 < sort_by_name(rest).len() && sort_by_name(rest)[j2] == ins[i];
                lemma_sort_elements(rest, j2);
                let j = choose|j: int| 0 <= j < rest.len() && rest[j] == sort_by_name(rest)[j2];
                assert(s[j] == rest[j]);
            }
        }
    }
}

/// Inserting adds one element and keeps the others.
proof fn lemma_insert_elements<T: Named>(s: Seq<T>, x: T, i: int)
    ensures
        insert_by_name(s, x).len() == s.len() + 1,
        0 <= i < s.len() + 1 ==> (insert_by_name(s, x)[i] == x || exists|j: int| 0 <= j < s.len() && s[j] == insert_by_name(s, x)[i]),
    decreases s.len(),
{
    if s.len() > 0 && !name_le(s.last().spec_name(), x.spec_name()) {
        lemma_insert_elements(s.drop_last(), x, i);
        if 0 <= i < s.len() + 1 {
            let ins = insert_by_name(s, x);
            if i == s.len() {
                assert(ins[i] == s.last());
                assert(s[s.len() - 1] == s.last());
            } else {
                assert(ins[i] == insert_by_name(s.drop_last(), x)[i]);
                if insert_by_name(s.drop_last(), x)[i] != x {
                    let j = choose|j: int| 0 <= j < s.drop_last().len() && s.drop_last()[j] == insert_by_name(s.drop_last(), x)[i];
                    assert(s[j] == s.drop_last()[j]);
                }
            }
        }
    } else if s.len() > 0 {
        if 0 <= i < s.len() {
            assert(s.push(x)[i] == s[i]);
        }
    }
}

/// Any two names are ordered one way or the other.
pub proof fn lemma_name_le_total(a: Seq<char>, b: Seq<char>)
    ensures
        name_le(a, b) || name_le(b, a),
    decreases a.len(),
{
    if a.len() > 0 && b.len() > 0 && (a[0] as u32) == (b[0] as u32) {
        lemma_name_le_total(a.drop_first(), b.drop_first());
    }
}

/// Names are ordered character by character by code point: a name comes no later than any
/// name it begins, and where two names first differ, the one with the smaller character comes
/// first and the other does not.
pub proof fn lemma_name_order(a: Seq<char>, b: Seq<char>, i: int)
    requires
        0 <= i <= a.len(),
        i <= b.len(),
        a.subrange(0, i) == b.subrange(0, i),
    ensures
        i == a.len() ==> name_le(a, b),
        (i < a.len() && i < b.len() && (a[i] as u32) < (b[i] as u32)) ==> name_le(a, b) && !name_le(b, a),
    decreases i,
{
    if i > 0 {
        assert(a[0] == a.subrange(0, i)[0] && b[0] == b.subrange(0, i)[0]);
        assert(a.drop_first().subrange(0, i - 1) =~= a.subrange(0, i).drop_first());
        assert(b.drop_first().subrange(0, i - 1) =~= b.subrange(0, i).drop_first());
        lemma_name_order(a.drop_first(), b.drop_first(), i - 1);
    }
}

/// Whether each name of `s` comes no later than the next.
pub open spec fn names_sorted<T: Named>(s: Seq<T>) -> bool {
    forall|i: int| 0 <= i < s.len() - 1 ==> name_le(#[trigger] s[i].spec_name(), s[i + 1].spec_name())
}

proof fn lemma_insert_sorted<T: Named>(s: Seq<T>, x: T)
    requires
        names_sorted(s),
    ensures
        names_sorted(insert_by_name(s, x)),
        insert_by_name(s, x).len() == s.len() + 1,
        insert_by_name(s, x).last() == x || (s.len() > 0 && insert_by_name(s, x).last() == s.last()),
    decreases s.len(),
{
    if s.len() > 0 {
        let ins = insert_by_name(s, x);
        if name_le(s.last().spec_name(), x.spec_name()) {
            assert forall|i: int| 0 <= i < ins.len() - 1 implies name_le(#[trigger] ins[i].spec_name(), ins[i + 1].spec_name()) by {
                if i < s.len() - 1 {
                    assert(ins[i] == s[i] && ins[i + 1] == s[i + 1]);
                } else {
                    assert(ins[i] == s.last());
                }
            }
        } else {
            let rest = s.drop_last();
            assert(names_sorted(rest)) by {
                assert forall|i: int| 0 <= i < rest.len() - 1 implies name_le(#[trigger] rest[i].spec_name(), rest[i + 1].spec_name()) by {
                    assert(rest[i] == s[i] && rest[i + 1] == s[i + 1]);
                }
            }
            lemma_insert_sorted(rest, x);
            lemma_name_le_total(s.last().spec_name(), x.spec_name());
            let sub = insert_by_name(rest, x);
            assert forall|i: int| 0 <= i < ins.len() - 1 implies name_le(#[trigger] ins[i].spec_name(), ins[i + 1].spec_name()) by {
                if i < sub.len() - 1 {
                    assert(ins[i] == sub[i] && ins[i + 1] == sub[i + 1]);
                } else {
                    assert(ins[i] == sub.last());
                    assert(ins[i + 1] == s.last());
                    if sub.last() != x {
                        assert(sub.last() == rest.last());
                        assert(rest.last() == s[s.len() - 2]);
                        assert(s.last() == s[s.len() - 1]);
                    }
                }
            }
        }
    }
}

/// Sorting by name gives names in order.
pub proof fn lemma_sort_by_name_sorted<T: Named>(s: Seq<T>)
    ensures
        names_sorted(sort_by_name(s)),
    decreases s.len(),
{
    if s.len() > 0 {
        lemma_sort_by_name_sorted(s.drop_last());
        lemma_insert_sorted(sort_by_name(s.drop_last()), s.last());
    }
}

} // verus!
