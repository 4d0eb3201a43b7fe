//! The name dictionaries of DS 3D files: a header, a search tree that is skipped, one
//! fixed-size entry per item, then one 16-byte name per item.
use crate::codec::common::rom::RomReadError;
use crate::rw::bytes::{read_u16_le, spec_u16_le, ParseError};
use crate::rw::zero_padded_string::{spec_read_zps, ZeroPaddedString};
use crate::text::str_eq;
use vstd::prelude::*;

verus! {

/// A fixed-size record that a dictionary holds one of per item.
pub trait DictEntry: Sized + Copy {
    /// The size of one record in bytes.
    spec fn entry_size() -> nat;

    /// Whether the record is the one stored at `s[pos..pos + entry_size()]`.
    spec fn parsed_at(&self, s: Seq<u8>, pos: int) -> bool;

    /// The size of one record in bytes.
    fn size() -> (r: usize)
        ensures
            r == Self::entry_size(),
            r > 0,
            r <= 16,
    ;

    /// Reads the record stored at `data[pos..]`.
    fn read_entry(data: &[u8], pos: usize) -> (r: Result<Self, ParseError>)
        ensures
            r is Ok <==> pos + Self::entry_size() <= data@.len(),
            r matches Ok(e) ==> e.parsed_at(data@, pos as int),
            r matches Err(e) ==> e == ParseError::UnexpectedEof,
    ;
}

/// The number of items of the dictionary at `pos`.
pub open spec fn dict_count(s: Seq<u8>, pos: int) -> int {
    s[pos + 1] as int
}

/// The dictionary's size in bytes.
pub open spec fn dict_size(s: Seq<u8>, pos: int) -> int {
    spec_u16_le(s, pos + 2) as int
}

/// Where the records start: after the 12-byte header and the search tree, whose size the
/// header gives counting 8 bytes of the header.
pub open spec fn dict_entries_start(s: Seq<u8>, pos: int) -> int {
    pos + 4 + spec_u16_le(s, pos + 6)
}

/// Where the names start: they fill the last `16 * count` bytes of the dictionary.
pub open spec fn dict_names_start(s: Seq<u8>, pos: int) -> int {
    pos + dict_size(s, pos) - 16 * dict_count(s, pos)
}

/// Adds item `i` named `name` to `d`, a list of names with the item each stands for: a
/// name already listed keeps its place and stands for the new item.
pub open spec fn dict_insert(d: Seq<(Seq<char>, int)>, name: Seq<char>, i: int) -> Seq<(Seq<char>, int)> {
    if exists|j: int| 0 <= j < d.len() && d[j].0 == name {
        let j = choose|j: int| 0 <= j < d.len() && d[j].0 == name;
        d.update(j, (name, i))
    } else {
        d.push((name, i))
    }
}

/// The names of items `0..k` with the item each stands for, inserted in order.
pub open spec fn dict_fold(names: Seq<Seq<char>>, k: int) -> Seq<(Seq<char>, int)>
    decreases k,
{
    if k <= 0 {
        Seq::empty()
    } else {
        dict_insert(dict_fold(names, k - 1), names[k - 1], k - 1)
    }
}

/// Why reading the dictionary at `pos` fails, if it does: the header, then the records, then
/// the names, in that order.
pub open spec fn dict_error<T: DictEntry>(s: Seq<u8>, pos: int) -> Option<ParseError> {
    if pos + 12 > s.len() {
        Some(ParseError::UnexpectedEof)
    } else if dict_entries_start(s, pos) + T::entry_size() * dict_count(s, pos) > s.len() && dict_count(s, pos) > 0 {
        Some(ParseError::UnexpectedEof)
    } else {
        dict_names_error(s, dict_names_start(s, pos), dict_count(s, pos), 0)
    }
}

/// The first failing name read among names `i..count` from `start`.
pub open spec fn dict_names_error(s: Seq<u8>, start: int, count: int, i: int) -> Option<ParseError>
    decreases count - i,
{
    if i >= count {
        None
    } else if spec_read_zps(s, start + 16 * i, 16) is Err {
        Some(spec_read_zps(s, start + 16 * i, 16)->Err_0)
    } else {
        dict_names_error(s, start, count, i + 1)
    }
}

/// The names of the dictionary at `pos`.
pub open spec fn dict_names(s: Seq<u8>, pos: int) -> Seq<Seq<char>> {
    Seq::new(dict_count(s, pos) as nat, |i: int| spec_read_zps(s, dict_names_start(s, pos) + 16 * i, 16)->Ok_0)
}

/// The inputs on which reading the dictionary runs to the end: once the header and records
/// are read, the names' start does not lie before the data.
pub open spec fn dict_requires<T: DictEntry>(s: Seq<u8>, pos: int) -> bool {
    (pos + 12 <= s.len() && (dict_count(s, pos) == 0 || dict_entries_start(s, pos) + T::entry_size() * dict_count(s, pos) <= s.len()))
        ==> dict_names_start(s, pos) >= 0
}

/// Reads the dictionary at `pos`: each name with its record. Names are kept once, in the
/// order in which they first appear; a name given twice stands for its last record.
pub fn read_nds_dict<T: DictEntry>(data: &[u8], pos: usize) -> (r: Result<Vec<(String, T)>, RomReadError>)
    requires
        dict_requires::<T>(data@, pos as int),
    ensures
        r is Ok <==> dict_error::<T>(data@, pos as int) is None,
        r matches Err(e) ==> e == RomReadError::Parse(dict_error::<T>(data@, pos as int)->Some_0),
        r matches Ok(v) ==> {
            let d = dict_fold(dict_names(data@, pos as int), dict_count(data@, pos as int));
            &&& v@.len() == d.len()
            &&& forall|j: int| 0 <= j < v@.len() ==> {
                &&& #[trigger] v@[j].0@ == d[j].0
                &&& v@[j].1.parsed_at(data@, dict_entries_start(data@, pos as int) + T::entry_size() * d[j].1)
            }
        },
{
    let n = data.len();
    if pos > n || n - pos < 12 {
        return Err(RomReadError::Parse(ParseError::UnexpectedEof));
    }
    let count = data[pos + 1] as usize;
    let size = match read_u16_le(data, pos + 2) { Some(v) => v, None => 0 } as usize;
    let unknown = match read_u16_le(data, pos + 6) { Some(v) => v, None => 0 } as usize;
    let esize = T::size();
    if count == 0 {
        let out: Vec<(String, T)> = Vec::new();
        proof {
            assert(dict_fold(dict_names(data@, pos as int), 0) =~= Seq::<(Seq<char>, int)>::empty());
        }
        return Ok(out);
    }
    if unknown > n - pos - 4 {
        proof {
            assert(esize * count >= 1) by (nonlinear_arith)
                requires esize >= 1, count >= 1;
        }
        return Err(RomReadError::Parse(ParseError::UnexpectedEof));
    }
    let entries_start = pos + 4 + unknown;
    let mut entries: Vec<T> = Vec::new();
    let mut i: usize = 0;
    while i < count
        invariant
            n == data@.len(),
            pos + 12 <= n,
            count == dict_count(data@, pos as int),
            count <= 255,
            esize == T::entry_size(),
            0 < esize <= 16,
            entries_start == dict_entries_start(data@, pos as int),
            entries_start <= n,
            i <= count,
            entries@.len() == i,
            entries_start + esize * i <= n,
            forall|j: int| 0 <= j < i ==> #[trigger] entries@[j].parsed_at(data@, entries_start + esize * j),
        decreases count - i,
    {
        match T::read_entry(data, entries_start + esize * i) {
            Ok(e) => entries.push(e),
            Err(_) => {
                proof {
                    assert(entries_start + esize * count > n) by (nonlinear_arith)
                        requires entries_start + esize * i + esize > n, i < count, esize > 0;
                }
                return Err(RomReadError::Parse(ParseError::UnexpectedEof));
            },
        }
        proof {
            assert(esize * (i + 1) == esize * i + esize) by (nonlinear_arith);
        }
        i = i + 1;
    }
    proof {
        if count > 0 {
            assert(entries_start + esize * count <= n);
        }
    }
    let names_start_wide: u128 = (pos as u128) + (size as u128) - 16 * (count as u128);
    if names_start_wide > n as u128 {
        proof {
            let ns = dict_names_start(data@, pos as int);
            assert(ns == names_start_wide);
            assert(spec_read_zps(data@, ns + 16 * 0, 16) is Err);
        }
        return Err(RomReadError::Parse(ParseError::UnexpectedEof));
    }
    let names_start = names_start_wide as usize;
    let mut out: Vec<(String, T)> = Vec::new();
    let ghost mut names: Seq<Seq<char>> = Seq::empty();
    let mut k: usize = 0;
    while k < count
        invariant
            n == data@.len(),
            count == dict_count(data@, pos as int),
            count <= 255,
            names_start == dict_names_start(data@, pos as int),
            names_start <= n,
            dict_error::<T>(data@, pos as int) == dict_names_error(data@, names_start as int, count as int, 0),
            k <= count,
            entries@.len() == count,
            esize == T::entry_size(),
            entries_start == dict_entries_start(data@, pos as int),
            forall|j: int| 0 <= j < count ==> #[trigger] entries@[j].parsed_at(data@, entries_start + esize * j),
            names.len() == k,
            forall|j: int| 0 <= j < k ==> spec_read_zps(data@, names_start + 16 * j, 16) == Ok::<Seq<char>, ParseError>(#[trigger] names[j]),
            dict_names_error(data@, names_start as int, count as int, 0) == dict_names_error(data@, names_start as int, count as int, k as int),
            out@.len() == dict_fold(names, k as int).len(),
            forall|j1: int, j2: int| 0 <= j1 < j2 < out@.len() ==> #[trigger] out@[j1].0@ != #[trigger] out@[j2].0@,
            forall|j: int| 0 <= j < out@.len() ==> {
                &&& #[trigger] out@[j].0@ == dict_fold(names, k as int)[j].0
                &&& out@[j].1 == entries@[dict_fold(names, k as int)[j].1]
                &&& 0 <= dict_fold(names, k as int)[j].1 < k
            },
        decreases count - k,
    {
        let name = match ZeroPaddedString::<16>::read(data, names_start + 16 * k) {
            Ok(z) => z.0,
            Err(e) => { return Err(RomReadError::Parse(e)); }
        };
        let e = entries[k];
        let ghost d = dict_fold(names, k as int);
        let ghost old_out = out@;
        let m = out.len();
        let mut j: usize = 0;
        let mut found = false;
        while j < m
            invariant_except_break
                forall|jj: int| 0 <= jj < j ==> d[jj].0 != name@,
                !found,
            invariant
                j <= m,
                m == out@.len(),
                out@ == old_out,
                d.len() == m,
                forall|jj: int| 0 <= jj < m ==> #[trigger] out@[jj].0@ == d[jj].0,
            ensures
                found ==> j < m && d[j as int].0 == name@,
                !found ==> forall|jj: int| 0 <= jj < m ==> d[jj].0 != name@,
            decreases m - j,
        {
            if str_eq(out[j].0.as_str(), name.as_str()) {
                found = true;
                break;
            }
            j = j + 1;
        }
        let ghost nm = name@;
        proof {
            let names2 = names.push(nm);
            lemma_dict_fold_prefix(names, names2, k as int);
            assert(dict_fold(names2, k + 1) == dict_insert(d, nm, k as int));
            if found {
                assert forall|j2: int| 0 <= j2 < d.len() && d[j2].0 == nm implies j2 == j by {
                    if j2 < j {
                        assert(old_out[j2].0@ != old_out[j as int].0@);
                    } else if j2 > j {
                        assert(old_out[j as int].0@ != old_out[j2].0@);
                    }
                }
                let c = choose|j2: int| 0 <= j2 < d.len() && d[j2].0 == nm;
                assert(c == j);
                assert(dict_insert(d, nm, k as int) == d.update(j as int, (nm, k as int)));
            } else {
                assert(dict_insert(d, nm, k as int) == d.push((nm, k as int)));
            }
        }
        if found {
            out.set(j, (name, e));
        } else {
            out.push((name, e));
        }
        proof {
            let names2 = names.push(nm);
            let d2 = dict_fold(names2, k + 1);
            names = names2;
            assert forall|jj: int| 0 <= jj < out@.len() implies {
                &&& #[trigger] out@[jj].0@ == d2[jj].0
                &&& out@[jj].1 == entries@[d2[jj].1]
                &&& 0 <= d2[jj].1 < k + 1
            } by {
                if found {
                    if jj != j {
                        assert(out@[jj] == old_out[jj]);
                        assert(d2[jj] == d[jj]);
                    }
                } else {
                    if jj < m {
                        assert(out@[jj] == old_out[jj]);
                        assert(d2[jj] == d[jj]);
                    }
                }
            }
            assert forall|j1: int, j2: int| 0 <= j1 < j2 < out@.len() implies #[trigger] out@[j1].0@ != #[trigger] out@[j2].0@ by {
                if found {
                    if j1 != j && j2 != j {
                        assert(out@[j1] == old_out[j1] && out@[j2] == old_out[j2]);
                    } else if j1 == j {
                        assert(out@[j2] == old_out[j2]);
                        assert(old_out[j as int].0@ != old_out[j2].0@);
                    } else {
                        assert(out@[j1] == old_out[j1]);
                        assert(old_out[j1].0@ != old_out[j as int].0@);
                    }
                } else {
                    if j2 < m {
                        assert(out@[j1] == old_out[j1] && out@[j2] == old_out[j2]);
                    } else {
                        assert(out@[j1] == old_out[j1]);
                        assert(d[j1].0 != nm);
                    }
                }
            }
        }
        k = k + 1;
    }
    proof {
        assert(names =~= dict_names(data@, pos as int));
    }
    Ok(out)
}

/// A dictionary read keeps each name once: the names it lists are pairwise different, and
/// each stands for one of the items read so far.
pub proof fn lemma_dict_fold_distinct(names: Seq<Seq<char>>, k: int)
    requires
        0 <= k <= names.len(),
    ensures
        forall|j1: int, j2: int| 0 <= j1 < j2 < dict_fold(names, k).len() ==> #[trigger] dict_fold(names, k)[j1].0 != #[trigger] dict_fold(names, k)[j2].0,
        forall|j: int| 0 <= j < dict_fold(names, k).len() ==> 0 <= #[trigger] dict_fold(names, k)[j].1 < k,
    decreases k,
{
    if k > 0 {
        lemma_dict_fold_distinct(names, k - 1);
        let d = dict_fold(names, k - 1);
        let name = names[k - 1];
        if exists|j: int| 0 <= j < d.len() && d[j].0 == name {
            let j0 = choose|j: int| 0 <= j < d.len() && d[j].0 == name;
            let d2 = d.update(j0, (name, k - 1));
            assert(dict_fold(names, k) == d2);
            assert forall|j1: int, j2: int| 0 <= j1 < j2 < d2.len() implies #[trigger] d2[j1].0 != #[trigger] d2[j2].0 by {
                if j1 == j0 {
                    assert(d[j2].0 != d[j0].0);
                } else if j2 == j0 {
                    assert(d[j1].0 != d[j0].0);
                } else {
                    assert(d[j1].0 != d[j2].0);
                }
            }
        } else {
            let d2 = d.push((name, k - 1));
            assert(dict_fold(names, k) == d2);
            assert forall|j1: int, j2: int| 0 <= j1 < j2 < d2.len() implies #[trigger] d2[j1].0 != #[trigger] d2[j2].0 by {
                if j2 < d.len() {
                    assert(d[j1].0 != d[j2].0);
                } else {
                    assert(d2[j1] == d[j1]);
                }
            }
        }
    }
}

/// The first `k` insertions depend on the first `k` names only.
proof fn lemma_dict_fold_prefix(a: Seq<Seq<char>>, b: Seq<Seq<char>>, k: int)
    requires
        0 <= k <= a.len(),
        k <= b.len(),
        forall|i: int| 0 <= i < k ==> a[i] == b[i],
    ensures
        dict_fold(a, k) == dict_fold(b, k),
    decreases k,
{
    if k > 0 {
        lemma_dict_fold_prefix(a, b, k - 1);
    }
}

} // verus!
