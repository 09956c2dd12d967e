//! The chunked append-only store's bookkeeping: one file per height, named
//! by the category followed by the decimal height, the highest index
//! recovered by scanning the directory's filenames, and the append contract
//! (write at the current count, then advance it by one; an index once
//! written is never written again). The byte I/O itself is the caller's:
//! this module computes the filenames, parses them back, and keeps the
//! index.

use vstd::prelude::*;

verus! {

use vstd::map::Map;

/// The ASCII decimal digits of a number, most significant first.
pub open spec fn dec_digits(n: nat) -> Seq<u8>
    decreases n,
{
    if n < 10 {
        seq![(48 + n) as u8]
    } else {
        dec_digits(n / 10).push((48 + n % 10) as u8)
    }
}

/// The filename of the chunk at one height: the category followed by the
/// decimal height.
pub open spec fn chunk_name(category: Seq<u8>, i: nat) -> Seq<u8> {
    category + dec_digits(i)
}

/// Whether a byte sequence is one or more ASCII decimal digits.
pub open spec fn is_digits(s: Seq<u8>) -> bool {
    s.len() > 0 && forall|i: int| 0 <= i < s.len() ==> 48 <= #[trigger] s[i] <= 57
}

/// The number an ASCII decimal digit run denotes.
pub open spec fn dec_val(s: Seq<u8>) -> nat
    decreases s.len(),
{
    if s.len() == 0 {
        0
    } else {
        dec_val(s.drop_last()) * 10 + (if s.last() >= 48 { (s.last() - 48) as nat } else { 0 })
    }
}

/// The digits of a number denote the number, and they are digits.
pub proof fn lemma_dec_digits_val(n: nat)
    ensures
        is_digits(dec_digits(n)),
        dec_val(dec_digits(n)) == n,
    decreases n,
{
    if n < 10 {
        let s = dec_digits(n);
        assert(s =~= seq![(48 + n) as u8]);
        assert(s.last() == 48 + n);
        assert(s.drop_last() =~= Seq::<u8>::empty());
        assert(dec_val(s.drop_last()) == 0);
        assert(dec_val(s) == 0 * 10 + n);
    } else {
        lemma_dec_digits_val(n / 10);
        let s = dec_digits(n);
        assert(s.drop_last() =~= dec_digits(n / 10));
        vstd::arithmetic::div_mod::lemma_fundamental_div_mod(n as int, 10);
        assert(s.last() == 48 + n % 10);
        assert(dec_val(s.drop_last()) == n / 10);
        assert(dec_val(s) == (n / 10) * 10 + n % 10);
        assert((n / 10) * 10 + n % 10 == n) by (nonlinear_arith)
            requires
                n as int == 10 * (n as int / 10) + (n as int % 10),
                n >= 10,
        ;
    }
}

/// Distinct heights have distinct filenames: the category prefix cancels
/// and the digit runs denote distinct numbers.
pub proof fn lemma_chunk_name_injective(category: Seq<u8>, i: nat, j: nat)
    requires
        chunk_name(category, i) == chunk_name(category, j),
    ensures
        i == j,
{
    lemma_dec_digits_val(i);
    lemma_dec_digits_val(j);
    assert(chunk_name(category, i).len() == category.len() + dec_digits(i).len());
    assert(chunk_name(category, j).len() == category.len() + dec_digits(j).len());
    assert(dec_digits(i).len() == dec_digits(j).len());
    assert(dec_digits(i) =~= dec_digits(j)) by {
        assert forall|k: int| 0 <= k < dec_digits(i).len()
            implies dec_digits(i)[k] == dec_digits(j)[k] by {
            assert(chunk_name(category, i)[category.len() + k] == dec_digits(i)[k]);
            assert(chunk_name(category, j)[category.len() + k] == dec_digits(j)[k]);
        }
    }
    assert(dec_val(dec_digits(i)) == dec_val(dec_digits(j)));
}

/// The index a filename denotes for a category: the name must extend the
/// category and the remainder must be digits denoting a value that fits the
/// machine. Other files carry no index.
pub open spec fn file_index_of(category: Seq<u8>, name: Seq<u8>) -> Option<int> {
    if name.len() > category.len() && name.take(category.len() as int) == category
        && is_digits(name.skip(category.len() as int))
        && dec_val(name.skip(category.len() as int)) <= usize::MAX {
        Some(dec_val(name.skip(category.len() as int)) as int)
    } else {
        None
    }
}

/// The greatest index any of the filenames denotes, or `None` with no
/// matching file: the durability state a directory scan recovers.
pub open spec fn scan_last_index(category: Seq<u8>, names: Seq<Seq<u8>>) -> Option<int>
    decreases names.len(),
{
    if names.len() == 0 {
        None
    } else {
        let rest = scan_last_index(category, names.drop_last());
        match file_index_of(category, names.last()) {
            None => rest,
            Some(ix) => match rest {
                None => Some(ix),
                Some(m) => Some(if ix > m { ix } else { m }),
            },
        }
    }
}

/// A scanned index is a machine-word index: each matching filename denotes
/// one.
proof fn lemma_scan_last_index_bounds(category: Seq<u8>, names: Seq<Seq<u8>>)
    ensures
        scan_last_index(category, names) matches Some(m) ==> 0 <= m <= usize::MAX,
    decreases names.len(),
{
    if names.len() > 0 {
        lemma_scan_last_index_bounds(category, names.drop_last());
    }
}

/// The little state machine of the store: the category and the last written
/// index. Byte persistence stays with the caller.
pub struct StorageDirectory {
    category: Vec<u8>,
    storage_files_last_index: Option<usize>,
}

impl StorageDirectory {
    /// The category filenames are built from.
    pub closed spec fn spec_category(&self) -> Seq<u8> {
        self.category@
    }

    /// The last written index, or `None` for an empty store.
    pub closed spec fn spec_last_index(&self) -> Option<usize> {
        self.storage_files_last_index
    }

    /// The number of chunks: the last index plus one, or zero when empty.
    pub open spec fn spec_count(&self) -> int {
        match self.spec_last_index() {
            None => 0,
            Some(i) => i + 1,
        }
    }

    /// A fresh store for a category, with no chunk yet.
    pub fn new(category: Vec<u8>) -> (r: Self)
        ensures
            r.spec_category() == category@,
            r.spec_last_index() is None,
            r.spec_count() == 0,
    {
        StorageDirectory { category, storage_files_last_index: None }
    }

    /// The last written index, or `None` for an empty store.
    pub fn get_storage_files_last_index(&self) -> (r: Option<usize>)
        ensures
            r == self.spec_last_index(),
    {
        self.storage_files_last_index
    }

    /// Recovers the last index from a directory listing: the greatest index
    /// among the filenames that extend the category with decimal digits, or
    /// `None` when no file matches.
    pub fn init_storage_files_last_index(&mut self, filenames: &Vec<Vec<u8>>)
        ensures
            final(self).spec_category() == old(self).spec_category(),
            final(self).spec_last_index() == match scan_last_index(
                old(self).spec_category(),
                filenames@.map_values(|n: Vec<u8>| n@),
            ) {
                None => None::<usize>,
                Some(ix) => Some(ix as usize),
            },
    {
        let ghost names = filenames@.map_values(|n: Vec<u8>| n@);
        let ghost cat = self.spec_category();
        let mut max_index: Option<usize> = None;
        let mut i: usize = 0;
        proof {
            assert(names.take(0) =~= Seq::<Seq<u8>>::empty());
        }
        while i < filenames.len()
            invariant
                i <= filenames@.len(),
                self.spec_category() == cat,
                names == filenames@.map_values(|n: Vec<u8>| n@),
                max_index == match scan_last_index(cat, names.take(i as int)) {
                    None => None::<usize>,
                    Some(ix) => Some(ix as usize),
                },
            decreases filenames@.len() - i,
        {
            let ghost prev_scan = scan_last_index(cat, names.take(i as int));
            let parsed = parse_file_index(&self.category, &filenames[i]);
            proof {
                lemma_scan_last_index_bounds(cat, names.take(i as int));
                assert(names.take(i + 1).drop_last() =~= names.take(i as int));
                assert(names[i as int] == filenames@[i as int]@);
                assert(names.take(i + 1).last() == names[i as int]);
                assert(scan_last_index(cat, names.take(i + 1))
                    == match file_index_of(cat, names[i as int]) {
                        None => prev_scan,
                        Some(ix) => match prev_scan {
                            None => Some(ix),
                            Some(m) => Some(if ix > m { ix } else { m }),
                        },
                    });
                if let Some(ix) = file_index_of(cat, names[i as int]) {
                    assert(0 <= ix <= usize::MAX);
                }
            }
            match parsed {
                Some(ix) => {
                    max_index = match max_index {
                        None => Some(ix),
                        Some(m) => Some(if ix > m { ix } else { m }),
                    };
                },
                None => {},
            }
            i = i + 1;
        }
        proof {
            assert(names.take(filenames@.len() as int) =~= names);
        }
        self.storage_files_last_index = max_index;
    }

    /// The number of chunks held: the last index plus one, or zero.
    pub fn get_count(&self) -> (r: usize)
        requires
            self.spec_count() <= usize::MAX,
        ensures
            r == self.spec_count(),
    {
        match self.storage_files_last_index {
            Some(index) => index + 1,
            None => 0,
        }
    }

    /// The filename of the chunk at a height.
    pub fn chunk_filename(&self, height: usize) -> (r: Vec<u8>)
        ensures
            r@ == chunk_name(self.spec_category(), height as nat),
    {
        let mut r = crate::codec::clone_bytes(&self.category);
        let mut digits = usize_to_dec(height);
        r.append(&mut digits);
        proof {
            assert(r@ =~= chunk_name(self.spec_category(), height as nat));
        }
        r
    }

    /// The filename a new chunk must be written under: the one of the
    /// current count, never of an index already written.
    pub fn next_chunk_filename(&self) -> (r: Vec<u8>)
        requires
            self.spec_count() <= usize::MAX,
        ensures
            r@ == chunk_name(self.spec_category(), self.spec_count() as nat),
    {
        let count = self.get_count();
        self.chunk_filename(count)
    }

    /// Records that the chunk at the current count is durably written: the
    /// count advances by exactly one. To be called only after the write
    /// under `next_chunk_filename` has completed.
    pub fn confirm_append(&mut self)
        requires
            old(self).spec_count() <= usize::MAX,
        ensures
            final(self).spec_category() == old(self).spec_category(),
            final(self).spec_last_index() == Some((old(self).spec_count()) as usize),
            final(self).spec_count() == old(self).spec_count() + 1,
    {
        let count = self.get_count();
        self.storage_files_last_index = Some(count);
    }
}

/// The decimal digits of a machine word, most significant first.
pub fn usize_to_dec(n: usize) -> (r: Vec<u8>)
    ensures
        r@ == dec_digits(n as nat),
    decreases n,
{
    if n < 10 {
        let mut r: Vec<u8> = Vec::new();
        r.push(48 + n as u8);
        proof {
            assert(r@ =~= dec_digits(n as nat));
        }
        r
    } else {
        proof {
            vstd::arithmetic::div_mod::lemma_div_is_strictly_smaller(n as int, 10);
            vstd::arithmetic::div_mod::lemma_div_pos_is_pos(n as int, 10);
        }
        let mut r = usize_to_dec(n / 10);
        r.push(48 + (n % 10) as u8);
        r
    }
}

/// Parses the index a filename denotes for a category, if any: the name
/// must extend the category with one or more decimal digits whose value
/// fits the machine.
pub fn parse_file_index(category: &Vec<u8>, name: &Vec<u8>) -> (r: Option<usize>)
    ensures
        r == match file_index_of(category@, name@) {
            None => None::<usize>,
            Some(ix) => Some(ix as usize),
        },
{
    if name.len() <= category.len() {
        proof {
            assert(file_index_of(category@, name@) is None);
        }
        return None;
    }
    let mut i: usize = 0;
    while i < category.len()
        invariant
            i <= category@.len(),
            category@.len() < name@.len(),
            forall|k: int| 0 <= k < i ==> category@[k] == name@[k],
        decreases category@.len() - i,
    {
        if category[i] != name[i] {
            proof {
                assert(name@.take(category@.len() as int)[i as int] != category@[i as int]);
            }
            return None;
        }
        i = i + 1;
    }
    proof {
        assert(name@.take(category@.len() as int) =~= category@);
    }
    let ghost digits = name@.skip(category@.len() as int);
    let mut value: usize = 0;
    let mut j: usize = category.len();
    proof {
        assert(digits.take(0) =~= Seq::<u8>::empty());
    }
    while j < name.len()
        invariant
            category@.len() <= j <= name@.len(),
            digits == name@.skip(category@.len() as int),
            forall|k: int| 0 <= k < j - category@.len() ==> 48 <= #[trigger] digits[k] <= 57,
            value == dec_val(digits.take(j - category@.len())),
        decreases name@.len() - j,
    {
        let b = name[j];
        if b < 48 || b > 57 {
            proof {
                assert(digits[j - category@.len()] == b);
                assert(!is_digits(digits));
            }
            return None;
        }
        let d = (b - 48) as usize;
        if value > (usize::MAX - d) / 10 {
            proof {
                lemma_dec_val_prefix_le(digits, j - category@.len() + 1);
                assert(digits.take(j - category@.len() + 1).drop_last()
                    =~= digits.take(j - category@.len()));
                assert(digits.take(j - category@.len() + 1).last() == b);
                assert(dec_val(digits.take(j - category@.len() + 1)) > usize::MAX)
                    by (nonlinear_arith)
                    requires
                        dec_val(digits.take(j - category@.len() + 1))
                            == dec_val(digits.take(j - category@.len())) * 10 + d,
                        dec_val(digits.take(j - category@.len())) > (usize::MAX - d) / 10,
                        0 <= d <= 9,
                        usize::MAX >= 9,
                ;
            }
            return None;
        }
        proof {
            assert(value * 10 + d <= usize::MAX) by (nonlinear_arith)
                requires
                    value <= (usize::MAX - d) / 10,
                    0 <= d <= 9,
            ;
            assert(digits.take(j - category@.len() + 1).drop_last()
                =~= digits.take(j - category@.len()));
            assert(digits.take(j - category@.len() + 1).last() == b);
        }
        value = value * 10 + d;
        j = j + 1;
    }
    proof {
        assert(digits.take(name@.len() - category@.len()) =~= digits);
        assert(is_digits(digits));
    }
    Some(value)
}

/// A longer digit run denotes at least what its prefix denotes.
proof fn lemma_dec_val_prefix_le(s: Seq<u8>, k: int)
    requires
        0 <= k <= s.len(),
    ensures
        dec_val(s.take(k)) <= dec_val(s),
    decreases s.len() - k,
{
    if k < s.len() {
        lemma_dec_val_prefix_le(s, k + 1);
        assert(s.take(k + 1).drop_last() =~= s.take(k));
        assert(dec_val(s.take(k + 1)) >= dec_val(s.take(k))) by (nonlinear_arith)
            requires
                dec_val(s.take(k + 1)) == dec_val(s.take(k)) * 10 + (
                if s.take(k + 1).last() >= 48 {
                    (s.take(k + 1).last() - 48) as nat
                } else {
                    0
                }),
        ;
    } else {
        assert(s.take(k) =~= s);
    }
}

// ------------------------------------------------------------------
// The append property
// ------------------------------------------------------------------

/// The files a sequence of appends from an empty store leaves behind, as a
/// map from filename to contents: blob `i` stands under the name of height
/// `i`.
pub open spec fn store_after(category: Seq<u8>, blobs: Seq<Seq<u8>>) -> Map<Seq<u8>, Seq<u8>>
    decreases blobs.len(),
{
    if blobs.len() == 0 {
        Map::<Seq<u8>, Seq<u8>>::empty()
    } else {
        store_after(category, blobs.drop_last()).insert(
            chunk_name(category, (blobs.len() - 1) as nat),
            blobs.last(),
        )
    }
}

/// Appending `N` chunks in order writes each under the name of its height,
/// and no later append touches an earlier name: reading back the file of
/// any height in `[0, N)` yields exactly the bytes appended at that height.
pub proof fn lemma_store_replay(category: Seq<u8>, blobs: Seq<Seq<u8>>, i: int)
    requires
        0 <= i < blobs.len(),
    ensures
        store_after(category, blobs).contains_key(chunk_name(category, i as nat)),
        store_after(category, blobs)[chunk_name(category, i as nat)] == blobs[i],
    decreases blobs.len(),
{
    if i == blobs.len() - 1 {
    } else {
        lemma_store_replay(category, blobs.drop_last(), i);
        if chunk_name(category, i as nat) == chunk_name(category, (blobs.len() - 1) as nat) {
            lemma_chunk_name_injective(category, i as nat, (blobs.len() - 1) as nat);
        }
    }
}

} // verus!
