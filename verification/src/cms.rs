//! A count-min sketch over string keys: a table of `depth` rows and `width`
//! columns of counters. A key has one counter in every row, found by the hash
//! function of that row. Putting a key adds one to each of its counters;
//! getting it reads the least of them. The table never grows, whatever is put
//! into it, and what it says of a key is never less than the number of times
//! that the key was put.

pub mod hash;

use crate::cms::hash::{hash_at, Hasher, FAMILY};
use vstd::multiset::Multiset;
use vstd::prelude::*;

verus! {

/// A counter of the table. It stops at its greatest value.
pub type Count = u16;

/// Why a sketch cannot be made.
#[derive(Debug, Clone, Copy, PartialEq, Eq)]
pub enum SketchError {
    /// The depth or the width is zero, or the width is beyond every modulus
    /// that the sketch knows.
    InvalidParameters,
    /// The depth asks for more hash functions than there are.
    UnsupportedDepth,
}

/// The modulus under which a table of the given width is hashed: the least
/// of a fixed ladder of primes that is at least the width.
pub open spec fn modulus_for(width: nat) -> Option<u64> {
    if width <= 32729 {
        Some(32729u64)
    } else if width <= 271927 {
        Some(271927u64)
    } else if width <= 2718409 {
        Some(2718409u64)
    } else if width <= 33554467 {
        Some(33554467u64)
    } else if width <= 271828199 {
        Some(271828199u64)
    } else if width <= 4294967311 {
        Some(4294967311u64)
    } else if width <= 34359738421 {
        Some(34359738421u64)
    } else if width <= 271828182863 {
        Some(271828182863u64)
    } else {
        None
    }
}

/// What a sketch of the given depth and width is hashed under, or why there
/// is no such sketch.
pub open spec fn admitted(depth: nat, width: nat) -> Result<u64, SketchError> {
    if depth == 0 || width == 0 {
        Err(SketchError::InvalidParameters)
    } else {
        match modulus_for(width) {
            None => Err(SketchError::InvalidParameters),
            Some(modulus) => if depth > FAMILY {
                Err(SketchError::UnsupportedDepth)
            } else {
                Ok(modulus)
            },
        }
    }
}

/// A counter that has been raised `n` times.
pub open spec fn saturated(n: nat) -> Count {
    if n >= Count::MAX {
        Count::MAX
    } else {
        n as Count
    }
}

/// A sketch as a mathematical value: its shape, and the keys that were put
/// into it, each as often as it was put.
pub struct SketchView {
    pub depth: nat,
    pub width: nat,
    pub modulus: u64,
    pub keys: Multiset<Seq<char>>,
}

impl SketchView {
    /// The column of `key` in the given row.
    pub open spec fn column(self, row: int, key: Seq<char>) -> int {
        hash_at(self.modulus, row, key) as int % self.width as int
    }

    /// How many of the keys that were put fall into the given cell.
    pub open spec fn load(self, row: int, col: int) -> nat {
        self.keys.filter(|k: Seq<char>| self.column(row, k) == col).len()
    }

    /// What the counter of the given cell holds.
    pub open spec fn cell(self, row: int, col: int) -> Count {
        saturated(self.load(row, col))
    }

    /// The least of the counters of `key` in the first `rows` rows.
    pub open spec fn least(self, key: Seq<char>, rows: nat) -> Count
        decreases rows,
    {
        if rows == 0 {
            Count::MAX
        } else {
            let above = self.least(key, (rows - 1) as nat);
            let here = self.cell(rows - 1, self.column(rows - 1, key));
            if here < above {
                here
            } else {
                above
            }
        }
    }

    /// What the sketch says of `key`: the least of its counters.
    pub open spec fn estimate(self, key: Seq<char>) -> Count {
        self.least(key, self.depth)
    }

    /// The sketch after `key` was put once more.
    pub open spec fn put(self, key: Seq<char>) -> SketchView {
        SketchView { keys: self.keys.insert(key), ..self }
    }
}

/// A count-min sketch.
pub struct CountMinSketch {
    depth: usize,
    width: usize,
    hasher: Hasher,
    table: Vec<Vec<Count>>,
    keys: Ghost<Multiset<Seq<char>>>,
}

impl View for CountMinSketch {
    type V = SketchView;

    closed spec fn view(&self) -> SketchView {
        SketchView {
            depth: self.depth as nat,
            width: self.width as nat,
            modulus: self.hasher.modulus(),
            keys: self.keys@,
        }
    }
}

impl CountMinSketch {
    /// Whether the table holds what the keys that were put make of it.
    pub closed spec fn wf(&self) -> bool {
        &&& admitted(self.depth as nat, self.width as nat) == Ok::<u64, SketchError>(
            self.hasher.modulus(),
        )
        &&& self.table@.len() == self.depth
        &&& forall|i: int| 0 <= i < self.depth ==> (#[trigger] self.table@[i])@.len() == self.width
        &&& forall|i: int, j: int|
            0 <= i < self.depth && 0 <= j < self.width ==> #[trigger] self.table@[i]@[j]
                == self@.cell(i, j)
    }

    /// A sound sketch has a shape that is admitted: at least one row and at
    /// most as many as there are hash functions, at least one column, and a
    /// modulus from the ladder that is no less than the width.
    pub proof fn lemma_shape(&self)
        requires
            self.wf(),
        ensures
            admitted(self@.depth, self@.width) == Ok::<u64, SketchError>(self@.modulus),
            1 <= self@.depth <= FAMILY,
            1 <= self@.width <= self@.modulus,
    {
    }

    /// Picks the modulus for a width.
    fn pick_modulus(width: usize) -> (r: Option<u64>)
        ensures
            r == modulus_for(width as nat),
    {
        let w = width as u64;
        if w <= 32729 {
            Some(32729)
        } else if w <= 271927 {
            Some(271927)
        } else if w <= 2718409 {
            Some(2718409)
        } else if w <= 33554467 {
            Some(33554467)
        } else if w <= 271828199 {
            Some(271828199)
        } else if w <= 4294967311 {
            Some(4294967311)
        } else if w <= 34359738421 {
            Some(34359738421)
        } else if w <= 271828182863 {
            Some(271828182863)
        } else {
            None
        }
    }

    /// An empty sketch of `depth` rows and `width` columns.
    pub fn new(depth: usize, width: usize) -> (r: Result<Self, SketchError>)
        ensures
            match r {
                Ok(sketch) => {
                    &&& sketch.wf()
                    &&& admitted(depth as nat, width as nat) == Ok::<u64, SketchError>(
                        sketch@.modulus,
                    )
                    &&& sketch@.depth == depth
                    &&& sketch@.width == width
                    &&& sketch@.keys == Multiset::<Seq<char>>::empty()
                },
                Err(e) => admitted(depth as nat, width as nat) == Err::<u64, SketchError>(e),
            },
    {
        if depth == 0 || width == 0 {
            return Err(SketchError::InvalidParameters);
        }
        let prime = match Self::pick_modulus(width) {
            None => {
                return Err(SketchError::InvalidParameters);
            },
            Some(prime) => prime,
        };
        if depth > FAMILY {
            return Err(SketchError::UnsupportedDepth);
        }
        let mut table: Vec<Vec<Count>> = Vec::new();
        let mut i: usize = 0;
        while i < depth
            invariant
                i <= depth,
                table@.len() == i,
                forall|r: int| 0 <= r < i ==> (#[trigger] table@[r])@.len() == width,
                forall|r: int, j: int| 0 <= r < i && 0 <= j < width ==> #[trigger] table@[r]@[j] == 0,
            decreases depth - i,
        {
            let row: Vec<Count> = vec![0; width];
            table.push(row);
            i += 1;
        }
        let sketch = Self {
            depth,
            width,
            hasher: Hasher::with_prime(prime),
            table,
            keys: Ghost(Multiset::empty()),
        };
        proof {
            assert forall|r: int, j: int| 0 <= r < depth && 0 <= j < width implies sketch@.cell(
                r,
                j,
            ) == 0 by {
                lemma_load_of_none(sketch@, r, j);
            }
        }
        Ok(sketch)
    }

    /// The number of rows.
    pub fn depth(&self) -> (r: usize)
        ensures
            r == self@.depth,
    {
        self.depth
    }

    /// The number of columns.
    pub fn width(&self) -> (r: usize)
        ensures
            r == self@.width,
    {
        self.width
    }

    /// The hash of `raw` under the function of index `idx`. There are
    /// `FAMILY` functions; an index beyond them is not supported.
    pub fn cms_hash(&self, raw: &str, idx: usize) -> (r: Result<u64, SketchError>)
        ensures
            match r {
                Ok(h) => idx < FAMILY && h == hash_at(self@.modulus, idx as int, raw@),
                Err(e) => idx >= FAMILY && e == SketchError::UnsupportedDepth,
            },
    {
        match idx {
            0 => Ok(self.hasher.js_hash(raw)),
            1 => Ok(self.hasher.bkdr_hash(raw)),
            2 => Ok(self.hasher.rs_hash(raw)),
            3 => Ok(self.hasher.string_fold_hash(raw)),
            4 => Ok(self.hasher.pjw_hash(raw)),
            5 => Ok(self.hasher.elf_hash(raw)),
            6 => Ok(self.hasher.sdbm_hash(raw)),
            _ => Err(SketchError::UnsupportedDepth),
        }
    }

    /// The column of `raw` in row `row`.
    fn column(&self, raw: &str, row: usize) -> (r: usize)
        requires
            self.wf(),
            row < self@.depth,
        ensures
            r == self@.column(row as int, raw@),
            r < self@.width,
    {
        match self.cms_hash(raw, row) {
            Ok(h) => (h % self.width as u64) as usize,
            Err(_) => 0,
        }
    }

    /// What the sketch says of the key `raw`: the least of its counters, or
    /// `None` where that is zero. It is never less than the number of times
    /// that `raw` was put, up to the greatest value of a counter.
    pub fn get(&self, raw: &str) -> (r: Option<Count>)
        requires
            self.wf(),
        ensures
            r == if self@.estimate(raw@) == 0 {
                None
            } else {
                Some(self@.estimate(raw@))
            },
            self@.estimate(raw@) >= saturated(self@.keys.count(raw@)),
    {
        let mut hashed_freq: Count = Count::MAX;
        let mut i: usize = 0;
        while i < self.depth
            invariant
                self.wf(),
                i <= self.depth,
                hashed_freq == self@.least(raw@, i as nat),
            decreases self.depth - i,
        {
            let col = self.column(raw, i);
            let here = self.table[i][col];
            if here < hashed_freq {
                hashed_freq = here;
            }
            i += 1;
        }
        proof {
            lemma_never_under(self@, raw@);
        }
        if hashed_freq > 0 {
            Some(hashed_freq)
        } else {
            None
        }
    }

    /// Puts the key `raw` into the sketch: one is added to each of its
    /// counters that has not reached its greatest value.
    pub fn put(&mut self, raw: &str)
        requires
            old(self).wf(),
        ensures
            final(self).wf(),
            final(self)@ == old(self)@.put(raw@),
            forall|key: Seq<char>| #[trigger]
                final(self)@.estimate(key) >= old(self)@.estimate(key),
    {
        let ghost before = self@;
        let ghost after = self@.put(raw@);
        let mut i: usize = 0;
        while i < self.depth
            invariant
                i <= self.depth,
                self@ == before,
                before == old(self)@,
                after == before.put(raw@),
                old(self).wf(),
                self.depth == old(self).depth,
                self.width == old(self).width,
                self.table@.len() == self.depth,
                forall|r: int|
                    0 <= r < self.depth ==> (#[trigger] self.table@[r])@.len() == self.width,
                forall|r: int, j: int|
                    0 <= r < i && 0 <= j < self.width ==> #[trigger] self.table@[r]@[j]
                        == after.cell(r, j),
                forall|r: int, j: int|
                    i <= r < self.depth && 0 <= j < self.width ==> #[trigger] self.table@[r]@[j]
                        == before.cell(r, j),
            decreases self.depth - i,
        {
            let col = match self.cms_hash(raw, i) {
                Ok(h) => (h % self.width as u64) as usize,
                Err(_) => 0,
            };
            let raised = self.table[i][col].saturating_add(1);
            proof {
                assert forall|j: int| 0 <= j < self.width implies after.load(i as int, j)
                    == before.load(i as int, j) + if j == col {
                    1nat
                } else {
                    0nat
                } by {
                    lemma_load_after_put(before, raw@, i as int, j);
                }
            }
            self.table[i][col] = raised;
            i += 1;
        }
        self.keys = Ghost(after.keys);
        proof {
            assert forall|key: Seq<char>| #[trigger]
                after.estimate(key) >= before.estimate(key) by {
                lemma_put_never_lowers(before, raw@, key);
            }
        }
    }
}

/// No cell of a sketch into which nothing was put holds anything.
pub proof fn lemma_load_of_none(v: SketchView, row: int, col: int)
    requires
        v.keys == Multiset::<Seq<char>>::empty(),
    ensures
        v.load(row, col) == 0,
{
    let f = |k: Seq<char>| v.column(row, k) == col;
    assert(v.keys.filter(f) =~= Multiset::<Seq<char>>::empty());
}

/// The column of a key lies within the table.
pub proof fn lemma_column_in_table(v: SketchView, row: int, key: Seq<char>)
    requires
        v.width > 0,
    ensures
        0 <= v.column(row, key) < v.width,
{
}

/// Putting a key adds one to the load of its cell in every row, and nothing
/// to the load of any other cell.
pub proof fn lemma_load_after_put(v: SketchView, key: Seq<char>, row: int, col: int)
    ensures
        v.put(key).load(row, col) == v.load(row, col) + if v.column(row, key) == col {
            1nat
        } else {
            0nat
        },
{
    let f = |k: Seq<char>| v.column(row, k) == col;
    let g = |k: Seq<char>| v.put(key).column(row, k) == col;
    assert(v.put(key).keys.filter(g) =~= if f(key) {
        v.keys.filter(f).insert(key)
    } else {
        v.keys.filter(f)
    });
}

/// The least of the counters of a key is at most each of them, and is one of
/// them where there is a row.
pub proof fn lemma_least(v: SketchView, key: Seq<char>, rows: nat)
    ensures
        forall|r: int|
            0 <= r < rows ==> v.least(key, rows) <= #[trigger] v.cell(r, v.column(r, key)),
        rows > 0 ==> exists|r: int|
            0 <= r < rows && v.least(key, rows) == #[trigger] v.cell(r, v.column(r, key)),
    decreases rows,
{
    if rows > 0 {
        let above = (rows - 1) as nat;
        lemma_least(v, key, above);
        if v.least(key, rows) == v.least(key, above) && above > 0 {
            let r = choose|r: int|
                0 <= r < above && v.least(key, above) == #[trigger] v.cell(r, v.column(r, key));
            assert(v.least(key, rows) == v.cell(r, v.column(r, key)));
        } else {
            assert(v.least(key, rows) == v.cell(rows - 1, v.column(rows - 1, key)));
        }
    }
}

/// A sketch never says less of a key than the number of times that the key
/// was put into it, as far as a counter can count.
pub proof fn lemma_never_under(v: SketchView, key: Seq<char>)
    ensures
        v.estimate(key) >= saturated(v.keys.count(key)),
{
    lemma_never_under_rows(v, key, v.depth);
}

/// The least counter of a key over any number of rows is no less than the
/// number of times that the key was put, as far as a counter can count.
pub proof fn lemma_never_under_rows(v: SketchView, key: Seq<char>, rows: nat)
    ensures
        v.least(key, rows) >= saturated(v.keys.count(key)),
    decreases rows,
{
    if rows > 0 {
        lemma_never_under_rows(v, key, (rows - 1) as nat);
        let row = rows - 1;
        let col = v.column(row, key);
        let f = |k: Seq<char>| v.column(row, k) == col;
        assert(v.keys.filter(f).count(key) <= v.keys.filter(f).len());
    }
}

/// A sketch into which nothing was put says nothing of any key.
pub proof fn lemma_nothing_put(v: SketchView, key: Seq<char>)
    requires
        v.depth >= 1,
        v.keys == Multiset::<Seq<char>>::empty(),
    ensures
        v.estimate(key) == 0,
{
    lemma_least(v, key, v.depth);
    lemma_load_of_none(v, 0, v.column(0, key));
    assert(v.cell(0, v.column(0, key)) == 0);
}

/// Where in some row no other key shares the counter of a key, the sketch
/// says of the key exactly how often it was put, as far as a counter can
/// count.
pub proof fn lemma_exact_where_alone(v: SketchView, key: Seq<char>, row: int)
    requires
        0 <= row < v.depth,
        v.load(row, v.column(row, key)) == v.keys.count(key),
    ensures
        v.estimate(key) == saturated(v.keys.count(key)),
{
    lemma_least(v, key, v.depth);
    lemma_never_under(v, key);
    assert(v.cell(row, v.column(row, key)) == saturated(v.keys.count(key)));
}

/// Nothing that is put into a sketch later makes it say less of any key.
pub proof fn lemma_put_never_lowers(v: SketchView, put: Seq<char>, key: Seq<char>)
    ensures
        v.put(put).estimate(key) >= v.estimate(key),
{
    lemma_put_never_lowers_rows(v, put, key, v.depth);
}

/// Putting a key lowers the least counter of no key, over any number of rows.
pub proof fn lemma_put_never_lowers_rows(v: SketchView, put: Seq<char>, key: Seq<char>, rows: nat)
    ensures
        v.put(put).least(key, rows) >= v.least(key, rows),
    decreases rows,
{
    if rows > 0 {
        lemma_put_never_lowers_rows(v, put, key, (rows - 1) as nat);
        lemma_load_after_put(v, put, rows - 1, v.column(rows - 1, key));
    }
}

} // verus!
