//! Compressed sparse row matrix type
use vstd::prelude::*;

use crate::linalg::matrix::sum_products;
use crate::linalg::sparse::sparsity::{is_stable_sort_of, keys_sorted, zip_pairs, Sparsity};
use crate::linalg::vector::{Vector, VectorMut};
use crate::num_traits::FloatNumber;

verus! {

/// A sparse matrix stored row after row: the column and the value of each
/// stored entry, grouped by row. Rows are built by pushing entries and then
/// closing the row, which sorts it by column.
pub struct SparseMatrixCSR<T> {
    sparsity: Sparsity,
    values: Vec<T>,
    tmp_buffer: Vec<(usize, T)>,
}

/// `x[c]` for each column `c` of `cols`.
pub open spec fn gathered<T>(x: Seq<T>, cols: Seq<usize>) -> Seq<T> {
    cols.map_values(|c: usize| x[c as int])
}

impl<T> SparseMatrixCSR<T> {
    /// The pattern of the stored entries.
    pub closed spec fn pattern(&self) -> Sparsity {
        self.sparsity
    }

    /// The values of the stored entries, in the order of the pattern.
    pub closed spec fn vals(&self) -> Seq<T> {
        self.values@
    }

    /// Columns of the entries of the closed row `i`.
    pub open spec fn row_cols(&self, i: int) -> Seq<usize> {
        self.pattern().line(i)
    }

    /// Values of the entries of the closed row `i`.
    pub open spec fn row_vals(&self, i: int) -> Seq<T> {
        self.vals().subrange(
            self.pattern().starts_seq()[i] as int,
            self.pattern().starts_seq()[i + 1] as int,
        )
    }

    /// The entries of the closed row `i`, as (column, value) pairs in stored order.
    pub open spec fn row_pairs(&self, i: int) -> Seq<(usize, T)> {
        zip_pairs(self.row_cols(i), self.row_vals(i))
    }

    /// Entries pushed since the last closed row, as (column, value) pairs.
    pub open spec fn open_pairs(&self) -> Seq<(usize, T)> {
        zip_pairs(
            self.pattern().minors_seq().subrange(self.pattern().open_start(), self.pattern().minors_seq().len() as int),
            self.vals().subrange(self.pattern().open_start(), self.vals().len() as int),
        )
    }

    /// Number of closed rows.
    pub open spec fn rows(&self) -> int {
        self.pattern().major_count()
    }

    /// One more than the largest column stored, 0 when nothing is stored.
    pub open spec fn cols(&self) -> int {
        if self.pattern().minors_seq().len() == 0 {
            0
        } else {
            self.pattern().max_minor_spec() + 1
        }
    }

    /// Well-formedness: a well-formed pattern, one value per stored entry, and
    /// each closed row sorted by column.
    pub open spec fn wf(&self) -> bool {
        &&& self.pattern().wf()
        &&& self.vals().len() == self.pattern().minors_seq().len()
        &&& forall|i: int| 0 <= i < self.rows() ==> keys_sorted(#[trigger] self.row_pairs(i))
    }

    /// The closed row `i` stores an entry in column `j`.
    pub open spec fn has_entry(&self, i: int, j: usize) -> bool {
        &&& 0 <= i < self.rows()
        &&& self.row_cols(i).contains(j)
    }

    /// Position, within row `i`, of the first entry in column `j`.
    pub open spec fn entry_pos(&self, i: int, j: usize) -> int {
        choose|q: int|
            0 <= q < self.row_cols(i).len() && self.row_cols(i)[q] == j && forall|p: int|
                0 <= p < q ==> #[trigger] self.row_cols(i)[p] != j
    }

    /// The value at `(i, j)`: that of the first entry of row `i` in column `j`.
    pub open spec fn entry(&self, i: int, j: usize) -> T {
        self.row_vals(i)[self.entry_pos(i, j)]
    }

    /// The entries of column `j` over the first `n` closed rows, as (row, value)
    /// pairs by increasing row.
    pub open spec fn column_pairs(&self, j: usize, n: nat) -> Seq<(usize, T)>
        decreases n,
    {
        if n == 0 {
            Seq::empty()
        } else {
            let before = self.column_pairs(j, (n - 1) as nat);
            if self.has_entry(n - 1, j) {
                before.push(((n - 1) as usize, self.entry(n - 1, j)))
            } else {
                before
            }
        }
    }

    /// An empty matrix: no row, no entry.
    pub fn new() -> (m: Self)
        ensures
            m.wf(),
            m.rows() == 0,
            m.pattern().minors_seq() == Seq::<usize>::empty(),
            m.vals() == Seq::<T>::empty(),
    {
        Self { sparsity: Sparsity::new(), values: Vec::new(), tmp_buffer: Vec::new() }
    }

    /// Number of closed rows.
    pub fn nrows(&self) -> (n: usize)
        requires
            self.wf(),
        ensures
            n == self.rows(),
    {
        self.sparsity.major_len()
    }

    /// Number of columns: one more than the largest column stored, 0 when nothing is stored.
    pub fn ncols(&self) -> (n: usize)
        requires
            self.wf(),
            self.pattern().max_minor_spec() < usize::MAX,
        ensures
            n == self.cols(),
    {
        if self.sparsity.minor_len() == 0 {
            0
        } else {
            self.sparsity.max_minor() + 1
        }
    }

    /// The entries of the closed row `row`, as (column, value) pairs in stored order.
    pub fn iter_row(&self, row: usize) -> (r: Vec<(usize, T)>) where T: Copy
        requires
            self.wf(),
            row < self.rows(),
        ensures
            r@ == self.row_pairs(row as int),
    {
        let range = self.sparsity.major_range_flat(row);
        let start = range.start;
        let end = range.end;
        let mut r: Vec<(usize, T)> = Vec::new();
        let mut k = start;
        while k < end
            invariant
                self.wf(),
                row < self.rows(),
                start == self.pattern().starts_seq()[row as int],
                end == self.pattern().starts_seq()[row + 1],
                start <= k <= end,
                end <= self.vals().len(),
                r@ == self.row_pairs(row as int).take(k - start),
            decreases end - k,
        {
            r.push((self.sparsity.flat_index(k), self.values[k]));
            proof {
                assert(r@ =~= self.row_pairs(row as int).take(k + 1 - start));
            }
            k = k + 1;
        }
        proof {
            assert(self.row_pairs(row as int).take(end - start) =~= self.row_pairs(row as int));
        }
        r
    }

    /// Appends an entry in column `column` to the open row.
    pub fn push_to_row(&mut self, column: usize, value: T)
        requires
            old(self).wf(),
        ensures
            final(self).wf(),
            final(self).rows() == old(self).rows(),
            forall|i: int| 0 <= i < old(self).rows() ==> #[trigger] final(self).row_pairs(i) == old(self).row_pairs(i),
            final(self).open_pairs() == old(self).open_pairs().push((column, value)),
            final(self).pattern().max_minor_spec() == if column > old(self).pattern().max_minor_spec() {
                column
            } else {
                old(self).pattern().max_minor_spec()
            },
            final(self).pattern().minors_seq().len() == old(self).pattern().minors_seq().len() + 1,
    {
        self.sparsity.push_to_major(column);
        self.values.push(value);
        proof {
            assert forall|i: int| 0 <= i < old(self).rows() implies #[trigger] self.row_pairs(i) == old(self).row_pairs(i) by {
                lemma_prefix_rows(old(self).sparsity, self.sparsity, i);
                assert(self.row_cols(i) =~= old(self).row_cols(i));
                assert(self.row_vals(i) =~= old(self).row_vals(i));
            }
            assert(self.open_pairs() =~= old(self).open_pairs().push((column, value)));
        }
    }

    /// Closes the open row, sorting its entries by column (equal columns keep their order).
    pub fn close_row(&mut self) where T: Copy
        requires
            old(self).wf(),
        ensures
            final(self).wf(),
            final(self).rows() == old(self).rows() + 1,
            forall|i: int| 0 <= i < old(self).rows() ==> #[trigger] final(self).row_pairs(i) == old(self).row_pairs(i),
            is_stable_sort_of(final(self).row_pairs(old(self).rows()), old(self).open_pairs()),
            final(self).open_pairs() == Seq::<(usize, T)>::empty(),
            final(self).pattern().max_minor_spec() == old(self).pattern().max_minor_spec(),
            final(self).pattern().minors_seq().len() == old(self).pattern().minors_seq().len(),
    {
        self.sparsity.close_major_and_sort(self.values.as_mut_slice(), &mut self.tmp_buffer);
        proof {
            let n = old(self).rows();
            assert(self.sparsity.starts_seq()[n] == old(self).sparsity.starts_seq()[n]);
            assert forall|i: int| 0 <= i < n implies #[trigger] self.row_pairs(i) == old(self).row_pairs(i) by {
                let a = self.sparsity.starts_seq()[i] as int;
                let b = self.sparsity.starts_seq()[i + 1] as int;
                assert(b <= old(self).sparsity.open_start());
                assert(self.row_cols(i) =~= old(self).row_cols(i)) by {
                    assert forall|q: int| 0 <= q < b - a implies self.row_cols(i)[q] == old(self).row_cols(i)[q] by {
                        assert(self.sparsity.minors_seq().subrange(0, old(self).sparsity.open_start())[a + q]
                            == old(self).sparsity.minors_seq().subrange(0, old(self).sparsity.open_start())[a + q]);
                    }
                }
                assert(self.row_vals(i) =~= old(self).row_vals(i));
            }
            assert(self.sparsity.starts_seq()[n] == old(self).sparsity.open_start());
            assert(self.sparsity.starts_seq()[n + 1] == old(self).sparsity.minors_seq().len());
            assert(self.row_pairs(n) =~= zip_pairs(
                self.sparsity.minors_seq().subrange(old(self).sparsity.open_start(), old(self).sparsity.minors_seq().len() as int),
                self.values@.subrange(old(self).sparsity.open_start(), old(self).sparsity.minors_seq().len() as int),
            ));
            assert(old(self).open_pairs() =~= zip_pairs(
                old(self).sparsity.minors_seq().subrange(old(self).sparsity.open_start(), old(self).sparsity.minors_seq().len() as int),
                old(self).values@.subrange(old(self).sparsity.open_start(), old(self).sparsity.minors_seq().len() as int),
            ));
            assert(self.open_pairs() =~= Seq::<(usize, T)>::empty());
            assert forall|i: int| 0 <= i < self.rows() implies keys_sorted(#[trigger] self.row_pairs(i)) by {
                if i < n {
                    assert(keys_sorted(old(self).row_pairs(i)));
                }
            }
        }
    }
}

impl<T> SparseMatrixCSR<T> {
    /// Flat offset of the first entry of row `row` whose column is at least `col`
    /// (the end of the row when there is none).
    fn lower_bound(&self, row: usize, col: usize) -> (k: usize)
        requires
            self.wf(),
            row < self.rows(),
        ensures
            self.pattern().starts_seq()[row as int] <= k <= self.pattern().starts_seq()[row + 1],
            forall|q: int| self.pattern().starts_seq()[row as int] <= q < k ==> #[trigger] self.pattern().minors_seq()[q] < col,
            forall|q: int| k <= q < self.pattern().starts_seq()[row + 1] ==> #[trigger] self.pattern().minors_seq()[q] >= col,
    {
        let range = self.sparsity.major_range_flat(row);
        let start = range.start;
        let end = range.end;
        let ghost cols = self.pattern().minors_seq();
        proof {
            assert(keys_sorted(self.row_pairs(row as int)));
            assert forall|p: int, q: int| start <= p <= q < end implies #[trigger] cols[p] <= #[trigger] cols[q] by {
                assert(self.row_pairs(row as int)[p - start].0 == cols[p]);
                assert(self.row_pairs(row as int)[q - start].0 == cols[q]);
            }
        }
        let mut lo = start;
        let mut hi = end;
        while lo < hi
            invariant
                self.wf(),
                cols == self.pattern().minors_seq(),
                end <= cols.len(),
                start <= lo <= hi <= end,
                forall|p: int, q: int| start <= p <= q < end ==> #[trigger] cols[p] <= #[trigger] cols[q],
                forall|q: int| start <= q < lo ==> #[trigger] cols[q] < col,
                forall|q: int| hi <= q < end ==> #[trigger] cols[q] >= col,
            decreases hi - lo,
        {
            let mid = lo + (hi - lo) / 2;
            if self.sparsity.flat_index(mid) < col {
                lo = mid + 1;
            } else {
                hi = mid;
            }
        }
        lo
    }

    /// Flat offset of the first entry of row `row` in column `col`, if there is one.
    fn find(&self, row: usize, col: usize) -> (k: Option<usize>)
        requires
            self.wf(),
            row < self.rows(),
        ensures
            k.is_some() <==> self.has_entry(row as int, col),
            k.is_some() ==> k.unwrap() == self.pattern().starts_seq()[row as int] + self.entry_pos(row as int, col),
            k.is_some() ==> self.pattern().starts_seq()[row as int] <= k.unwrap() < self.pattern().starts_seq()[row + 1],
            k.is_some() ==> self.vals()[k.unwrap() as int] == self.entry(row as int, col),
    {
        let range = self.sparsity.major_range_flat(row);
        let start = range.start;
        let end = range.end;
        let k = self.lower_bound(row, col);
        let ghost rc = self.row_cols(row as int);
        proof {
            assert(rc.len() == end - start);
            assert forall|q: int| 0 <= q < rc.len() implies #[trigger] rc[q] == self.pattern().minors_seq()[start + q] by {}
        }
        if k < end && self.sparsity.flat_index(k) == col {
            proof {
                let q = k - start;
                assert(rc[q] == col);
                assert forall|p: int| 0 <= p < q implies #[trigger] rc[p] != col by {
                    assert(self.pattern().minors_seq()[start + p] < col);
                }
                lemma_first_pos_unique(rc, col, q);
                assert(self.row_vals(row as int)[q] == self.vals()[k as int]);
            }
            Some(k)
        } else {
            proof {
                assert forall|q: int| 0 <= q < rc.len() implies #[trigger] rc[q] != col by {
                    if start + q < k {
                        assert(self.pattern().minors_seq()[start + q] < col);
                    } else {
                        assert(self.pattern().minors_seq()[start + q] >= col);
                        if start + q > k {
                            assert(self.pattern().minors_seq()[k as int] <= self.pattern().minors_seq()[start + q]) by {
                                assert(keys_sorted(self.row_pairs(row as int)));
                                assert(self.row_pairs(row as int)[k - start].0 == self.pattern().minors_seq()[k as int]);
                                assert(self.row_pairs(row as int)[q].0 == self.pattern().minors_seq()[start + q]);
                            }
                        }
                    }
                }
            }
            None
        }
    }
}

impl<T> SparseMatrixCSR<T> {
    /// Closes the open row as it stands, its columns being already in order.
    fn close_row_in_order(&mut self)
        requires
            old(self).wf(),
            keys_sorted(old(self).open_pairs()),
        ensures
            final(self).wf(),
            final(self).rows() == old(self).rows() + 1,
            forall|i: int| 0 <= i < old(self).rows() ==> #[trigger] final(self).row_pairs(i) == old(self).row_pairs(i),
            final(self).row_pairs(old(self).rows()) == old(self).open_pairs(),
            final(self).open_pairs() == Seq::<(usize, T)>::empty(),
            final(self).pattern().max_minor_spec() == old(self).pattern().max_minor_spec(),
            final(self).pattern().minors_seq() == old(self).pattern().minors_seq(),
    {
        self.sparsity.close_major();
        proof {
            let n = old(self).rows();
            assert forall|i: int| 0 <= i < n implies #[trigger] self.row_pairs(i) == old(self).row_pairs(i) by {
                assert(self.sparsity.starts_seq()[i] == old(self).sparsity.starts_seq()[i]);
                assert(self.sparsity.starts_seq()[i + 1] == old(self).sparsity.starts_seq()[i + 1]);
                assert(self.row_cols(i) =~= old(self).row_cols(i));
                assert(self.row_vals(i) =~= old(self).row_vals(i));
            }
            assert(self.sparsity.starts_seq()[n] == old(self).sparsity.open_start());
            assert(self.sparsity.starts_seq()[n + 1] == old(self).sparsity.minors_seq().len());
            assert(self.row_pairs(n) =~= old(self).open_pairs());
            assert(self.open_pairs() =~= Seq::<(usize, T)>::empty());
            assert forall|i: int| 0 <= i < self.rows() implies keys_sorted(#[trigger] self.row_pairs(i)) by {
                if i < n {
                    assert(keys_sorted(old(self).row_pairs(i)));
                }
            }
        }
    }

    /// `result[i] = sum over the entries (j, a) of row i of a rhs[j]`, for each closed row.
    pub fn imul(&self, result: &mut impl VectorMut<T>, rhs: &impl Vector<T>) where T: FloatNumber
        requires
            self.wf(),
            old(result).elems().len() >= self.rows(),
            forall|i: int, q: int|
                0 <= i < self.rows() && 0 <= q < self.row_cols(i).len() ==> #[trigger] self.row_cols(i)[q]
                    < rhs.elems().len(),
        ensures
            final(result).elems().len() == old(result).elems().len(),
            forall|i: int|
                0 <= i < self.rows() ==> #[trigger] final(result).elems()[i] == sum_products(
                    T::zero_spec(),
                    self.row_vals(i),
                    gathered(rhs.elems(), self.row_cols(i)),
                ),
            forall|i: int|
                self.rows() <= i < old(result).elems().len() ==> #[trigger] final(result).elems()[i]
                    == old(result).elems()[i],
    {
        let nr = self.nrows();
        let x = rhs.data();
        let r = result.data_mut();
        let ghost old_r = r@;
        let mut row: usize = 0;
        while row < nr
            invariant
                self.wf(),
                nr == self.rows(),
                x@ == rhs.elems(),
                r@.len() == old_r.len(),
                old_r.len() >= nr,
                row <= nr,
                forall|i: int, q: int|
                    0 <= i < self.rows() && 0 <= q < self.row_cols(i).len() ==> #[trigger] self.row_cols(i)[q] < x@.len(),
                forall|i: int|
                    0 <= i < row ==> #[trigger] r@[i] == sum_products(
                        T::zero_spec(),
                        self.row_vals(i),
                        gathered(x@, self.row_cols(i)),
                    ),
                forall|i: int| row <= i < old_r.len() ==> #[trigger] r@[i] == old_r[i],
            decreases nr - row,
        {
            let range = self.sparsity.major_range_flat(row);
            let start = range.start;
            let end = range.end;
            let ghost vals = self.row_vals(row as int);
            let ghost xs = gathered(x@, self.row_cols(row as int));
            let mut ri = T::zero();
            let mut k = start;
            while k < end
                invariant
                    self.wf(),
                    row < self.rows(),
                    x@ == rhs.elems(),
                    start == self.pattern().starts_seq()[row as int],
                    end == self.pattern().starts_seq()[row + 1],
                    end <= self.vals().len(),
                    start <= k <= end,
                    vals == self.row_vals(row as int),
                    xs == gathered(x@, self.row_cols(row as int)),
                    forall|q: int| 0 <= q < self.row_cols(row as int).len() ==> #[trigger] self.row_cols(row as int)[q] < x@.len(),
                    ri == sum_products(T::zero_spec(), vals.take(k - start), xs),
                decreases end - k,
            {
                proof {
                    assert(vals.take(k + 1 - start).drop_last() =~= vals.take(k - start));
                    assert(self.row_cols(row as int)[k - start] == self.pattern().minors_seq()[k as int]);
                }
                let j = self.sparsity.flat_index(k);
                ri = ri.float_add(self.values[k].float_mul(x[j]));
                k = k + 1;
            }
            proof {
                assert(vals.take(end - start) =~= vals);
            }
            r[row] = ri;
            row = row + 1;
        }
    }

    /// The transposed matrix: its row `j` holds, by increasing row, the rows `i`
    /// of `self` that have an entry in column `j`, each with the value `self[[i, j]]`.
    /// A costly operation.
    pub fn transpose(&self) -> (t: Self) where T: Copy
        requires
            self.wf(),
            self.pattern().max_minor_spec() < usize::MAX,
        ensures
            t.wf(),
            t.rows() == self.cols(),
            t.open_pairs() == Seq::<(usize, T)>::empty(),
            forall|j: int| 0 <= j < t.rows() ==> #[trigger] t.row_pairs(j) == self.column_pairs(j as usize, self.rows() as nat),
    {
        let nc = self.ncols();
        let nr = self.nrows();
        let mut t = SparseMatrixCSR::new();
        let mut j: usize = 0;
        while j < nc
            invariant
                self.wf(),
                nr == self.rows(),
                nc == self.cols(),
                j <= nc,
                t.wf(),
                t.rows() == j,
                t.open_pairs() == Seq::<(usize, T)>::empty(),
                forall|c: int| 0 <= c < j ==> #[trigger] t.row_pairs(c) == self.column_pairs(c as usize, nr as nat),
            decreases nc - j,
        {
            let mut i: usize = 0;
            while i < nr
                invariant
                    self.wf(),
                    nr == self.rows(),
                    i <= nr,
                    t.wf(),
                    t.rows() == j,
                    t.open_pairs() == self.column_pairs(j, i as nat),
                    forall|c: int| 0 <= c < j ==> #[trigger] t.row_pairs(c) == self.column_pairs(c as usize, nr as nat),
                decreases nr - i,
            {
                match self.find(i, j) {
                    Some(k) => {
                        t.push_to_row(i, self.values[k]);
                    },
                    None => {},
                }
                i = i + 1;
            }
            proof {
                self.lemma_column_pairs_sorted(j, nr as nat);
            }
            t.close_row_in_order();
            j = j + 1;
        }
        t
    }

    /// The entries of a column come by strictly increasing row, each below `n`.
    proof fn lemma_column_pairs_sorted(&self, j: usize, n: nat)
        requires
            n <= usize::MAX,
        ensures
            keys_sorted(self.column_pairs(j, n)),
            forall|q: int| 0 <= q < self.column_pairs(j, n).len() ==> #[trigger] self.column_pairs(j, n)[q].0 < n,
        decreases n,
    {
        if n > 0 {
            self.lemma_column_pairs_sorted(j, (n - 1) as nat);
            let before = self.column_pairs(j, (n - 1) as nat);
            let all = self.column_pairs(j, n);
            if self.has_entry(n - 1, j) {
                assert(all == before.push(((n - 1) as usize, self.entry(n - 1, j))));
                assert forall|a: int, b: int| 0 <= a <= b < all.len() implies (#[trigger] all[a]).0 <= (#[trigger] all[b]).0 by {
                    if b == all.len() - 1 && a < b {
                        assert(before[a].0 < n - 1);
                    } else if b < all.len() - 1 {
                        assert(before[a].0 <= before[b].0);
                    }
                }
            }
        }
    }
}

impl<T> SparseMatrixCSR<T> {
    /// Each pair of `column_pairs(j, n)` is a stored entry `(i, j)` with its value,
    /// and each stored entry `(i, j)` with `i < n` has a pair.
    proof fn lemma_column_pairs_members(&self, j: usize, n: nat)
        requires
            n <= self.rows(),
            self.rows() < usize::MAX,
        ensures
            forall|q: int|
                0 <= q < self.column_pairs(j, n).len() ==> {
                    let pr = #[trigger] self.column_pairs(j, n)[q];
                    &&& pr.0 < n
                    &&& self.has_entry(pr.0 as int, j)
                    &&& pr.1 == self.entry(pr.0 as int, j)
                },
            forall|i: int|
                0 <= i < n && #[trigger] self.has_entry(i, j) ==> exists|q: int|
                    0 <= q < self.column_pairs(j, n).len() && (#[trigger] self.column_pairs(j, n)[q]).0 == i,
            forall|p: int, q: int|
                0 <= p < q < self.column_pairs(j, n).len() ==> (#[trigger] self.column_pairs(j, n)[p]).0
                    < (#[trigger] self.column_pairs(j, n)[q]).0,
        decreases n,
    {
        if n > 0 {
            self.lemma_column_pairs_members(j, (n - 1) as nat);
            let before = self.column_pairs(j, (n - 1) as nat);
            let all = self.column_pairs(j, n);
            if self.has_entry(n - 1, j) {
                assert(all == before.push(((n - 1) as usize, self.entry(n - 1, j))));
                assert forall|i: int| 0 <= i < n && #[trigger] self.has_entry(i, j) implies exists|q: int|
                    0 <= q < all.len() && (#[trigger] all[q]).0 == i by {
                    if i == n - 1 {
                        assert(all[all.len() - 1].0 == i);
                    } else {
                        let q = choose|q: int| 0 <= q < before.len() && (#[trigger] before[q]).0 == i;
                        assert(all[q] == before[q]);
                    }
                }
            } else {
                assert(all == before);
            }
        }
    }
}

/// A stored entry `(i, j)` of the matrix is stored as `(j, i)` in its transpose, with its value.
proof fn lemma_transpose_forward<T>(a: SparseMatrixCSR<T>, t: SparseMatrixCSR<T>, i: usize, j: usize)
    requires
        a.pattern().wf(),
        a.rows() < usize::MAX,
        t.rows() == a.cols(),
        forall|c: int| 0 <= c < t.rows() ==> #[trigger] t.row_pairs(c) == a.column_pairs(c as usize, a.rows() as nat),
        a.has_entry(i as int, j),
    ensures
        t.has_entry(j as int, i),
        t.entry(j as int, i) == a.entry(i as int, j),
{
    lemma_stored_column_bound(a, i, j);
    a.lemma_column_pairs_members(j, a.rows() as nat);
    let cp = a.column_pairs(j, a.rows() as nat);
    assert(t.row_pairs(j as int) == cp);
    let q = choose|q: int| 0 <= q < cp.len() && (#[trigger] cp[q]).0 == i as int;
    let rc = t.row_cols(j as int);
    assert(rc.len() == cp.len());
    assert(t.row_pairs(j as int)[q] == cp[q]);
    assert(rc[q] == i);
    assert forall|p: int| 0 <= p < q implies #[trigger] rc[p] != i by {
        assert(t.row_pairs(j as int)[p] == cp[p]);
        assert(cp[p].0 < cp[q].0);
    }
    assert(t.row_cols(j as int).contains(i));
    let p = t.entry_pos(j as int, i);
    assert(rc[p] == i);
    assert(t.row_pairs(j as int)[p] == cp[p]);
}

/// A stored column is below `cols()`.
proof fn lemma_stored_column_bound<T>(a: SparseMatrixCSR<T>, i: usize, j: usize)
    requires
        a.pattern().wf(),
        a.has_entry(i as int, j),
    ensures
        j < a.cols(),
{
    let rc = a.row_cols(i as int);
    let q0 = choose|q: int| 0 <= q < rc.len() && rc[q] == j;
    let st = a.pattern().starts_seq();
    let off = st[i as int] as int;
    assert(st[i as int] <= st[i + 1]);
    assert(st[i + 1] <= st.last());
    assert(rc[q0] == a.pattern().minors_seq()[off + q0]);
    assert(j <= a.pattern().max_minor_spec());
}

/// A stored entry `(j, i)` of the transpose comes from the entry `(i, j)` of the matrix.
proof fn lemma_transpose_backward<T>(a: SparseMatrixCSR<T>, t: SparseMatrixCSR<T>, i: usize, j: usize)
    requires
        a.pattern().wf(),
        a.rows() < usize::MAX,
        t.rows() == a.cols(),
        forall|c: int| 0 <= c < t.rows() ==> #[trigger] t.row_pairs(c) == a.column_pairs(c as usize, a.rows() as nat),
        t.has_entry(j as int, i),
    ensures
        a.has_entry(i as int, j),
{
    a.lemma_column_pairs_members(j, a.rows() as nat);
    let cp = a.column_pairs(j, a.rows() as nat);
    let rc = t.row_cols(j as int);
    let q = choose|q: int| 0 <= q < rc.len() && rc[q] == i;
    assert(t.row_pairs(j as int) == cp);
    assert(t.row_pairs(j as int)[q] == cp[q]);
    assert(cp[q].0 == i);
}

/// Transposing mirrors the stored entries: the transpose stores `(j, i)`
/// exactly when the matrix stores `(i, j)`, with the value of `self[[i, j]]`.
pub proof fn lemma_transpose_entries<T>(a: SparseMatrixCSR<T>, t: SparseMatrixCSR<T>)
    requires
        a.wf(),
        a.rows() < usize::MAX,
        t.rows() == a.cols(),
        forall|j: int| 0 <= j < t.rows() ==> #[trigger] t.row_pairs(j) == a.column_pairs(j as usize, a.rows() as nat),
    ensures
        forall|i: usize, j: usize| #[trigger] a.has_entry(i as int, j) <==> #[trigger] t.has_entry(j as int, i),
        forall|i: usize, j: usize| #[trigger] a.has_entry(i as int, j) ==> t.entry(j as int, i) == a.entry(i as int, j),
{
    assert forall|i: usize, j: usize| #[trigger] a.has_entry(i as int, j) implies t.has_entry(j as int, i) && t.entry(
        j as int,
        i,
    ) == a.entry(i as int, j) by {
        lemma_transpose_forward(a, t, i, j);
    }
    assert forall|i: usize, j: usize| #[trigger] t.has_entry(j as int, i) implies a.has_entry(i as int, j) by {
        lemma_transpose_backward(a, t, i, j);
    }
}

impl<T> core::ops::Index<[usize; 2]> for SparseMatrixCSR<T> {
    type Output = T;

    /// The value at `(index[0], index[1])`; the entry must be stored.
    fn index(&self, index: [usize; 2]) -> (r: &T)
        ensures
            *r == self.entry(index[0] as int, index[1]),
    {
        match self.find(index[0], index[1]) {
            Some(k) => &self.values[k],
            None => {
                proof {
                    assert(false);
                }
                &self.values[0]
            },
        }
    }
}

impl<T> vstd::std_specs::core::IndexSpecImpl<[usize; 2]> for SparseMatrixCSR<T> {
    open spec fn index_req(&self, index: &[usize; 2]) -> bool {
        self.wf() && self.has_entry(index[0] as int, index[1])
    }
}

/// The position picked by `entry_pos` is the first one holding the column.
proof fn lemma_first_pos_unique(cols: Seq<usize>, j: usize, q: int)
    requires
        0 <= q < cols.len(),
        cols[q] == j,
        forall|p: int| 0 <= p < q ==> #[trigger] cols[p] != j,
    ensures
        (choose|r: int| 0 <= r < cols.len() && cols[r] == j && forall|p: int| 0 <= p < r ==> #[trigger] cols[p] != j) == q,
{
    let r = choose|r: int| 0 <= r < cols.len() && cols[r] == j && forall|p: int| 0 <= p < r ==> #[trigger] cols[p] != j;
    assert(0 <= r < cols.len() && cols[r] == j && forall|p: int| 0 <= p < r ==> #[trigger] cols[p] != j);
    if r < q {
        assert(cols[r] != j);
    } else if r > q {
        assert(cols[q] != j);
    }
}

/// Closed lines of a pattern are kept when entries are only appended.
proof fn lemma_prefix_rows(a: Sparsity, b: Sparsity, i: int)
    requires
        a.wf(),
        b.starts_seq() == a.starts_seq(),
        a.minors_seq().len() <= b.minors_seq().len(),
        forall|k: int| 0 <= k < a.minors_seq().len() ==> #[trigger] b.minors_seq()[k] == a.minors_seq()[k],
        0 <= i < a.major_count(),
    ensures
        b.line(i) == a.line(i),
{
    assert(a.starts_seq()[i + 1] <= a.starts_seq().last());
    assert(b.line(i) =~= a.line(i));
}

} // verus!
