use vstd::prelude::*;
use crate::vector::{cloned_seq, Vector};

verus! {

/// Number of columns of a table given as its rows (zero for no rows).
pub open spec fn width<T>(s: Seq<Seq<T>>) -> nat {
    if s.len() == 0 {
        0
    } else {
        s[0].len()
    }
}

/// Every row has as many entries as the first one, and a table with rows has columns.
pub open spec fn well_shaped<T>(s: Seq<Seq<T>>) -> bool {
    &&& s.len() > 0 ==> s[0].len() > 0
    &&& forall|i: int| 0 <= i < s.len() ==> #[trigger] s[i].len() == s[0].len()
}

/// The components of each vector, in order.
pub open spec fn rows_view<T>(rows: Seq<Vector<T>>) -> Seq<Seq<T>> {
    rows.map_values(|v: Vector<T>| v@)
}

/// `x` is what `dot` returned for a vector with the components `row` and a
/// vector with clones of the components `col`.
pub open spec fn dot_of<T: Clone, F: Fn(&Vector<T>, &Vector<T>) -> T>(dot: F, row: Seq<T>, col: Seq<T>, x: T) -> bool {
    exists|a: Vector<T>, b: Vector<T>| a@ == row && cloned_seq(col, b@) && dot.ensures((&a, &b), x)
}

/// The table of `rows` × `cols` entries read row by row from `e`; the empty
/// table when either count is zero.
pub open spec fn grid_of<T>(rows: nat, cols: nat, e: Seq<T>) -> Seq<Seq<T>> {
    if rows == 0 || cols == 0 {
        Seq::empty()
    } else {
        Seq::new(rows, |i: int| e.subrange(i * cols, i * cols + cols))
    }
}

proof fn lemma_row_fits(i: int, rows: int, cols: int)
    requires
        0 <= i < rows,
        0 <= cols,
    ensures
        i * cols + cols <= rows * cols,
        0 <= i * cols,
{
    assert(i * cols + cols == (i + 1) * cols) by (nonlinear_arith);
    assert((i + 1) * cols <= rows * cols) by (nonlinear_arith)
        requires
            i + 1 <= rows,
            0 <= cols,
    ;
    assert(0 <= i * cols) by (nonlinear_arith)
        requires
            0 <= i,
            0 <= cols,
    ;
}

/// The indices below `n` that `excluded` does not list, in increasing order.
pub open spec fn kept_indices(n: nat, excluded: Seq<usize>) -> Seq<int>
    decreases n,
{
    if n == 0 {
        Seq::empty()
    } else {
        let before = kept_indices((n - 1) as nat, excluded);
        if excluded.contains((n - 1) as usize) {
            before
        } else {
            before.push(n - 1)
        }
    }
}

/// The table left from `s` after deleting the listed rows and columns.
pub open spec fn minor_of<T>(s: Seq<Seq<T>>, excluded_rows: Seq<usize>, excluded_cols: Seq<usize>) -> Seq<Seq<T>> {
    let ri = kept_indices(s.len(), excluded_rows);
    let ci = kept_indices(width(s), excluded_cols);
    table_of(Seq::new(ri.len(), |a: int| Seq::new(ci.len(), |b: int| s[ri[a]][ci[b]])))
}

/// Whether `i` is listed in `v`.
fn lists(v: &Vec<usize>, i: usize) -> (r: bool)
    ensures
        r == v@.contains(i),
{
    let mut k: usize = 0;
    while k < v.len()
        invariant
            k <= v@.len(),
            forall|l: int| 0 <= l < k ==> v@[l] != i,
        decreases v@.len() - k,
    {
        if v[k] == i {
            return true;
        }
        k += 1;
    }
    false
}

/// The indices below `n` that `excluded` does not list, in increasing order.
fn kept(n: usize, excluded: &Vec<usize>) -> (r: Vec<usize>)
    ensures
        r@.len() == kept_indices(n as nat, excluded@).len(),
        forall|k: int| 0 <= k < r@.len() ==> #[trigger] r@[k] as int == kept_indices(n as nat, excluded@)[k],
        forall|k: int| 0 <= k < r@.len() ==> #[trigger] r@[k] < n,
{
    let mut r: Vec<usize> = Vec::new();
    let mut i: usize = 0;
    while i < n
        invariant
            i <= n,
            r@.len() == kept_indices(i as nat, excluded@).len(),
            forall|k: int| 0 <= k < r@.len() ==> #[trigger] r@[k] as int == kept_indices(i as nat, excluded@)[k],
            forall|k: int| 0 <= k < r@.len() ==> #[trigger] r@[k] < i,
        decreases n - i,
    {
        assert(kept_indices((i + 1) as nat, excluded@) == (if excluded@.contains(i) {
            kept_indices(i as nat, excluded@)
        } else {
            kept_indices(i as nat, excluded@).push(i as int)
        }));
        if !lists(excluded, i) {
            r.push(i);
        }
        i += 1;
    }
    r
}

/// The canonical form of a table: one without columns is the empty table.
pub open spec fn table_of<T>(s: Seq<Seq<T>>) -> Seq<Seq<T>> {
    if width(s) == 0 {
        Seq::empty()
    } else {
        s
    }
}

/// All vectors have the dimension of the first one.
pub open spec fn same_dims<T>(vs: Seq<Vector<T>>) -> bool {
    forall|i: int| 0 <= i < vs.len() ==> #[trigger] vs[i]@.len() == vs[0]@.len()
}

/// Entry `j` of every row, top to bottom.
pub open spec fn column_of<T>(s: Seq<Seq<T>>, j: int) -> Seq<T> {
    Seq::new(s.len(), |k: int| s[k][j])
}

/// The transpose: row `i` of the result is column `i` of `s`.
pub open spec fn transpose_of<T>(s: Seq<Seq<T>>) -> Seq<Seq<T>> {
    Seq::new(width(s), |i: int| column_of(s, i))
}

/// `b` has the shape of `a` and holds clones of its entries.
pub open spec fn cloned_grid<T: Clone>(a: Seq<Seq<T>>, b: Seq<Seq<T>>) -> bool {
    &&& a.len() == b.len()
    &&& forall|i: int| 0 <= i < a.len() ==> cloned_seq(#[trigger] a[i], b[i])
}

/// A rectangular table of entries, stored as rows.
///
/// A table with no rows or no columns is always the empty (0×0) matrix.
#[derive(Debug, PartialEq)]
pub struct Matrix<T> {
    rows: Vec<Vector<T>>,
    rows_count: usize,
    cols_count: usize,
}

impl<T> View for Matrix<T> {
    type V = Seq<Seq<T>>;

    closed spec fn view(&self) -> Seq<Seq<T>> {
        rows_view(self.rows@)
    }
}

impl<T> Matrix<T> {
    /// The stored counts describe the rows, and a matrix without rows or
    /// without columns has neither.
    pub closed spec fn wf(&self) -> bool {
        &&& self.rows@.len() == self.rows_count
        &&& (self.rows_count == 0 <==> self.cols_count == 0)
        &&& forall|i: int| 0 <= i < self.rows@.len() ==> #[trigger] self.rows@[i]@.len() == self.cols_count
    }

    proof fn lemma_shape(&self)
        requires
            self.wf(),
        ensures
            well_shaped(self@),
            self@.len() == self.rows_count,
            width(self@) == self.cols_count,
            forall|i: int| 0 <= i < self@.len() ==> #[trigger] self@[i] == self.rows@[i]@,
    {
    }

    /// The matrix with no rows and no columns.
    pub fn empty() -> (r: Matrix<T>)
        ensures
            r.wf(),
            r@ == Seq::<Seq<T>>::empty(),
    {
        let r = Matrix { rows: Vec::new(), rows_count: 0, cols_count: 0 };
        assert(r@ =~= Seq::<Seq<T>>::empty());
        r
    }

    /// Number of rows.
    pub fn rows_count(&self) -> (r: usize)
        requires
            self.wf(),
        ensures
            r == self@.len(),
            well_shaped(self@),
    {
        proof {
            self.lemma_shape();
        }
        self.rows_count
    }

    /// Number of columns; every row has that many entries.
    pub fn cols_count(&self) -> (r: usize)
        requires
            self.wf(),
        ensures
            r == width(self@),
            well_shaped(self@),
    {
        proof {
            self.lemma_shape();
        }
        self.cols_count
    }

    /// Matrix of `rows_count` × `cols_count` entries, entry `(i, j)` being `f(i, j)`;
    /// the empty matrix when either count is zero.
    pub fn from_rule<F: Fn(usize, usize) -> T>(rows_count: usize, cols_count: usize, f: F) -> (r: Matrix<T>)
        requires
            forall|i: usize, j: usize| i < rows_count && j < cols_count ==> f.requires((i, j)),
        ensures
            r.wf(),
            rows_count == 0 || cols_count == 0 ==> r@.len() == 0,
            rows_count > 0 && cols_count > 0 ==> r@.len() == rows_count,
            well_shaped(r@),
            forall|i: int| 0 <= i < r@.len() ==> #[trigger] r@[i].len() == cols_count,
            forall|i: int, j: int|
                0 <= i < r@.len() && 0 <= j < cols_count ==> f.ensures((i as usize, j as usize), #[trigger] r@[i][j]),
    {
        if rows_count == 0 || cols_count == 0 {
            return Matrix::empty();
        }
        let mut rows: Vec<Vector<T>> = Vec::new();
        let mut i: usize = 0;
        while i < rows_count
            invariant
                i <= rows_count,
                cols_count > 0,
                rows@.len() == i,
                forall|i: usize, j: usize| i < rows_count && j < cols_count ==> f.requires((i, j)),
                forall|k: int| 0 <= k < i ==> #[trigger] rows@[k]@.len() == cols_count,
                forall|k: int, j: int|
                    0 <= k < i && 0 <= j < cols_count ==> f.ensures((k as usize, j as usize), #[trigger] rows@[k]@[j]),
            decreases rows_count - i,
        {
            let mut row: Vec<T> = Vec::new();
            let mut j: usize = 0;
            while j < cols_count
                invariant
                    i < rows_count,
                    j <= cols_count,
                    row@.len() == j,
                    forall|i: usize, j: usize| i < rows_count && j < cols_count ==> f.requires((i, j)),
                    forall|l: int| 0 <= l < j ==> f.ensures((i, l as usize), #[trigger] row@[l]),
                decreases cols_count - j,
            {
                let x = f(i, j);
                row.push(x);
                j += 1;
            }
            rows.push(Vector::new(row));
            i += 1;
        }
        let r = Matrix { rows, rows_count, cols_count };
        proof {
            r.lemma_shape();
        }
        r
    }

    /// Matrix with the given rows, or `None` when their dimensions differ.
    /// Rows without components (or no rows at all) give the empty matrix.
    pub fn from_rows(rows: Vec<Vector<T>>) -> (r: Option<Matrix<T>>)
        ensures
            r matches Some(m) ==> m.wf(),
            r is Some <==> same_dims(rows@),
            r is Some ==> r->0@ == table_of(rows_view(rows@)),
    {
        let n = rows.len();
        if n == 0 {
            assert(table_of(rows_view(rows@)) =~= Seq::<Seq<T>>::empty());
            return Some(Matrix::empty());
        }
        let first = rows[0].dim();
        let mut i: usize = 1;
        while i < n
            invariant
                n == rows@.len(),
                1 <= i <= n,
                first == rows@[0]@.len(),
                forall|k: int| 0 <= k < i ==> #[trigger] rows@[k]@.len() == first,
            decreases n - i,
        {
            if rows[i].dim() != first {
                return None;
            }
            i += 1;
        }
        if first == 0 {
            assert(table_of(rows_view(rows@)) =~= Seq::<Seq<T>>::empty());
            return Some(Matrix::empty());
        }
        Some(Matrix { rows, rows_count: n, cols_count: first })
    }

    /// Replaces entry `(row_index, col_index)`; fails, leaving the matrix as it
    /// was, outside the matrix.
    pub fn set(&mut self, row_index: usize, col_index: usize, value: T) -> (r: Result<(), ()>)
        requires
            old(self).wf(),
        ensures
            final(self).wf(),
            row_index < old(self)@.len() && col_index < width(old(self)@) ==> r is Ok && final(self)@ == old(
                self,
            )@.update(row_index as int, old(self)@[row_index as int].update(col_index as int, value)),
            !(row_index < old(self)@.len() && col_index < width(old(self)@)) ==> r is Err && final(self)@ == old(
                self,
            )@,
    {
        proof {
            self.lemma_shape();
        }
        if row_index >= self.rows.len() || col_index >= self.cols_count {
            return Err(());
        }
        assert(self.rows@[row_index as int]@.len() == self.cols_count);
        let _ = self.rows[row_index].set(col_index, value);
        proof {
            self.lemma_shape();
            assert(self@ =~= old(self)@.update(row_index as int, old(self)@[row_index as int].update(col_index as int, value)));
        }
        Ok(())
    }

    /// Replaces row `row_index`; fails, leaving the matrix as it was, when
    /// there is no such row or `new_row` has not one component per column.
    pub fn set_row(&mut self, row_index: usize, new_row: Vector<T>) -> (r: Result<(), ()>)
        requires
            old(self).wf(),
        ensures
            final(self).wf(),
            r is Ok <==> row_index < old(self)@.len() && new_row@.len() == width(old(self)@),
            r is Ok ==> final(self)@ == old(self)@.update(row_index as int, new_row@),
            r is Err ==> final(self)@ == old(self)@,
    {
        proof {
            self.lemma_shape();
        }
        if row_index >= self.rows.len() || new_row.dim() != self.cols_count {
            return Err(());
        }
        self.rows.set(row_index, new_row);
        proof {
            assert(self@ =~= old(self)@.update(row_index as int, new_row@));
        }
        Ok(())
    }

    /// Replaces column `col_index` with the components of `new_col`; fails,
    /// leaving the matrix as it was, when there is no such column or `new_col`
    /// has not one component per row.
    pub fn set_col(&mut self, col_index: usize, new_col: Vector<T>) -> (r: Result<(), ()>)
        requires
            old(self).wf(),
        ensures
            final(self).wf(),
            r is Ok <==> col_index < width(old(self)@) && new_col@.len() == old(self)@.len(),
            r is Err ==> final(self)@ == old(self)@,
            r is Ok ==> final(self)@.len() == old(self)@.len(),
            r is Ok ==> forall|i: int|
                0 <= i < old(self)@.len() ==> #[trigger] final(self)@[i] == old(self)@[i].update(
                    col_index as int,
                    new_col@[i],
                ),
    {
        proof {
            self.lemma_shape();
        }
        if col_index >= self.cols_count || new_col.dim() != self.rows.len() {
            return Err(());
        }
        let mut rest = new_col.elements;
        let mut i: usize = self.rows.len();
        while i > 0
            invariant
                self.wf(),
                i <= self.rows@.len(),
                col_index < self.cols_count,
                new_col@.len() == self.rows@.len(),
                rest@ == new_col@.subrange(0, i as int),
                old(self).wf(),
                self.rows_count == old(self).rows_count,
                self.cols_count == old(self).cols_count,
                self@.len() == old(self)@.len(),
                forall|k: int| 0 <= k < i ==> #[trigger] self@[k] == old(self)@[k],
                forall|k: int|
                    i <= k < self@.len() ==> #[trigger] self@[k] == old(self)@[k].update(col_index as int, new_col@[k]),
            decreases i,
        {
            i -= 1;
            proof {
                self.lemma_shape();
                assert(self.rows@[i as int]@.len() == self.cols_count);
            }
            let x = rest.pop().unwrap();
            let ghost before = self@;
            let _ = self.rows[i].set(col_index, x);
            proof {
                assert forall|k: int| 0 <= k < self@.len() && k != i implies #[trigger] self@[k] == before[k] by {
                }
                assert(self@[i as int] == before[i as int].update(col_index as int, x));
                assert(rest@ =~= new_col@.subrange(0, i as int));
            }
        }
        Ok(())
    }

    /// Matrix of `f` applied to the entries in the same position of `self`
    /// and `other`; `None` when their shapes differ.
    pub fn zip_with<U, F: Fn(&T, &T) -> U>(&self, other: &Matrix<T>, f: F) -> (r: Option<Matrix<U>>)
        requires
            self.wf(),
            other.wf(),
            forall|i: int, j: int|
                0 <= i < self@.len() && 0 <= j < width(self@) && i < other@.len() && j < width(other@) ==> f.requires(
                    (&self@[i][j], &other@[i][j]),
                ),
        ensures
            r is Some <==> self@.len() == other@.len() && width(self@) == width(other@),
            r matches Some(m) ==> {
                &&& m.wf()
                &&& m@.len() == self@.len()
                &&& width(m@) == width(self@)
                &&& forall|i: int, j: int|
                    0 <= i < self@.len() && 0 <= j < width(self@) ==> f.ensures(
                        (&self@[i][j], &other@[i][j]),
                        #[trigger] m@[i][j],
                    )
            },
    {
        proof {
            self.lemma_shape();
            other.lemma_shape();
        }
        if self.rows_count != other.rows_count || self.cols_count != other.cols_count {
            return None;
        }
        let mut rows: Vec<Vector<U>> = Vec::new();
        let mut i: usize = 0;
        while i < self.rows_count
            invariant
                self.wf(),
                other.wf(),
                self.rows_count == other.rows_count,
                self.cols_count == other.cols_count,
                forall|i: int, j: int|
                    0 <= i < self@.len() && 0 <= j < width(self@) && i < other@.len() && j < width(other@)
                        ==> f.requires((&self@[i][j], &other@[i][j])),
                i <= self.rows_count,
                rows@.len() == i,
                forall|k: int| 0 <= k < i ==> #[trigger] rows@[k]@.len() == self.cols_count,
                forall|k: int, j: int|
                    0 <= k < i && 0 <= j < self.cols_count ==> f.ensures(
                        (&self@[k][j], &other@[k][j]),
                        #[trigger] rows@[k]@[j],
                    ),
            decreases self.rows_count - i,
        {
            proof {
                self.lemma_shape();
                other.lemma_shape();
            }
            proof {
                assert forall|j: int| 0 <= j < self.rows@[i as int]@.len() implies f.requires(
                    (&self.rows@[i as int]@[j], &other.rows@[i as int]@[j]),
                ) by {
                    assert(self@[i as int] == self.rows@[i as int]@);
                    assert(other@[i as int] == other.rows@[i as int]@);
                    assert(f.requires((&self@[i as int][j], &other@[i as int][j])));
                }
            }
            let row = self.rows[i].zip_with(&other.rows[i], &f);
            match row {
                Some(row) => {
                    rows.push(row);
                },
                None => {},
            }
            i += 1;
        }
        let m = Matrix { rows, rows_count: self.rows_count, cols_count: self.cols_count };
        proof {
            self.lemma_shape();
            m.lemma_shape();
        }
        Some(m)
    }

    /// Matrix of `f` applied to each entry.
    pub fn map<U, F: Fn(&T) -> U>(&self, f: F) -> (r: Matrix<U>)
        requires
            self.wf(),
            forall|i: int, j: int| 0 <= i < self@.len() && 0 <= j < width(self@) ==> f.requires((&self@[i][j],)),
        ensures
            r.wf(),
            r@.len() == self@.len(),
            width(r@) == width(self@),
            forall|i: int, j: int|
                0 <= i < self@.len() && 0 <= j < width(self@) ==> f.ensures((&self@[i][j],), #[trigger] r@[i][j]),
    {
        proof {
            self.lemma_shape();
        }
        let mut rows: Vec<Vector<U>> = Vec::new();
        let mut i: usize = 0;
        while i < self.rows_count
            invariant
                self.wf(),
                forall|i: int, j: int| 0 <= i < self@.len() && 0 <= j < width(self@) ==> f.requires((&self@[i][j],)),
                i <= self.rows_count,
                rows@.len() == i,
                forall|k: int| 0 <= k < i ==> #[trigger] rows@[k]@.len() == self.cols_count,
                forall|k: int, j: int|
                    0 <= k < i && 0 <= j < self.cols_count ==> f.ensures((&self@[k][j],), #[trigger] rows@[k]@[j]),
            decreases self.rows_count - i,
        {
            proof {
                self.lemma_shape();
            }
            proof {
                assert forall|j: int| 0 <= j < self.rows@[i as int]@.len() implies f.requires((&self.rows@[i as int]@[j],)) by {
                    assert(self@[i as int] == self.rows@[i as int]@);
                    assert(f.requires((&self@[i as int][j],)));
                }
            }
            rows.push(self.rows[i].map(&f));
            i += 1;
        }
        let m = Matrix { rows, rows_count: self.rows_count, cols_count: self.cols_count };
        proof {
            self.lemma_shape();
            m.lemma_shape();
        }
        m
    }

    /// Whether the shapes agree and `close` holds of the entries in every
    /// position.
    pub fn approximately_equal<F: Fn(&T, &T) -> bool>(&self, other: &Matrix<T>, close: F) -> (r: bool)
        requires
            self.wf(),
            other.wf(),
            forall|i: int, j: int|
                0 <= i < self@.len() && 0 <= j < width(self@) && i < other@.len() && j < width(other@) ==> close.requires(
                    (&self@[i][j], &other@[i][j]),
                ),
        ensures
            r ==> self@.len() == other@.len() && width(self@) == width(other@) && forall|i: int, j: int|
                0 <= i < self@.len() && 0 <= j < width(self@) ==> close.ensures((&self@[i][j], &other@[i][j]), true),
            !r ==> self@.len() != other@.len() || width(self@) != width(other@) || exists|i: int, j: int|
                0 <= i < self@.len() && 0 <= j < width(self@) && close.ensures((&self@[i][j], &other@[i][j]), false),
    {
        proof {
            self.lemma_shape();
            other.lemma_shape();
        }
        if self.rows_count != other.rows_count || self.cols_count != other.cols_count {
            return false;
        }
        let mut i: usize = 0;
        while i < self.rows_count
            invariant
                self.wf(),
                other.wf(),
                self.rows_count == other.rows_count,
                self.cols_count == other.cols_count,
                forall|i: int, j: int|
                    0 <= i < self@.len() && 0 <= j < width(self@) && i < other@.len() && j < width(other@)
                        ==> close.requires((&self@[i][j], &other@[i][j])),
                i <= self.rows_count,
                forall|k: int, j: int|
                    0 <= k < i && 0 <= j < self.cols_count ==> close.ensures((&self@[k][j], &other@[k][j]), true),
            decreases self.rows_count - i,
        {
            proof {
                self.lemma_shape();
                other.lemma_shape();
            }
            proof {
                assert forall|j: int| 0 <= j < self.rows@[i as int]@.len() implies close.requires(
                    (&self.rows@[i as int]@[j], &other.rows@[i as int]@[j]),
                ) by {
                    assert(self@[i as int] == self.rows@[i as int]@);
                    assert(other@[i as int] == other.rows@[i as int]@);
                    assert(close.requires((&self@[i as int][j], &other@[i as int][j])));
                }
            }
            if !self.rows[i].approximately_equal(&other.rows[i], &close) {
                proof {
                    let j = choose|j: int|
                        0 <= j < self@[i as int].len() && close.ensures((&self@[i as int][j], &other@[i as int][j]), false);
                    assert(close.ensures((&self@[i as int][j], &other@[i as int][j]), false));
                }
                return false;
            }
            i += 1;
        }
        proof {
            self.lemma_shape();
        }
        true
    }

    /// Product with a column vector, entry `i` being `dot` of row `i` and
    /// `other`; `None` unless `other` has one component per column.
    pub fn multiply_by_vector<F: Fn(&Vector<T>, &Vector<T>) -> T>(&self, other: &Vector<T>, dot: F) -> (r: Option<
        Vector<T>,
    >)
        requires
            self.wf(),
            forall|a: Vector<T>| a@.len() == width(self@) ==> #[trigger] dot.requires((&a, other)),
        ensures
            r is Some <==> width(self@) == other@.len(),
            r matches Some(w) ==> w@.len() == self@.len() && forall|i: int|
                0 <= i < self@.len() ==> exists|a: Vector<T>| a@ == self@[i] && dot.ensures((&a, other), #[trigger] w@[i]),
    {
        proof {
            self.lemma_shape();
        }
        if self.cols_count != other.dim() {
            return None;
        }
        let mut out: Vec<T> = Vec::new();
        let mut i: usize = 0;
        while i < self.rows_count
            invariant
                self.wf(),
                self.cols_count == other@.len(),
                forall|a: Vector<T>| a@.len() == width(self@) ==> #[trigger] dot.requires((&a, other)),
                i <= self.rows_count,
                out@.len() == i,
                forall|k: int|
                    0 <= k < i ==> exists|a: Vector<T>| a@ == self@[k] && dot.ensures((&a, other), #[trigger] out@[k]),
            decreases self.rows_count - i,
        {
            proof {
                self.lemma_shape();
            }
            let x = dot(&self.rows[i], other);
            out.push(x);
            proof {
                assert forall|k: int| 0 <= k < i + 1 implies exists|a: Vector<T>|
                    a@ == self@[k] && dot.ensures((&a, other), #[trigger] out@[k]) by {
                    if k == i {
                        assert(self.rows@[k]@ == self@[k] && dot.ensures((&self.rows@[k], other), out@[k]));
                    }
                }
            }
            i += 1;
        }
        proof {
            self.lemma_shape();
        }
        Some(Vector::new(out))
    }

    /// Matrix made of one row; the empty matrix when the row has no components.
    pub fn from_row(row: Vector<T>) -> (r: Matrix<T>)
        ensures
            r.wf(),
            row@.len() == 0 ==> r@.len() == 0,
            row@.len() > 0 ==> r@ == seq![row@],
    {
        let cols_count = row.dim();
        if cols_count == 0 {
            return Matrix::empty();
        }
        let r = Matrix { rows: vec![row], rows_count: 1, cols_count };
        assert(r@ =~= seq![row@]);
        r
    }
}

impl<T: Clone> Matrix<T> {
    /// Clones of the entries of column `j`, which must exist.
    fn column(&self, j: usize) -> (r: Vector<T>)
        requires
            self.wf(),
            j < width(self@),
        ensures
            cloned_seq(column_of(self@, j as int), r@),
    {
        proof {
            self.lemma_shape();
        }
        let mut elements: Vec<T> = Vec::new();
        let mut k: usize = 0;
        while k < self.rows.len()
            invariant
                self.wf(),
                j < self.cols_count,
                k <= self.rows@.len(),
                elements@.len() == k,
                forall|l: int| 0 <= l < k ==> cloned(self@[l][j as int], #[trigger] elements@[l]),
            decreases self.rows@.len() - k,
        {
            proof {
                self.lemma_shape();
                assert(self.rows@[k as int]@.len() == self.cols_count);
            }
            elements.push(self.rows[k].elements[j].clone());
            k += 1;
        }
        Vector::new(elements)
    }

    /// Clones of the entries of row `index`, or `None` past the last row.
    pub fn get_row(&self, index: usize) -> (r: Option<Vector<T>>)
        requires
            self.wf(),
        ensures
            index >= self@.len() ==> r is None,
            index < self@.len() ==> r is Some && cloned_seq(self@[index as int], r->0@),
    {
        proof {
            self.lemma_shape();
        }
        if index < self.rows.len() {
            Some(self.rows[index].clone())
        } else {
            None
        }
    }

    /// Clones of the entries of column `index`, or `None` past the last column.
    pub fn get_col(&self, index: usize) -> (r: Option<Vector<T>>)
        requires
            self.wf(),
        ensures
            index >= width(self@) ==> r is None,
            index < width(self@) ==> r is Some && cloned_seq(column_of(self@, index as int), r->0@),
    {
        proof {
            self.lemma_shape();
        }
        if index < self.cols_count {
            Some(self.column(index))
        } else {
            None
        }
    }

    /// The transpose, holding clones of the entries.
    pub fn transposed(&self) -> (r: Matrix<T>)
        requires
            self.wf(),
        ensures
            r.wf(),
            cloned_grid(transpose_of(self@), r@),
            well_shaped(r@),
    {
        proof {
            self.lemma_shape();
        }
        let mut rows: Vec<Vector<T>> = Vec::new();
        let mut j: usize = 0;
        while j < self.cols_count
            invariant
                self.wf(),
                j <= self.cols_count,
                rows@.len() == j,
                forall|l: int| 0 <= l < j ==> #[trigger] rows@[l]@.len() == self.rows_count,
                forall|l: int| 0 <= l < j ==> cloned_seq(column_of(self@, l), #[trigger] rows@[l]@),
            decreases self.cols_count - j,
        {
            proof {
                self.lemma_shape();
            }
            let col = self.column(j);
            rows.push(col);
            j += 1;
        }
        let r = Matrix { rows, rows_count: self.cols_count, cols_count: self.rows_count };
        proof {
            self.lemma_shape();
            r.lemma_shape();
            assert forall|i: int| 0 <= i < r@.len() implies cloned_seq(#[trigger] transpose_of(self@)[i], r@[i]) by {
                assert(r@[i] == rows@[i]@);
            }
        }
        r
    }
}

impl<T: Clone> Matrix<T> {
    /// Matrix of `rows_count` × `cols_count` entries taken row by row from
    /// clones of `elements`, or `None` when their number is not the product of the counts.
    pub fn new_cloned(rows_count: usize, cols_count: usize, elements: Vec<T>) -> (r: Option<Matrix<T>>)
        ensures
            r matches Some(m) ==> m.wf(),
            r is None <==> rows_count * cols_count != elements@.len(),
            r is Some ==> cloned_grid(grid_of(rows_count as nat, cols_count as nat, elements@), r->0@),
    {
        let len = elements.len();
        match rows_count.checked_mul(cols_count) {
            None => {
                return None;
            },
            Some(total) => {
                if total != len {
                    return None;
                }
            },
        }
        if rows_count == 0 || cols_count == 0 {
            assert(grid_of(rows_count as nat, cols_count as nat, elements@) =~= Seq::<Seq<T>>::empty());
            return Some(Matrix::empty());
        }
        let mut rows: Vec<Vector<T>> = Vec::new();
        let mut i: usize = 0;
        let mut start: usize = 0;
        while i < rows_count
            invariant
                i <= rows_count,
                0 < cols_count,
                rows_count * cols_count == elements@.len(),
                len == elements@.len(),
                start == i * cols_count,
                rows@.len() == i,
                forall|k: int| 0 <= k < i ==> #[trigger] rows@[k]@.len() == cols_count,
                forall|k: int| 0 <= k < i ==> #[trigger] rows@[k]@.len() == cols_count,
                forall|k: int|
                    0 <= k < i ==> cloned_seq(elements@.subrange(k * cols_count, k * cols_count + cols_count), #[trigger] rows@[k]@),
            decreases rows_count - i,
        {
            proof {
                lemma_row_fits(i as int, rows_count as int, cols_count as int);
            }
            let mut row: Vec<T> = Vec::new();
            let mut j: usize = 0;
            while j < cols_count
                invariant
                    j <= cols_count,
                    start + cols_count <= elements@.len(),
                    len == elements@.len(),
                    row@.len() == j,
                    forall|l: int| 0 <= l < j ==> cloned(elements@[start + l], #[trigger] row@[l]),
                decreases cols_count - j,
            {
                row.push(elements[start + j].clone());
                j += 1;
            }
            assert(cloned_seq(elements@.subrange(i * cols_count, i * cols_count + cols_count), row@));
            let ghost prev = rows@;
            rows.push(Vector::new(row));
            proof {
                assert forall|k: int| 0 <= k < i + 1 implies cloned_seq(
                    elements@.subrange(k * cols_count, k * cols_count + cols_count),
                    #[trigger] rows@[k]@,
                ) by {
                    if k < i {
                        assert(rows@[k] == prev[k]);
                    }
                }
            }
            i += 1;
            start += cols_count;
            assert(start == i * cols_count) by (nonlinear_arith)
                requires
                    start == (i - 1) * cols_count + cols_count,
            ;
        }
        let r = Matrix { rows, rows_count, cols_count };
        proof {
            r.lemma_shape();
            let g = grid_of(rows_count as nat, cols_count as nat, elements@);
            assert forall|k: int| 0 <= k < g.len() implies cloned_seq(#[trigger] g[k], r@[k]) by {
                assert(r@[k] == rows@[k]@);
            }
        }
        Some(r)
    }

    /// Exchanges rows `a_index` and `b_index` (the rows put in place are
    /// clones); fails, leaving the matrix as it was, when either is missing.
    pub fn swap_rows(&mut self, a_index: usize, b_index: usize) -> (r: Result<(), ()>)
        requires
            old(self).wf(),
        ensures
            final(self).wf(),
            r is Ok <==> a_index < old(self)@.len() && b_index < old(self)@.len(),
            r is Err ==> final(self)@ == old(self)@,
            r is Ok ==> {
                &&& final(self)@.len() == old(self)@.len()
                &&& forall|k: int|
                    0 <= k < old(self)@.len() && k != a_index && k != b_index ==> #[trigger] final(self)@[k]
                        == old(self)@[k]
                &&& cloned_seq(old(self)@[b_index as int], final(self)@[a_index as int])
                &&& cloned_seq(old(self)@[a_index as int], final(self)@[b_index as int])
            },
    {
        let a_row = match self.get_row(a_index) {
            Some(row) => row,
            None => {
                return Err(());
            },
        };
        let b_row = match self.get_row(b_index) {
            Some(row) => row,
            None => {
                return Err(());
            },
        };
        proof {
            self.lemma_shape();
        }
        let _ = self.set_row(a_index, b_row);
        let _ = self.set_row(b_index, a_row);
        Ok(())
    }

    /// Exchanges columns `a_index` and `b_index` (the entries put in place are
    /// clones); fails, leaving the matrix as it was, when either is missing.
    pub fn swap_cols(&mut self, a_index: usize, b_index: usize) -> (r: Result<(), ()>)
        requires
            old(self).wf(),
        ensures
            final(self).wf(),
            r is Ok <==> a_index < width(old(self)@) && b_index < width(old(self)@),
            r is Err ==> final(self)@ == old(self)@,
            r is Ok ==> {
                &&& final(self)@.len() == old(self)@.len()
                &&& forall|i: int, k: int|
                    0 <= i < old(self)@.len() && 0 <= k < width(old(self)@) && k != a_index && k != b_index
                        ==> #[trigger] final(self)@[i][k] == old(self)@[i][k]
                &&& cloned_seq(column_of(old(self)@, b_index as int), column_of(final(self)@, a_index as int))
                &&& cloned_seq(column_of(old(self)@, a_index as int), column_of(final(self)@, b_index as int))
            },
    {
        let a_col = match self.get_col(a_index) {
            Some(col) => col,
            None => {
                return Err(());
            },
        };
        let b_col = match self.get_col(b_index) {
            Some(col) => col,
            None => {
                return Err(());
            },
        };
        proof {
            self.lemma_shape();
        }
        let ghost m0 = self@;
        let _ = self.set_col(a_index, b_col);
        let ghost m1 = self@;
        let _ = self.set_col(b_index, a_col);
        proof {
            self.lemma_shape();
            assert forall|i: int, k: int|
                0 <= i < m0.len() && 0 <= k < width(m0) && k != a_index && k != b_index
                    implies #[trigger] self@[i][k] == m0[i][k] by {
                assert(m1[i] == m0[i].update(a_index as int, m1[i][a_index as int]));
                assert(self@[i] == m1[i].update(b_index as int, self@[i][b_index as int]));
            }
            assert forall|i: int| 0 <= i < m0.len() implies cloned(
                #[trigger] column_of(m0, b_index as int)[i],
                column_of(self@, a_index as int)[i],
            ) by {
                assert(m1[i] == m0[i].update(a_index as int, m1[i][a_index as int]));
                assert(self@[i] == m1[i].update(b_index as int, self@[i][b_index as int]));
            }
            assert forall|i: int| 0 <= i < m0.len() implies cloned(
                #[trigger] column_of(m0, a_index as int)[i],
                column_of(self@, b_index as int)[i],
            ) by {
                assert(self@[i] == m1[i].update(b_index as int, self@[i][b_index as int]));
            }
        }
        Ok(())
    }

    /// The submatrix left after deleting the listed rows and columns (indices
    /// outside the matrix are ignored), holding clones of the entries.
    pub fn get_minor(&self, rows_for_exclusion: Vec<usize>, cols_for_exclusion: Vec<usize>) -> (r: Matrix<T>)
        requires
            self.wf(),
        ensures
            r.wf(),
            cloned_grid(minor_of(self@, rows_for_exclusion@, cols_for_exclusion@), r@),
    {
        proof {
            self.lemma_shape();
        }
        let ri = kept(self.rows_count, &rows_for_exclusion);
        let ci = kept(self.cols_count, &cols_for_exclusion);
        let ghost m = minor_of(self@, rows_for_exclusion@, cols_for_exclusion@);
        if ri.len() == 0 || ci.len() == 0 {
            assert(m =~= Seq::<Seq<T>>::empty());
            return Matrix::empty();
        }
        let mut rows: Vec<Vector<T>> = Vec::new();
        let mut a: usize = 0;
        while a < ri.len()
            invariant
                self.wf(),
                a <= ri@.len(),
                ci@.len() > 0,
                rows@.len() == a,
                m.len() == ri@.len(),
                m == minor_of(self@, rows_for_exclusion@, cols_for_exclusion@),
                ri@.len() == kept_indices(self@.len(), rows_for_exclusion@).len(),
                ci@.len() == kept_indices(width(self@), cols_for_exclusion@).len(),
                forall|k: int| 0 <= k < ri@.len() ==> #[trigger] ri@[k] as int == kept_indices(self@.len(), rows_for_exclusion@)[k],
                forall|k: int| 0 <= k < ci@.len() ==> #[trigger] ci@[k] as int == kept_indices(width(self@), cols_for_exclusion@)[k],
                forall|k: int| 0 <= k < ri@.len() ==> #[trigger] ri@[k] < self.rows_count,
                forall|k: int| 0 <= k < ci@.len() ==> #[trigger] ci@[k] < self.cols_count,
                forall|k: int| 0 <= k < a ==> #[trigger] rows@[k]@.len() == ci@.len(),
                forall|k: int| 0 <= k < a ==> cloned_seq(m[k], #[trigger] rows@[k]@),
            decreases ri@.len() - a,
        {
            proof {
                self.lemma_shape();
            }
            let src = ri[a];
            assert(self.rows@[src as int]@.len() == self.cols_count);
            let mut row: Vec<T> = Vec::new();
            let mut b: usize = 0;
            while b < ci.len()
                invariant
                    self.wf(),
                    a < ri@.len(),
                    src < self.rows_count,
                    src as int == kept_indices(self@.len(), rows_for_exclusion@)[a as int],
                    self.rows@[src as int]@.len() == self.cols_count,
                    b <= ci@.len(),
                    row@.len() == b,
                    forall|k: int| 0 <= k < ci@.len() ==> #[trigger] ci@[k] < self.cols_count,
                    forall|k: int| 0 <= k < ci@.len() ==> #[trigger] ci@[k] as int == kept_indices(width(self@), cols_for_exclusion@)[k],
                    forall|l: int| 0 <= l < b ==> cloned(self@[src as int][ci@[l] as int], #[trigger] row@[l]),
                decreases ci@.len() - b,
            {
                let col = ci[b];
                row.push(self.rows[src].elements[col].clone());
                b += 1;
            }
            proof {
                self.lemma_shape();
                assert forall|l: int| 0 <= l < ci@.len() implies cloned(#[trigger] m[a as int][l], row@[l]) by {
                    assert(m[a as int][l] == self@[src as int][ci@[l] as int]);
                }
            }
            rows.push(Vector::new(row));
            a += 1;
        }
        let r = Matrix { rows, rows_count: ri.len(), cols_count: ci.len() };
        proof {
            assert forall|k: int| 0 <= k < r@.len() implies cloned_seq(#[trigger] m[k], r@[k]) by {
                assert(r@[k] == rows@[k]@);
            }
        }
        r
    }

    /// Product with `other`, entry `(i, j)` being `dot` of row `i` and (a clone
    /// of) column `j` of `other`; `None` unless `other` has one row per column.
    pub fn multiply<F: Fn(&Vector<T>, &Vector<T>) -> T>(&self, other: &Matrix<T>, dot: F) -> (r: Option<Matrix<T>>)
        requires
            self.wf(),
            other.wf(),
            forall|a: Vector<T>, b: Vector<T>|
                a@.len() == width(self@) && b@.len() == other@.len() ==> #[trigger] dot.requires((&a, &b)),
        ensures
            r is Some <==> width(self@) == other@.len(),
            r matches Some(m) ==> {
                &&& m.wf()
                &&& m@.len() == self@.len()
                &&& width(m@) == width(other@)
                &&& forall|i: int, j: int|
                    0 <= i < self@.len() && 0 <= j < width(other@) ==> dot_of(
                        dot,
                        self@[i],
                        column_of(other@, j),
                        #[trigger] m@[i][j],
                    )
            },
    {
        proof {
            self.lemma_shape();
            other.lemma_shape();
        }
        if self.cols_count != other.rows_count {
            return None;
        }
        let t = other.transposed();
        proof {
            t.lemma_shape();
        }
        let mut rows: Vec<Vector<T>> = Vec::new();
        let mut i: usize = 0;
        while i < self.rows_count
            invariant
                self.wf(),
                other.wf(),
                t.wf(),
                self.cols_count == other.rows_count,
                cloned_grid(transpose_of(other@), t@),
                forall|a: Vector<T>, b: Vector<T>|
                    a@.len() == width(self@) && b@.len() == other@.len() ==> #[trigger] dot.requires((&a, &b)),
                i <= self.rows_count,
                rows@.len() == i,
                forall|k: int| 0 <= k < i ==> #[trigger] rows@[k]@.len() == other.cols_count,
                forall|k: int, j: int|
                    0 <= k < i && 0 <= j < other.cols_count ==> dot_of(
                        dot,
                        self@[k],
                        column_of(other@, j),
                        #[trigger] rows@[k]@[j],
                    ),
            decreases self.rows_count - i,
        {
            proof {
                self.lemma_shape();
                other.lemma_shape();
                t.lemma_shape();
            }
            let mut row: Vec<T> = Vec::new();
            let mut j: usize = 0;
            while j < t.rows_count
                invariant
                    self.wf(),
                    other.wf(),
                    t.wf(),
                    i < self.rows_count,
                    self.cols_count == other.rows_count,
                    t@.len() == other.cols_count,
                    cloned_grid(transpose_of(other@), t@),
                    forall|a: Vector<T>, b: Vector<T>|
                        a@.len() == width(self@) && b@.len() == other@.len() ==> #[trigger] dot.requires((&a, &b)),
                    j <= t.rows_count,
                    row@.len() == j,
                    forall|l: int|
                        0 <= l < j ==> dot_of(dot, self@[i as int], column_of(other@, l), #[trigger] row@[l]),
                decreases t.rows_count - j,
            {
                proof {
                    self.lemma_shape();
                    other.lemma_shape();
                    t.lemma_shape();
                    assert(t@[j as int] == t.rows@[j as int]@);
                    assert(cloned_seq(transpose_of(other@)[j as int], t@[j as int]));
                    assert(self@[i as int] == self.rows@[i as int]@);
                }
                let x = dot(&self.rows[i], &t.rows[j]);
                proof {
                    assert(transpose_of(other@)[j as int] == column_of(other@, j as int));
                    assert(self.rows@[i as int]@ == self@[i as int] && cloned_seq(
                        column_of(other@, j as int),
                        t.rows@[j as int]@,
                    ) && dot.ensures((&self.rows@[i as int], &t.rows@[j as int]), x));
                    assert(dot_of(dot, self@[i as int], column_of(other@, j as int), x));
                }
                let ghost prev = row@;
                row.push(x);
                proof {
                    assert forall|l: int| 0 <= l < j + 1 implies dot_of(
                        dot,
                        self@[i as int],
                        column_of(other@, l),
                        #[trigger] row@[l],
                    ) by {
                        if l < j {
                            assert(row@[l] == prev[l]);
                        }
                    }
                }
                j += 1;
            }
            let ghost prev_rows = rows@;
            rows.push(Vector::new(row));
            proof {
                assert forall|k: int, l: int| 0 <= k < i + 1 && 0 <= l < other.cols_count implies dot_of(
                    dot,
                    self@[k],
                    column_of(other@, l),
                    #[trigger] rows@[k]@[l],
                ) by {
                    if k < i {
                        assert(rows@[k] == prev_rows[k]);
                    }
                }
            }
            i += 1;
        }
        let m = Matrix { rows, rows_count: self.rows_count, cols_count: other.cols_count };
        proof {
            self.lemma_shape();
            other.lemma_shape();
            m.lemma_shape();
            assert forall|i: int, j: int| 0 <= i < self@.len() && 0 <= j < width(other@) implies dot_of(
                dot,
                self@[i],
                column_of(other@, j),
                #[trigger] m@[i][j],
            ) by {
                assert(m@[i] == rows@[i]@);
            }
        }
        Some(m)
    }

    /// Matrix with the given columns, or `None` when their dimensions differ.
    /// Columns without components (or no columns at all) give the empty matrix.
    pub fn from_cols(cols: Vec<Vector<T>>) -> (r: Option<Matrix<T>>)
        ensures
            r matches Some(m) ==> m.wf(),
            r is Some <==> same_dims(cols@),
            r is Some ==> cloned_grid(transpose_of(table_of(rows_view(cols@))), r->0@),
    {
        match Matrix::from_rows(cols) {
            Some(m) => Some(m.transposed()),
            None => None,
        }
    }

    /// Matrix made of one column; the empty matrix when it has no components.
    pub fn from_col(col: Vector<T>) -> (r: Matrix<T>)
        ensures
            r.wf(),
            cloned_grid(transpose_of(table_of(seq![col@])), r@),
    {
        let m = Matrix::from_row(col);
        assert(m@ == table_of(seq![col@]));
        m.transposed()
    }
}

impl<T: Copy> Matrix<T> {
    /// Matrix of `rows_count` × `cols_count` entries taken row by row from
    /// `elements`, or `None` when their number is not the product of the counts.
    pub fn new(rows_count: usize, cols_count: usize, elements: Vec<T>) -> (r: Option<Matrix<T>>)
        ensures
            r matches Some(m) ==> m.wf(),
            r is None <==> rows_count * cols_count != elements@.len(),
            r is Some ==> r->0@ == grid_of(rows_count as nat, cols_count as nat, elements@),
    {
        let len = elements.len();
        match rows_count.checked_mul(cols_count) {
            None => {
                return None;
            },
            Some(total) => {
                if total != len {
                    return None;
                }
            },
        }
        if rows_count == 0 || cols_count == 0 {
            assert(grid_of(rows_count as nat, cols_count as nat, elements@) =~= Seq::<Seq<T>>::empty());
            return Some(Matrix::empty());
        }
        let mut rows: Vec<Vector<T>> = Vec::new();
        let mut i: usize = 0;
        let mut start: usize = 0;
        while i < rows_count
            invariant
                i <= rows_count,
                0 < cols_count,
                rows_count * cols_count == elements@.len(),
                len == elements@.len(),
                start == i * cols_count,
                rows@.len() == i,
                forall|k: int| 0 <= k < i ==> #[trigger] rows@[k]@.len() == cols_count,
                forall|k: int|
                    0 <= k < i ==> #[trigger] rows@[k]@ == elements@.subrange(k * cols_count, k * cols_count + cols_count),
            decreases rows_count - i,
        {
            proof {
                lemma_row_fits(i as int, rows_count as int, cols_count as int);
            }
            let mut row: Vec<T> = Vec::new();
            let mut j: usize = 0;
            while j < cols_count
                invariant
                    j <= cols_count,
                    start + cols_count <= elements@.len(),
                    len == elements@.len(),
                    row@ == elements@.subrange(start as int, start + j),
                decreases cols_count - j,
            {
                row.push(elements[start + j]);
                j += 1;
                assert(row@ =~= elements@.subrange(start as int, start + j));
            }
            assert(row@ == elements@.subrange(i * cols_count, i * cols_count + cols_count));
            let ghost prev = rows@;
            rows.push(Vector::new(row));
            proof {
                assert forall|k: int| 0 <= k < i + 1 implies #[trigger] rows@[k]@ == elements@.subrange(
                    k * cols_count,
                    k * cols_count + cols_count,
                ) by {
                    if k < i {
                        assert(rows@[k] == prev[k]);
                    }
                }
            }
            i += 1;
            start += cols_count;
            assert(start == i * cols_count) by (nonlinear_arith)
                requires
                    start == (i - 1) * cols_count + cols_count,
            ;
        }
        let r = Matrix { rows, rows_count, cols_count };
        assert(r@ =~= grid_of(rows_count as nat, cols_count as nat, elements@));
        Some(r)
    }

    /// Entry `(row_index, col_index)`, or `None` outside the matrix.
    pub fn get(&self, row_index: usize, col_index: usize) -> (r: Option<T>)
        requires
            self.wf(),
        ensures
            row_index < self@.len() && col_index < width(self@) ==> r == Some(self@[row_index as int][col_index as int]),
            !(row_index < self@.len() && col_index < width(self@)) ==> r is None,
    {
        proof {
            self.lemma_shape();
        }
        if row_index < self.rows.len() && col_index < self.cols_count {
            assert(self.rows@[row_index as int]@.len() == self.cols_count);
            Some(self.rows[row_index].elements[col_index])
        } else {
            None
        }
    }
}

impl<T: Clone> Clone for Matrix<T> {
    fn clone(&self) -> (r: Matrix<T>)
        ensures
            self.wf() ==> r.wf(),
            cloned_grid(self@, r@),
    {
        let mut rows: Vec<Vector<T>> = Vec::new();
        let mut i: usize = 0;
        while i < self.rows.len()
            invariant
                i <= self.rows@.len(),
                rows@.len() == i,
                forall|l: int| 0 <= l < i ==> cloned_seq(#[trigger] self.rows@[l]@, rows@[l]@),
            decreases self.rows@.len() - i,
        {
            rows.push(self.rows[i].clone());
            i += 1;
        }
        let r = Matrix { rows, rows_count: self.rows_count, cols_count: self.cols_count };
        proof {
            assert forall|l: int| 0 <= l < r@.len() implies cloned_seq(#[trigger] self@[l], r@[l]) by {
                assert(r@[l] == rows@[l]@);
                assert(self@[l] == self.rows@[l]@);
            }
            if self.wf() {
                assert forall|l: int| 0 <= l < r.rows@.len() implies #[trigger] r.rows@[l]@.len() == r.cols_count by {
                    assert(cloned_seq(self.rows@[l]@, rows@[l]@));
                }
            }
        }
        r
    }
}

} // verus!
