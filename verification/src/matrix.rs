//! Flat-backed multi-dimensional storage with row-major addressing,
//! arbitrary-rank reshaping, and default-filled axis insertion.

use vstd::arithmetic::mul::*;
use vstd::prelude::*;

verus! {

/// The recoverable contract violations that matrix operations surface.
#[derive(Clone, Copy, Debug, PartialEq, Eq, Structural)]
pub enum MatrixError {
    /// A coordinate vector whose length differs from the matrix rank.
    RankMismatch,
    /// A coordinate at or beyond its axis's size.
    IndexOutOfRange,
    /// A reshape whose element count differs from the stored one.
    ShapeMismatch,
}

/// Product of the axis sizes `dims[i..j)`; `1` for an empty range.
pub open spec fn prod_range(dims: Seq<usize>, i: int, j: int) -> nat
    decreases j - i,
{
    if j <= i {
        1
    } else {
        prod_range(dims, i, j - 1) * (dims[j - 1] as nat)
    }
}

/// Product of all axis sizes: the number of addressable cells.
pub open spec fn seq_product(dims: Seq<usize>) -> nat {
    prod_range(dims, 0, dims.len() as int)
}

/// Row-major fold of `coord[i..j)` under `dims`, from the left:
/// the accumulator is scaled by each axis size and the coordinate is added.
pub open spec fn offset_range(dims: Seq<usize>, coord: Seq<usize>, i: int, j: int) -> nat
    decreases j - i,
{
    if j <= i {
        0
    } else {
        offset_range(dims, coord, i, j - 1) * (dims[j - 1] as nat) + (coord[j - 1] as nat)
    }
}

/// Linear offset of a full-rank coordinate vector into the flat buffer.
pub open spec fn row_major_offset(dims: Seq<usize>, coord: Seq<usize>) -> nat {
    offset_range(dims, coord, 0, dims.len() as int)
}

/// A coordinate vector addresses a cell: one index per axis, each within its axis.
pub open spec fn coord_valid(dims: Seq<usize>, coord: Seq<usize>) -> bool {
    &&& coord.len() == dims.len()
    &&& forall|i: int| 0 <= i < dims.len() ==> coord[i] < dims[i]
}

/// An element type with a canonical empty value, used to fill padded and
/// newly inserted cells.
pub trait Blank: Sized {
    /// Whether this value is the empty one.
    spec fn is_blank(&self) -> bool;

    /// Produce the empty value.
    fn blank() -> (r: Self)
        ensures
            r.is_blank(),
    ;
}

impl Blank for i32 {
    open spec fn is_blank(&self) -> bool {
        *self == 0
    }

    fn blank() -> (r: i32) {
        0
    }
}

impl Blank for Vec<char> {
    open spec fn is_blank(&self) -> bool {
        self@.len() == 0
    }

    fn blank() -> (r: Vec<char>) {
        Vec::new()
    }
}

/// The longest row length in a set of rows.
pub open spec fn max_row_len<T>(rows: Seq<Vec<T>>) -> nat
    decreases rows.len(),
{
    if rows.len() == 0 {
        0
    } else {
        let rest = max_row_len(rows.drop_last());
        if rows.last()@.len() > rest {
            rows.last()@.len()
        } else {
            rest
        }
    }
}

/// The column count `from_rows` settles on: the longest row length, or one
/// when there are no rows at all.
pub open spec fn rows_width<T>(rows: Seq<Vec<T>>) -> nat {
    if rows.len() == 0 {
        1
    } else {
        max_row_len(rows)
    }
}

/// Flat position of column `c` of row `r` in a rank-two matrix of the
/// given width.
pub open spec fn cell_index(width: nat, r: int, c: int) -> int {
    r * width + c
}

/// No row is longer than the longest row.
proof fn lemma_max_row_len_bound<T>(rows: Seq<Vec<T>>, i: int)
    requires
        0 <= i < rows.len(),
    ensures
        rows[i]@.len() <= max_row_len(rows),
    decreases rows.len(),
{
    if i < rows.len() - 1 {
        lemma_max_row_len_bound(rows.drop_last(), i);
        assert(rows.drop_last()[i] == rows[i]);
    }
}

/// A multi-dimensional storage for data, kept as one flat buffer plus the
/// ordered list of axis sizes.
pub struct Matrix<T> {
    elements: Vec<T>,
    dimensions: Vec<usize>,
}

impl<T> Matrix<T> {
    /// The stored elements, in row-major order.
    pub closed spec fn elems(&self) -> Seq<T> {
        self.elements@
    }

    /// The axis sizes, one per axis; the rank is their count.
    pub closed spec fn dims(&self) -> Seq<usize> {
        self.dimensions@
    }

    /// The buffer holds exactly one element per addressable cell.
    pub open spec fn wf(&self) -> bool {
        self.elems().len() == seq_product(self.dims())
    }

    /// Wrap a flat buffer as a rank-one matrix.
    pub fn from_vec(elements: Vec<T>) -> (m: Matrix<T>)
        ensures
            m.wf(),
            m.elems() == elements@,
            m.dims() =~= seq![elements@.len() as usize],
    {
        let n = elements.len();
        let mut dimensions: Vec<usize> = Vec::new();
        dimensions.push(n);
        proof {
            assert(dimensions@ =~= seq![n]);
            assert(prod_range(dimensions@, 0, 0) == 1);
            assert(prod_range(dimensions@, 0, 1) == prod_range(dimensions@, 0, 0) * (
            dimensions@[0] as nat));
            assert(seq_product(dimensions@) == n as nat);
        }
        Matrix { elements, dimensions }
    }

    /// Give up the shape and hand back the flat buffer.
    pub fn into_elements(self) -> (r: Vec<T>)
        ensures
            r@ == self.elems(),
    {
        self.elements
    }

    /// Read-only shape query.
    pub fn dimensions(&self) -> (r: &[usize])
        ensures
            r@ == self.dims(),
    {
        self.dimensions.as_slice()
    }

    /// Product of a dimension list, or `None` when it exceeds `usize`.
    fn checked_product(dims: &[usize]) -> (r: Option<usize>)
        ensures
            match r {
                Some(p) => p == seq_product(dims@),
                None => seq_product(dims@) > usize::MAX,
            },
    {
        let mut i: usize = 0;
        while i < dims.len()
            invariant
                i <= dims@.len(),
                forall|m: int| 0 <= m < i ==> 1 <= dims@[m],
            decreases dims@.len() - i,
        {
            if dims[i] == 0 {
                proof {
                    lemma_prod_zero(dims@, 0, dims@.len() as int, i as int);
                }
                return Some(0);
            }
            i += 1;
        }
        let mut acc: usize = 1;
        let mut j: usize = 0;
        while j < dims.len()
            invariant
                j <= dims@.len(),
                forall|m: int| 0 <= m < dims@.len() ==> 1 <= dims@[m],
                acc == prod_range(dims@, 0, j as int),
            decreases dims@.len() - j,
        {
            let d = dims[j];
            proof {
                let n = dims@.len() as int;
                lemma_prod_split(dims@, 0, j as int, j + 1);
                assert(prod_range(dims@, j as int, j + 1) == prod_range(dims@, j as int, j as int) * (
                dims@[j as int] as nat));
                assert(prod_range(dims@, 0, j + 1) == acc as nat * d as nat);
                lemma_prod_split(dims@, 0, j + 1, n);
                lemma_prod_pos(dims@, 0, j + 1);
                lemma_prod_pos(dims@, j + 1, n);
                lemma_mul_both_ordered(prod_range(dims@, 0, j + 1) as int, prod_range(dims@, j + 1, n) as int);
            }
            match acc.checked_mul(d) {
                Some(p) => {
                    acc = p;
                }
                None => {
                    return None;
                }
            }
            j += 1;
        }
        Some(acc)
    }

    /// Reinterpret the same flat buffer under a new shape; fails with
    /// `ShapeMismatch`, leaving the matrix unchanged, unless the new shape
    /// addresses exactly the stored number of elements.
    pub fn reshape(&mut self, dimensions: &[usize]) -> (r: Result<(), MatrixError>)
        requires
            old(self).wf(),
        ensures
            final(self).wf(),
            final(self).elems() == old(self).elems(),
            seq_product(dimensions@) == old(self).elems().len() ==> r is Ok && final(self).dims()
                == dimensions@,
            seq_product(dimensions@) != old(self).elems().len() ==> r == Err::<(), MatrixError>(
                MatrixError::ShapeMismatch,
            ) && *final(self) == *old(self),
    {
        let p = Self::checked_product(dimensions);
        match p {
            Some(count) => {
                if count == self.elements.len() {
                    self.dimensions = vstd::slice::slice_to_vec(dimensions);
                    Ok(())
                } else {
                    Err(MatrixError::ShapeMismatch)
                }
            }
            None => {
                let len = self.elements.len();
                assert(len == old(self).elems().len());
                Err(MatrixError::ShapeMismatch)
            }
        }
    }

    /// Linear offset of a coordinate vector, folding each axis from the left.
    pub fn offset(&self, index: &[usize]) -> (r: usize)
        requires
            self.wf(),
            coord_valid(self.dims(), index@),
        ensures
            r == row_major_offset(self.dims(), index@),
    {
        let rank = self.dimensions.len();
        let total = self.elements.len();
        let mut off: usize = 0;
        let mut i: usize = 0;
        while i < rank
            invariant
                self.wf(),
                coord_valid(self.dims(), index@),
                rank == self.dims().len(),
                total == self.elems().len(),
                i <= rank,
                off == offset_range(self.dims(), index@, 0, i as int),
            decreases rank - i,
        {
            proof {
                let d = self.dims();
                let c = index@;
                let n = d.len() as int;
                lemma_offset_bound(d, c, 0, i + 1);
                lemma_prod_split(d, 0, i + 1, n);
                lemma_prod_pos(d, i + 1, n);
                lemma_mul_both_ordered(
                    prod_range(d, 0, i + 1) as int,
                    prod_range(d, i + 1, n) as int,
                );
                assert(offset_range(d, c, 0, i + 1) == offset_range(d, c, 0, i as int) * (
                d[i as int] as nat) + (c[i as int] as nat));
            }
            off = off * self.dimensions[i] + index[i];
            i += 1;
        }
        off
    }

    /// Borrow the element at a coordinate vector, or say what was wrong with it.
    pub fn get(&self, index: &[usize]) -> (r: Result<&T, MatrixError>)
        requires
            self.wf(),
        ensures
            index@.len() != self.dims().len() ==> r == Err::<&T, MatrixError>(
                MatrixError::RankMismatch,
            ),
            index@.len() == self.dims().len() && !coord_valid(self.dims(), index@) ==> r == Err::<
                &T,
                MatrixError,
            >(MatrixError::IndexOutOfRange),
            coord_valid(self.dims(), index@) ==> (r matches Ok(e) && *e == self.elems()[
                row_major_offset(self.dims(), index@) as int]),
    {
        if index.len() != self.dimensions.len() {
            return Err(MatrixError::RankMismatch);
        }
        let mut i: usize = 0;
        while i < index.len()
            invariant
                index@.len() == self.dims().len(),
                i <= index@.len(),
                forall|m: int| 0 <= m < i ==> index@[m] < self.dims()[m],
            decreases index@.len() - i,
        {
            if index[i] >= self.dimensions[i] {
                return Err(MatrixError::IndexOutOfRange);
            }
            i += 1;
        }
        let off = self.offset(index);
        proof {
            lemma_offset_bound(self.dims(), index@, 0, self.dims().len() as int);
        }
        Ok(&self.elements[off])
    }

    /// Replace the element at a coordinate vector, or say what was wrong with it.
    pub fn set(&mut self, index: &[usize], value: T) -> (r: Result<(), MatrixError>)
        requires
            old(self).wf(),
        ensures
            final(self).wf(),
            final(self).dims() == old(self).dims(),
            index@.len() != old(self).dims().len() ==> r == Err::<(), MatrixError>(
                MatrixError::RankMismatch,
            ) && *final(self) == *old(self),
            index@.len() == old(self).dims().len() && !coord_valid(old(self).dims(), index@)
                ==> r == Err::<(), MatrixError>(MatrixError::IndexOutOfRange) && *final(self)
                == *old(self),
            coord_valid(old(self).dims(), index@) ==> r is Ok && final(self).elems() == old(
                self,
            ).elems().update(row_major_offset(old(self).dims(), index@) as int, value),
    {
        if index.len() != self.dimensions.len() {
            return Err(MatrixError::RankMismatch);
        }
        let mut i: usize = 0;
        while i < index.len()
            invariant
                *self == *old(self),
                self.wf(),
                index@.len() == self.dims().len(),
                i <= index@.len(),
                forall|m: int| 0 <= m < i ==> index@[m] < self.dims()[m],
            decreases index@.len() - i,
        {
            if index[i] >= self.dimensions[i] {
                return Err(MatrixError::IndexOutOfRange);
            }
            i += 1;
        }
        let off = self.offset(index);
        proof {
            lemma_offset_bound(self.dims(), index@, 0, self.dims().len() as int);
        }
        self.elements[off] = value;
        Ok(())
    }

    /// `reshape`, as a builder that passes the matrix through on success.
    pub fn with_shape(self, dimensions: &[usize]) -> (r: Result<Matrix<T>, MatrixError>)
        requires
            self.wf(),
        ensures
            match r {
                Ok(m) => seq_product(dimensions@) == self.elems().len() && m.wf() && m.elems()
                    == self.elems() && m.dims() == dimensions@,
                Err(e) => e == MatrixError::ShapeMismatch && seq_product(dimensions@)
                    != self.elems().len(),
            },
    {
        let mut m = self;
        match m.reshape(dimensions) {
            Ok(()) => Ok(m),
            Err(e) => Err(e),
        }
    }
}

impl<T: Blank> Matrix<T> {
    /// Build a rank-two matrix from ragged rows: every row is right-padded
    /// with the empty value to the longest row's length, so ragged input
    /// never fails. With no rows at all the shape is zero rows by one column.
    pub fn from_rows(rows: Vec<Vec<T>>) -> (m: Matrix<T>)
        ensures
            m.wf(),
            m.dims() =~= seq![rows@.len() as usize, rows_width(rows@) as usize],
            forall|r: int, c: int|
                0 <= r < rows@.len() && 0 <= c < rows@[r]@.len() ==> m.elems()[#[trigger] cell_index(
                    rows_width(rows@),
                    r,
                    c,
                )] == rows@[r]@[c],
            forall|r: int, c: int|
                0 <= r < rows@.len() && rows@[r]@.len() <= c < rows_width(rows@)
                    ==> m.elems()[#[trigger] cell_index(rows_width(rows@), r, c)].is_blank(),
    {
        let ghost all = rows@;
        let n = rows.len();
        let mut width: usize = if n == 0 {
            1
        } else {
            0
        };
        let mut i: usize = 0;
        while i < n
            invariant
                n == all.len(),
                rows@ == all,
                i <= n,
                n == 0 ==> width == 1,
                n > 0 ==> width as nat == max_row_len(all.take(i as int)),
            decreases n - i,
        {
            let li = rows[i].len();
            if li > width {
                width = li;
            }
            proof {
                assert(all.take(i + 1).drop_last() =~= all.take(i as int));
                assert(all.take(i + 1).last() == all[i as int]);
            }
            i += 1;
        }
        proof {
            if n > 0 {
                assert(all.take(n as int) =~= all);
            }
            assert(width as nat == rows_width(all));
        }
        let mut rows = rows;
        let mut elements: Vec<T> = Vec::new();
        let mut r: usize = 0;
        while r < n
            invariant
                all.len() == n,
                rows@ =~= all.skip(r as int),
                r <= n,
                width as nat == rows_width(all),
                elements@.len() == (r as int) * (width as int),
                forall|rr: int, c: int|
                    0 <= rr < r && 0 <= c < all[rr]@.len() ==> elements@[#[trigger] cell_index(
                        width as nat,
                        rr,
                        c,
                    )] == all[rr]@[c],
                forall|rr: int, c: int|
                    0 <= rr < r && all[rr]@.len() <= c < width ==> elements@[#[trigger] cell_index(
                        width as nat,
                        rr,
                        c,
                    )].is_blank(),
            decreases n - r,
        {
            proof {
                lemma_max_row_len_bound(all, r as int);
            }
            let mut row = rows.remove(0);
            let ghost row0 = row@;
            assert(row0 == all[r as int]@);
            while row.len() < width
                invariant
                    row0.len() <= width,
                    row0.len() <= row@.len() <= width,
                    row@.subrange(0, row0.len() as int) =~= row0,
                    forall|t: int| row0.len() <= t < row@.len() ==> row@[t].is_blank(),
                decreases width - row@.len(),
            {
                row.push(T::blank());
            }
            let ghost pre = elements@;
            elements.append(&mut row);
            r += 1;
            proof {
                let w = width as int;
                let rr1 = r as int - 1;
                lemma_mul_is_distributive_add_other_way(w, rr1, 1);
                assert(elements@.len() == (r as int) * w);
                assert forall|rr: int, c: int|
                    0 <= rr < r && 0 <= c < all[rr]@.len() implies elements@[#[trigger] cell_index(
                    width as nat,
                    rr,
                    c,
                )] == all[rr]@[c] by {
                    if rr < rr1 {
                        lemma_max_row_len_bound(all, rr);
                        assert(cell_index(width as nat, rr, c) < rr1 * w) by {
                            lemma_mul_is_distributive_add_other_way(w, rr, 1);
                            lemma_mul_inequality(rr + 1, rr1, w);
                        }
                        assert(elements@[cell_index(width as nat, rr, c)] == pre[cell_index(
                            width as nat,
                            rr,
                            c,
                        )]);
                    } else {
                        assert(cell_index(width as nat, rr, c) == pre.len() + c);
                        assert(row0.subrange(0, row0.len() as int) =~= row0);
                    }
                }
                assert forall|rr: int, c: int|
                    0 <= rr < r && all[rr]@.len() <= c < width implies elements@[
                #[trigger] cell_index(width as nat, rr, c)].is_blank() by {
                    if rr < rr1 {
                        assert(cell_index(width as nat, rr, c) < rr1 * w) by {
                            lemma_mul_is_distributive_add_other_way(w, rr, 1);
                            lemma_mul_inequality(rr + 1, rr1, w);
                        }
                        assert(elements@[cell_index(width as nat, rr, c)] == pre[cell_index(
                            width as nat,
                            rr,
                            c,
                        )]);
                    } else {
                        assert(cell_index(width as nat, rr, c) == pre.len() + c);
                    }
                }
            }
        }
        let mut dimensions: Vec<usize> = Vec::new();
        dimensions.push(n);
        dimensions.push(width);
        proof {
            assert(dimensions@ =~= seq![n, width]);
            assert(prod_range(dimensions@, 0, 0) == 1);
            assert(prod_range(dimensions@, 0, 1) == prod_range(dimensions@, 0, 0) * (n as nat));
            assert(prod_range(dimensions@, 0, 2) == prod_range(dimensions@, 0, 1) * (width as nat));
            assert(seq_product(dimensions@) == (n as nat) * (width as nat));
        }
        Matrix { elements, dimensions }
    }

    /// Grow axis `dimension` by one, splicing a full run of empty values at
    /// the end of that axis: every existing cell keeps its coordinates and
    /// its value, and every cell of the new slice is blank. The runs along
    /// the axis are walked from the back, so that offsets computed for
    /// not-yet-visited runs stay valid while the buffer grows.
    pub fn push_dimension_default(&mut self, dimension: usize)
        requires
            old(self).wf(),
            dimension < old(self).dims().len(),
            forall|i: int| 0 <= i < old(self).dims().len() ==> 1 <= old(self).dims()[i],
            seq_product(old(self).dims()) + prod_range(old(self).dims(), 0, dimension as int)
                * prod_range(
                old(self).dims(),
                dimension as int + 1,
                old(self).dims().len() as int,
            ) <= usize::MAX,
        ensures
            final(self).wf(),
            final(self).dims() =~= old(self).dims().update(
                dimension as int,
                (old(self).dims()[dimension as int] + 1) as usize,
            ),
            final(self).elems().len() == old(self).elems().len() + prod_range(
                old(self).dims(),
                0,
                dimension as int,
            ) * prod_range(old(self).dims(), dimension as int + 1, old(self).dims().len() as int),
            forall|c: Seq<usize>|
                #[trigger] coord_valid(final(self).dims(), c) && c[dimension as int] < old(
                    self,
                ).dims()[dimension as int] ==> final(self).elems()[row_major_offset(
                    final(self).dims(),
                    c,
                ) as int] == old(self).elems()[row_major_offset(old(self).dims(), c) as int],
            forall|c: Seq<usize>|
                #[trigger] coord_valid(final(self).dims(), c) && c[dimension as int] == old(
                    self,
                ).dims()[dimension as int] ==> final(self).elems()[row_major_offset(
                    final(self).dims(),
                    c,
                ) as int].is_blank(),
    {
        let ghost od = self.dims();
        let ghost n_int = od.len() as int;
        let ghost a_int = dimension as int;
        let rank = self.dimensions.len();
        let old_len = self.elements.len();
        proof {
            lemma_prod_split(od, 0, a_int, n_int);
            lemma_prod_split(od, a_int, a_int + 1, n_int);
            lemma_prod_pos(od, 0, a_int);
            lemma_prod_pos(od, a_int, n_int);
            lemma_prod_pos(od, a_int + 1, n_int);
            lemma_mul_both_ordered(
                prod_range(od, 0, a_int) as int,
                prod_range(od, a_int, n_int) as int,
            );
            assert(prod_range(od, a_int, a_int + 1) == prod_range(od, a_int, a_int) * (
            od[a_int] as nat));
            assert(prod_range(od, a_int, n_int) as int == (od[a_int] as int) * (prod_range(
                od,
                a_int + 1,
                n_int,
            ) as int)) by (nonlinear_arith)
                requires
                    prod_range(od, a_int, n_int) == prod_range(od, a_int, a_int + 1) * prod_range(
                        od,
                        a_int + 1,
                        n_int,
                    ),
                    prod_range(od, a_int, a_int + 1) == prod_range(od, a_int, a_int) * (
                    od[a_int] as nat),
                    prod_range(od, a_int, a_int) == 1,
            ;
            lemma_mul_both_ordered(od[a_int] as int, prod_range(od, a_int + 1, n_int) as int);
        }
        let outer = prod_part(&self.dimensions, 0, dimension);
        let extend = prod_part(&self.dimensions, dimension + 1, rank);
        proof {
            assert(old_len as nat == prod_range(od, 0, a_int) * prod_range(od, a_int, n_int));
            assert((od[a_int] as int) * (extend as int) <= old_len as int) by (nonlinear_arith)
                requires
                    extend as int == prod_range(od, a_int + 1, n_int) as int,
                    prod_range(od, a_int, n_int) as int == (od[a_int] as int) * (prod_range(
                        od,
                        a_int + 1,
                        n_int,
                    ) as int),
                    old_len as int == (prod_range(od, 0, a_int) * prod_range(
                        od,
                        a_int,
                        n_int,
                    )) as int,
                    1 <= prod_range(od, 0, a_int) as int,
            ;
        }
        let block = self.dimensions[dimension] * extend;
        let ghost oe = self.elems();
        let mut b: usize = outer;
        proof {
            assert((outer as int - outer as int) * (extend as int) == 0) by (nonlinear_arith);
            assert(old_len + (outer as int) * (extend as int) <= usize::MAX);
            assert(block as nat == prod_range(od, a_int, n_int) && (outer as int) * (
            block as int) == old_len as int && 1 <= block) by (nonlinear_arith)
                requires
                    block as int == (od[a_int] as int) * (extend as int),
                    extend as int == prod_range(od, a_int + 1, n_int) as int,
                    prod_range(od, a_int, n_int) as int == (od[a_int] as int) * (prod_range(
                        od,
                        a_int + 1,
                        n_int,
                    ) as int),
                    outer as int == prod_range(od, 0, a_int) as int,
                    old_len as int == (prod_range(od, 0, a_int) * prod_range(
                        od,
                        a_int,
                        n_int,
                    )) as int,
                    1 <= od[a_int] as int,
                    1 <= extend as int,
            ;
        }
        while b > 0
            invariant
                b <= outer,
                self.dims() == od,
                oe.len() == old_len,
                dimension < od.len(),
                outer as nat == prod_range(od, 0, dimension as int),
                extend as nat == prod_range(od, dimension as int + 1, od.len() as int),
                block as nat == prod_range(od, dimension as int, od.len() as int),
                1 <= extend,
                1 <= block,
                (outer as int) * (block as int) == old_len as int,
                old_len + (outer as int) * (extend as int) <= usize::MAX,
                self.elems().len() == old_len + (outer as int - b as int) * (extend as int),
                forall|i: int| 0 <= i < (b as int) * (block as int) ==> self.elems()[i] == oe[i],
                forall|g: int, j: int|
                    #![trigger run_pos(block as int, g, j)]
                    b <= g < outer && 0 <= j < block ==> self.elems()[shifted_pos(
                        block as int,
                        extend as int,
                        b as int,
                        g,
                        j,
                    )] == oe[run_pos(block as int, g, j)],
                forall|g: int, t: int|
                    #![trigger blank_pos(block as int, extend as int, b as int, g, t)]
                    b <= g < outer && 0 <= t < extend ==> self.elems()[blank_pos(
                        block as int,
                        extend as int,
                        b as int,
                        g,
                        t,
                    )].is_blank(),
            decreases b,
        {
            let ghost bi = b as int;
            let ghost ki = block as int;
            let ghost ei = extend as int;
            let ghost oi = outer as int;
            proof {
                lemma_mul_inequality(bi, oi, ki);
                lemma_mul_nonnegative(oi - bi, ei);
            }
            let pos = b * block;
            let ghost pre = self.elems();
            let mut m: usize = 0;
            while m < extend
                invariant
                    self.dims() == od,
                    pos <= pre.len(),
                    m <= extend,
                    self.elems().len() == pre.len() + m,
                    forall|i: int| 0 <= i < pos ==> self.elems()[i] == pre[i],
                    forall|t: int| pos <= t < pos + m ==> self.elems()[t].is_blank(),
                    forall|i: int| #![trigger pre[i]] pos <= i < pre.len()
                        ==> self.elems()[i + m] == pre[i],
                decreases extend - m,
            {
                self.elements.insert(pos, T::blank());
                m += 1;
            }
            b = b - 1;
            proof {
                let b2 = b as int;
                // the prefix below the remaining runs is untouched
                assert forall|i: int| 0 <= i < b2 * ki implies self.elems()[i] == oe[i] by {
                    lemma_mul_inequality(b2, bi, ki);
                }
                // each remaining or processed run keeps its elements, shifted
                // by one splice for every processed run below it
                assert forall|g: int, j: int|
                    #![trigger run_pos(block as int, g, j)]
                    b <= g < outer && 0 <= j < block implies self.elems()[shifted_pos(
                    block as int,
                    extend as int,
                    b2,
                    g,
                    j,
                )] == oe[run_pos(block as int, g, j)] by {
                    if g == b2 {
                        let p = run_pos(block as int, g, j);
                        assert(shifted_pos(block as int, extend as int, b2, g, j) == p && 0 <= p
                            < bi * ki) by (nonlinear_arith)
                            requires
                                g == b2,
                                b2 == bi - 1,
                                0 <= j < ki,
                                0 <= ei,
                                0 <= g,
                                p == g * ki + j,
                                shifted_pos(block as int, extend as int, b2, g, j) == g * ki + j + (
                                g - b2) * ei,
                        ;
                        assert(self.elems()[p] == pre[p]);
                        assert(pre[p] == oe[p]);
                        assert(p == run_pos(block as int, g, j));
                    } else {
                        let p = shifted_pos(block as int, extend as int, bi, g, j);
                        assert(bi * ki <= p && p < oi * ki + (oi - bi) * ei && shifted_pos(
                            block as int,
                            extend as int,
                            b2,
                            g,
                            j,
                        ) == p + ei) by (nonlinear_arith)
                            requires
                                b2 == bi - 1,
                                bi <= g < oi,
                                0 <= j < ki,
                                0 <= ei,
                                0 <= bi,
                                p == g * ki + j + (g - bi) * ei,
                                shifted_pos(block as int, extend as int, b2, g, j) == g * ki + j + (
                                g - b2) * ei,
                        ;
                        assert(self.elems()[p + ei] == pre[p]);
                        assert(pre[p] == oe[run_pos(block as int, g, j)]);
                    }
                }
                // each spliced run of blanks stays blank, shifted the same way
                assert forall|g: int, t: int|
                    #![trigger blank_pos(block as int, extend as int, b2, g, t)]
                    b <= g < outer && 0 <= t < extend implies self.elems()[blank_pos(
                    block as int,
                    extend as int,
                    b2,
                    g,
                    t,
                )].is_blank() by {
                    if g == b2 {
                        assert(blank_pos(block as int, extend as int, b2, g, t) == bi * ki + t) by (
                        nonlinear_arith)
                            requires
                                g == b2,
                                b2 == bi - 1,
                                blank_pos(block as int, extend as int, b2, g, t) == (g + 1) * ki + (
                                g - b2) * ei + t,
                        ;
                        assert(self.elems()[bi * ki + t].is_blank());
                    } else {
                        let p = blank_pos(block as int, extend as int, bi, g, t);
                        assert(bi * ki <= p && p < oi * ki + (oi - bi) * ei && blank_pos(
                            block as int,
                            extend as int,
                            b2,
                            g,
                            t,
                        ) == p + ei) by (nonlinear_arith)
                            requires
                                b2 == bi - 1,
                                bi <= g < oi,
                                0 <= t < ei,
                                1 <= ki,
                                0 <= bi,
                                p == (g + 1) * ki + (g - bi) * ei + t,
                                blank_pos(block as int, extend as int, b2, g, t) == (g + 1) * ki + (
                                g - b2) * ei + t,
                        ;
                        assert(self.elems()[p + ei] == pre[p]);
                        assert(pre[p].is_blank());
                    }
                }
                // the buffer grew by exactly one splice
                assert(self.elems().len() == old_len + (oi - b2) * ei) by {
                    lemma_mul_is_distributive_add(ei, oi - bi, 1);
                    assert((oi - bi + 1) * ei == ei * (oi - bi + 1)) by (nonlinear_arith);
                    assert((oi - bi) * ei == ei * (oi - bi)) by (nonlinear_arith);
                }
                assert((oi - b2) * ei <= oi * ei) by {
                    lemma_mul_inequality(oi - b2, oi, ei);
                }
            }
        }
        let dk = self.dimensions[dimension];
        proof {
            lemma_mul_both_ordered(outer as int, extend as int);
            assert((outer as int) * (block as int) >= dk as int) by (nonlinear_arith)
                requires
                    outer as int >= 1,
                    extend as int >= 1,
                    dk as int >= 1,
                    block as int == (dk as int) * (extend as int),
            ;
        }
        self.dimensions[dimension] = dk + 1;
        proof {
            let nd = self.dims();
            let k = od[a_int] as int;
            let ei = extend as int;
            let oi = outer as int;
            let ki = block as int;
            assert(nd =~= od.update(a_int, (k + 1) as usize));
            // the new shape addresses exactly the grown buffer
            lemma_prod_congruence(nd, od, 0, a_int);
            lemma_prod_congruence(nd, od, a_int + 1, n_int);
            lemma_prod_split(nd, 0, a_int, n_int);
            lemma_prod_split(nd, a_int, a_int + 1, n_int);
            assert(prod_range(nd, a_int, a_int + 1) == prod_range(nd, a_int, a_int) * (
            nd[a_int] as nat));
            assert(prod_range(nd, a_int, a_int + 1) as int == k + 1) by (nonlinear_arith)
                requires
                    prod_range(nd, a_int, a_int + 1) == prod_range(nd, a_int, a_int) * (
                    nd[a_int] as nat),
                    prod_range(nd, a_int, a_int) == 1,
                    nd[a_int] as int == k + 1,
            ;
            assert(seq_product(nd) as int == oi * ((k + 1) * ei)) by (nonlinear_arith)
                requires
                    seq_product(nd) == prod_range(nd, 0, a_int) * prod_range(nd, a_int, n_int),
                    prod_range(nd, a_int, n_int) == prod_range(nd, a_int, a_int + 1) * prod_range(
                        nd,
                        a_int + 1,
                        n_int,
                    ),
                    prod_range(nd, 0, a_int) as int == oi,
                    prod_range(nd, a_int, a_int + 1) as int == k + 1,
                    prod_range(nd, a_int + 1, n_int) as int == ei,
            ;
            assert(oi * ((k + 1) * ei) == oi * (k * ei) + oi * ei) by (nonlinear_arith);
            assert(oi * (k * ei) == oi * ki) by (nonlinear_arith)
                requires
                    ki == k * ei,
            ;
            assert(self.elems().len() == old_len + (oi - 0) * ei);
            // existing coordinates keep their cells; new coordinates are blank
            assert forall|c: Seq<usize>|
                #[trigger] coord_valid(nd, c) && c[a_int] <= k implies {
                &&& c[a_int] < k ==> self.elems()[row_major_offset(nd, c) as int] == oe[
                    row_major_offset(od, c) as int]
                &&& c[a_int] == k ==> self.elems()[row_major_offset(nd, c) as int].is_blank()
            } by {
                lemma_offset_axis_decompose(nd, c, a_int);
                lemma_offset_congruence(nd, od, c, c, 0, a_int);
                lemma_offset_congruence(nd, od, c, c, a_int + 1, n_int);
                lemma_prod_congruence(nd, od, 0, a_int);
                lemma_prod_congruence(nd, od, a_int + 1, n_int);
                let q = offset_range(od, c, 0, a_int) as int;
                let inner = offset_range(od, c, a_int + 1, n_int) as int;
                let ca = c[a_int] as int;
                assert(row_major_offset(nd, c) as int == q * ((k + 1) * ei) + ca * ei + inner);
                assert(q * ((k + 1) * ei) == q * (ki + ei)) by (nonlinear_arith)
                    requires
                        ki == k * ei,
                ;
                if ca < k {
                    assert(coord_valid(od, c));
                    lemma_offset_axis_decompose(od, c, a_int);
                    assert(row_major_offset(od, c) as int == q * ki + (ca * ei + inner));
                    let j = ca * ei + inner;
                    assert(j < ki) by {
                        lemma_mul_inequality(ca, k - 1, ei);
                        lemma_mul_is_distributive_sub_other_way(ei, k, 1);
                    }
                    assert(0 <= j) by {
                        lemma_mul_nonnegative(ca, ei);
                    }
                    assert(run_pos(block as int, q, j) == q * ki + j);
                    assert(shifted_pos(block as int, extend as int, 0, q, j) == q * ki + j + q * ei);
                    assert(q * (ki + ei) == q * ki + q * ei) by (nonlinear_arith);
                    assert(self.elems()[shifted_pos(block as int, extend as int, 0, q, j)] == oe[
                        run_pos(block as int, q, j)]);
                } else {
                    assert(ca == k);
                    assert(0 <= inner < ei);
                    assert(blank_pos(block as int, extend as int, 0, q, inner) == (q + 1) * ki + q
                        * ei + inner);
                    assert(q * ((k + 1) * ei) + k * ei == (q + 1) * ki + q * ei) by (
                    nonlinear_arith)
                        requires
                            ki == k * ei,
                    ;
                    assert(self.elems()[blank_pos(
                        block as int,
                        extend as int,
                        0,
                        q,
                        inner,
                    )].is_blank());
                }
            }
        }
    }
}

/// A valid coordinate vector addresses a cell inside the buffer: its
/// row-major offset is below the product of the axis sizes.
pub proof fn lemma_offset_in_bounds(dims: Seq<usize>, coord: Seq<usize>)
    requires
        coord_valid(dims, coord),
    ensures
        row_major_offset(dims, coord) < seq_product(dims),
{
    lemma_offset_bound(dims, coord, 0, dims.len() as int);
}

/// Reshaping moves no data: reshaping a matrix to any shape with a matching
/// element count and then back to its original shape restores, offset for
/// offset, exactly the original contents, and a mismatched count is refused
/// with the matrix left unchanged (both directly from `reshape`'s contract).
pub proof fn lemma_reshape_round_trip<T>(
    m0: Matrix<T>,
    m1: Matrix<T>,
    m2: Matrix<T>,
    d1: Seq<usize>,
)
    requires
        m0.wf(),
        seq_product(d1) == m0.elems().len(),
        m1.elems() == m0.elems(),
        m1.dims() == d1,
        m2.elems() == m1.elems(),
        m2.dims() == m0.dims(),
    ensures
        m2.elems() == m0.elems(),
        m2.dims() == m0.dims(),
        m2.wf(),
{
}

/// A range product with a zero axis inside is zero.
proof fn lemma_prod_zero(dims: Seq<usize>, i: int, j: int, k: int)
    requires
        i <= k < j,
        dims[k] == 0,
    ensures
        prod_range(dims, i, j) == 0,
    decreases j - k,
{
    if j - 1 == k {
    } else {
        lemma_prod_zero(dims, i, j - 1, k);
    }
}

/// A range product over axes that are all at least one is at least one.
proof fn lemma_prod_pos(dims: Seq<usize>, i: int, j: int)
    requires
        forall|m: int| i <= m < j ==> 1 <= dims[m],
    ensures
        1 <= prod_range(dims, i, j),
    decreases j - i,
{
    if j <= i {
    } else {
        lemma_prod_pos(dims, i, j - 1);
        lemma_mul_both_ordered(prod_range(dims, i, j - 1) as int, dims[j - 1] as int);
    }
}

/// `1 <= a` and `1 <= b` give `a <= a * b` and `b <= a * b`.
proof fn lemma_mul_both_ordered(a: int, b: int)
    requires
        1 <= a,
        1 <= b,
    ensures
        a <= a * b,
        b <= a * b,
        1 <= a * b,
    {
    lemma_mul_inequality(1, b, a);
    lemma_mul_inequality(1, a, b);
    assert(a * 1 == a) by (nonlinear_arith);
    assert(b * 1 == b) by (nonlinear_arith);
    assert(a * b == b * a) by (nonlinear_arith);
}

/// Flat position of element `j` of run `g` along the grown axis, once the
/// runs at and after `b` have received their spliced blanks.
spec fn shifted_pos(block: int, extend: int, b: int, g: int, j: int) -> int {
    g * block + j + (g - b) * extend
}

/// Flat position of element `j` of run `g` in the original buffer.
spec fn run_pos(block: int, g: int, j: int) -> int {
    g * block + j
}

/// Flat position of spliced blank `t` after run `g`, once the runs at and
/// after `b` have received theirs.
spec fn blank_pos(block: int, extend: int, b: int, g: int, t: int) -> int {
    (g + 1) * block + (g - b) * extend + t
}

/// Product of `dims[i..j)`, for positive axes and a product that fits.
fn prod_part(dims: &Vec<usize>, i: usize, j: usize) -> (r: usize)
    requires
        i <= j <= dims@.len(),
        forall|m: int| i <= m < j ==> 1 <= dims@[m],
        prod_range(dims@, i as int, j as int) <= usize::MAX,
    ensures
        r == prod_range(dims@, i as int, j as int),
{
    let mut acc: usize = 1;
    let mut k: usize = i;
    while k < j
        invariant
            i <= k <= j <= dims@.len(),
            forall|m: int| i <= m < j ==> 1 <= dims@[m],
            prod_range(dims@, i as int, j as int) <= usize::MAX,
            acc == prod_range(dims@, i as int, k as int),
        decreases j - k,
    {
        proof {
            lemma_prod_split(dims@, i as int, k as int, k + 1);
            assert(prod_range(dims@, k as int, k + 1) == prod_range(dims@, k as int, k as int) * (
            dims@[k as int] as nat));
            lemma_prod_split(dims@, i as int, k + 1, j as int);
            lemma_prod_pos(dims@, k + 1, j as int);
            lemma_prod_pos(dims@, i as int, k + 1);
            lemma_mul_both_ordered(
                prod_range(dims@, i as int, k + 1) as int,
                prod_range(dims@, k + 1, j as int) as int,
            );
        }
        acc = acc * dims[k];
        k += 1;
    }
    acc
}

/// A row-major fold of in-range coordinates stays below the range product.
proof fn lemma_offset_bound(dims: Seq<usize>, coord: Seq<usize>, i: int, j: int)
    requires
        i <= j,
        forall|m: int| i <= m < j ==> coord[m] < dims[m],
    ensures
        offset_range(dims, coord, i, j) < prod_range(dims, i, j),
    decreases j - i,
{
    if j <= i {
    } else {
        lemma_offset_bound(dims, coord, i, j - 1);
        let ob = offset_range(dims, coord, i, j - 1) as int;
        let pb = prod_range(dims, i, j - 1) as int;
        let d = dims[j - 1] as int;
        let c = coord[j - 1] as int;
        lemma_mul_inequality(ob, pb - 1, d);
        lemma_mul_is_distributive_sub_other_way(d, pb, 1);
        assert(offset_range(dims, coord, i, j) == ob * d + c);
        assert(prod_range(dims, i, j) == pb * d);
    }
}

/// A row-major fold splits at any interior point.
proof fn lemma_offset_split(dims: Seq<usize>, coord: Seq<usize>, i: int, j: int, k: int)
    requires
        i <= j <= k,
    ensures
        offset_range(dims, coord, i, k) == offset_range(dims, coord, i, j) * prod_range(
            dims,
            j,
            k,
        ) + offset_range(dims, coord, j, k),
    decreases k - j,
{
    if k == j {
        assert(prod_range(dims, j, k) == 1);
        assert(offset_range(dims, coord, i, j) * 1 == offset_range(dims, coord, i, j))
            by (nonlinear_arith);
    } else {
        lemma_offset_split(dims, coord, i, j, k - 1);
        let oij = offset_range(dims, coord, i, j) as int;
        let pjk1 = prod_range(dims, j, k - 1) as int;
        let ojk1 = offset_range(dims, coord, j, k - 1) as int;
        let d = dims[k - 1] as int;
        let c = coord[k - 1] as int;
        lemma_mul_is_distributive_add_other_way(d, oij * pjk1, ojk1);
        lemma_mul_is_associative(oij, pjk1, d);
        assert(offset_range(dims, coord, i, k) == offset_range(dims, coord, i, k - 1) * d + c);
        assert(prod_range(dims, j, k) == pjk1 * d);
        assert(offset_range(dims, coord, j, k) == ojk1 * d + c);
    }
}

/// Decompose a full-rank offset around one axis: the prefix fold scaled by
/// the tail product, the axis's own contribution, and the suffix fold.
proof fn lemma_offset_axis_decompose(d: Seq<usize>, c: Seq<usize>, a: int)
    requires
        0 <= a < d.len(),
        coord_valid(d, c),
    ensures
        row_major_offset(d, c) == offset_range(d, c, 0, a) * ((d[a] as nat) * prod_range(
            d,
            a + 1,
            d.len() as int,
        )) + (c[a] as nat) * prod_range(d, a + 1, d.len() as int) + offset_range(
            d,
            c,
            a + 1,
            d.len() as int,
        ),
        offset_range(d, c, 0, a) < prod_range(d, 0, a),
        offset_range(d, c, a + 1, d.len() as int) < prod_range(d, a + 1, d.len() as int),
        prod_range(d, a, d.len() as int) == (d[a] as nat) * prod_range(d, a + 1, d.len() as int),
{
    let n = d.len() as int;
    lemma_offset_split(d, c, 0, a, n);
    lemma_offset_split(d, c, a, a + 1, n);
    lemma_offset_bound(d, c, 0, a);
    lemma_offset_bound(d, c, a + 1, n);
    lemma_prod_split(d, a, a + 1, n);
    let pre = offset_range(d, c, 0, a) as int;
    let suf = offset_range(d, c, a + 1, n) as int;
    let ext = prod_range(d, a + 1, n) as int;
    let da = d[a] as int;
    let ca = c[a] as int;
    assert(prod_range(d, a, a + 1) == prod_range(d, a, a) * (d[a] as nat));
    assert(prod_range(d, a, a + 1) as int == da) by (nonlinear_arith)
        requires
            prod_range(d, a, a + 1) == prod_range(d, a, a) * (d[a] as nat),
            prod_range(d, a, a) == 1,
            da == d[a] as int,
    ;
    assert(prod_range(d, a, n) as int == da * ext) by (nonlinear_arith)
        requires
            prod_range(d, a, n) == prod_range(d, a, a + 1) * prod_range(d, a + 1, n),
            prod_range(d, a, a + 1) as int == da,
            prod_range(d, a + 1, n) as int == ext,
    ;
    assert(offset_range(d, c, a, a + 1) == offset_range(d, c, a, a) * (d[a] as nat) + (
    c[a] as nat));
    assert(offset_range(d, c, a, a + 1) as int == ca) by (nonlinear_arith)
        requires
            offset_range(d, c, a, a + 1) == offset_range(d, c, a, a) * (d[a] as nat) + (
            c[a] as nat),
            offset_range(d, c, a, a) == 0,
            ca == c[a] as int,
    ;
    assert(offset_range(d, c, a, n) as int == ca * ext + suf) by (nonlinear_arith)
        requires
            offset_range(d, c, a, n) == offset_range(d, c, a, a + 1) * prod_range(d, a + 1, n)
                + offset_range(d, c, a + 1, n),
            offset_range(d, c, a, a + 1) as int == ca,
            prod_range(d, a + 1, n) as int == ext,
            offset_range(d, c, a + 1, n) as int == suf,
    ;
    assert(offset_range(d, c, 0, n) as int == pre * (prod_range(d, a, n) as int) + (ca * ext
        + suf));
    assert(pre * (prod_range(d, a, n) as int) == pre * (da * ext)) by (nonlinear_arith)
        requires
            prod_range(d, a, n) as int == da * ext,
    ;
}

/// A range product reads only the entries inside the range.
proof fn lemma_prod_congruence(d1: Seq<usize>, d2: Seq<usize>, i: int, j: int)
    requires
        forall|m: int| i <= m < j ==> d1[m] == d2[m],
    ensures
        prod_range(d1, i, j) == prod_range(d2, i, j),
    decreases j - i,
{
    if j <= i {
    } else {
        lemma_prod_congruence(d1, d2, i, j - 1);
    }
}

/// A row-major fold reads only the axes and coordinates inside the range.
proof fn lemma_offset_congruence(
    d1: Seq<usize>,
    d2: Seq<usize>,
    c1: Seq<usize>,
    c2: Seq<usize>,
    i: int,
    j: int,
)
    requires
        forall|m: int| i <= m < j ==> d1[m] == d2[m],
        forall|m: int| i <= m < j ==> c1[m] == c2[m],
    ensures
        offset_range(d1, c1, i, j) == offset_range(d2, c2, i, j),
    decreases j - i,
{
    if j <= i {
    } else {
        lemma_offset_congruence(d1, d2, c1, c2, i, j - 1);
    }
}

/// A range product splits at any interior point.
proof fn lemma_prod_split(dims: Seq<usize>, i: int, j: int, k: int)
    requires
        i <= j <= k,
    ensures
        prod_range(dims, i, k) == prod_range(dims, i, j) * prod_range(dims, j, k),
    decreases k - j,
{
    if k == j {
        assert(prod_range(dims, j, k) == 1);
        assert(prod_range(dims, i, j) * 1 == prod_range(dims, i, j)) by (nonlinear_arith);
    } else {
        lemma_prod_split(dims, i, j, k - 1);
        lemma_mul_is_associative(
            prod_range(dims, i, j) as int,
            prod_range(dims, j, k - 1) as int,
            dims[k - 1] as int,
        );
        assert(prod_range(dims, i, k) == prod_range(dims, i, k - 1) * (dims[k - 1] as nat));
        assert(prod_range(dims, j, k) == prod_range(dims, j, k - 1) * (dims[k - 1] as nat));
    }
}

} // verus!
