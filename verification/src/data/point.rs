use vstd::prelude::*;

verus! {

use crate::text::{spec_decimal, seq_views, two_num_message};
use vstd::arithmetic::div_mod::{
    lemma_fundamental_div_mod,
    lemma_fundamental_div_mod_converse,
    lemma_mod_multiples_basic,
};
use vstd::arithmetic::mul::lemma_mul_inequality;

/// Error type for failed construction of a point collection.
#[derive(Debug, Clone, PartialEq, Eq)]
pub struct PointConstructionError(pub String);

/// The concatenation of the rows of a matrix, row by row.
pub open spec fn flat<T>(m: Seq<Seq<T>>) -> Seq<T>
    decreases m.len(),
{
    if m.len() == 0 {
        Seq::empty()
    } else {
        flat(m.drop_last()) + m.last()
    }
}

/// The views of a sequence of vectors, element by element.
pub open spec fn mat_views<T>(m: Seq<Vec<T>>) -> Seq<Seq<T>> {
    Seq::new(m.len(), |i: int| m[i]@)
}

/// A flattened matrix with rows of width `d` has `m.len() * d` entries.
pub proof fn lemma_flat_len<T>(m: Seq<Seq<T>>, d: nat)
    requires
        forall|i: int| 0 <= i < m.len() ==> m[i].len() == d,
    ensures
        flat(m).len() == m.len() * d,
    decreases m.len(),
{
    if m.len() == 0 {
    } else {
        lemma_flat_len(m.drop_last(), d);
        assert((m.len() - 1) * d + d == m.len() * d) by (nonlinear_arith);
    }
}

/// Law: the `i`-th `d`-sized block of a flattened matrix is its `i`-th row.
pub proof fn lemma_flat_point<T>(m: Seq<Seq<T>>, d: nat, i: int)
    requires
        d >= 1,
        forall|k: int| 0 <= k < m.len() ==> m[k].len() == d,
        0 <= i < m.len(),
    ensures
        flat(m).len() == m.len() * d,
        flat(m).subrange(i * d, i * d + d) == m[i],
    decreases m.len(),
{
    lemma_flat_len(m, d);
    lemma_flat_len(m.drop_last(), d);
    assert(0 <= i * d) by (nonlinear_arith)
        requires 0 <= i && d >= 1;
    if i == m.len() - 1 {
        assert(i * d + d == m.len() * d) by (nonlinear_arith)
            requires i == m.len() - 1;
        assert(flat(m).subrange(i * d, i * d + d) =~= m[i]);
    } else {
        lemma_flat_point(m.drop_last(), d, i);
        assert(i * d + d <= (m.len() - 1) * d) by (nonlinear_arith)
            requires 0 <= i < m.len() - 1 && d >= 1;
        assert(flat(m).subrange(i * d, i * d + d) =~= flat(m.drop_last()).subrange(
            i * d,
            i * d + d,
        ));
    }
}

/// Law: building storage from the rows of a matrix and building it from
/// the columns of that same matrix produce identical flat data. `rows` and
/// `cols` describe one logical matrix, `cols` being the transpose of
/// `rows`; the entry of the row-built buffer at `i * dim + j` is the one
/// the column-built buffer holds there, for every point `i` and
/// coordinate `j`.
pub proof fn lemma_rows_cols_agree<T>(rows: Seq<Seq<T>>, cols: Seq<Seq<T>>)
    requires
        rows.len() >= 1,
        cols.len() >= 1,
        cols.len() == rows[0].len(),
        forall|i: int| 0 <= i < rows.len() ==> #[trigger] rows[i].len() == rows[0].len(),
        forall|j: int| 0 <= j < cols.len() ==> #[trigger] cols[j].len() == rows.len(),
        forall|i: int, j: int|
            0 <= i < rows.len() && 0 <= j < cols.len() ==> #[trigger] cols[j][i] == rows[i][j],
    ensures
        flat(rows).len() == rows.len() * cols.len(),
        forall|i: int, j: int|
            0 <= i < rows.len() && 0 <= j < cols.len() ==> flat(rows)[i * cols.len() + j]
                == cols[j][i],
{
    let d = cols.len() as nat;
    lemma_flat_len(rows, d);
    assert forall|i: int, j: int|
        0 <= i < rows.len() && 0 <= j < cols.len() implies flat(rows)[i * cols.len() + j]
        == cols[j][i] by {
        lemma_flat_point(rows, d, i);
        assert(0 <= i * d && i * d + d <= rows.len() * d) by (nonlinear_arith)
            requires 0 <= i < rows.len() && d >= 1;
        assert(flat(rows).subrange(i * d, i * d + d)[j] == flat(rows)[i * d + j]);
        assert(flat(rows).subrange(i * d, i * d + d)[j] == rows[i][j]);
    }
}

/// A collection of n-dimensional points over a coordinate type `T`,
/// held as a flat buffer: each contiguous block of `dim` values is one
/// point, in insertion order.
#[derive(Debug)]
pub struct Points<T: Copy> {
    data: Vec<T>,
    dim: usize,
}

impl<T: Copy> Points<T> {
    /// The flat coordinate buffer.
    pub closed spec fn spec_data(&self) -> Seq<T> {
        self.data@
    }

    /// The fixed dimension of every point.
    pub closed spec fn spec_dim(&self) -> nat {
        self.dim as nat
    }

    /// The buffer always holds whole points of a positive dimension.
    pub open spec fn well_formed(&self) -> bool {
        self.spec_dim() >= 1 && self.spec_data().len() % self.spec_dim() == 0
    }

    /// The number of points.
    pub open spec fn spec_len(&self) -> nat {
        self.spec_data().len() / self.spec_dim()
    }

    /// The `i`-th point: the block of `dim` values starting at `i * dim`.
    pub open spec fn point_at(&self, i: int) -> Seq<T> {
        self.spec_data().subrange(
            i * self.spec_dim() as int,
            i * self.spec_dim() as int + self.spec_dim() as int,
        )
    }

    /// Creates an empty point collection of the given dimension.
    pub fn empty(dim: usize) -> (r: Self)
        requires
            dim >= 1,
        ensures
            r.spec_dim() == dim as nat,
            r.spec_data() == Seq::<T>::empty(),
            r.well_formed(),
            r.spec_len() == 0,
    {
        Points { data: Vec::new(), dim }
    }

    /// Adopts a flat buffer as the storage, provided its length is a
    /// multiple of the dimension.
    pub fn from_raw(data: Vec<T>, dim: usize) -> (r: Result<Self, PointConstructionError>)
        requires
            dim >= 1,
        ensures
            match r {
                Ok(p) => {
                    &&& data@.len() % (dim as nat) == 0
                    &&& p.spec_data() == data@
                    &&& p.spec_dim() == dim as nat
                    &&& p.well_formed()
                    &&& p.spec_len() == data@.len() / (dim as nat)
                },
                Err(e) => {
                    &&& data@.len() % (dim as nat) != 0
                    &&& e.0@ == "Data length ("@ + spec_decimal(data@.len())
                        + ") does not match number of dimensions ("@ + spec_decimal(dim as nat)
                        + ")"@
                },
            },
    {
        if data.len() % dim != 0 {
            return Err(PointConstructionError(two_num_message(
                "Data length (",
                data.len(),
                ") does not match number of dimensions (",
                dim,
                ")",
            )));
        }
        Ok(Points { data, dim })
    }

    /// Builds the storage from a list of rows; the first row fixes the
    /// dimension and every further row must match it, else the first
    /// offending row is reported and nothing is built.
    pub fn from_rows(rows: &Vec<Vec<T>>) -> (r: Result<Self, PointConstructionError>)
        requires
            rows@.len() >= 1,
            rows@[0]@.len() >= 1,
        ensures
            match r {
                Ok(p) => {
                    &&& forall|i: int| 0 <= i < rows@.len() ==> #[trigger] rows@[i]@.len() == rows@[0]@.len()
                    &&& p.spec_dim() == rows@[0]@.len()
                    &&& p.spec_data() == flat(mat_views(rows@))
                    &&& p.well_formed()
                    &&& p.spec_len() == rows@.len()
                    &&& forall|i: int| 0 <= i < rows@.len() ==> #[trigger] p.point_at(i) == rows@[i]@
                },
                Err(e) => exists|i: int|
                    {
                        &&& 0 <= i < rows@.len()
                        &&& rows@[i]@.len() != rows@[0]@.len()
                        &&& forall|j: int| 0 <= j < i ==> #[trigger] rows@[j]@.len() == rows@[0]@.len()
                        &&& e.0@ == "Row length ("@ + spec_decimal(rows@[i]@.len())
                            + ") does not match number of dimensions ("@ + spec_decimal(
                            rows@[0]@.len(),
                        ) + ")"@
                    },
            },
    {
        let dim = rows[0].len();
        let mut data: Vec<T> = Vec::new();
        let mut i: usize = 0;
        while i < rows.len()
            invariant
                rows@.len() >= 1,
                dim == rows@[0]@.len(),
                dim >= 1,
                i <= rows@.len(),
                forall|j: int| 0 <= j < i ==> #[trigger] rows@[j]@.len() == dim,
                data@ == flat(mat_views(rows@).take(i as int)),
                data@.len() == i * dim,
            decreases rows@.len() - i,
        {
            let row: &Vec<T> = &rows[i];
            if row.len() != dim {
                return Err(PointConstructionError(two_num_message(
                    "Row length (",
                    row.len(),
                    ") does not match number of dimensions (",
                    dim,
                    ")",
                )));
            }
            let ghost prefix = data@;
            let mut k: usize = 0;
            while k < dim
                invariant
                    k <= dim,
                    dim == row@.len(),
                    data@ == prefix + row@.take(k as int),
                decreases dim - k,
            {
                data.push(row[k]);
                proof {
                    assert(row@.take(k as int + 1) =~= row@.take(k as int).push(row@[k as int]));
                }
                k += 1;
            }
            proof {
                assert(row@.take(dim as int) =~= row@);
                let m = mat_views(rows@);
                assert(m.take(i as int + 1).drop_last() =~= m.take(i as int));
                assert(m.take(i as int + 1).last() == rows@[i as int]@);
                assert(flat(m.take(i as int + 1)) == flat(m.take(i as int)) + rows@[i as int]@);
                assert((i + 1) * dim == i * dim + dim) by (nonlinear_arith);
            }
            i += 1;
        }
        proof {
            let m = mat_views(rows@);
            assert(m.take(rows@.len() as int) =~= m);
            let n = rows@.len() as int;
            lemma_mod_multiples_basic(n, dim as int);
            lemma_fundamental_div_mod_converse(n * (dim as int), dim as int, n, 0);
            let p = (Points { data, dim });
            assert forall|q: int| 0 <= q < rows@.len() implies p.point_at(q) == rows@[q]@ by {
                lemma_flat_point(m, dim as nat, q);
            }
        }
        Ok(Points { data, dim })
    }

    /// Builds the storage from a list of columns; the number of columns
    /// fixes the dimension, all columns must have one length (the number
    /// of points), and point `i` reads index `i` from each column in
    /// column order — a transpose into the internal row-major layout.
    pub fn from_cols(cols: &Vec<Vec<T>>) -> (r: Result<Self, PointConstructionError>)
        requires
            cols@.len() >= 1,
        ensures
            match r {
                Ok(p) => {
                    &&& forall|j: int| 0 <= j < cols@.len() ==> #[trigger] cols@[j]@.len() == cols@[0]@.len()
                    &&& p.spec_dim() == cols@.len()
                    &&& p.spec_len() == cols@[0]@.len()
                    &&& p.spec_data().len() == cols@[0]@.len() * cols@.len()
                    &&& p.well_formed()
                    &&& forall|i: int, j: int|
                        0 <= i < cols@.len() && 0 <= j < cols@[0]@.len()
                            ==> p.spec_data()[j * cols@.len() + i] == cols@[i]@[j]
                },
                Err(e) => exists|j: int|
                    {
                        &&& 0 <= j < cols@.len()
                        &&& cols@[j]@.len() != cols@[0]@.len()
                        &&& forall|q: int| 0 <= q < j ==> #[trigger] cols@[q]@.len() == cols@[0]@.len()
                        &&& e.0@ == "Column length ("@ + spec_decimal(cols@[j]@.len())
                            + ") does not match number of rows ("@ + spec_decimal(
                            cols@[0]@.len(),
                        ) + ")"@
                    },
            },
    {
        let dim = cols.len();
        let rows = cols[0].len();
        let mut j: usize = 0;
        while j < cols.len()
            invariant
                cols@.len() >= 1,
                rows == cols@[0]@.len(),
                j <= cols@.len(),
                forall|q: int| 0 <= q < j ==> #[trigger] cols@[q]@.len() == rows,
            decreases cols@.len() - j,
        {
            if cols[j].len() != rows {
                return Err(PointConstructionError(two_num_message(
                    "Column length (",
                    cols[j].len(),
                    ") does not match number of rows (",
                    rows,
                    ")",
                )));
            }
            j += 1;
        }
        let mut data: Vec<T> = Vec::new();
        let mut ri: usize = 0;
        while ri < rows
            invariant
                cols@.len() >= 1,
                dim == cols@.len(),
                rows == cols@[0]@.len(),
                forall|q: int| 0 <= q < cols@.len() ==> #[trigger] cols@[q]@.len() == rows,
                ri <= rows,
                data@.len() == ri * dim,
                forall|k: int|
                    0 <= k < data@.len() ==> data@[k] == cols@[k % (dim as int)]@[k / (dim as int)],
            decreases rows - ri,
        {
            let mut c: usize = 0;
            while c < dim
                invariant
                    cols@.len() >= 1,
                    dim == cols@.len(),
                    rows == cols@[0]@.len(),
                    forall|q: int| 0 <= q < cols@.len() ==> #[trigger] cols@[q]@.len() == rows,
                    ri < rows,
                    c <= dim,
                    data@.len() == ri * dim + c,
                    forall|k: int|
                        0 <= k < data@.len() ==> data@[k] == cols@[k % (dim as int)]@[k / (
                        dim as int)],
                decreases dim - c,
            {
                data.push(cols[c][ri]);
                proof {
                    let k0 = (ri * dim + c) as int;
                    lemma_fundamental_div_mod_converse(k0, dim as int, ri as int, c as int);
                }
                c += 1;
            }
            proof {
                assert((ri + 1) * dim == ri * dim + dim) by (nonlinear_arith);
            }
            ri += 1;
        }
        proof {
            let n = rows as int;
            let d = dim as int;
            lemma_mod_multiples_basic(n, d);
            lemma_fundamental_div_mod_converse(n * d, d, n, 0);
            let p = (Points { data, dim });
            assert forall|i: int, jj: int|
                0 <= i < cols@.len() && 0 <= jj < cols@[0]@.len() implies p.spec_data()[jj * d + i]
                == cols@[i]@[jj] by {
                assert(0 <= jj * d + i < n * d) by (nonlinear_arith)
                    requires 0 <= i < d && 0 <= jj < n;
                lemma_fundamental_div_mod_converse(jj * d + i, d, jj, i);
            }
        }
        Ok(Points { data, dim })
    }

    /// The number of points.
    pub fn len(&self) -> (r: usize)
        requires
            self.well_formed(),
        ensures
            r as nat == self.spec_len(),
    {
        self.data.len() / self.dim
    }

    /// The dimension.
    pub fn dim(&self) -> (r: usize)
        ensures
            r as nat == self.spec_dim(),
    {
        self.dim
    }

    /// Appends one full row, which must have exactly the dimension's length.
    pub fn push(&mut self, row: &Vec<T>)
        requires
            old(self).well_formed(),
            row@.len() == old(self).spec_dim(),
        ensures
            final(self).spec_dim() == old(self).spec_dim(),
            final(self).spec_data() == old(self).spec_data() + row@,
            final(self).well_formed(),
            final(self).spec_len() == old(self).spec_len() + 1,
    {
        let ghost prefix = self.data@;
        let mut k: usize = 0;
        while k < row.len()
            invariant
                k <= row@.len(),
                self.dim == old(self).dim,
                self.data@ == prefix + row@.take(k as int),
            decreases row@.len() - k,
        {
            self.data.push(row[k]);
            proof {
                assert(row@.take(k as int + 1) =~= row@.take(k as int).push(row@[k as int]));
            }
            k += 1;
        }
        proof {
            assert(row@.take(row@.len() as int) =~= row@);
            let d = self.spec_dim() as int;
            let oldlen = prefix.len() as int;
            lemma_fundamental_div_mod(oldlen, d);
            let q = oldlen / d;
            assert(oldlen == q * d) by (nonlinear_arith)
                requires oldlen == d * q + oldlen % d && oldlen % d == 0;
            lemma_mod_multiples_basic(q + 1, d);
            lemma_fundamental_div_mod_converse((q + 1) * d, d, q + 1, 0);
            assert((q + 1) * d == oldlen + d) by (nonlinear_arith)
                requires oldlen == q * d;
        }
    }

    /// Returns a copy of the point at `index`.
    pub fn get(&self, index: usize) -> (r: Vec<T>)
        requires
            self.well_formed(),
            index < self.spec_len(),
        ensures
            r@ == self.point_at(index as int),
            r@.len() == self.spec_dim(),
    {
        let n = self.data.len();
        proof {
            let d = self.spec_dim() as int;
            let len = n as int;
            lemma_fundamental_div_mod(len, d);
            assert(len == (len / d) * d) by (nonlinear_arith)
                requires len == d * (len / d) + len % d && len % d == 0;
            assert(index as int + 1 <= len / d);
            lemma_mul_inequality(index as int + 1, len / d, d);
            assert((index as int + 1) * d == index as int * d + d) by (nonlinear_arith);
            assert(index as int * d + d <= len);
        }
        let start = index * self.dim;
        let mut r: Vec<T> = Vec::new();
        let mut k: usize = 0;
        while k < self.dim
            invariant
                k <= self.spec_dim(),
                start == index * self.spec_dim(),
                n == self.spec_data().len(),
                start + self.spec_dim() <= n,
                r@ == self.spec_data().subrange(start as int, start as int + k as int),
            decreases self.spec_dim() - k,
        {
            r.push(self.data[start + k]);
            proof {
                assert(self.spec_data().subrange(start as int, start as int + k as int + 1)
                    =~= self.spec_data().subrange(start as int, start as int + k as int).push(
                    self.spec_data()[start as int + k as int],
                ));
            }
            k += 1;
        }
        r
    }
}

/// A point storage paired with an optional parallel list of string
/// identifiers; if identifiers are present there is exactly one per point.
#[derive(Debug)]
pub struct PointCollection<T: Copy> {
    points: Points<T>,
    ids: Option<Vec<String>>,
}

impl<T: Copy> PointCollection<T> {
    /// The underlying storage.
    pub closed spec fn spec_points(&self) -> Points<T> {
        self.points
    }

    /// The identifiers, if any, as character sequences.
    pub closed spec fn spec_ids(&self) -> Option<Seq<Seq<char>>> {
        match self.ids {
            Some(v) => Some(seq_views(v@)),
            None => None,
        }
    }

    pub open spec fn well_formed(&self) -> bool {
        &&& self.spec_points().well_formed()
        &&& match self.spec_ids() {
            Some(s) => s.len() == self.spec_points().spec_len(),
            None => true,
        }
    }

    /// Pairs a storage with optional identifiers, enforcing that their
    /// counts agree.
    pub fn new(points: Points<T>, ids: Option<Vec<String>>) -> (r: Result<
        Self,
        PointConstructionError,
    >)
        requires
            points.well_formed(),
        ensures
            match r {
                Ok(c) => {
                    &&& match ids {
                        Some(v) => v@.len() == points.spec_len() && c.spec_ids() == Some(
                            seq_views(v@),
                        ),
                        None => c.spec_ids() is None,
                    }
                    &&& c.spec_points() == points
                    &&& c.well_formed()
                },
                Err(e) => match ids {
                    Some(v) => {
                        &&& v@.len() != points.spec_len()
                        &&& e.0@ == "Data length ("@ + spec_decimal(points.spec_len())
                            + ") does not match number of IDs ("@ + spec_decimal(v@.len()) + ")"@
                    },
                    None => false,
                },
            },
    {
        if let Some(id) = &ids {
            let n = points.len();
            if n != id.len() {
                return Err(PointConstructionError(two_num_message(
                    "Data length (",
                    n,
                    ") does not match number of IDs (",
                    id.len(),
                    ")",
                )));
            }
        }
        Ok(PointCollection { points, ids })
    }

    /// Read-only view of the underlying storage.
    pub fn points(&self) -> (r: &Points<T>)
        ensures
            *r == self.spec_points(),
    {
        &self.points
    }

    /// The optional identifier sequence, unchanged from construction.
    pub fn ids(&self) -> (r: &Option<Vec<String>>)
        ensures
            match r {
                Some(v) => self.spec_ids() == Some(seq_views(v@)),
                None => self.spec_ids() is None,
            },
    {
        &self.ids
    }
}

} // verus!
