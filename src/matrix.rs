use vstd::prelude::*;

use ndarray::{Array2, ShapeError};

verus! {

#[verifier::external_type_specification]
#[verifier::external_body]
pub struct ExShapeError(ShapeError);

/// A dense two-dimensional array of fixed-point features: row `i` belongs to
/// record `i`, and every row has the same number of columns.
#[verifier::external_body]
pub struct FeatureMatrix {
    data: Array2<i32>,
}

/// The entries of a matrix, row by row.
pub uninterp spec fn matrix_entries(m: FeatureMatrix) -> Seq<Seq<i32>>;

/// The number of columns of a matrix.
pub uninterp spec fn matrix_width(m: FeatureMatrix) -> nat;

/// Row `i` of the row-major sequence `flat` with rows of length `width`.
pub open spec fn chunk(flat: Seq<i32>, width: nat, i: int) -> Seq<i32> {
    flat.subrange(i * width, i * width + width)
}

/// Whether an array of this shape may exist: the product of the non-zero
/// axis lengths does not exceed `isize::MAX`.
pub open spec fn shape_fits(nrows: int, ncols: int) -> bool {
    &&& nrows <= isize::MAX
    &&& ncols <= isize::MAX
    &&& nrows * ncols <= isize::MAX
}

/// Relies on `Array2::from_shape_vec` in standard (row-major) layout: it
/// succeeds when the vector holds exactly `nrows * ncols` elements and the
/// shape fits, and row `i` of the array is then the `i`-th run of `ncols`
/// elements.
#[verifier::external_body]
fn from_shape_vec(nrows: usize, ncols: usize, flat: Vec<i32>) -> (r: Result<FeatureMatrix, ShapeError>)
    ensures
        flat@.len() == nrows * ncols && shape_fits(nrows as int, ncols as int) ==> r is Ok,
        r matches Ok(m) ==> matrix_width(m) == ncols && matrix_entries(m) == Seq::new(
            nrows as nat,
            |i: int| chunk(flat@, ncols as nat, i),
        ),
{
    match Array2::from_shape_vec((nrows, ncols), flat) {
        Ok(data) => Ok(FeatureMatrix { data }),
        Err(e) => Err(e),
    }
}

/// Relies on `ArrayBase::nrows`: the length of the first axis, which an
/// array keeps within `isize::MAX`.
#[verifier::external_body]
fn array_nrows(m: &FeatureMatrix) -> (r: usize)
    ensures
        r == matrix_entries(*m).len(),
        r <= isize::MAX,
{
    m.data.nrows()
}

/// Relies on `ArrayBase::len`: the number of elements, which an array keeps
/// within `isize::MAX`.
#[verifier::external_body]
fn array_len(m: &FeatureMatrix) -> (r: usize)
    ensures
        r == matrix_entries(*m).len() * matrix_width(*m),
        r <= isize::MAX,
{
    m.data.len()
}

/// Relies on `ArrayBase::ncols`: the length of the second axis, which is the
/// length of every row and which an array keeps within `isize::MAX`.
#[verifier::external_body]
fn array_ncols(m: &FeatureMatrix) -> (r: usize)
    ensures
        r == matrix_width(*m),
        r <= isize::MAX,
        forall|i: int|
            0 <= i < matrix_entries(*m).len() ==> (#[trigger] matrix_entries(*m)[i]).len() == r,
{
    m.data.ncols()
}

/// Relies on indexing an `Array2` by `[row, column]`, which panics out of
/// bounds.
#[verifier::external_body]
fn array_get(m: &FeatureMatrix, i: usize, j: usize) -> (r: i32)
    requires
        i < matrix_entries(*m).len(),
        j < matrix_width(*m),
    ensures
        r == matrix_entries(*m)[i as int][j as int],
{
    m.data[[i, j]]
}

proof fn lemma_chunk_of_prefix(flat: Seq<i32>, more: Seq<i32>, width: nat, k: int, i: int)
    requires
        0 <= k < i,
        flat.len() == i * width,
    ensures
        chunk(flat + more, width, k) == chunk(flat, width, k),
{
    assert((k + 1) * width <= i * width) by (nonlinear_arith)
        requires
            k + 1 <= i,
    ;
    assert(k * width >= 0) by (nonlinear_arith)
        requires
            k >= 0,
    ;
    assert((k + 1) * width == k * width + width) by (nonlinear_arith);
    let start = k * width;
    let a = chunk(flat + more, width, k);
    let b = chunk(flat, width, k);
    assert(start + width <= flat.len());
    assert forall|t: int| 0 <= t < width implies a[t] == b[t] by {
        assert(a[t] == (flat + more)[start + t]);
        assert(b[t] == flat[start + t]);
    }
    assert(a =~= b);
}

impl FeatureMatrix {
    pub open spec fn view(&self) -> Seq<Seq<i32>> {
        matrix_entries(*self)
    }

    /// Every row has `matrix_width` entries.
    pub open spec fn wf(&self) -> bool {
        forall|i: int| 0 <= i < self@.len() ==> (#[trigger] self@[i]).len() == matrix_width(*self)
    }

    /// Builds a matrix from its rows; `None` when the rows differ in length
    /// or their shape does not fit an array. An empty matrix has width zero.
    pub fn from_rows(rows: Vec<Vec<i32>>) -> (r: Option<FeatureMatrix>)
        ensures
            match r {
                Some(m) => m@ == rows@.map_values(|r: Vec<i32>| r@) && (rows@.len() > 0
                    ==> matrix_width(m) == rows@[0]@.len()) && (rows@.len() == 0 ==> matrix_width(m)
                    == 0),
                None => (exists|i: int|
                    0 <= i < rows@.len() && (#[trigger] rows@[i])@.len() != rows@[0]@.len()) || (
                rows@.len() > 0 && !shape_fits(rows@.len() as int, rows@[0]@.len() as int)),
            },
    {
        let width: usize = if rows.len() > 0 {
            rows[0].len()
        } else {
            0
        };
        let mut i: usize = 0;
        while i < rows.len()
            invariant
                i <= rows@.len(),
                rows@.len() > 0 ==> width == rows@[0]@.len(),
                forall|j: int| 0 <= j < i ==> (#[trigger] rows@[j])@.len() == width,
            decreases rows@.len() - i,
        {
            if rows[i].len() != width {
                return None;
            }
            i = i + 1;
        }
        let n = rows.len();
        let max: usize = isize::MAX as usize;
        if n > max || width > max || (width > 0 && n > max / width) {
            proof {
                if width > 0 && n > max / width {
                    vstd::arithmetic::div_mod::lemma_fundamental_div_mod(max as int, width as int);
                    assert(n * width > max) by (nonlinear_arith)
                        requires
                            n >= max / width + 1,
                            width > 0,
                            max == width * (max / width) + max % width,
                            max % width < width,
                    ;
                }
            }
            return None;
        }
        proof {
            if width > 0 {
                vstd::arithmetic::div_mod::lemma_fundamental_div_mod(max as int, width as int);
                assert(n * width <= max) by (nonlinear_arith)
                    requires
                        n <= max / width,
                        width > 0,
                        max == width * (max / width) + max % width,
                        max % width >= 0,
                ;
            } else {
                assert(n * width == 0) by (nonlinear_arith)
                    requires
                        width == 0,
                ;
            }
        }
        Some(FeatureMatrix::from_uniform_rows(&rows, width))
    }

    /// Number of rows.
    pub fn num_rows(&self) -> (r: usize)
        ensures
            r == self@.len(),
    {
        array_nrows(self)
    }

    /// Number of entries; the shape of every matrix fits an array.
    pub fn len(&self) -> (r: usize)
        ensures
            r == self@.len() * matrix_width(*self),
            shape_fits(self@.len() as int, matrix_width(*self) as int),
    {
        let _ = array_nrows(self);
        let _ = array_ncols(self);
        array_len(self)
    }

    /// Number of columns; every row has this many entries.
    pub fn width(&self) -> (r: usize)
        ensures
            r == matrix_width(*self),
            self.wf(),
    {
        array_ncols(self)
    }

    /// The entry at row `i`, column `j`.
    pub fn get(&self, i: usize, j: usize) -> (r: i32)
        requires
            i < self@.len(),
            j < matrix_width(*self),
        ensures
            r == self@[i as int][j as int],
    {
        array_get(self, i, j)
    }

    /// A copy of row `i`.
    pub fn row(&self, i: usize) -> (r: Vec<i32>)
        requires
            i < self@.len(),
        ensures
            r@ == self@[i as int],
    {
        let w = self.width();
        let mut out: Vec<i32> = Vec::new();
        let mut j: usize = 0;
        while j < w
            invariant
                i < self@.len(),
                w == matrix_width(*self),
                self.wf(),
                j <= w,
                out@ == self@[i as int].subrange(0, j as int),
            decreases w - j,
        {
            out.push(self.get(i, j));
            j = j + 1;
            assert(out@ =~= self@[i as int].subrange(0, j as int));
        }
        assert(self@[i as int].subrange(0, w as int) =~= self@[i as int]);
        out
    }

    /// Builds a matrix from rows that all have `width` entries.
    pub fn from_uniform_rows(rows: &Vec<Vec<i32>>, width: usize) -> (r: FeatureMatrix)
        requires
            forall|i: int| 0 <= i < rows@.len() ==> (#[trigger] rows@[i])@.len() == width,
            shape_fits(rows@.len() as int, width as int),
        ensures
            r@ == rows@.map_values(|row: Vec<i32>| row@),
            matrix_width(r) == width,
    {
        let mut flat: Vec<i32> = Vec::new();
        let mut i: usize = 0;
        while i < rows.len()
            invariant
                i <= rows@.len(),
                forall|k: int| 0 <= k < rows@.len() ==> (#[trigger] rows@[k])@.len() == width,
                flat@.len() == i * width,
                forall|k: int| 0 <= k < i ==> #[trigger] chunk(flat@, width as nat, k) == rows@[k]@,
            decreases rows@.len() - i,
        {
            let row = &rows[i];
            let ghost before = flat@;
            let mut j: usize = 0;
            while j < width
                invariant
                    j <= width,
                    row@.len() == width,
                    flat@ == before + row@.subrange(0, j as int),
                decreases width - j,
            {
                flat.push(row[j]);
                j = j + 1;
                assert(flat@ =~= before + row@.subrange(0, j as int));
            }
            proof {
                assert(row@.subrange(0, width as int) =~= row@);
                assert forall|k: int| 0 <= k < i + 1 implies #[trigger] chunk(flat@, width as nat, k)
                    == rows@[k]@ by {
                    if k < i {
                        lemma_chunk_of_prefix(before, row@, width as nat, k, i as int);
                    } else {
                        assert(chunk(flat@, width as nat, k) =~= row@);
                    }
                }
                assert(flat@.len() == (i + 1) * width) by (nonlinear_arith)
                    requires
                        flat@.len() == i * width + width,
                ;
            }
            i = i + 1;
        }
        let r = from_shape_vec(rows.len(), width, flat);
        match r {
            Ok(m) => {
                assert(m@ =~= rows@.map_values(|row: Vec<i32>| row@));
                m
            },
            Err(_) => vstd::pervasive::unreached(),
        }
    }
}

} // verus!
