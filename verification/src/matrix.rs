use crate::error::MatrixError;
use crate::text::{decimal_digits, decimal_text, push_decimal, push_signed};
use crate::vector::{dot_fits, dot_prefix, dot_product, spec_dot, Vector};
use vstd::prelude::*;
use vstd::string::StringExecFns;

verus! {

/// A dense matrix: a row-major flat buffer together with its row and
/// column counts. The buffer always holds exactly `rows * cols`
/// elements, and a matrix is immutable after construction.
pub struct Matrix {
    rows: usize,
    cols: usize,
    data: Vec<i64>,
}

/// The unit of work for one output cell: the flat row-major position of
/// the cell in the destination buffer, the row of the left operand and
/// the materialized column of the right operand whose dot product
/// fills the cell.
pub struct MsgInput {
    pub idx: usize,
    pub row: Vector,
    pub col: Vector,
}

/// The outcome of one task: the flat position of an output cell and the
/// value to write there. Exactly one of these is produced per
/// dispatched task.
pub struct MsgOutput {
    pub idx: usize,
    pub value: i64,
}

impl MsgInput {
    pub fn new(idx: usize, row: Vector, col: Vector) -> (r: MsgInput)
        ensures
            r.idx == idx,
            r.row == row,
            r.col == col,
    {
        MsgInput { idx, row, col }
    }
}

impl View for Matrix {
    type V = Seq<i64>;

    closed spec fn view(&self) -> Seq<i64> {
        self.data@
    }
}

impl Matrix {
    pub closed spec fn spec_rows(&self) -> int {
        self.rows as int
    }

    pub closed spec fn spec_cols(&self) -> int {
        self.cols as int
    }

    /// The flat buffer holds exactly one element per cell.
    pub open spec fn wf(&self) -> bool {
        self@.len() == self.spec_rows() * self.spec_cols()
    }

    /// The element in row `i`, column `j` of the row-major buffer.
    pub open spec fn entry(&self, i: int, j: int) -> i64 {
        self@[i * self.spec_cols() + j]
    }

    /// Row `i` as a sequence of its `cols` elements.
    pub open spec fn row_seq(&self, i: int) -> Seq<i64> {
        Seq::new(self.spec_cols() as nat, |k: int| self.entry(i, k))
    }

    /// Column `j` as a sequence of its `rows` elements.
    pub open spec fn col_seq(&self, j: int) -> Seq<i64> {
        Seq::new(self.spec_rows() as nat, |k: int| self.entry(k, j))
    }

    /// Builds a matrix from explicit dimensions and a flat row-major
    /// buffer, which must hold exactly one element per cell.
    pub fn new(rows: usize, cols: usize, data: Vec<i64>) -> (r: Matrix)
        requires
            data@.len() == rows * cols,
        ensures
            r.wf(),
            r.spec_rows() == rows,
            r.spec_cols() == cols,
            r@ == data@,
    {
        Matrix { rows, cols, data }
    }

    pub fn rows(&self) -> (r: usize)
        ensures
            r == self.spec_rows(),
    {
        self.rows
    }

    pub fn cols(&self) -> (r: usize)
        ensures
            r == self.spec_cols(),
    {
        self.cols
    }

    /// The flat row-major buffer.
    pub fn data(&self) -> (r: &Vec<i64>)
        ensures
            r@ == self@,
    {
        &self.data
    }

    /// Copies row `i` out of the flat buffer into an owned vector.
    pub fn row_vector(&self, i: usize) -> (r: Vector)
        requires
            self.wf(),
            i < self.spec_rows(),
        ensures
            r@ == self.row_seq(i as int),
    {
        let mut out: Vec<i64> = Vec::new();
        let mut j: usize = 0;
        while j < self.cols
            invariant
                self.wf(),
                i < self.spec_rows(),
                j <= self.spec_cols(),
                out@.len() == j,
                forall|k: int| 0 <= k < j ==> #[trigger] out@[k] == self.entry(i as int, k),
            decreases self.spec_cols() - j,
        {
            let total = self.data.len();
            proof {
                lemma_flat_index(i as int, j as int, self.spec_rows(), self.spec_cols());
                assert(i * self.spec_cols() + j < total);
            }
            out.push(self.data[i * self.cols + j]);
            j = j + 1;
        }
        proof {
            assert(out@ =~= self.row_seq(i as int));
        }
        Vector::new(out)
    }

    /// Materializes column `j` as an owned vector by a strided copy:
    /// a column of a row-major buffer is not contiguous, so its elements
    /// are gathered one stride apart.
    pub fn col_vector(&self, j: usize) -> (r: Vector)
        requires
            self.wf(),
            j < self.spec_cols(),
        ensures
            r@ == self.col_seq(j as int),
    {
        let mut out: Vec<i64> = Vec::new();
        let mut k: usize = 0;
        while k < self.rows
            invariant
                self.wf(),
                j < self.spec_cols(),
                k <= self.spec_rows(),
                out@.len() == k,
                forall|m: int| 0 <= m < k ==> #[trigger] out@[m] == self.entry(m, j as int),
            decreases self.spec_rows() - k,
        {
            let total = self.data.len();
            proof {
                lemma_flat_index(k as int, j as int, self.spec_rows(), self.spec_cols());
                assert(k * self.spec_cols() + (j as int) < total);
            }
            out.push(self.data[k * self.cols + j]);
            k = k + 1;
        }
        proof {
            assert(out@ =~= self.col_seq(j as int));
        }
        Vector::new(out)
    }
}

/// The first `j` elements of row `i` of `m`, space-separated.
pub open spec fn row_text(m: &Matrix, i: int, j: int) -> Seq<char>
    decreases j,
{
    if j <= 0 {
        Seq::empty()
    } else if j == 1 {
        decimal_text(m.entry(i, 0) as int)
    } else {
        row_text(m, i, j - 1) + seq![' '] + decimal_text(m.entry(i, j - 1) as int)
    }
}

/// The first `i` rows of `m`, each rendered by `row_text` and joined
/// by ", ".
pub open spec fn rows_text(m: &Matrix, i: int) -> Seq<char>
    decreases i,
{
    if i <= 0 {
        Seq::empty()
    } else if i == 1 {
        row_text(m, 0, m.spec_cols())
    } else {
        rows_text(m, i - 1) + seq![',', ' '] + row_text(m, i - 1, m.spec_cols())
    }
}

/// The textual rendering of a matrix: row-major groups separated by
/// ", " with elements space-separated within a row, wrapped in braces.
pub open spec fn display_text(m: &Matrix) -> Seq<char> {
    seq!['{'] + rows_text(m, m.spec_rows()) + seq!['}']
}

/// The debug rendering of a matrix: its dimensions followed by the
/// braced data.
pub open spec fn debug_text(m: &Matrix) -> Seq<char> {
    "Matrix (rows: "@ + decimal_digits(m.spec_rows()) + ", cols: "@ + decimal_digits(m.spec_cols())
        + ", data: "@ + display_text(m) + seq![')']
}

impl Matrix {
    /// Renders the matrix as text, e.g. `{22 28, 49 64}` for a 2-by-2
    /// matrix holding `[22, 28, 49, 64]`.
    pub fn display_string(&self) -> (r: String)
        requires
            self.wf(),
        ensures
            r@ == display_text(self),
    {
        let mut out = String::new();
        out.append("{");
        proof {
            reveal_strlit("{");
            assert(out@ =~= seq!['{'] + rows_text(self, 0));
        }
        let mut i: usize = 0;
        while i < self.rows
            invariant
                self.wf(),
                i <= self.spec_rows(),
                out@ == seq!['{'] + rows_text(self, i as int),
            decreases self.spec_rows() - i,
        {
            if i > 0 {
                out.append(", ");
                proof {
                    reveal_strlit(", ");
                    assert(", "@ =~= seq![',', ' ']);
                }
            }
            let ghost row_start = out@;
            let mut j: usize = 0;
            while j < self.cols
                invariant
                    self.wf(),
                    i < self.spec_rows(),
                    j <= self.spec_cols(),
                    out@ == row_start + row_text(self, i as int, j as int),
                    row_start == seq!['{'] + rows_text(self, i as int) + (if i > 0 {
                        seq![',', ' ']
                    } else {
                        Seq::<char>::empty()
                    }),
                decreases self.spec_cols() - j,
            {
                if j > 0 {
                    out.append(" ");
                    proof {
                        reveal_strlit(" ");
                        assert(" "@ =~= seq![' ']);
                    }
                }
                let total = self.data.len();
                proof {
                    lemma_flat_index(i as int, j as int, self.spec_rows(), self.spec_cols());
                    assert(i * self.spec_cols() + (j as int) < total);
                }
                push_signed(&mut out, self.data[i * self.cols + j]);
                proof {
                    assert(out@ =~= row_start + row_text(self, i as int, j + 1));
                }
                j = j + 1;
            }
            proof {
                assert(out@ =~= seq!['{'] + rows_text(self, i + 1));
            }
            i = i + 1;
        }
        out.append("}");
        proof {
            reveal_strlit("}");
            assert(out@ =~= display_text(self));
        }
        out
    }

    /// Renders the matrix with its dimensions, e.g.
    /// `Matrix (rows: 2, cols: 2, data: {22 28, 49 64})`.
    pub fn debug_string(&self) -> (r: String)
        requires
            self.wf(),
        ensures
            r@ == debug_text(self),
    {
        let mut out = String::new();
        out.append("Matrix (rows: ");
        push_decimal(&mut out, self.rows as u64);
        out.append(", cols: ");
        push_decimal(&mut out, self.cols as u64);
        out.append(", data: ");
        let body = self.display_string();
        out.append(body.as_str());
        out.append(")");
        proof {
            reveal_strlit(")");
            assert(")"@ =~= seq![')']);
            assert(out@ =~= debug_text(self));
        }
        out
    }
}

/// A row-major flat index lies inside the buffer of its matrix.
proof fn lemma_flat_index(i: int, j: int, rows: int, cols: int)
    requires
        0 <= i < rows,
        0 <= j < cols,
    ensures
        0 <= i * cols + j < rows * cols,
{
    assert(i * cols + j < rows * cols) by (nonlinear_arith)
        requires
            0 <= i < rows,
            0 <= j < cols,
    ;
    assert(0 <= i * cols) by (nonlinear_arith)
        requires
            0 <= i,
            0 <= cols,
    ;
}

/// An earlier cell in the row-major enumeration has a smaller flat index.
proof fn lemma_pair_index_lt(i2: int, j2: int, i: int, j: int, c: int)
    requires
        0 <= i2,
        0 <= j2 < c,
        0 <= i,
        0 <= j,
        i2 < i || (i2 == i && j2 < j),
    ensures
        i2 * c + j2 < i * c + j,
{
    if i2 < i {
        assert(i2 * c + j2 < i * c + j) by (nonlinear_arith)
            requires
                0 <= j2 < c,
                i2 < i,
                0 <= j,
        ;
    }
}

/// The sum of the first `n` products of row `i` of `a` against column
/// `j` of `b`: the inner loop of the naive triple-loop product, cut off
/// after `n` terms.
pub open spec fn cell_sum(a: &Matrix, b: &Matrix, i: int, j: int, n: int) -> int
    decreases n,
{
    if n <= 0 {
        0
    } else {
        cell_sum(a, b, i, j, n - 1) + a.entry(i, n - 1) * b.entry(n - 1, j)
    }
}

/// The value of output cell `(i, j)` of the product of `a` and `b`, as
/// the naive triple-loop algorithm computes it: the sum over `k` of
/// `a[i][k] * b[k][j]`.
pub open spec fn product_cell(a: &Matrix, b: &Matrix, i: int, j: int) -> int {
    cell_sum(a, b, i, j, a.spec_cols())
}

/// The dot product of a row of `a` and a column of `b` is exactly the
/// naive triple-loop cell value.
proof fn lemma_dot_is_cell(a: &Matrix, b: &Matrix, i: int, j: int, n: int)
    requires
        a.spec_cols() == b.spec_rows(),
        0 <= i < a.spec_rows(),
        0 <= j < b.spec_cols(),
        0 <= n <= a.spec_cols(),
    ensures
        dot_prefix(a.row_seq(i), b.col_seq(j), n) == cell_sum(a, b, i, j, n),
    decreases n,
{
    if n > 0 {
        lemma_dot_is_cell(a, b, i, j, n - 1);
        assert(a.row_seq(i)[n - 1] == a.entry(i, n - 1));
        assert(b.col_seq(j)[n - 1] == b.entry(n - 1, j));
    }
}

/// Every dot product that the multiplication of `a` and `b` performs
/// stays within `i64`, and the output buffer length fits the machine.
pub open spec fn mul_fits(a: &Matrix, b: &Matrix) -> bool {
    &&& a.spec_rows() * b.spec_cols() <= usize::MAX
    &&& forall|i: int, j: int|
        0 <= i < a.spec_rows() && 0 <= j < b.spec_cols() ==> #[trigger] dot_fits(
            a.row_seq(i),
            b.col_seq(j),
        )
}

/// Bounded entries make a multiplication safe: when every entry of
/// both matrices is at most `bound` in magnitude, the worst-case dot
/// product `cols * bound * bound` fits in `i64` and the output buffer
/// length fits the machine, every dot product the multiplication
/// performs stays in range. This discharges the precondition of
/// `multiply` without unfolding any sum.
pub proof fn lemma_bounded_mul_fits(a: &Matrix, b: &Matrix, bound: int)
    requires
        a.wf(),
        b.wf(),
        a.spec_cols() == b.spec_rows(),
        a.spec_rows() * b.spec_cols() <= usize::MAX,
        0 <= bound,
        forall|n: int| 0 <= n < a@.len() ==> -bound <= #[trigger] a@[n] <= bound,
        forall|n: int| 0 <= n < b@.len() ==> -bound <= #[trigger] b@[n] <= bound,
        a.spec_cols() * bound * bound <= i64::MAX,
    ensures
        mul_fits(a, b),
{
    assert forall|i: int, j: int|
        0 <= i < a.spec_rows() && 0 <= j < b.spec_cols() implies #[trigger] dot_fits(
        a.row_seq(i),
        b.col_seq(j),
    ) by {
        let s = a.row_seq(i);
        let t = b.col_seq(j);
        assert forall|k: int| 0 <= k < s.len() implies -bound <= (#[trigger] s[k]) <= bound by {
            lemma_flat_index(i, k, a.spec_rows(), a.spec_cols());
        }
        assert forall|k: int| 0 <= k < t.len() implies -bound <= (#[trigger] t[k]) <= bound by {
            lemma_flat_index(k, j, b.spec_rows(), b.spec_cols());
        }
        crate::vector::lemma_bounded_dot_fits(s, t, bound);
    }
}

/// Everything `multiply` promises of its result: the product exists
/// exactly when the inner dimensions agree, and then every cell of it
/// equals the naive triple-loop value.
pub open spec fn multiply_post(a: &Matrix, b: &Matrix, r: Result<Matrix, MatrixError>) -> bool {
    match r {
        Ok(m) => {
            &&& a.spec_cols() == b.spec_rows()
            &&& m.wf()
            &&& m.spec_rows() == a.spec_rows()
            &&& m.spec_cols() == b.spec_cols()
            &&& forall|i: int, j: int|
                0 <= i < a.spec_rows() && 0 <= j < b.spec_cols() ==> #[trigger] m.entry(i, j)
                    == product_cell(a, b, i, j)
        },
        Err(e) => a.spec_cols() != b.spec_rows() && e == MatrixError::DimensionMismatch,
    }
}

/// The collected results of a multiplication are complete and
/// consistent: one result per output cell, each aimed at a distinct
/// in-bounds cell.
pub open spec fn outputs_valid(rows: int, cols: int, outs: Seq<MsgOutput>) -> bool {
    &&& outs.len() == rows * cols
    &&& forall|k: int| 0 <= k < outs.len() ==> (#[trigger] outs[k].idx) < rows * cols
    &&& forall|k1: int, k2: int|
        0 <= k1 < outs.len() && 0 <= k2 < outs.len() && k1 != k2 ==> (#[trigger] outs[k1].idx)
            != (#[trigger] outs[k2].idx)
}

/// The body of a worker: computes the dot product of one task and tags
/// the value with the task's output cell. A task whose two vectors
/// disagree in length is answered with `DimensionMismatch` rather than
/// dropped.
pub fn process_task(task: MsgInput) -> (r: Result<MsgOutput, MatrixError>)
    requires
        task.row@.len() == task.col@.len() ==> dot_fits(task.row@, task.col@),
    ensures
        match r {
            Ok(o) => task.row@.len() == task.col@.len() && o.idx == task.idx && o.value
                == spec_dot(task.row@, task.col@),
            Err(e) => task.row@.len() != task.col@.len() && e == MatrixError::DimensionMismatch,
        },
{
    let idx = task.idx;
    match dot_product(task.row, task.col) {
        Ok(value) => Ok(MsgOutput { idx, value }),
        Err(e) => Err(e),
    }
}

/// Writes each collected result into the output cell its index names
/// and wraps the filled buffer as a matrix. Results may arrive in any
/// order: placement relies solely on the carried index. Fails with
/// `WorkerCommunicationFailure` when the results do not map one-to-one
/// onto the `rows * cols` output cells.
pub fn assemble(rows: usize, cols: usize, outputs: Vec<MsgOutput>) -> (r: Result<
    Matrix,
    MatrixError,
>)
    requires
        rows * cols <= usize::MAX,
    ensures
        match r {
            Ok(m) => {
                &&& outputs_valid(rows as int, cols as int, outputs@)
                &&& m.wf()
                &&& m.spec_rows() == rows
                &&& m.spec_cols() == cols
                &&& forall|k: int|
                    0 <= k < outputs@.len() ==> m@[(#[trigger] outputs@[k].idx) as int]
                        == outputs@[k].value
            },
            Err(e) => {
                &&& !outputs_valid(rows as int, cols as int, outputs@)
                &&& e == MatrixError::WorkerCommunicationFailure
            },
        },
{
    let n = rows * cols;
    if outputs.len() != n {
        return Err(MatrixError::WorkerCommunicationFailure);
    }
    let mut data: Vec<i64> = vec![0i64; n];
    let mut seen: Vec<bool> = vec![false; n];
    let mut k: usize = 0;
    while k < n
        invariant
            n == rows * cols,
            outputs@.len() == n,
            data@.len() == n,
            seen@.len() == n,
            k <= n,
            forall|m: int| 0 <= m < k ==> (#[trigger] outputs@[m].idx) < n,
            forall|m1: int, m2: int|
                0 <= m1 < k && 0 <= m2 < k && m1 != m2 ==> (#[trigger] outputs@[m1].idx)
                    != (#[trigger] outputs@[m2].idx),
            forall|m: int|
                0 <= m < k ==> data@[(#[trigger] outputs@[m].idx) as int] == outputs@[m].value,
            forall|i: int|
                0 <= i < n ==> ((#[trigger] seen@[i]) <==> exists|m: int|
                    0 <= m < k && (#[trigger] outputs@[m].idx) == i),
        decreases n - k,
    {
        let idx = outputs[k].idx;
        if idx >= n {
            proof {
                assert(!outputs_valid(rows as int, cols as int, outputs@));
            }
            return Err(MatrixError::WorkerCommunicationFailure);
        }
        if seen[idx] {
            proof {
                let m = choose|m: int| 0 <= m < k && (#[trigger] outputs@[m].idx) == idx;
                assert(outputs@[m].idx == outputs@[k as int].idx);
                assert(!outputs_valid(rows as int, cols as int, outputs@));
            }
            return Err(MatrixError::WorkerCommunicationFailure);
        }
        seen[idx] = true;
        data[idx] = outputs[k].value;
        k = k + 1;
    }
    Ok(Matrix { rows, cols, data })
}

/// Multiplies two matrices: validates that the inner dimensions agree,
/// decomposes the product into one dot-product task per output cell in
/// row-major order, computes every task, and reassembles the tagged
/// results into the output matrix. Fails with `DimensionMismatch`, and
/// performs no work, when `a.cols != b.rows`.
pub fn multiply(a: &Matrix, b: &Matrix) -> (r: Result<Matrix, MatrixError>)
    requires
        a.wf(),
        b.wf(),
        a.spec_cols() == b.spec_rows() ==> mul_fits(a, b),
    ensures
        multiply_post(a, b, r),
{
    if a.cols != b.rows {
        return Err(MatrixError::DimensionMismatch);
    }
    let mut outputs: Vec<MsgOutput> = Vec::new();
    let mut i: usize = 0;
    while i < a.rows
        invariant
            a.wf(),
            b.wf(),
            a.spec_cols() == b.spec_rows(),
            mul_fits(a, b),
            i <= a.spec_rows(),
            outputs@.len() == i * b.spec_cols(),
            forall|m: int| 0 <= m < outputs@.len() ==> (#[trigger] outputs@[m].idx) == m,
            forall|i2: int, j2: int|
                0 <= i2 < i && 0 <= j2 < b.spec_cols() ==> outputs@[i2 * b.spec_cols() + j2].value
                    == #[trigger] product_cell(a, b, i2, j2),
        decreases a.spec_rows() - i,
    {
        let mut j: usize = 0;
        while j < b.cols
            invariant
                a.wf(),
                b.wf(),
                a.spec_cols() == b.spec_rows(),
                mul_fits(a, b),
                i < a.spec_rows(),
                j <= b.spec_cols(),
                outputs@.len() == i * b.spec_cols() + j,
                forall|m: int| 0 <= m < outputs@.len() ==> (#[trigger] outputs@[m].idx) == m,
                forall|i2: int, j2: int|
                    0 <= i2 && 0 <= j2 && (i2 < i && j2 < b.spec_cols() || i2 == i && j2 < j)
                        ==> outputs@[i2 * b.spec_cols() + j2].value == #[trigger] product_cell(
                        a,
                        b,
                        i2,
                        j2,
                    ),
            decreases b.spec_cols() - j,
        {
            proof {
                lemma_flat_index(i as int, j as int, a.spec_rows(), b.spec_cols());
                assert(dot_fits(a.row_seq(i as int), b.col_seq(j as int)));
            }
            let row = a.row_vector(i);
            let col = b.col_vector(j);
            let idx = i * b.cols + j;
            let task = MsgInput::new(idx, row, col);
            let out = match process_task(task) {
                Ok(o) => o,
                Err(e) => {
                    proof {
                        assert(false);
                    }
                    return Err(e);
                },
            };
            proof {
                lemma_dot_is_cell(a, b, i as int, j as int, a.spec_cols());
            }
            outputs.push(out);
            proof {
                assert forall|i2: int, j2: int|
                    0 <= i2 && 0 <= j2 && (i2 < i && j2 < b.spec_cols() || i2 == i && j2 < j
                        + 1) implies outputs@[i2 * b.spec_cols() + j2].value
                    == #[trigger] product_cell(a, b, i2, j2) by {
                    if i2 == i && j2 == j {
                        assert(outputs@[i2 * b.spec_cols() + j2].value == product_cell(
                            a,
                            b,
                            i2,
                            j2,
                        ));
                    } else {
                        lemma_pair_index_lt(i2, j2, i as int, j as int, b.spec_cols());
                    }
                }
            }
            j = j + 1;
        }
        proof {
            assert(i * b.spec_cols() + b.spec_cols() == (i + 1) * b.spec_cols())
                by (nonlinear_arith);
        }
        i = i + 1;
    }
    let filled = match assemble(a.rows, b.cols, outputs) {
        Ok(m) => m,
        Err(_) => {
            proof {
                assert(false);
            }
            return Err(MatrixError::DimensionMismatch);
        },
    };
    proof {
        assert forall|i2: int, j2: int|
            0 <= i2 < a.spec_rows() && 0 <= j2 < b.spec_cols() implies #[trigger] filled.entry(
            i2,
            j2,
        ) == product_cell(a, b, i2, j2) by {
            lemma_flat_index(i2, j2, a.spec_rows(), b.spec_cols());
            assert(outputs@[i2 * b.spec_cols() + j2].idx == i2 * b.spec_cols() + j2);
            assert(filled@[i2 * b.spec_cols() + j2] == outputs@[i2 * b.spec_cols() + j2].value);
        }
    }
    Ok(filled)
}

/// Multiplication is deterministic: any two results that `multiply`'s
/// contract admits for the same inputs are bit-identical, so repeated
/// calls with the same matrices yield the same output despite the
/// parallel decomposition into tasks.
pub proof fn multiply_deterministic(
    a: &Matrix,
    b: &Matrix,
    r1: Result<Matrix, MatrixError>,
    r2: Result<Matrix, MatrixError>,
)
    requires
        a.wf(),
        b.wf(),
        multiply_post(a, b, r1),
        multiply_post(a, b, r2),
    ensures
        match (r1, r2) {
            (Ok(m1), Ok(m2)) => m1.spec_rows() == m2.spec_rows() && m1.spec_cols()
                == m2.spec_cols() && m1@ == m2@,
            (Err(e1), Err(e2)) => e1 == e2,
            _ => false,
        },
{
    match (r1, r2) {
        (Ok(m1), Ok(m2)) => {
            let rows = a.spec_rows();
            let cols = b.spec_cols();
            assert forall|n: int| 0 <= n < m1@.len() implies m1@[n] == m2@[n] by {
                assert(cols != 0) by (nonlinear_arith)
                    requires
                        0 <= n < rows * cols,
                ;
                vstd::arithmetic::div_mod::lemma_fundamental_div_mod(n, cols);
                let i = n / cols;
                let j = n % cols;
                assert(0 <= i < rows && 0 <= j < cols) by (nonlinear_arith)
                    requires
                        n == cols * i + j,
                        0 <= j < cols,
                        0 <= n < rows * cols,
                ;
                assert(m1.entry(i, j) == product_cell(a, b, i, j));
                assert(m2.entry(i, j) == product_cell(a, b, i, j));
                assert(n == i * cols + j) by (nonlinear_arith)
                    requires
                        n == cols * i + j,
                ;
            }
            assert(m1@ =~= m2@);
        },
        _ => {},
    }
}

} // verus!
