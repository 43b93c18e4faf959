use vstd::prelude::*;
use vstd::string::*;
use vstd::arithmetic::div_mod::*;
use crate::collector::Collector;
use crate::dispatch::{
    answers, dealt, dispatch, index_at, is_task, lemma_every_index_once, route, serve, MsgOutput,
};
use crate::error::Error;
use crate::numeric::{decimal, decimal_string, Numeric};
use crate::vector::{dot_spec, lemma_dot_is_wrapped_sum, sum_of_products, Vector};

verus! {

/// The number of workers that `multiply` spreads its tasks over.
pub const NUM_THREADS: usize = 4;

/// A matrix as mathematics sees it: its shape and its cells in row-major order.
pub struct Grid<T> {
    pub row: nat,
    pub col: nat,
    pub data: Seq<T>,
}

impl<T> Grid<T> {
    /// There is one cell for every position of the shape.
    pub open spec fn wf(self) -> bool {
        self.data.len() == self.row * self.col
    }

    /// The cell in row `i`, column `j`.
    pub open spec fn at(self, i: int, j: int) -> T {
        self.data[i * self.col + j]
    }

    /// Row `i`, left to right.
    pub open spec fn row_at(self, i: int) -> Seq<T> {
        Seq::new(self.col, |j: int| self.at(i, j))
    }

    /// Column `j`, top to bottom.
    pub open spec fn col_at(self, j: int) -> Seq<T> {
        Seq::new(self.row, |i: int| self.at(i, j))
    }
}

/// The cell of the product that has index `idx` in row-major order: the
/// reduction of the row of `a` and the column of `b` that cross there.
pub open spec fn product_cell<T: Numeric>(a: Grid<T>, b: Grid<T>, idx: int) -> T {
    dot_spec(a.row_at(idx / b.col as int), b.col_at(idx % b.col as int))
}

/// The matrix product of `a` and `b`, with the arithmetic of `T`.
pub open spec fn product<T: Numeric>(a: Grid<T>, b: Grid<T>) -> Grid<T> {
    Grid {
        row: a.row,
        col: b.col,
        data: Seq::new(a.row * b.col, |idx: int| product_cell(a, b, idx)),
    }
}

/// The pieces of `parts` in order, with `sep` between neighbours.
pub open spec fn join(parts: Seq<Seq<char>>, sep: Seq<char>) -> Seq<char>
    decreases parts.len(),
{
    if parts.len() == 0 {
        Seq::empty()
    } else if parts.len() == 1 {
        parts[0]
    } else {
        join(parts.drop_last(), sep) + sep + parts.last()
    }
}

/// Row `i` of `g` as text: its elements in decimal notation, a space
/// between neighbours.
pub open spec fn row_text<T: Numeric>(g: Grid<T>, i: int) -> Seq<char> {
    join(Seq::new(g.col, |j: int| decimal(g.at(i, j).value())), " "@)
}

/// `g` as text: its rows between braces, a comma and a space between
/// neighbours, as in `{1 2 3, 4 5 6}`.
pub open spec fn grid_text<T: Numeric>(g: Grid<T>) -> Seq<char> {
    "{"@ + join(Seq::new(g.row, |i: int| row_text(g, i)), ", "@) + "}"@
}

/// `g` as text with its shape in front, as in
/// `Matrix(row=2, col=3, {1 2 3, 4 5 6})`.
pub open spec fn grid_debug_text<T: Numeric>(g: Grid<T>) -> Seq<char> {
    "Matrix(row="@ + decimal(g.row as int) + ", col="@ + decimal(g.col as int) + ", "@ + grid_text(
        g,
    ) + ")"@
}

/// A matrix: `row * col` elements, stored row after row.
pub struct Matrix<T> {
    data: Vec<T>,
    row: usize,
    col: usize,
}

impl<T> View for Matrix<T> {
    type V = Grid<T>;

    closed spec fn view(&self) -> Grid<T> {
        Grid { row: self.row as nat, col: self.col as nat, data: self.data@ }
    }
}

impl<T> Matrix<T> {
    #[verifier::type_invariant]
    spec fn inv(self) -> bool {
        self.data@.len() == self.row * self.col
    }

    /// A matrix of `row` rows and `col` columns over `data`, which holds the
    /// rows one after the other.
    pub fn new(data: Vec<T>, row: usize, col: usize) -> (m: Self)
        requires
            data@.len() == row * col,
        ensures
            m@ == (Grid { row: row as nat, col: col as nat, data: data@ }),
    {
        Self { data, row, col }
    }

    /// The number of rows.
    pub fn row(&self) -> (n: usize)
        ensures
            n == self@.row,
    {
        self.row
    }

    /// The number of columns.
    pub fn col(&self) -> (n: usize)
        ensures
            n == self@.col,
    {
        self.col
    }

    /// The cells, row after row.
    pub fn data(&self) -> (d: &Vec<T>)
        ensures
            d@ == self@.data,
            self@.wf(),
    {
        proof {
            use_type_invariant(self);
        }
        &self.data
    }
}

impl<T: Copy> Matrix<T> {
    /// A copy of row `i`.
    pub fn row_vector(&self, i: usize) -> (v: Vector<T>)
        requires
            i < self@.row,
        ensures
            v@ == self@.row_at(i as int),
    {
        proof {
            use_type_invariant(self);
            lemma_row_in_range(self.row as int, self.col as int, i as int);
        }
        let total: usize = self.data.len();
        let start: usize = i * self.col;
        let mut out: Vec<T> = Vec::new();
        let mut j: usize = 0;
        while j < self.col
            invariant
                j <= self.col,
                start == i * self.col,
                start + self.col <= total,
                total == self.data@.len(),
                out@ == Seq::new(j as nat, |t: int| self@.at(i as int, t)),
            decreases self.col - j,
        {
            out.push(self.data[start + j]);
            j += 1;
            assert(out@ =~= Seq::new(j as nat, |t: int| self@.at(i as int, t)));
        }
        Vector::new(out)
    }

    /// A copy of column `j`.
    pub fn col_vector(&self, j: usize) -> (v: Vector<T>)
        requires
            j < self@.col,
        ensures
            v@ == self@.col_at(j as int),
    {
        proof {
            use_type_invariant(self);
        }
        let total: usize = self.data.len();
        let mut out: Vec<T> = Vec::new();
        let mut i: usize = 0;
        while i < self.row
            invariant
                i <= self.row,
                j < self.col,
                total == self.row * self.col,
                total == self.data@.len(),
                out@ == Seq::new(i as nat, |t: int| self@.at(t, j as int)),
            decreases self.row - i,
        {
            proof {
                lemma_cell_in_range(self.row as int, self.col as int, i as int, j as int);
            }
            out.push(self.data[i * self.col + j]);
            i += 1;
            assert(out@ =~= Seq::new(i as nat, |t: int| self@.at(t, j as int)));
        }
        Vector::new(out)
    }
}

impl<T: Numeric> Matrix<T> {
    /// Row `i` as text.
    fn row_string(&self, i: usize) -> (s: String)
        requires
            i < self@.row,
        ensures
            s@ == row_text(self@, i as int),
    {
        proof {
            use_type_invariant(self);
            lemma_row_in_range(self.row as int, self.col as int, i as int);
        }
        let total: usize = self.data.len();
        let start: usize = i * self.col;
        let ghost parts = Seq::new(self@.col, |j: int| decimal(self@.at(i as int, j).value()));
        let mut out = String::new();
        let mut j: usize = 0;
        while j < self.col
            invariant
                j <= self.col,
                start == i * self.col,
                start + self.col <= total,
                total == self.data@.len(),
                parts == Seq::new(self@.col, |j: int| decimal(self@.at(i as int, j).value())),
                out@ == join(parts.take(j as int), " "@),
            decreases self.col - j,
        {
            if j > 0 {
                out.append(" ");
            }
            let cell = self.data[start + j].text();
            out.append(cell.as_str());
            proof {
                assert(parts.take(j + 1).drop_last() =~= parts.take(j as int));
                assert(parts.take(j + 1).last() == cell@);
                assert(Seq::<char>::empty() + cell@ =~= cell@);
            }
            j += 1;
        }
        proof {
            assert(parts.take(j as int) =~= parts);
        }
        out
    }

    /// The matrix as text: the rows between braces, separated by a comma
    /// and a space, the elements of a row separated by a space.
    pub fn to_string(&self) -> (s: String)
        ensures
            s@ == grid_text(self@),
    {
        let ghost parts = Seq::new(self@.row, |i: int| row_text(self@, i));
        let mut out = String::new();
        out.append("{");
        let mut i: usize = 0;
        while i < self.row
            invariant
                i <= self.row,
                parts == Seq::new(self@.row, |i: int| row_text(self@, i)),
                out@ == "{"@ + join(parts.take(i as int), ", "@),
            decreases self.row - i,
        {
            if i > 0 {
                out.append(", ");
            }
            let line = self.row_string(i);
            out.append(line.as_str());
            proof {
                assert(parts.take(i + 1).drop_last() =~= parts.take(i as int));
                assert(parts.take(i + 1).last() == line@);
                assert(out@ =~= "{"@ + join(parts.take(i + 1), ", "@));
            }
            i += 1;
        }
        proof {
            assert(parts.take(i as int) =~= parts);
        }
        out.append("}");
        out
    }

    /// The matrix as text with its shape in front.
    pub fn to_debug_string(&self) -> (s: String)
        ensures
            s@ == grid_debug_text(self@),
    {
        let mut out = String::new();
        out.append("Matrix(row=");
        out.append(decimal_string(false, self.row as u128).as_str());
        out.append(", col=");
        out.append(decimal_string(false, self.col as u128).as_str());
        out.append(", ");
        out.append(self.to_string().as_str());
        out.append(")");
        proof {
            assert(out@ =~= grid_debug_text(self@));
        }
        out
    }
}

/// Multiplies `a` by `b` on `workers` workers. One task is made for every
/// cell of the result and queued for the worker that `route` names; every
/// worker answers its tasks in the order they came; the replies are
/// gathered in the order the tasks were queued, each into the slot it
/// names. The workers take their turns on the calling thread, one after
/// the other; `pool::multiply_on` runs the same scheme over channels.
/// The result does not depend on the number of workers.
pub fn multiply_with<T: Numeric>(a: &Matrix<T>, b: &Matrix<T>, workers: usize) -> (r: Result<
    Matrix<T>,
    Error,
>)
    requires
        workers > 0,
        a@.col == b@.row ==> a@.row * b@.col <= usize::MAX,
    ensures
        a@.col != b@.row ==> r is Err && r->Err_0 == Error::DimensionMismatch,
        a@.col == b@.row ==> r is Ok && r->Ok_0@ == product(a@, b@),
        r is Ok ==> r->Ok_0@.row == a@.row && r->Ok_0@.col == b@.col && r->Ok_0@.wf(),
{
    if a.col != b.row {
        return Err(Error::DimensionMismatch);
    }
    let total: usize = a.row * b.col;
    let queues = dispatch(a, b, workers);
    let mut replies: Vec<Vec<MsgOutput<T>>> = Vec::new();
    let mut w: usize = 0;
    while w < workers
        invariant
            w <= workers,
            a@.col == b@.row,
            queues@.len() == workers,
            dealt(queues@, a@, b@, total as int),
            replies@.len() == w,
            forall|v: int| 0 <= v < w ==> (#[trigger] replies@[v])@ == answers(queues@[v]@),
        decreases workers - w,
    {
        proof {
            assert forall|k: int| 0 <= k < queues@[w as int]@.len() implies (
            #[trigger] queues@[w as int]@[k]).reducible() by {
                let place = index_at(w as int, k, workers as int);
                assert(is_task(queues@[w as int]@[k], a@, b@, place));
            }
        }
        match serve(&queues[w]) {
            Ok(out) => {
                replies.push(out);
            },
            Err(e) => {
                return Err(e);
            },
        }
        w += 1;
    }
    let mut collector: Collector<T> = Collector::new(total);
    let mut idx: usize = 0;
    while idx < total
        invariant
            workers > 0,
            idx <= total,
            total == a@.row * b@.col,
            queues@.len() == workers,
            dealt(queues@, a@, b@, total as int),
            replies@.len() == workers,
            forall|v: int| 0 <= v < workers ==> (#[trigger] replies@[v])@ == answers(queues@[v]@),
            collector@.len() == total,
            forall|t: int| 0 <= t < idx ==> collector@[t] == Some(product_cell(a@, b@, t)),
            forall|t: int| idx <= t < total ==> collector@[t] is None,
        decreases total - idx,
    {
        let w = route(idx, workers);
        let k: usize = idx / workers;
        proof {
            lemma_every_index_once(total as int, workers as int, idx as int);
            assert(replies@[w as int]@ == answers(queues@[w as int]@));
            let place = index_at(w as int, k as int, workers as int);
            assert(is_task(queues@[w as int]@[k as int], a@, b@, place));
            assert(replies@[w as int]@[k as int] == queues@[w as int]@[k as int].answer());
        }
        let reply = &replies[w][k];
        match collector.store(MsgOutput { idx: reply.idx, value: reply.value }) {
            Ok(()) => {},
            Err(e) => {
                return Err(e);
            },
        }
        idx += 1;
    }
    match collector.finish() {
        Ok(data) => {
            let m = Matrix { data, row: a.row, col: b.col };
            assert(m@.data =~= product(a@, b@).data);
            Ok(m)
        },
        Err(e) => Err(e),
    }
}

/// Multiplies `a` by `b` on `NUM_THREADS` workers: the cell in row `i` and
/// column `j` of the result is the reduction of row `i` of `a` and column
/// `j` of `b`. Operands whose shapes do not fit are refused before any task
/// is made. The number of cells of the result must fit a `usize`.
pub fn multiply<T: Numeric>(a: &Matrix<T>, b: &Matrix<T>) -> (r: Result<Matrix<T>, Error>)
    requires
        a@.col == b@.row ==> a@.row * b@.col <= usize::MAX,
    ensures
        a@.col != b@.row ==> r is Err && r->Err_0 == Error::DimensionMismatch,
        a@.col == b@.row ==> r is Ok && r->Ok_0@ == product(a@, b@),
        r is Ok ==> r->Ok_0@.row == a@.row && r->Ok_0@.col == b@.col && r->Ok_0@.wf(),
{
    multiply_with(a, b, NUM_THREADS)
}

impl<T: Numeric> vstd::std_specs::ops::MulSpecImpl for Matrix<T> {
    open spec fn obeys_mul_spec() -> bool {
        false
    }

    /// `a * b` is for operands whose shapes fit.
    open spec fn mul_req(self, rhs: Matrix<T>) -> bool {
        self@.col == rhs@.row && self@.row * rhs@.col <= usize::MAX
    }

    open spec fn mul_spec(self, rhs: Matrix<T>) -> Matrix<T> {
        arbitrary()
    }
}

impl<T: Numeric> core::ops::Mul for Matrix<T> {
    type Output = Matrix<T>;

    /// `a * b` is `multiply(&a, &b)` for operands whose shapes fit.
    fn mul(self, rhs: Matrix<T>) -> (m: Matrix<T>)
        ensures
            m@ == product(self@, rhs@),
    {
        match multiply(&self, &rhs) {
            Ok(m) => m,
            Err(_) => unreached(),
        }
    }
}

/// The textbook entry of a matrix product over the integers: the sum of
/// `a[i][k] * b[k][j]` for `k` below `n`.
pub open spec fn entry_sum<T: Numeric>(a: Grid<T>, b: Grid<T>, i: int, j: int, n: nat) -> int
    decreases n,
{
    if n == 0 {
        0
    } else {
        entry_sum(a, b, i, j, (n - 1) as nat) + a.at(i, n - 1).value() * b.at(n - 1, j).value()
    }
}

/// The product is the mathematical matrix product: its cell in row `i` and
/// column `j` stands for the sum of `a[i][k] * b[k][j]` over all `k`,
/// folded into the element type. Any other way of computing that sum in the
/// arithmetic of `T` therefore ends at the same cell.
pub proof fn lemma_product_entry<T: Numeric>(a: Grid<T>, b: Grid<T>, i: int, j: int)
    requires
        a.col == b.row,
        0 <= i < a.row,
        0 <= j < b.col,
    ensures
        product(a, b).at(i, j) == T::wrap(entry_sum(a, b, i, j, a.col)),
{
    let idx = i * b.col + j;
    lemma_cell_in_range(a.row as int, b.col as int, i, j);
    lemma_fundamental_div_mod_converse(idx, b.col as int, i, j);
    lemma_dot_is_wrapped_sum(a.row_at(i), b.col_at(j), a.col);
    lemma_products_are_entry_sum(a, b, i, j, a.col);
}

proof fn lemma_products_are_entry_sum<T: Numeric>(a: Grid<T>, b: Grid<T>, i: int, j: int, n: nat)
    requires
        a.col == b.row,
        n <= a.col,
    ensures
        sum_of_products(a.row_at(i), b.col_at(j), n) == entry_sum(a, b, i, j, n),
    decreases n,
{
    if n > 0 {
        lemma_products_are_entry_sum(a, b, i, j, (n - 1) as nat);
    }
}

/// A row inside the shape lies inside the data.
pub proof fn lemma_row_in_range(row: int, col: int, i: int)
    requires
        0 <= i < row,
        0 <= col,
    ensures
        0 <= i * col,
        i * col + col <= row * col,
{
    assert(0 <= i * col && i * col + col <= row * col) by (nonlinear_arith)
        requires
            0 <= i < row,
            0 <= col,
    ;
}

/// A position inside the shape has a row-major index inside the data.
pub proof fn lemma_cell_in_range(row: int, col: int, i: int, j: int)
    requires
        0 <= i < row,
        0 <= j < col,
    ensures
        0 <= i * col <= i * col + j < row * col,
{
    lemma_row_in_range(row, col, i);
}

} // verus!
