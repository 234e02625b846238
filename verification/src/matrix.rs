//! Matrix multiplication split into work items: one row of the result per
//! worker, each entry the dot product of a row of the left matrix with a
//! column of the right one; the rows come back in any order and are put in
//! place.

use vstd::prelude::*;
use vstd::arithmetic::div_mod::lemma_fundamental_div_mod_converse;

verus! {

/// The matrices of the exercise are this many rows by this many columns.
pub const MATRIX_SIZE: usize = 3;

/// `v` is a value of type `i32`.
pub open spec fn fits_i32(v: int) -> bool {
    i32::MIN <= v <= i32::MAX
}

/// The number of pairs that zipping `row` with `col` yields.
pub open spec fn pair_count(row: Seq<i32>, col: Seq<i32>) -> int {
    if row.len() <= col.len() {
        row.len() as int
    } else {
        col.len() as int
    }
}

/// The sum of the first `k` pairwise products of `row` and `col`.
pub open spec fn dot_prefix(row: Seq<i32>, col: Seq<i32>, k: int) -> int
    decreases k,
{
    if k <= 0 {
        0
    } else {
        dot_prefix(row, col, k - 1) + row[k - 1] * col[k - 1]
    }
}

/// The dot product of `row` and `col` over the pairs that zipping them yields.
pub open spec fn dot(row: Seq<i32>, col: Seq<i32>) -> int {
    dot_prefix(row, col, pair_count(row, col))
}

/// Summing the pairwise products in `i32` overflows nowhere: each product and
/// each partial sum is an `i32`.
pub open spec fn dot_fits(row: Seq<i32>, col: Seq<i32>) -> bool {
    forall|k: int|
        0 <= k < pair_count(row, col) ==> fits_i32(#[trigger] (row[k] * col[k])) && fits_i32(
            dot_prefix(row, col, k + 1),
        )
}

/// The dot product of `row` and `col` in `i32`, or `None` where the
/// computation overflows.
pub fn checked_multiply_row_by_col(row: &[i32], col: &[i32]) -> (r: Option<i32>)
    ensures
        r == (if dot_fits(row@, col@) {
            Some(dot(row@, col@) as i32)
        } else {
            None
        }),
{
    let m: usize = if row.len() <= col.len() {
        row.len()
    } else {
        col.len()
    };
    let mut sum: i32 = 0;
    let mut k: usize = 0;
    while k < m
        invariant
            k <= m,
            m == pair_count(row@, col@),
            sum as int == dot_prefix(row@, col@, k as int),
            forall|t: int|
                0 <= t < k ==> fits_i32(#[trigger] (row@[t] * col@[t])) && fits_i32(
                    dot_prefix(row@, col@, t + 1),
                ),
        decreases m - k,
    {
        let p = row[k].checked_mul(col[k]);
        match p {
            None => {
                assert(!fits_i32(row@[k as int] * col@[k as int]));
                return None;
            },
            Some(p) => {
                match sum.checked_add(p) {
                    None => {
                        assert(!fits_i32(dot_prefix(row@, col@, k + 1)));
                        return None;
                    },
                    Some(s) => {
                        sum = s;
                    },
                }
            },
        }
        k = k + 1;
    }
    Some(sum)
}

/// The dot product of `row` and `col`: the sum of the products of the pairs
/// that zipping them yields.
pub fn multiply_row_by_col(row: &[i32], col: &[i32]) -> (r: i32)
    requires
        dot_fits(row@, col@),
    ensures
        r == dot(row@, col@),
{
    match checked_multiply_row_by_col(row, col) {
        Some(v) => v,
        None => 0,
    }
}

/// Column `j` of the matrix whose rows are `m`.
pub open spec fn column(m: Seq<Seq<i32>>, j: int) -> Seq<i32> {
    Seq::new(m.len(), |k: int| m[k][j])
}

/// The first `n` columns of `m`, each as a row.
pub open spec fn transposed(m: Seq<Seq<i32>>, n: int) -> Seq<Seq<i32>> {
    Seq::new(n as nat, |j: int| column(m, j))
}

/// Every row of `m` has at least `n` entries.
pub open spec fn rows_reach(m: Seq<Seq<i32>>, n: int) -> bool {
    forall|k: int| 0 <= k < m.len() ==> #[trigger] m[k].len() >= n
}

/// The first `n` columns of `m`, each as a row (the matrix transposed).
pub fn transpose(m: &Vec<Vec<i32>>, n: usize) -> (t: Vec<Vec<i32>>)
    requires
        rows_reach(m.deep_view(), n as int),
    ensures
        t.deep_view() == transposed(m.deep_view(), n as int),
{
    let mut t: Vec<Vec<i32>> = Vec::new();
    let mut j: usize = 0;
    while j < n
        invariant
            j <= n,
            rows_reach(m.deep_view(), n as int),
            t.deep_view() =~= transposed(m.deep_view(), j as int),
        decreases n - j,
    {
        let mut col: Vec<i32> = Vec::new();
        let mut k: usize = 0;
        while k < m.len()
            invariant
                j < n,
                k <= m.len(),
                rows_reach(m.deep_view(), n as int),
                col@ =~= column(m.deep_view(), j as int).take(k as int),
            decreases m.len() - k,
        {
            assert(m.deep_view()[k as int] == m@[k as int]@);
            col.push(m[k][j]);
            k = k + 1;
        }
        assert(column(m.deep_view(), j as int).take(m.len() as int) =~= column(m.deep_view(), j as int));
        let ghost before = t.deep_view();
        t.push(col);
        assert(t.deep_view() =~= before.push(column(m.deep_view(), j as int))) by {
            assert(t.deep_view().len() == before.len() + 1);
            assert forall|i: int| 0 <= i < t.deep_view().len() implies #[trigger] t.deep_view()[i]
                == before.push(column(m.deep_view(), j as int))[i] by {
                if i < before.len() {
                    assert(t.deep_view()[i] == t@[i]@);
                }
            }
        }
        j = j + 1;
    }
    t
}

/// The entries `dot(row, cols[j])` for `j < n`, each an `i32`.
pub open spec fn row_times_cols(row: Seq<i32>, cols: Seq<Seq<i32>>, n: int) -> Seq<i32> {
    Seq::new(n as nat, |j: int| dot(row, cols[j]) as i32)
}

/// Every entry `dot(row, cols[j])`, `j < n`, is computed without overflow.
pub open spec fn row_fits(row: Seq<i32>, cols: Seq<Seq<i32>>, n: int) -> bool {
    forall|j: int| 0 <= j < n ==> dot_fits(row, #[trigger] cols[j])
}

/// One row of the product: the dot products of `row` with the first `n` rows
/// of `cols` (the columns of the right matrix), or `None` where there are
/// fewer than `n` of them or a dot product overflows.
pub fn checked_result_row(row: &Vec<i32>, cols: &Vec<Vec<i32>>, n: usize) -> (r: Option<Vec<i32>>)
    ensures
        r is Some <==> (cols.len() >= n && row_fits(row@, cols.deep_view(), n as int)),
        r matches Some(v) ==> v@ == row_times_cols(row@, cols.deep_view(), n as int),
{
    if cols.len() < n {
        return None;
    }
    let mut out: Vec<i32> = Vec::new();
    let mut j: usize = 0;
    while j < n
        invariant
            j <= n <= cols.len(),
            row_fits(row@, cols.deep_view(), j as int),
            out@ =~= row_times_cols(row@, cols.deep_view(), j as int),
        decreases n - j,
    {
        assert(cols.deep_view()[j as int] == cols@[j as int]@);
        match checked_multiply_row_by_col(row.as_slice(), cols[j].as_slice()) {
            None => {
                return None;
            },
            Some(v) => {
                out.push(v);
            },
        }
        j = j + 1;
    }
    Some(out)
}

/// One row of the product: entry `j` is the dot product of `row` with
/// `cols[j]`, for `j < n`.
pub fn compute_result_row(row: &Vec<i32>, cols: &Vec<Vec<i32>>, n: usize) -> (r: Vec<i32>)
    requires
        cols.len() >= n,
        row_fits(row@, cols.deep_view(), n as int),
    ensures
        r@ == row_times_cols(row@, cols.deep_view(), n as int),
{
    match checked_result_row(row, cols, n) {
        Some(v) => v,
        None => Vec::new(),
    }
}

/// The `n` by `n` matrix of zeros.
pub open spec fn zero_rows(n: int) -> Seq<Seq<i32>> {
    Seq::new(n as nat, |i: int| Seq::new(n as nat, |j: int| 0i32))
}

/// A received row as a pair of plain values.
pub open spec fn message_view(m: (usize, Vec<i32>)) -> (usize, Seq<i32>) {
    (m.0, m.1@)
}

/// The received rows as pairs of plain values.
pub open spec fn messages_view(received: Seq<(usize, Vec<i32>)>) -> Seq<(usize, Seq<i32>)> {
    received.map_values(|m: (usize, Vec<i32>)| message_view(m))
}

/// Every received row index is below `n`.
pub open spec fn indices_below(received: Seq<(usize, Seq<i32>)>, n: int) -> bool {
    forall|t: int| 0 <= t < received.len() ==> (#[trigger] received[t]).0 < n
}

/// The matrix that starts as `zero_rows(n)` and has, in order, row `m.0`
/// replaced by `m.1` for each received `m`.
pub open spec fn assembled(received: Seq<(usize, Seq<i32>)>, n: int) -> Seq<Seq<i32>>
    decreases received.len(),
{
    if received.len() == 0 {
        zero_rows(n)
    } else {
        let prev = assembled(received.drop_last(), n);
        let last = received.last();
        if last.0 < prev.len() {
            prev.update(last.0 as int, last.1)
        } else {
            prev
        }
    }
}

/// The `n` by `n` matrix of zeros.
pub fn zero_matrix(n: usize) -> (z: Vec<Vec<i32>>)
    ensures
        z.deep_view() == zero_rows(n as int),
{
    let mut z: Vec<Vec<i32>> = Vec::new();
    let mut i: usize = 0;
    while i < n
        invariant
            i <= n,
            z.deep_view() =~= zero_rows(n as int).take(i as int),
        decreases n - i,
    {
        let mut row: Vec<i32> = Vec::new();
        let mut j: usize = 0;
        while j < n
            invariant
                j <= n,
                row@ =~= Seq::new(j as nat, |k: int| 0i32),
            decreases n - j,
        {
            row.push(0);
            j = j + 1;
        }
        let ghost before = z.deep_view();
        z.push(row);
        assert(z.deep_view() =~= before.push(Seq::new(n as nat, |k: int| 0i32))) by {
            assert forall|t: int| 0 <= t < z.deep_view().len() implies #[trigger] z.deep_view()[t]
                == before.push(Seq::new(n as nat, |k: int| 0i32))[t] by {
                if t < before.len() {
                    assert(z.deep_view()[t] == z@[t]@);
                }
            }
        }
        i = i + 1;
    }
    assert(zero_rows(n as int).take(n as int) =~= zero_rows(n as int));
    z
}

/// Puts the received rows in place: starting from the `n` by `n` zero
/// matrix, row `i` is replaced by `row` for each received `(i, row)`, in the
/// order received.
pub fn assemble_rows(received: &Vec<(usize, Vec<i32>)>, n: usize) -> (c: Vec<Vec<i32>>)
    requires
        indices_below(messages_view(received@), n as int),
    ensures
        c.deep_view() == assembled(messages_view(received@), n as int),
{
    let mut c = zero_matrix(n);
    let mut t: usize = 0;
    while t < received.len()
        invariant
            t <= received.len(),
            indices_below(messages_view(received@), n as int),
            c.deep_view().len() == n,
            c.deep_view() =~= assembled(messages_view(received@).take(t as int), n as int),
        decreases received.len() - t,
    {
        let ghost msgs = messages_view(received@);
        assert(msgs.take(t + 1).drop_last() =~= msgs.take(t as int));
        assert(msgs[t as int] == message_view(received@[t as int]));
        let idx = received[t].0;
        let row = received[t].1.clone();
        assert(row@ =~= received@[t as int].1@);
        let ghost before = c.deep_view();
        c.set(idx, row);
        assert(c.deep_view() =~= before.update(idx as int, row@)) by {
            assert forall|k: int| 0 <= k < c.deep_view().len() implies #[trigger] c.deep_view()[k]
                == before.update(idx as int, row@)[k] by {
                assert(c.deep_view()[k] == c@[k]@);
            }
        }
        t = t + 1;
    }
    assert(messages_view(received@).take(received.len() as int) =~= messages_view(received@));
    c
}

proof fn lemma_assembled_len(received: Seq<(usize, Seq<i32>)>, n: int)
    requires
        0 <= n,
    ensures
        assembled(received, n).len() == n,
    decreases received.len(),
{
    if received.len() > 0 {
        lemma_assembled_len(received.drop_last(), n);
    }
}

/// A row received after the others replaces the row with its index and
/// leaves every other row as it was: the last row received for an index wins.
pub proof fn lemma_later_row_wins(received: Seq<(usize, Seq<i32>)>, m: (usize, Seq<i32>), n: int)
    requires
        0 <= n,
        m.0 < n,
    ensures
        assembled(received.push(m), n).len() == n,
        assembled(received.push(m), n)[m.0 as int] == m.1,
        forall|k: int|
            0 <= k < n && k != m.0 ==> #[trigger] assembled(received.push(m), n)[k] == assembled(received, n)[k],
{
    lemma_assembled_len(received, n);
    assert(received.push(m).drop_last() =~= received);
    assert(received.push(m).last() == m);
}

/// The `n` by `n` product of `a` and `b`: entry `(i, j)` is the dot product
/// of row `i` of `a` with column `j` of `b`, as an `i32`.
pub open spec fn matrix_product(a: Seq<Seq<i32>>, b: Seq<Seq<i32>>, n: int) -> Seq<Seq<i32>> {
    Seq::new(n as nat, |i: int| Seq::new(n as nat, |j: int| dot(a[i], column(b, j)) as i32))
}

/// Some received row carries index `k`.
pub open spec fn index_received(received: Seq<(usize, Seq<i32>)>, k: int) -> bool {
    exists|t: int| 0 <= t < received.len() && (#[trigger] received[t]).0 == k
}

proof fn lemma_assembled_rows(received: Seq<(usize, Seq<i32>)>, n: int, p: Seq<Seq<i32>>)
    requires
        0 <= n,
        p.len() == n,
        forall|t: int|
            0 <= t < received.len() ==> (#[trigger] received[t]).0 < n && received[t].1 == p[received[t].0 as int],
    ensures
        assembled(received, n).len() == n,
        forall|k: int|
            0 <= k < n ==> #[trigger] assembled(received, n)[k] == (if index_received(received, k) {
                p[k]
            } else {
                zero_rows(n)[k]
            }),
    decreases received.len(),
{
    if received.len() > 0 {
        let prev = received.drop_last();
        assert forall|t: int| 0 <= t < prev.len() implies (#[trigger] prev[t]).0 < n && prev[t].1
            == p[prev[t].0 as int] by {
            assert(prev[t] == received[t]);
        }
        lemma_assembled_rows(prev, n, p);
        let last = received.last();
        assert(received[received.len() - 1] == last);
        assert forall|k: int| 0 <= k < n implies #[trigger] assembled(received, n)[k] == (if index_received(received, k) {
            p[k]
        } else {
            zero_rows(n)[k]
        }) by {
            if k == last.0 {
                assert(index_received(received, k));
            } else {
                if index_received(received, k) {
                    let t = choose|t: int| 0 <= t < received.len() && (#[trigger] received[t]).0 == k;
                    assert(t < prev.len());
                    assert(prev[t] == received[t]);
                    assert(index_received(prev, k));
                } else {
                    if index_received(prev, k) {
                        let t = choose|t: int| 0 <= t < prev.len() && (#[trigger] prev[t]).0 == k;
                        assert(prev[t] == received[t]);
                    }
                }
            }
        }
    }
}

/// The rows that the workers compute, received in any order and any number
/// of times, put together give the product once every row index has been
/// received.
pub proof fn lemma_assembly_gives_product(
    a: Seq<Seq<i32>>,
    b: Seq<Seq<i32>>,
    n: int,
    received: Seq<(usize, Seq<i32>)>,
)
    requires
        0 <= n <= a.len(),
        forall|t: int|
            0 <= t < received.len() ==> (#[trigger] received[t]).0 < n && received[t].1
                == row_times_cols(a[received[t].0 as int], transposed(b, n), n),
        forall|k: int| 0 <= k < n ==> index_received(received, k),
    ensures
        assembled(received, n) == matrix_product(a, b, n),
{
    let p = matrix_product(a, b, n);
    assert forall|i: int| 0 <= i < n implies row_times_cols(a[i], transposed(b, n), n) == #[trigger] p[i] by {
        assert(row_times_cols(a[i], transposed(b, n), n) =~= p[i]);
    }
    assert forall|t: int| 0 <= t < received.len() implies (#[trigger] received[t]).0 < n
        && received[t].1 == p[received[t].0 as int] by {
        let i = received[t].0 as int;
        assert(row_times_cols(a[i], transposed(b, n), n) == p[i]);
    }
    lemma_assembled_rows(received, n, p);
    assert(assembled(received, n) =~= p);
}

/// For matrices stored row after row, `n` entries a row: the sum over
/// `t < k` of `a[row * n + t] * b[t * n + j]`.
pub open spec fn flat_dot_prefix(a: Seq<i32>, b: Seq<i32>, row: int, n: int, j: int, k: int) -> int
    decreases k,
{
    if k <= 0 {
        0
    } else {
        flat_dot_prefix(a, b, row, n, j, k - 1) + a[row * n + (k - 1)] * b[(k - 1) * n + j]
    }
}

/// Entry `(row, j)` of the product of the `n` by `n` matrices stored row
/// after row in `a` and `b`.
pub open spec fn flat_entry(a: Seq<i32>, b: Seq<i32>, row: int, n: int, j: int) -> int {
    flat_dot_prefix(a, b, row, n, j, n)
}

/// Every index that computing row `row` of the product reads is in range.
pub open spec fn flat_indices_ok(a: Seq<i32>, b: Seq<i32>, row: int, n: int) -> bool {
    n == 0 || (row * n + n <= a.len() && n * n <= b.len())
}

/// Accumulating entry `(row, j)` in `i32` overflows nowhere.
pub open spec fn flat_entry_fits(a: Seq<i32>, b: Seq<i32>, row: int, n: int, j: int) -> bool {
    forall|k: int|
        0 <= k < n ==> fits_i32(#[trigger] (a[row * n + k] * b[k * n + j])) && fits_i32(
            flat_dot_prefix(a, b, row, n, j, k + 1),
        )
}

/// Row `row` of the product can be computed: its indices are in range and
/// none of its entries overflows.
pub open spec fn flat_row_fits(a: Seq<i32>, b: Seq<i32>, row: int, n: int) -> bool {
    &&& flat_indices_ok(a, b, row, n)
    &&& forall|j: int| 0 <= j < n ==> #[trigger] flat_entry_fits(a, b, row, n, j)
}

/// Row `row` of the product of the `n` by `n` matrices stored row after row
/// in `a` and `b`.
pub open spec fn flat_row(a: Seq<i32>, b: Seq<i32>, row: int, n: int) -> Seq<i32> {
    Seq::new(n as nat, |j: int| flat_entry(a, b, row, n, j) as i32)
}

proof fn lemma_flat_index_in_range(k: int, j: int, n: int)
    requires
        0 <= k < n,
        0 <= j < n,
    ensures
        0 <= k * n + j < n * n,
{
    assert(k * n + j < n * n) by (nonlinear_arith)
        requires
            0 <= k < n,
            0 <= j < n,
    ;
    assert(0 <= k * n) by (nonlinear_arith)
        requires
            0 <= k,
            0 <= n,
    ;
}

/// Row `row` of the product of the `n` by `n` matrices stored row after row
/// in `a` and `b`, or `None` where an index is out of range or an entry
/// overflows.
pub fn checked_worker_row(a: &Vec<i32>, b: &Vec<i32>, row: usize, n: usize) -> (r: Option<Vec<i32>>)
    ensures
        r is Some <==> flat_row_fits(a@, b@, row as int, n as int),
        r matches Some(v) ==> v@ == flat_row(a@, b@, row as int, n as int),
{
    if n == 0 {
        assert(flat_row(a@, b@, row as int, 0) =~= Seq::<i32>::empty());
        return Some(Vec::new());
    }
    let alen = a.len();
    let blen = b.len();
    let base = match row.checked_mul(n) {
        Some(v) => v,
        None => {
            assert(row * n + n > a@.len());
            return None;
        },
    };
    match base.checked_add(n) {
        Some(end) => {
            if end > alen {
                return None;
            }
        },
        None => {
            assert(row * n + n > a@.len());
            return None;
        },
    }
    match n.checked_mul(n) {
        Some(nn) => {
            if nn > blen {
                return None;
            }
        },
        None => {
            assert(n * n > b@.len());
            return None;
        },
    }
    assert(flat_indices_ok(a@, b@, row as int, n as int));
    let mut out: Vec<i32> = Vec::new();
    let mut j: usize = 0;
    while j < n
        invariant
            0 < n,
            j <= n,
            base == row * n,
            alen == a@.len(),
            blen == b@.len(),
            flat_indices_ok(a@, b@, row as int, n as int),
            forall|jj: int| 0 <= jj < j ==> #[trigger] flat_entry_fits(a@, b@, row as int, n as int, jj),
            out@ =~= flat_row(a@, b@, row as int, n as int).take(j as int),
        decreases n - j,
    {
        let mut sum: i32 = 0;
        let mut k: usize = 0;
        while k < n
            invariant
                0 < n,
                j < n,
                k <= n,
                base == row * n,
                alen == a@.len(),
                blen == b@.len(),
                flat_indices_ok(a@, b@, row as int, n as int),
                sum as int == flat_dot_prefix(a@, b@, row as int, n as int, j as int, k as int),
                forall|t: int|
                    0 <= t < k ==> fits_i32(#[trigger] (a@[row * n + t] * b@[t * n + j]))
                        && fits_i32(flat_dot_prefix(a@, b@, row as int, n as int, j as int, t + 1)),
            decreases n - k,
        {
            proof {
                lemma_flat_index_in_range(k as int, j as int, n as int);
                assert(row * n + n <= a@.len());
                assert(n * n <= b@.len());
                assert(base + k < a@.len());
            }
            let x = a[base + k];
            let y = b[k * n + j];
            match x.checked_mul(y) {
                None => {
                    assert(!fits_i32(a@[row * n + k] * b@[k * n + j]));
                    assert(!flat_entry_fits(a@, b@, row as int, n as int, j as int));
                    return None;
                },
                Some(p) => {
                    match sum.checked_add(p) {
                        None => {
                            assert(!fits_i32(
                                flat_dot_prefix(a@, b@, row as int, n as int, j as int, k + 1),
                            ));
                            assert(!flat_entry_fits(a@, b@, row as int, n as int, j as int));
                            return None;
                        },
                        Some(s) => {
                            sum = s;
                        },
                    }
                },
            }
            k = k + 1;
        }
        assert(flat_entry_fits(a@, b@, row as int, n as int, j as int));
        out.push(sum);
        j = j + 1;
    }
    assert(flat_row(a@, b@, row as int, n as int).take(n as int) =~= flat_row(a@, b@, row as int, n as int));
    Some(out)
}

/// Row `row` of the product of the `n` by `n` matrices stored row after row
/// in `a` and `b`: entry `j` is the sum over `k < n` of
/// `a[row * n + k] * b[k * n + j]`.
pub fn worker_row(a: &Vec<i32>, b: &Vec<i32>, row: usize, n: usize) -> (r: Vec<i32>)
    requires
        flat_row_fits(a@, b@, row as int, n as int),
    ensures
        r@ == flat_row(a@, b@, row as int, n as int),
{
    match checked_worker_row(a, b, row, n) {
        Some(v) => v,
        None => Vec::new(),
    }
}

/// The entries of `m` row after row, `n` entries a row.
pub open spec fn flattened(m: Seq<Seq<i32>>, n: int) -> Seq<i32> {
    Seq::new((m.len() * n) as nat, |p: int| m[p / n][p % n])
}

/// `m` has `n` rows of `n` entries.
pub open spec fn is_square(m: Seq<Seq<i32>>, n: int) -> bool {
    m.len() == n && forall|k: int| 0 <= k < n ==> #[trigger] m[k].len() == n
}

proof fn lemma_flattened_index(m: Seq<Seq<i32>>, n: int, q: int, r: int)
    requires
        is_square(m, n),
        0 <= q < n,
        0 <= r < n,
    ensures
        0 <= q * n + r < flattened(m, n).len(),
        flattened(m, n)[q * n + r] == m[q][r],
{
    lemma_flat_index_in_range(q, r, n);
    lemma_fundamental_div_mod_converse(q * n + r, n, q, r);
}

proof fn lemma_flat_prefix_is_dot_prefix(a: Seq<Seq<i32>>, b: Seq<Seq<i32>>, n: int, row: int, j: int, k: int)
    requires
        is_square(a, n),
        is_square(b, n),
        0 <= row < n,
        0 <= j < n,
        0 <= k <= n,
    ensures
        flat_dot_prefix(flattened(a, n), flattened(b, n), row, n, j, k) == dot_prefix(a[row], column(b, j), k),
        forall|kk: int| 0 <= kk <= k ==> #[trigger] flat_dot_prefix(flattened(a, n), flattened(b, n), row, n, j, kk)
            == dot_prefix(a[row], column(b, j), kk),
        forall|t: int| 0 <= t < k ==> flattened(a, n)[row * n + t] * flattened(b, n)[t * n + j]
            == #[trigger] (a[row][t] * column(b, j)[t]),
    decreases k,
{
    if k > 0 {
        lemma_flat_prefix_is_dot_prefix(a, b, n, row, j, k - 1);
        lemma_flattened_index(a, n, row, k - 1);
        lemma_flattened_index(b, n, k - 1, j);
    }
}

/// A worker that computes row `row` from the two matrices stored row after
/// row computes row `row` of their product, and it overflows exactly where
/// computing that row from the rows of `a` and the columns of `b` does.
pub proof fn lemma_worker_row_is_product_row(a: Seq<Seq<i32>>, b: Seq<Seq<i32>>, n: int, row: int)
    requires
        is_square(a, n),
        is_square(b, n),
        0 <= row < n,
    ensures
        flat_row_fits(flattened(a, n), flattened(b, n), row, n) <==> row_fits(a[row], transposed(b, n), n),
        flat_row(flattened(a, n), flattened(b, n), row, n) == matrix_product(a, b, n)[row],
{
    let fa = flattened(a, n);
    let fb = flattened(b, n);
    assert(row * n + n <= n * n) by (nonlinear_arith)
        requires
            0 <= row < n,
    ;
    assert(flat_indices_ok(fa, fb, row, n));
    assert forall|j: int| 0 <= j < n implies (#[trigger] flat_entry_fits(fa, fb, row, n, j)
        <==> dot_fits(a[row], transposed(b, n)[j])) && flat_entry(fa, fb, row, n, j) == dot(a[row], column(b, j)) by {
        let col = column(b, j);
        assert(transposed(b, n)[j] == col);
        assert(pair_count(a[row], col) == n);
        lemma_flat_prefix_is_dot_prefix(a, b, n, row, j, n);
        if flat_entry_fits(fa, fb, row, n, j) {
            assert forall|k: int| 0 <= k < pair_count(a[row], col) implies fits_i32(#[trigger] (a[row][k] * col[k]))
                && fits_i32(dot_prefix(a[row], col, k + 1)) by {
                assert(fits_i32(fa[row * n + k] * fb[k * n + j]));
            }
        }
        if dot_fits(a[row], col) {
            assert forall|k: int| 0 <= k < n implies fits_i32(#[trigger] (fa[row * n + k] * fb[k * n + j]))
                && fits_i32(flat_dot_prefix(fa, fb, row, n, j, k + 1)) by {
                assert(fits_i32(a[row][k] * col[k]));
            }
        }
    }
    assert forall|j: int| 0 <= j < n implies #[trigger] flat_row(fa, fb, row, n)[j] == matrix_product(a, b, n)[row][j] by {
        assert(flat_entry_fits(fa, fb, row, n, j) <==> dot_fits(a[row], transposed(b, n)[j]));
    }
    assert(flat_row(fa, fb, row, n) =~= matrix_product(a, b, n)[row]);
    if flat_row_fits(fa, fb, row, n) {
        assert forall|j: int| 0 <= j < n implies dot_fits(a[row], #[trigger] transposed(b, n)[j]) by {
            assert(flat_entry_fits(fa, fb, row, n, j));
        }
    }
    if row_fits(a[row], transposed(b, n), n) {
        assert forall|j: int| 0 <= j < n implies #[trigger] flat_entry_fits(fa, fb, row, n, j) by {
            assert(dot_fits(a[row], transposed(b, n)[j]));
        }
    }
}

/// The sum of the entries of `s`.
pub open spec fn seq_sum(s: Seq<int>) -> int
    decreases s.len(),
{
    if s.len() == 0 {
        0
    } else {
        seq_sum(s.drop_last()) + s.last()
    }
}

/// Some entry of `p` is `i`.
pub open spec fn listed(p: Seq<int>, i: int) -> bool {
    exists|k: int| 0 <= k < p.len() && #[trigger] p[k] == i
}

/// `p` lists each of `0, 1, ..., n - 1` exactly once.
pub open spec fn is_permutation(p: Seq<int>, n: int) -> bool {
    &&& p.len() == n
    &&& forall|k: int| 0 <= k < n ==> 0 <= #[trigger] p[k] < n
    &&& forall|k1: int, k2: int| 0 <= k1 < n && 0 <= k2 < n && k1 != k2 ==> #[trigger] p[k1] != #[trigger] p[k2]
    &&& forall|i: int| 0 <= i < n ==> #[trigger] listed(p, i)
}

/// `s` reordered by `p`: entry `k` is `s[p[k]]`.
pub open spec fn permuted(s: Seq<i32>, p: Seq<int>) -> Seq<i32> {
    Seq::new(p.len(), |k: int| s[p[k]])
}

/// The pairwise products of `row` and `col`.
pub open spec fn products(row: Seq<i32>, col: Seq<i32>, n: int) -> Seq<int> {
    Seq::new(n as nat, |k: int| row[k] * col[k])
}

proof fn lemma_dot_prefix_is_sum(row: Seq<i32>, col: Seq<i32>, n: int, k: int)
    requires
        0 <= k <= n,
    ensures
        dot_prefix(row, col, k) == seq_sum(products(row, col, n).take(k)),
    decreases k,
{
    if k > 0 {
        lemma_dot_prefix_is_sum(row, col, n, k - 1);
        assert(products(row, col, n).take(k).drop_last() =~= products(row, col, n).take(k - 1));
    }
}

proof fn lemma_sum_update(s: Seq<int>, j: int, v: int)
    requires
        0 <= j < s.len(),
    ensures
        seq_sum(s.update(j, v)) == seq_sum(s) - s[j] + v,
    decreases s.len(),
{
    let t = s.update(j, v);
    if j < s.len() - 1 {
        lemma_sum_update(s.drop_last(), j, v);
        assert(t.drop_last() =~= s.drop_last().update(j, v));
    } else {
        assert(t.drop_last() =~= s.drop_last());
    }
}

proof fn lemma_sum_permuted(s: Seq<int>, p: Seq<int>)
    requires
        is_permutation(p, s.len() as int),
    ensures
        seq_sum(Seq::new(p.len(), |k: int| s[p[k]])) == seq_sum(s),
    decreases s.len(),
{
    let n = s.len() as int;
    let g = Seq::new(p.len(), |k: int| s[p[k]]);
    if n > 0 {
        assert(listed(p, n - 1));
        let j = choose|k: int| 0 <= k < p.len() && #[trigger] p[k] == n - 1;
        let q = p.update(j, p[n - 1]).drop_last();
        assert forall|k: int| 0 <= k < n - 1 implies 0 <= #[trigger] q[k] < n - 1 by {
            if k == j {
                assert(p[n - 1] != p[j]);
            } else {
                assert(p[k] != p[j]);
            }
        }
        assert forall|k1: int, k2: int| 0 <= k1 < n - 1 && 0 <= k2 < n - 1 && k1 != k2 implies #[trigger] q[k1]
            != #[trigger] q[k2] by {
            if k1 == j {
                assert(p[n - 1] != p[k2]);
            } else if k2 == j {
                assert(p[k1] != p[n - 1]);
            } else {
                assert(p[k1] != p[k2]);
            }
        }
        assert forall|i: int| 0 <= i < n - 1 implies #[trigger] listed(q, i) by {
            assert(listed(p, i));
            let k = choose|k: int| 0 <= k < p.len() && #[trigger] p[k] == i;
            if k == n - 1 {
                assert(q[j] == i);
            } else {
                assert(k != j);
                assert(q[k] == i);
            }
        }
        let t = s.drop_last();
        lemma_sum_permuted(t, q);
        let g2 = Seq::new(q.len(), |k: int| t[q[k]]);
        lemma_sum_update(g, j, g.last());
        assert(g.update(j, g.last()).drop_last() =~= g2) by {
            assert forall|k: int| 0 <= k < n - 1 implies #[trigger] g.update(j, g.last()).drop_last()[k] == g2[k] by {
                if k == j {
                    assert(q[k] == p[n - 1]);
                } else {
                    assert(q[k] == p[k]);
                    assert(p[k] != p[j]);
                }
            }
        }
        assert(g.update(j, g.last()).last() == g.last());
        assert(seq_sum(g.update(j, g.last())) == seq_sum(g2) + g.last());
        assert(g[j] == s[n - 1]);
    }
}

/// Reordering the entries of a row and of a column of the same length by
/// the same permutation leaves their dot product unchanged.
pub proof fn lemma_dot_invariant_under_shared_permutation(row: Seq<i32>, col: Seq<i32>, p: Seq<int>)
    requires
        row.len() == col.len(),
        is_permutation(p, row.len() as int),
    ensures
        dot(permuted(row, p), permuted(col, p)) == dot(row, col),
{
    let n = row.len() as int;
    let r2 = permuted(row, p);
    let c2 = permuted(col, p);
    let prods = products(row, col, n);
    lemma_dot_prefix_is_sum(row, col, n, n);
    lemma_dot_prefix_is_sum(r2, c2, n, n);
    assert(prods.take(n) =~= prods);
    assert(products(r2, c2, n).take(n) =~= Seq::new(p.len(), |k: int| prods[p[k]]));
    lemma_sum_permuted(prods, p);
}

} // verus!
