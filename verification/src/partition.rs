use vstd::prelude::*;
use vstd::arithmetic::div_mod::lemma_fundamental_div_mod;
use vstd::arithmetic::mul::lemma_mul_inequality;
use vstd::math::min;

use crate::ceil_div;

verus! {

/// The bounds that make `ceil_div(a, b)` the least multiple count covering
/// `a`: `ceil_div(a, b) * b` reaches `a`, and one stride less does not.
pub proof fn lemma_ceil_div_bounds(a: nat, b: nat)
    requires
        b > 0,
    ensures
        ceil_div(a, b) * b >= a,
        a > 0 ==> (ceil_div(a, b) - 1) * b < a,
        a > 0 ==> ceil_div(a, b) > 0,
        a == 0 ==> ceil_div(a, b) == 0,
        ceil_div(a, b) <= a,
{
    lemma_fundamental_div_mod(a as int, b as int);
    assert(a == b * (a / b) + a % b);
    if a % b == 0 {
        assert(ceil_div(a, b) * b == (a / b) * b);
        assert((a / b) * b == b * (a / b)) by (nonlinear_arith);
        if a > 0 {
            assert((a / b - 1) * b < a) by (nonlinear_arith)
                requires
                    b > 0,
                    a > 0,
                    a == b * (a / b),
            ;
        }
    } else {
        assert(ceil_div(a, b) * b == (a / b) * b + b) by (nonlinear_arith)
            requires
                ceil_div(a, b) == a / b + 1,
        ;
        assert((a / b) * b == b * (a / b)) by (nonlinear_arith);
        assert((a / b) * b < a) by (nonlinear_arith)
            requires
                a % b > 0,
                a == b * (a / b) + a % b,
        ;
        assert(b >= 2) by (nonlinear_arith)
            requires
                b > 0,
                a % b != 0,
        ;
        assert(a / b < a) by (nonlinear_arith)
            requires
                b >= 2,
                a > 0,
        ;
    }
    assert(a / b <= a) by (nonlinear_arith)
        requires
            b > 0,
            a >= 0,
    ;
}

/// `ceil_div` is pinned by those bounds: any `n` whose strides cover `a`
/// while `n - 1` strides fall short is the ceiling quotient.
pub proof fn lemma_ceil_div_unique(a: nat, b: nat, n: nat)
    requires
        b > 0,
        a > 0,
        n > 0,
        n * b >= a,
        (n - 1) * b < a,
    ensures
        ceil_div(a, b) == n,
{
    let m = ceil_div(a, b);
    lemma_ceil_div_bounds(a, b);
    if m < n {
        lemma_mul_inequality(m as int, (n - 1) as int, b as int);
        assert(m * b <= (n - 1) * b);
        assert(false);
    }
    if n < m {
        lemma_mul_inequality(n as int, (m - 1) as int, b as int);
        assert(n * b <= (m - 1) * b);
        assert(false);
    }
}

/// Rows assigned to shard `i` when the rows are dealt out `stride` at a
/// time: the half-open row range `[i * stride, (i + 1) * stride)`, clipped
/// to the source.
pub open spec fn shard_rows<T>(rows: Seq<T>, stride: nat, i: nat) -> Seq<T>
    recommends
        stride > 0,
{
    rows.subrange(min(i * stride as int, rows.len() as int), min((i + 1) * stride as int, rows.len() as int))
}

/// The first `n` shards, joined in shard-index order.
pub open spec fn concat_shards<T>(rows: Seq<T>, stride: nat, n: nat) -> Seq<T>
    decreases n,
{
    if n == 0 {
        Seq::empty()
    } else {
        concat_shards(rows, stride, (n - 1) as nat) + shard_rows(rows, stride, (n - 1) as nat)
    }
}

/// Joining the first `n` shards yields exactly the first `n * stride` rows.
pub proof fn lemma_concat_shards_prefix<T>(rows: Seq<T>, stride: nat, n: nat)
    requires
        stride > 0,
    ensures
        concat_shards(rows, stride, n) == rows.take(min(n * stride as int, rows.len() as int)),
    decreases n,
{
    if n == 0 {
        assert(concat_shards(rows, stride, n) =~= rows.take(0));
    } else {
        let k = (n - 1) as nat;
        lemma_concat_shards_prefix(rows, stride, k);
        assert(k * stride <= n * stride) by (nonlinear_arith)
            requires
                k < n,
                stride > 0,
        ;
        assert(concat_shards(rows, stride, n) =~= rows.take(
            min(n * stride as int, rows.len() as int),
        ));
    }
}

/// Order preservation: concatenating all shards' rows, in shard-index
/// order, reproduces the source rows in their original order. Both
/// execution strategies deal rows out this way — the sequential splitter
/// with `stride == rows_per_file`, the parallel splitter with
/// `stride == rows_per_chunk` — so both reassemble to the same source.
pub proof fn lemma_shards_reassemble<T>(rows: Seq<T>, stride: nat)
    requires
        stride > 0,
    ensures
        concat_shards(rows, stride, ceil_div(rows.len(), stride)) == rows,
{
    let fc = ceil_div(rows.len(), stride);
    lemma_ceil_div_bounds(rows.len(), stride);
    lemma_concat_shards_prefix(rows, stride, fc);
    assert(rows.take(min(fc * stride as int, rows.len() as int)) =~= rows);
}

/// Shard sizes: every shard holds at most `stride` rows; every shard but
/// the last holds exactly `stride`; the last holds what remains.
pub proof fn lemma_shard_sizes<T>(rows: Seq<T>, stride: nat, i: nat)
    requires
        stride > 0,
        rows.len() > 0,
        i < ceil_div(rows.len(), stride),
    ensures
        shard_rows(rows, stride, i).len() <= stride,
        i + 1 < ceil_div(rows.len(), stride) ==> shard_rows(rows, stride, i).len() == stride,
        i + 1 == ceil_div(rows.len(), stride) ==> shard_rows(rows, stride, i).len() == rows.len()
            - stride * (ceil_div(rows.len(), stride) - 1),
{
    let fc = ceil_div(rows.len(), stride);
    let len = rows.len();
    lemma_ceil_div_bounds(len, stride);
    lemma_mul_inequality(i as int, (fc - 1) as int, stride as int);
    assert(i * stride <= (fc - 1) * stride);
    assert(i * stride < len);
    assert((i + 1) * stride == i * stride + stride) by (nonlinear_arith);
    if i + 1 < fc {
        lemma_mul_inequality((i + 1) as int, (fc - 1) as int, stride as int);
    }
    if i + 1 == fc {
        assert((fc - 1) * stride == stride * (fc - 1)) by (nonlinear_arith);
    }
}

/// In an uneven split, only the last shard holds the remainder count: every
/// earlier shard holds `stride` rows, which differs from the remainder.
pub proof fn lemma_remainder_shard_unique<T>(rows: Seq<T>, stride: nat, i: nat)
    requires
        stride > 0,
        rows.len() % stride != 0,
        i + 1 < ceil_div(rows.len(), stride),
    ensures
        shard_rows(rows, stride, i).len() != rows.len() - stride * (ceil_div(rows.len(), stride)
            - 1),
{
    let fc = ceil_div(rows.len(), stride);
    let len = rows.len();
    lemma_fundamental_div_mod(len as int, stride as int);
    lemma_shard_sizes(rows, stride, i);
    assert(stride * (fc - 1) == stride * (len / stride)) by (nonlinear_arith)
        requires
            fc == len / stride + 1,
    ;
    assert(len - stride * (fc - 1) == len % stride);
}

/// The two strategies are observably alike where both are exact: they
/// produce the same number of shards — the owed
/// `ceil(rows / rows_per_file)` — and each strategy's shards, concatenated
/// in shard-index order, reproduce the same source rows in the same order.
/// (Their shard sizes differ: the sequential pass fills each shard to
/// `rows_per_file`, the parallel pass deals `rows_per_chunk` at a time.)
pub proof fn lemma_strategies_reassemble_alike<T>(rows: Seq<T>, rows_per_file: nat)
    requires
        rows_per_file > 0,
        rows.len() > 0,
    ensures
        ({
            let fc = ceil_div(rows.len(), rows_per_file);
            let rpc = ceil_div(rows.len(), fc);
            &&& ceil_div(rows.len(), rpc) == fc
            &&& concat_shards(rows, rows_per_file, fc) == rows
            &&& concat_shards(rows, rpc, fc) == rows
        }),
{
    let fc = ceil_div(rows.len(), rows_per_file);
    let rpc = ceil_div(rows.len(), fc);
    lemma_chunk_plan(rows.len(), rows_per_file);
    lemma_shards_reassemble(rows, rows_per_file);
    lemma_shards_reassemble(rows, rpc);
}

/// Row `k` of the source lands in shard `k / stride`, at position
/// `k % stride` among that shard's rows — the placement the sequential,
/// streaming splitter computes record by record.
pub proof fn lemma_shard_rows_index<T>(rows: Seq<T>, stride: nat, k: nat)
    requires
        stride > 0,
        k < rows.len(),
    ensures
        k % stride < shard_rows(rows, stride, k / stride).len(),
        shard_rows(rows, stride, k / stride)[(k % stride) as int] == rows[k as int],
{
    lemma_fundamental_div_mod(k as int, stride as int);
    let i = k / stride;
    let m = k % stride;
    assert(i * stride <= k && k < (i + 1) * stride) by (nonlinear_arith)
        requires
            k == stride * i + m,
            0 <= m < stride,
    ;
    assert(i * stride == stride * i) by (nonlinear_arith);
    let lo = min(i * stride as int, rows.len() as int);
    let hi = min((i + 1) * stride as int, rows.len() as int);
    assert(lo == i * stride);
    assert(lo + m == k);
    assert(m < hi - lo);
    assert(shard_rows(rows, stride, i)[m as int] == rows.subrange(lo, hi)[m as int]);
}

/// The parallel plan: `file_count` chunks of `rows_per_chunk` rows cover
/// the data exactly, each chunk stays within the rows-per-file bound, and
/// the chunk count equals the owed shard count.
pub proof fn lemma_chunk_plan(data_rows: nat, rows_per_file: nat)
    requires
        data_rows > 0,
        rows_per_file > 0,
    ensures
        ({
            let fc = ceil_div(data_rows, rows_per_file);
            let rpc = ceil_div(data_rows, fc);
            &&& fc > 0
            &&& rpc > 0
            &&& rpc <= rows_per_file
            &&& ceil_div(data_rows, rpc) == fc
        }),
{
    let fc = ceil_div(data_rows, rows_per_file);
    lemma_ceil_div_bounds(data_rows, rows_per_file);
    let rpc = ceil_div(data_rows, fc);
    lemma_ceil_div_bounds(data_rows, fc);
    // rpc <= rows_per_file: (rpc - 1) * fc < data_rows <= fc * rows_per_file.
    assert(fc * rows_per_file >= data_rows) by (nonlinear_arith)
        requires
            fc * rows_per_file == rows_per_file * fc,
            rows_per_file * fc >= data_rows,
    ;
    assert(rpc <= rows_per_file) by (nonlinear_arith)
        requires
            fc > 0,
            (rpc - 1) * fc < data_rows,
            data_rows <= fc * rows_per_file,
    ;
    // fc - 1 chunks fall short of the data: (fc - 1) * rpc <= (fc - 1) * rpf < data.
    assert((fc - 1) * rpc < data_rows) by (nonlinear_arith)
        requires
            fc > 0,
            rpc <= rows_per_file,
            (fc - 1) * rows_per_file < data_rows,
    ;
    assert(fc * rpc >= data_rows) by (nonlinear_arith)
        requires
            rpc * fc >= data_rows,
    ;
    lemma_ceil_div_unique(data_rows, rpc, fc);
}

} // verus!
