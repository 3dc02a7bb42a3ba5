//! Buffers made of rows (`[T; N]` arrays) travel as their elements, row
//! after row. This module flattens such a buffer and fills one back from
//! the elements that arrived.

use vstd::prelude::*;

verus! {

/// The elements of `rows`, row after row (row-major order).
pub open spec fn flatten_rows<T, const N: usize>(rows: Seq<[T; N]>) -> Seq<T>
    decreases rows.len(),
{
    if rows.len() == 0 {
        Seq::empty()
    } else {
        flatten_rows(rows.drop_last()) + rows.last()@
    }
}

/// A buffer of rows holds `N` elements per row.
pub proof fn lemma_flatten_rows_len<T, const N: usize>(rows: Seq<[T; N]>)
    ensures
        flatten_rows(rows).len() == rows.len() * N,
    decreases rows.len(),
{
    if rows.len() > 0 {
        lemma_flatten_rows_len(rows.drop_last());
        let n = rows.len() as int;
        assert((n - 1) * N + N == n * N) by (nonlinear_arith);
    }
}

/// Rows lie in memory one after the other: element `c` of row `r` is
/// element `r * N + c` of the flattened buffer.
pub proof fn lemma_flatten_rows_index<T, const N: usize>(rows: Seq<[T; N]>, r: int, c: int)
    requires
        0 <= r < rows.len(),
        0 <= c < N,
    ensures
        flatten_rows(rows).len() == rows.len() * N,
        flatten_rows(rows)[r * N + c] == rows[r]@[c],
    decreases rows.len(),
{
    lemma_flatten_rows_len(rows);
    let prefix = rows.drop_last();
    lemma_flatten_rows_len(prefix);
    let last = rows.len() - 1;
    if r < last {
        lemma_flatten_rows_index(prefix, r, c);
        assert(r * N + c < last * N) by (nonlinear_arith)
            requires
                0 <= r < last,
                0 <= c < N,
        ;
        assert(prefix[r] == rows[r]);
    } else {
        assert(r * N + c == last * N + c);
    }
}

/// The flattened buffer holds every element of every row at its row-major
/// position, and nothing else.
pub proof fn lemma_flatten_rows_row_major<T, const N: usize>(rows: Seq<[T; N]>)
    ensures
        flatten_rows(rows).len() == rows.len() * N,
        forall|r: int, c: int|
            0 <= r < rows.len() && 0 <= c < N ==> #[trigger] flatten_rows(rows)[r * N + c]
                == rows[r]@[c],
{
    lemma_flatten_rows_len(rows);
    assert forall|r: int, c: int| 0 <= r < rows.len() && 0 <= c < N implies #[trigger] flatten_rows(
        rows,
    )[r * N + c] == rows[r]@[c] by {
        lemma_flatten_rows_index(rows, r, c);
    }
}

/// Two buffers with as many rows whose elements agree are the same rows.
pub proof fn lemma_flatten_rows_injective<T, const N: usize>(a: Seq<[T; N]>, b: Seq<[T; N]>)
    requires
        a.len() == b.len(),
        flatten_rows(a) == flatten_rows(b),
    ensures
        a == b,
    decreases a.len(),
{
    if a.len() > 0 {
        let fa = flatten_rows(a.drop_last());
        let fb = flatten_rows(b.drop_last());
        lemma_flatten_rows_len(a.drop_last());
        lemma_flatten_rows_len(b.drop_last());
        assert(fa.len() == fb.len());
        let whole = flatten_rows(a);
        assert(fa =~= whole.subrange(0, fa.len() as int));
        assert(fb =~= whole.subrange(0, fa.len() as int));
        assert(a.last()@ =~= whole.subrange(fa.len() as int, whole.len() as int));
        assert(b.last()@ =~= whole.subrange(fa.len() as int, whole.len() as int));
        lemma_flatten_rows_injective(a.drop_last(), b.drop_last());
        assert(a.last() == b.last()) by {
            vstd::array::axiom_array_ext_equal(a.last(), b.last());
        }
        assert(a =~= a.drop_last().push(a.last()));
        assert(b =~= b.drop_last().push(b.last()));
    }
}

/// Returns the elements of `rows`, row after row.
pub fn flatten_rows_vec<T: Copy, const N: usize>(rows: &[[T; N]]) -> (flat: Vec<T>)
    ensures
        flat@ == flatten_rows(rows@),
{
    let mut flat: Vec<T> = Vec::new();
    let mut i: usize = 0;
    while i < rows.len()
        invariant
            i <= rows@.len(),
            flat@ == flatten_rows(rows@.take(i as int)),
        decreases rows@.len() - i,
    {
        let row: [T; N] = rows[i];
        let mut j: usize = 0;
        while j < N
            invariant
                j <= N,
                i < rows@.len(),
                row == rows@[i as int],
                flat@ == flatten_rows(rows@.take(i as int)) + row@.take(j as int),
            decreases N - j,
        {
            flat.push(row[j]);
            assert(row@.take(j + 1) =~= row@.take(j as int).push(row@[j as int]));
            j = j + 1;
        }
        assert(rows@.take(i + 1).drop_last() =~= rows@.take(i as int));
        assert(row@.take(N as int) =~= row@);
        i = i + 1;
    }
    assert(rows@.take(rows@.len() as int) =~= rows@);
    flat
}

/// Writes the elements that arrived into `rows`, row after row; the
/// elements past the end of `incoming` keep their former values.
pub fn fill_rows<T: Copy, const N: usize>(rows: &mut [[T; N]], incoming: &[T])
    requires
        incoming@.len() <= flatten_rows(old(rows)@).len(),
    ensures
        final(rows)@.len() == old(rows)@.len(),
        flatten_rows(final(rows)@) == incoming@ + flatten_rows(old(rows)@).skip(incoming@.len() as int),
{
    let ghost before = rows@;
    let old_flat = flatten_rows_vec(rows);
    let mut target: Vec<T> = Vec::new();
    let mut k: usize = 0;
    while k < incoming.len()
        invariant
            k <= incoming@.len(),
            target@ == incoming@.take(k as int),
        decreases incoming@.len() - k,
    {
        target.push(incoming[k]);
        assert(incoming@.take(k + 1) =~= incoming@.take(k as int).push(incoming@[k as int]));
        k = k + 1;
    }
    let mut k: usize = incoming.len();
    while k < old_flat.len()
        invariant
            incoming@.len() <= k <= old_flat@.len(),
            target@ == incoming@ + old_flat@.subrange(incoming@.len() as int, k as int),
        decreases old_flat@.len() - k,
    {
        target.push(old_flat[k]);
        assert(old_flat@.subrange(incoming@.len() as int, k + 1) =~= old_flat@.subrange(
            incoming@.len() as int,
            k as int,
        ).push(old_flat@[k as int]));
        k = k + 1;
    }
    proof {
        assert(incoming@.take(incoming@.len() as int) =~= incoming@);
        assert(old_flat@.subrange(incoming@.len() as int, old_flat@.len() as int) =~= old_flat@.skip(
            incoming@.len() as int,
        ));
        lemma_flatten_rows_len(before);
    }
    let n = rows.len();
    let target_len = target.len();
    let mut i: usize = 0;
    let mut k: usize = 0;
    while i < n
        invariant
            n == rows@.len(),
            n == before.len(),
            i <= n,
            target@.len() == n * N,
            target@.len() == target_len,
            k == i * N,
            flatten_rows(rows@.take(i as int)) == target@.take(k as int),
            target@ == incoming@ + flatten_rows(before).skip(incoming@.len() as int),
        decreases n - i,
    {
        assert(k + N <= n * N) by (nonlinear_arith)
            requires
                k == i * N,
                i < n,
        ;
        let ghost prev = rows@;
        let mut row: [T; N] = rows[i];
        let mut j: usize = 0;
        while j < N
            invariant
                j <= N,
                k + N <= target@.len(),
                target@.len() == target_len,
                row@.len() == N,
                row@.take(j as int) == target@.subrange(k as int, k + j),
            decreases N - j,
        {
            row[j] = target[k + j];
            assert(row@.take(j + 1) =~= target@.subrange(k as int, k + j + 1));
            j = j + 1;
        }
        assert(row@ =~= row@.take(N as int));
        rows[i] = row;
        assert(rows@.take(i as int) =~= prev.take(i as int));
        assert(rows@.take(i + 1).drop_last() =~= rows@.take(i as int));
        assert(rows@.take(i + 1).last() == row);
        assert(target@.take(k + N) =~= target@.take(k as int) + target@.subrange(k as int, k + N));
        assert((i + 1) * N == k + N) by (nonlinear_arith)
            requires
                k == i * N,
        ;
        k = k + N;
        i = i + 1;
    }
    assert(rows@.take(n as int) =~= rows@);
    assert(target@.take(k as int) =~= target@);
}

/// What filling does to each element: element `c` of row `r` becomes the
/// arrived element at row-major position `r * N + c` when that many
/// arrived, and keeps its former value otherwise.
pub proof fn lemma_fill_rows_places<T, const N: usize>(
    before: Seq<[T; N]>,
    incoming: Seq<T>,
    filled: Seq<[T; N]>,
    r: int,
    c: int,
)
    requires
        filled.len() == before.len(),
        incoming.len() <= flatten_rows(before).len(),
        flatten_rows(filled) == incoming + flatten_rows(before).skip(incoming.len() as int),
        0 <= r < before.len(),
        0 <= c < N,
    ensures
        r * N + c < incoming.len() ==> filled[r]@[c] == incoming[r * N + c],
        r * N + c >= incoming.len() ==> filled[r]@[c] == before[r]@[c],
{
    lemma_flatten_rows_index(filled, r, c);
    lemma_flatten_rows_index(before, r, c);
    let x = r * N + c;
    let fb = flatten_rows(before);
    assert(x < before.len() * N) by (nonlinear_arith)
        requires
            x == r * N + c,
            0 <= r < before.len(),
            0 <= c < N,
    ;
    if x >= incoming.len() {
        assert((incoming + fb.skip(incoming.len() as int))[x] == fb.skip(incoming.len() as int)[x
            - incoming.len()]);
        assert(fb.skip(incoming.len() as int)[x - incoming.len()] == fb[x]);
    }
}

/// A buffer filled from the elements of rows of the same shape ends holding
/// exactly those rows: what `fill_rows` does on the receiving side undoes
/// what flattening does on the sending side.
pub proof fn lemma_rows_arrive_intact<T, const N: usize>(
    sent: Seq<[T; N]>,
    buffer: Seq<[T; N]>,
    filled: Seq<[T; N]>,
)
    requires
        sent.len() == buffer.len(),
        filled.len() == buffer.len(),
        flatten_rows(filled) == flatten_rows(sent) + flatten_rows(buffer).skip(
            flatten_rows(sent).len() as int,
        ),
    ensures
        filled == sent,
{
    lemma_flatten_rows_len(sent);
    lemma_flatten_rows_len(buffer);
    assert(flatten_rows(buffer).skip(flatten_rows(sent).len() as int) =~= Seq::<T>::empty());
    assert(flatten_rows(filled) =~= flatten_rows(sent));
    lemma_flatten_rows_injective(filled, sent);
}

} // verus!
