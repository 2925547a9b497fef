use vstd::prelude::*;

verus! {

/// The order of two values of one sort key: negative, zero or positive.
/// Nulls go last or first whatever the direction of the key.
pub open spec fn cmp_value(a: Option<i64>, b: Option<i64>, descending: bool, nulls_last: bool) -> int {
    match (a, b) {
        (None, None) => 0,
        (None, Some(_)) => if nulls_last { 1 } else { -1 },
        (Some(_), None) => if nulls_last { -1 } else { 1 },
        (Some(x), Some(y)) => if x == y {
            0
        } else if (x < y) != descending {
            -1
        } else {
            1
        },
    }
}

/// The order of rows `i` and `j` by the keys from the `k`-th on, the first
/// key that tells them apart deciding.
pub open spec fn cmp_rows_from(
    keys: Seq<Seq<Option<i64>>>,
    descending: Seq<bool>,
    nulls_last: bool,
    i: int,
    j: int,
    k: int,
) -> int
    decreases keys.len() - k,
{
    if k < 0 || k >= keys.len() {
        0
    } else {
        let c = cmp_value(keys[k][i], keys[k][j], descending[k], nulls_last);
        if c != 0 {
            c
        } else {
            cmp_rows_from(keys, descending, nulls_last, i, j, k + 1)
        }
    }
}

/// The order of rows `i` and `j` by all the keys.
pub open spec fn cmp_rows(
    keys: Seq<Seq<Option<i64>>>,
    descending: Seq<bool>,
    nulls_last: bool,
    i: int,
    j: int,
) -> int {
    cmp_rows_from(keys, descending, nulls_last, i, j, 0)
}

/// `order` lists each of the rows `0..n` once, sorted by the keys, rows
/// with equal keys in their order of input.
pub open spec fn is_sort_order(
    keys: Seq<Seq<Option<i64>>>,
    descending: Seq<bool>,
    nulls_last: bool,
    n: nat,
    order: Seq<usize>,
) -> bool {
    &&& order.len() == n
    &&& order.no_duplicates()
    &&& forall|a: int| 0 <= a < n ==> #[trigger] order[a] < n
    &&& forall|a: int, b: int|
        0 <= a < b < n ==> cmp_rows(keys, descending, nulls_last, order[a] as int, order[b] as int)
            <= 0
    &&& forall|a: int, b: int|
        0 <= a < b < n && cmp_rows(keys, descending, nulls_last, order[a] as int, order[b] as int)
            == 0 ==> order[a] < order[b]
}

proof fn lemma_cmp_antisym(
    keys: Seq<Seq<Option<i64>>>,
    descending: Seq<bool>,
    nulls_last: bool,
    i: int,
    j: int,
    k: int,
)
    ensures
        cmp_rows_from(keys, descending, nulls_last, i, j, k) == -cmp_rows_from(
            keys,
            descending,
            nulls_last,
            j,
            i,
            k,
        ),
        -1 <= cmp_rows_from(keys, descending, nulls_last, i, j, k) <= 1,
    decreases keys.len() - k,
{
    if 0 <= k < keys.len() {
        lemma_cmp_antisym(keys, descending, nulls_last, i, j, k + 1);
    }
}

proof fn lemma_cmp_trans(
    keys: Seq<Seq<Option<i64>>>,
    descending: Seq<bool>,
    nulls_last: bool,
    i: int,
    j: int,
    l: int,
    k: int,
)
    requires
        cmp_rows_from(keys, descending, nulls_last, i, j, k) <= 0,
        cmp_rows_from(keys, descending, nulls_last, j, l, k) <= 0,
    ensures
        cmp_rows_from(keys, descending, nulls_last, i, l, k) <= 0,
        cmp_rows_from(keys, descending, nulls_last, i, j, k) < 0 || cmp_rows_from(
            keys,
            descending,
            nulls_last,
            j,
            l,
            k,
        ) < 0 ==> cmp_rows_from(keys, descending, nulls_last, i, l, k) < 0,
    decreases keys.len() - k,
{
    if 0 <= k < keys.len() {
        let c1 = cmp_value(keys[k][i], keys[k][j], descending[k], nulls_last);
        let c2 = cmp_value(keys[k][j], keys[k][l], descending[k], nulls_last);
        if c1 == 0 && c2 == 0 {
            lemma_cmp_trans(keys, descending, nulls_last, i, j, l, k + 1);
        }
    }
}

/// The order in which the rows `0..n` come out of a stable sort by the keys
/// (see [`is_sort_order`]). Each key holds at least `n` values.
pub fn sort_order(keys: &Vec<Vec<Option<i64>>>, descending: &Vec<bool>, nulls_last: bool, n: usize) -> (r:
    Vec<usize>)
    requires
        descending@.len() == keys@.len(),
        forall|k: int| 0 <= k < keys@.len() ==> #[trigger] keys@[k]@.len() >= n,
    ensures
        is_sort_order(keys@.map_values(|v: Vec<Option<i64>>| v@), descending@, nulls_last, n as nat, r@),
{
    let ghost ks = keys@.map_values(|v: Vec<Option<i64>>| v@);
    let mut out: Vec<usize> = Vec::new();
    let mut r: usize = 0;
    while r < n
        invariant
            r <= n,
            descending@.len() == keys@.len(),
            forall|k: int| 0 <= k < keys@.len() ==> #[trigger] keys@[k]@.len() >= n,
            ks == keys@.map_values(|v: Vec<Option<i64>>| v@),
            is_sort_order(ks, descending@, nulls_last, r as nat, out@),
        decreases n - r,
    {
        // The new row goes before the first row that is strictly greater.
        let mut p: usize = 0;
        while p < out.len() && compare_rows(keys, descending, nulls_last, r, out[p]) >= 0
            invariant
                p <= out@.len(),
                out@.len() == r,
                r < n,
                descending@.len() == keys@.len(),
                forall|k: int| 0 <= k < keys@.len() ==> #[trigger] keys@[k]@.len() >= n,
                ks == keys@.map_values(|v: Vec<Option<i64>>| v@),
                is_sort_order(ks, descending@, nulls_last, r as nat, out@),
                forall|a: int| 0 <= a < p ==> cmp_rows(ks, descending@, nulls_last, r as int, #[trigger] out@[a] as int) >= 0,
            decreases out@.len() - p,
        {
            p = p + 1;
        }
        let ghost old_out = out@;
        out.insert(p, r);
        proof {
            assert forall|a: int| 0 <= a < r + 1 implies #[trigger] out@[a] < r + 1 by {
                if a < p {
                    assert(out@[a] == old_out[a]);
                } else if a > p {
                    assert(out@[a] == old_out[a - 1]);
                }
            }
            assert forall|a: int, b: int| 0 <= a < b < r + 1 implies out@[a] != out@[b] by {
                if a != p && b != p {
                    let oa = if a < p { a } else { a - 1 };
                    let ob = if b < p { b } else { b - 1 };
                    assert(out@[a] == old_out[oa]);
                    assert(out@[b] == old_out[ob]);
                } else if a == p {
                    assert(out@[b] == old_out[b - 1]);
                } else {
                    assert(out@[a] == old_out[a]);
                }
            }
            assert forall|a: int, b: int| 0 <= a < b < r + 1 implies cmp_rows(ks, descending@, nulls_last, out@[a] as int, out@[b] as int) <= 0
                && (cmp_rows(ks, descending@, nulls_last, out@[a] as int, out@[b] as int) == 0 ==> out@[a] < out@[b]) by {
                if a != p && b != p {
                    let oa = if a < p { a } else { a - 1 };
                    let ob = if b < p { b } else { b - 1 };
                    assert(out@[a] == old_out[oa]);
                    assert(out@[b] == old_out[ob]);
                } else if a == p {
                    // r is strictly below the row at p, which is at most every later row.
                    assert(out@[b] == old_out[b - 1]);
                    assert(p < old_out.len());
                    assert(cmp_rows(ks, descending@, nulls_last, r as int, old_out[p as int] as int) < 0);
                    if b - 1 > p {
                        assert(is_sort_order(ks, descending@, nulls_last, r as nat, old_out));
                        assert(cmp_rows(ks, descending@, nulls_last, old_out[p as int] as int, old_out[b - 1] as int) <= 0);
                        lemma_cmp_trans(ks, descending@, nulls_last, r as int, old_out[p as int] as int, old_out[b - 1] as int, 0);
                    }
                } else {
                    assert(out@[a] == old_out[a]);
                    lemma_cmp_antisym(ks, descending@, nulls_last, r as int, old_out[a] as int, 0);
                }
            }
        }
        r = r + 1;
    }
    out
}

/// The order of rows `i` and `j` by the keys (see [`cmp_rows`]).
fn compare_rows(keys: &Vec<Vec<Option<i64>>>, descending: &Vec<bool>, nulls_last: bool, i: usize, j: usize) -> (r: i8)
    requires
        descending@.len() == keys@.len(),
        forall|k: int| 0 <= k < keys@.len() ==> i < #[trigger] keys@[k]@.len() && j < keys@[k]@.len(),
    ensures
        r as int == cmp_rows(keys@.map_values(|v: Vec<Option<i64>>| v@), descending@, nulls_last, i as int, j as int),
{
    let ghost ks = keys@.map_values(|v: Vec<Option<i64>>| v@);
    let mut k: usize = keys.len();
    let mut acc: i8 = 0;
    // From the last key back: an earlier key that differs overrides.
    while k > 0
        invariant
            k <= keys@.len(),
            descending@.len() == keys@.len(),
            forall|q: int| 0 <= q < keys@.len() ==> i < #[trigger] keys@[q]@.len() && j < keys@[q]@.len(),
            ks == keys@.map_values(|v: Vec<Option<i64>>| v@),
            acc as int == cmp_rows_from(ks, descending@, nulls_last, i as int, j as int, k as int),
        decreases k,
    {
        k = k - 1;
        let a = keys[k][i];
        let b = keys[k][j];
        let c: i8 = match (a, b) {
            (None, None) => 0,
            (None, Some(_)) => if nulls_last { 1 } else { -1 },
            (Some(_), None) => if nulls_last { -1 } else { 1 },
            (Some(x), Some(y)) => if x == y {
                0
            } else if (x < y) != descending[k] {
                -1
            } else {
                1
            },
        };
        if c != 0 {
            acc = c;
        }
    }
    acc
}

} // verus!
