//! The print queue: each photo repeated by its number of copies, split into sheets.

use vstd::prelude::*;
use vstd::arithmetic::div_mod::{lemma_fundamental_div_mod, lemma_div_pos_is_pos, lemma_fundamental_div_mod_converse};

verus! {

/// Number of cells that `copies` asks for: the sum of all copy counts.
pub open spec fn total_copies(copies: Seq<usize>) -> nat
    decreases copies.len(),
{
    if copies.len() == 0 {
        0
    } else {
        total_copies(copies.drop_last()) + copies.last() as nat
    }
}

/// The print queue: photo `i` (by index) repeated `copies[i]` times, photos in order.
pub open spec fn expand_spec(copies: Seq<usize>) -> Seq<usize>
    decreases copies.len(),
{
    if copies.len() == 0 {
        seq![]
    } else {
        expand_spec(copies.drop_last()) + Seq::new(copies.last() as nat, |_k: int| (copies.len() - 1) as usize)
    }
}

/// Number of sheets that `n` cells fill at `per_page` cells per sheet (the last one may be partial).
pub open spec fn page_count_spec(n: int, per_page: int) -> int {
    (n + (per_page - 1)) / per_page
}

/// First queue position on sheet `p`.
pub open spec fn page_start(p: int, per_page: int) -> int {
    p * per_page
}

/// One past the last queue position on sheet `p`.
pub open spec fn page_end(p: int, per_page: int, n: int) -> int {
    if (p + 1) * per_page < n { (p + 1) * per_page } else { n }
}

/// The print queue holds as many cells as the copy counts add up to.
pub proof fn lemma_expand_len(copies: Seq<usize>)
    ensures
        expand_spec(copies).len() == total_copies(copies),
    decreases copies.len(),
{
    if copies.len() > 0 {
        lemma_expand_len(copies.drop_last());
    }
}

/// Builds the print queue from the copy count of each photo.
pub fn expand_copies(copies: &Vec<usize>) -> (queue: Vec<usize>)
    requires
        total_copies(copies@) <= usize::MAX,
    ensures
        queue@ == expand_spec(copies@),
{
    let mut queue: Vec<usize> = Vec::new();
    let mut i: usize = 0;
    while i < copies.len()
        invariant
            0 <= i <= copies.len(),
            queue@ == expand_spec(copies@.take(i as int)),
            total_copies(copies@) <= usize::MAX,
        decreases copies.len() - i,
    {
        let ghost before = queue@;
        let n = copies[i];
        let mut k: usize = 0;
        while k < n
            invariant
                0 <= k <= n,
                n == copies@[i as int],
                queue@ == before + Seq::new(k as nat, |_j: int| i),
            decreases n - k,
        {
            queue.push(i);
            k = k + 1;
            assert(queue@ =~= before + Seq::new(k as nat, |_j: int| i));
        }
        proof {
            let t = copies@.take(i + 1);
            assert(t.drop_last() =~= copies@.take(i as int));
            assert(queue@ =~= expand_spec(t));
        }
        i = i + 1;
    }
    assert(copies@.take(copies.len() as int) =~= copies@);
    queue
}

/// Sum of the copy counts, or `None` when it does not fit in a `usize`.
pub fn checked_total_copies(copies: &Vec<usize>) -> (r: Option<usize>)
    ensures
        match r {
            Some(t) => t == total_copies(copies@),
            None => total_copies(copies@) > usize::MAX,
        },
{
    let mut sum: usize = 0;
    let mut i: usize = 0;
    while i < copies.len()
        invariant
            0 <= i <= copies.len(),
            sum == total_copies(copies@.take(i as int)),
        decreases copies.len() - i,
    {
        proof {
            assert(copies@.take(i + 1).drop_last() =~= copies@.take(i as int));
        }
        match sum.checked_add(copies[i]) {
            Some(s) => { sum = s; }
            None => {
                proof { lemma_total_prefix_le(copies@, i + 1); }
                return None;
            }
        }
        i = i + 1;
    }
    assert(copies@.take(copies.len() as int) =~= copies@);
    Some(sum)
}

/// A prefix never asks for more cells than the whole list.
pub proof fn lemma_total_prefix_le(copies: Seq<usize>, i: int)
    requires
        0 <= i <= copies.len(),
    ensures
        total_copies(copies.take(i)) <= total_copies(copies),
    decreases copies.len() - i,
{
    if i < copies.len() {
        lemma_total_prefix_le(copies, i + 1);
        assert(copies.take(i + 1).drop_last() =~= copies.take(i));
    } else {
        assert(copies.take(i) =~= copies);
    }
}

/// Number of sheets needed for `n` queued cells at `per_page` cells per sheet.
pub fn page_count(n: usize, per_page: usize) -> (r: usize)
    requires
        per_page >= 1,
        n + per_page - 1 <= usize::MAX,
    ensures
        r == page_count_spec(n as int, per_page as int),
{
    (n + (per_page - 1)) / per_page
}

/// Queue positions `[start, end)` that sheet `p` shows.
pub fn page_bounds(p: usize, per_page: usize, n: usize) -> (r: (usize, usize))
    requires
        per_page >= 1,
        p < page_count_spec(n as int, per_page as int),
    ensures
        r.0 == page_start(p as int, per_page as int),
        r.1 == page_end(p as int, per_page as int, n as int),
        r.0 < r.1 <= n,
{
    proof {
        lemma_page_nonempty(p as int, per_page as int, n as int);
        assert((p + 1) * per_page == p * per_page + per_page) by (nonlinear_arith);
    }
    let start = p * per_page;
    let end = if n - start > per_page { start + per_page } else { n };
    (start, end)
}

proof fn lemma_page_nonempty(p: int, per: int, n: int)
    requires
        per >= 1,
        0 <= p < page_count_spec(n, per),
        n >= 0,
    ensures
        p * per < n,
{
    let m = n + per - 1;
    lemma_fundamental_div_mod(m, per);
    assert(p * per < n) by (nonlinear_arith)
        requires p < m / per, m == per * (m / per) + m % per, 0 <= m % per < per, m == n + per - 1, per >= 1, p >= 0;
}

/// The sheets split the queue into consecutive runs: every queue position `j < n` is shown
/// by exactly the sheet `j / per_page`, every sheet shows at least one cell, and every sheet
/// but the last is full.
pub proof fn lemma_pages_partition_queue(n: int, per_page: int, j: int, p: int)
    requires
        per_page >= 1,
        n >= 0,
        0 <= p < page_count_spec(n, per_page),
    ensures
        page_start(p, per_page) < page_end(p, per_page, n) <= n,
        page_end(p, per_page, n) - page_start(p, per_page) <= per_page,
        p + 1 < page_count_spec(n, per_page) ==> page_end(p, per_page, n) - page_start(p, per_page) == per_page,
        0 <= j < n ==> (page_start(p, per_page) <= j < page_end(p, per_page, n) <==> p == j / per_page),
        0 <= j < n ==> j / per_page < page_count_spec(n, per_page),
{
    lemma_page_nonempty(p, per_page, n);
    assert((p + 1) * per_page == p * per_page + per_page) by (nonlinear_arith);
    let m = n + per_page - 1;
    lemma_fundamental_div_mod(m, per_page);
    if p + 1 < page_count_spec(n, per_page) {
        lemma_page_nonempty(p + 1, per_page, n);
        assert((p + 1) * per_page == p * per_page + per_page) by (nonlinear_arith);
    }
    if 0 <= j < n {
        lemma_fundamental_div_mod(j, per_page);
        lemma_div_pos_is_pos(j, per_page);
        let q = j / per_page;
        assert(q < page_count_spec(n, per_page)) by (nonlinear_arith)
            requires j == per_page * q + j % per_page, 0 <= j % per_page < per_page, j < n,
                m == per_page * (m / per_page) + m % per_page, 0 <= m % per_page < per_page,
                m == n + per_page - 1, per_page >= 1, q >= 0;
        if p * per_page <= j && j < page_end(p, per_page, n) {
            assert(j < (p + 1) * per_page);
            lemma_fundamental_div_mod_converse(j, per_page, p, j - p * per_page);
        }
        if p == q {
            assert(p * per_page <= j) by (nonlinear_arith)
                requires j == per_page * q + j % per_page, 0 <= j % per_page, p == q;
            assert(j < (p + 1) * per_page) by (nonlinear_arith)
                requires j == per_page * q + j % per_page, j % per_page < per_page, p == q;
        }
    }
}

/// The print queue holds photo `i` exactly `copies[i]` times, in one run that starts once
/// all earlier photos are placed: position `total(copies[..i]) + k` holds `i` for each `k < copies[i]`.
pub proof fn lemma_expand_positions(copies: Seq<usize>, i: int, k: int)
    requires
        0 <= i < copies.len() <= usize::MAX,
        0 <= k < copies[i],
    ensures
        expand_spec(copies).len() == total_copies(copies),
        total_copies(copies.take(i)) + k < total_copies(copies),
        expand_spec(copies)[total_copies(copies.take(i)) + k] == i,
    decreases copies.len(),
{
    lemma_expand_len(copies);
    let last = copies.len() - 1;
    let prefix = copies.drop_last();
    lemma_expand_len(prefix);
    let tail = Seq::new(copies.last() as nat, |_k: int| last as usize);
    assert(expand_spec(copies) == expand_spec(prefix) + tail);
    assert(total_copies(copies) == total_copies(prefix) + copies.last() as nat);
    if i == last {
        assert(copies.take(i) =~= prefix);
        assert(tail[k] == i);
    } else {
        lemma_expand_positions(prefix, i, k);
        assert(prefix.take(i) =~= copies.take(i));
        assert(prefix[i] == copies[i]);
    }
}

/// Every entry of the print queue names one of the photos.
pub proof fn lemma_expand_entries(copies: Seq<usize>, j: int)
    requires
        copies.len() <= usize::MAX,
        0 <= j < expand_spec(copies).len(),
    ensures
        expand_spec(copies)[j] < copies.len(),
    decreases copies.len(),
{
    let prefix = copies.drop_last();
    lemma_expand_len(prefix);
    if j < expand_spec(prefix).len() {
        lemma_expand_entries(prefix, j);
    }
}

} // verus!
