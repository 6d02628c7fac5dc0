use vstd::prelude::*;

verus! {

/// Number of pages needed for `total_count` rows at `page_size` rows per page:
/// the ceiling of the quotient, and 0 when either is not positive.
pub open spec fn total_pages_for(total_count: int, page_size: int) -> int {
    if page_size <= 0 || total_count <= 0 {
        0
    } else {
        (total_count + page_size - 1) / page_size
    }
}

/// Index of the first row of the 1-based page `page_number`.
pub open spec fn page_start(page_number: int, page_size: int) -> int {
    (page_number - 1) * page_size
}

pub open spec fn clamp(i: int, len: int) -> int {
    if i < len {
        i
    } else {
        len
    }
}

/// The rows of `s` that the 1-based page `page_number` holds.
pub open spec fn page_of<T>(s: Seq<T>, page_number: int, page_size: int) -> Seq<T> {
    s.subrange(
        clamp(page_start(page_number, page_size), s.len() as int),
        clamp(page_start(page_number, page_size) + page_size, s.len() as int),
    )
}

/// Pages 1 to `n` of `s`, one after the other.
pub open spec fn pages_upto<T>(s: Seq<T>, n: nat, page_size: int) -> Seq<T>
    decreases n,
{
    if n == 0 {
        Seq::empty()
    } else {
        pages_upto(s, (n - 1) as nat, page_size) + page_of(s, n as int, page_size)
    }
}

/// Bounds `(start, end)` within a sequence of `len` rows of the 1-based page
/// `page_number`; both are `len` for a page past the end.
pub fn page_bounds(len: usize, page_number: usize, page_size: usize) -> (r: (usize, usize))
    requires
        page_number >= 1,
        page_size >= 1,
    ensures
        r.0 == clamp(page_start(page_number as int, page_size as int), len as int),
        r.1 == clamp(page_start(page_number as int, page_size as int) + page_size, len as int),
{
    let skip: usize = page_number - 1;
    let full: usize = len / page_size;
    proof {
        vstd::arithmetic::div_mod::lemma_fundamental_div_mod(len as int, page_size as int);
        vstd::arithmetic::div_mod::lemma_mod_bound(len as int, page_size as int);
    }
    if skip > full {
        proof {
            assert(skip * page_size >= (full + 1) * page_size) by (nonlinear_arith)
                requires
                    skip >= full + 1,
                    page_size >= 1,
            ;
            assert((full + 1) * page_size == full * page_size + page_size) by (nonlinear_arith);
            assert(page_start(page_number as int, page_size as int) == skip * page_size);
        }
        (len, len)
    } else {
        proof {
            assert(skip * page_size <= full * page_size) by (nonlinear_arith)
                requires
                    skip <= full,
                    page_size >= 1,
            ;
        }
        let start: usize = skip * page_size;
        assert(page_start(page_number as int, page_size as int) == start);
        let end: usize = if len - start < page_size {
            len
        } else {
            start + page_size
        };
        (start, end)
    }
}

/// The pages of a sequence, read from the first to the last that
/// `total_pages_for` counts, give back the whole sequence: every row once,
/// in order, none left out.
pub proof fn lemma_pages_cover_all<T>(s: Seq<T>, page_size: int)
    requires
        page_size >= 1,
    ensures
        pages_upto(s, total_pages_for(s.len() as int, page_size) as nat, page_size) == s,
        pages_upto(s, total_pages_for(s.len() as int, page_size) as nat, page_size).len()
            == s.len(),
{
    let n = total_pages_for(s.len() as int, page_size);
    lemma_pages_prefix(s, n as nat, page_size);
    if s.len() > 0 {
        let len = s.len() as int;
        vstd::arithmetic::div_mod::lemma_fundamental_div_mod(len + page_size - 1, page_size);
        vstd::arithmetic::div_mod::lemma_mod_bound(len + page_size - 1, page_size);
        assert(n * page_size >= len) by (nonlinear_arith)
            requires
                len + page_size - 1 == page_size * n + (len + page_size - 1) % page_size,
                (len + page_size - 1) % page_size < page_size,
        ;
    }
    assert(s.subrange(0, s.len() as int) =~= s);
}

/// Pages 1 to `n` are the first `n * page_size` rows (or all of them).
proof fn lemma_pages_prefix<T>(s: Seq<T>, n: nat, page_size: int)
    requires
        page_size >= 1,
    ensures
        pages_upto(s, n, page_size) =~= s.subrange(0, clamp(n * page_size, s.len() as int)),
    decreases n,
{
    if n > 0 {
        lemma_pages_prefix(s, (n - 1) as nat, page_size);
        assert((n - 1) * page_size + page_size == n * page_size) by (nonlinear_arith);
        assert((n - 1) * page_size >= 0) by (nonlinear_arith)
            requires
                n >= 1,
                page_size >= 1,
        ;
        let a = clamp((n - 1) * page_size, s.len() as int);
        let b = clamp(n * page_size, s.len() as int);
        assert(page_start(n as int, page_size) == (n - 1) * page_size);
        assert(page_of(s, n as int, page_size) =~= s.subrange(a, b));
        assert(pages_upto(s, n, page_size) == pages_upto(s, (n - 1) as nat, page_size) + page_of(
            s,
            n as int,
            page_size,
        ));
        assert(s.subrange(0, a) + s.subrange(a, b) =~= s.subrange(0, b));
    } else {
        assert(n * page_size == 0) by (nonlinear_arith)
            requires
                n == 0,
        ;
    }
}

/// A page past the last one that `total_pages_for` counts holds no row.
pub proof fn lemma_page_past_end_is_empty<T>(s: Seq<T>, page_number: int, page_size: int)
    requires
        page_size >= 1,
        page_number > total_pages_for(s.len() as int, page_size),
    ensures
        page_of(s, page_number, page_size).len() == 0,
{
    let len = s.len() as int;
    let n = total_pages_for(len, page_size);
    if len > 0 {
        vstd::arithmetic::div_mod::lemma_fundamental_div_mod(len + page_size - 1, page_size);
        vstd::arithmetic::div_mod::lemma_mod_bound(len + page_size - 1, page_size);
        assert((page_number - 1) * page_size >= len) by (nonlinear_arith)
            requires
                len + page_size - 1 == page_size * n + (len + page_size - 1) % page_size,
                (len + page_size - 1) % page_size >= 0,
                page_number - 1 >= n,
                page_size >= 1,
        ;
    } else {
        assert((page_number - 1) * page_size >= 0) by (nonlinear_arith)
            requires
                page_number >= 1,
                page_size >= 1,
        ;
    }
}

} // verus!
