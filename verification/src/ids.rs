//! Counters that hand out ids in sequence, wrapping at the end of the
//! range as an atomic `fetch_add` does.
use vstd::prelude::*;

verus! {

/// The counter after handing out `c`.
pub open spec fn next_counter(c: u64) -> u64 {
    if c == u64::MAX {
        0
    } else {
        (c + 1) as u64
    }
}

/// The id handed out by the call numbered `calls` (from 0) of a counter
/// that started at `start`.
pub open spec fn id_after(start: u64, calls: nat) -> u64 {
    ((start + calls) % 0x1_0000_0000_0000_0000) as u64
}

/// The sequence of ids is the counter's own: call `calls + 1` hands out the
/// counter after call `calls`, and the first call hands out the start.
pub proof fn law_ids_follow_counter(start: u64, calls: nat)
    ensures
        id_after(start, 0) == start,
        id_after(start, calls + 1) == next_counter(id_after(start, calls)),
{
    let m: int = 0x1_0000_0000_0000_0000;
    let a: int = start + calls;
    assert(id_after(start, 0) == start);
    assert((a + 1) % m == if a % m == m - 1 { 0 } else { a % m + 1 }) by (nonlinear_arith)
        requires
            m == 0x1_0000_0000_0000_0000,
            a >= 0,
    {
        let q = a / m;
        let r = a % m;
        assert(a == q * m + r);
        assert(0 <= r < m);
        if r == m - 1 {
            assert(a + 1 == (q + 1) * m);
        } else {
            assert(a + 1 == q * m + (r + 1));
        }
    }
}

/// Ids never repeat within a cycle of the counter: the calls numbered `i`
/// and `j` (fewer than 2^64 apart) hand out different ids.
pub proof fn law_ids_distinct(start: u64, i: nat, j: nat)
    requires
        i < j,
        j - i < 0x1_0000_0000_0000_0000,
    ensures
        id_after(start, i) != id_after(start, j),
{
    let m: int = 0x1_0000_0000_0000_0000;
    let a: int = start + i;
    let b: int = start + j;
    assert(a % m != b % m) by (nonlinear_arith)
        requires
            m == 0x1_0000_0000_0000_0000,
            0 <= a < b,
            b - a < m,
    {
        let qa = a / m;
        let qb = b / m;
        assert(a == qa * m + a % m);
        assert(b == qb * m + b % m);
        if a % m == b % m {
            assert(b - a == (qb - qa) * m);
            if qb - qa >= 1 {
                assert((qb - qa) * m >= m);
            } else {
                assert((qb - qa) * m <= 0);
            }
        }
    }
}

} // verus!
