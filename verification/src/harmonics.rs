//! The distinct harmonic orders that a quadrature over harmonics needs.
//!
//! The integral of the partial rates over the harmonic order `n` is taken
//! over quadrature nodes that generally fall between integers. Where
//! neighbouring nodes lie close together, the rate at a node is interpolated
//! between the two harmonics that bracket it; elsewhere the nearest harmonic
//! stands for it. The lowest harmonic `n_min` is always needed. Each distinct
//! harmonic is evaluated once; the table built here lists them in increasing
//! order without repeats, and a lookup finds the entry of a harmonic in it.
use vstd::prelude::*;

verus! {

/// The harmonics that one quadrature node needs.
#[derive(PartialEq, Eq, Structural, Clone, Copy, Debug)]
pub enum HarmonicRequest {
    /// The node is represented by this single harmonic.
    Nearest(i32),
    /// The node is interpolated between this harmonic and the next.
    Bracket(i32),
}

/// Whether request `r` needs harmonic `k`.
pub open spec fn covers(r: HarmonicRequest, k: int) -> bool {
    match r {
        HarmonicRequest::Nearest(n) => k == n,
        HarmonicRequest::Bracket(n) => k == n || k == n + 1,
    }
}

/// Whether harmonic `k` is needed: it is the lowest harmonic, or some
/// request covers it.
pub open spec fn is_requested(n_min: i32, requests: Seq<HarmonicRequest>, k: int) -> bool {
    k == n_min || exists|i: int| 0 <= i < requests.len() && #[trigger] covers(requests[i], k)
}

/// A bracketing request never names the largest `i32`, whose successor
/// would not be a harmonic order that an `i32` can hold.
pub open spec fn requests_in_range(requests: Seq<HarmonicRequest>) -> bool {
    forall|i: int|
        0 <= i < requests.len() ==> (#[trigger] requests[i] matches HarmonicRequest::Bracket(n)
            ==> n < i32::MAX)
}

/// Every element is smaller than the next: sorted, with no repeats.
pub open spec fn strictly_increasing(s: Seq<i32>) -> bool {
    forall|i: int, j: int| 0 <= i < j < s.len() ==> s[i] < s[j]
}

/// Whether `k` occurs in `s`.
pub open spec fn holds(s: Seq<i32>, k: int) -> bool {
    exists|j: int| 0 <= j < s.len() && s[j] == k
}

/// `table` lists exactly the needed harmonics, in increasing order and
/// each once.
pub open spec fn is_harmonic_table(n_min: i32, requests: Seq<HarmonicRequest>, table: Seq<i32>) -> bool {
    &&& strictly_increasing(table)
    &&& forall|k: int| #[trigger] holds(table, k) <==> is_requested(n_min, requests, k)
}

/// Adds `x` to a strictly increasing vector, keeping it strictly increasing;
/// nothing changes where `x` is already there.
fn insert_unique(v: &mut Vec<i32>, x: i32)
    requires
        strictly_increasing(old(v)@),
    ensures
        strictly_increasing(final(v)@),
        forall|k: int| #[trigger] holds(final(v)@, k) <==> (holds(old(v)@, k) || k == x),
{
    let mut i: usize = 0;
    while i < v.len() && v[i] < x
        invariant
            i <= v.len(),
            v@ == old(v)@,
            forall|j: int| 0 <= j < i ==> v@[j] < x,
        decreases v.len() - i,
    {
        i = i + 1;
    }
    if i < v.len() && v[i] == x {
        assert forall|k: int| #[trigger] holds(v@, k) <==> (holds(old(v)@, k) || k == x) by {
            if k == x {
                assert(v@[i as int] == x);
            }
        }
        return;
    }
    let ghost before = v@;
    v.insert(i, x);
    proof {
        before.insert_ensures(i as int, x);
        let after = v@;
        assert(after =~= before.insert(i as int, x));
        // Everything left of position i is below x, everything right of it above.
        assert forall|j: int| i < j < after.len() implies after[j] > x by {
            assert(after[j] == before[j - 1]);
            assert(before[i as int] > x);
            if j - 1 > i {
                assert(before[i as int] < before[j - 1]);
            }
        }
        assert forall|p: int, q: int| 0 <= p < q < after.len() implies after[p] < after[q] by {
            if q < i {
            } else if q == i {
            } else if p < i {
                assert(after[p] < x);
            } else if p == i {
            } else {
                assert(after[p] == before[p - 1]);
                assert(after[q] == before[q - 1]);
            }
        }
        assert forall|k: int| #[trigger] holds(after, k) <==> (holds(before, k) || k == x) by {
            if holds(after, k) {
                let j = choose|j: int| 0 <= j < after.len() && after[j] == k;
                if j < i {
                    assert(before[j] == k);
                } else if j > i {
                    assert(before[j - 1] == k);
                }
            }
            if holds(before, k) {
                let j = choose|j: int| 0 <= j < before.len() && before[j] == k;
                if j < i {
                    assert(after[j] == k);
                } else {
                    assert(after[j + 1] == k);
                }
            }
            if k == x {
                assert(after[i as int] == k);
            }
        }
    }
}

/// Lists the distinct harmonics that the lowest harmonic `n_min` and the
/// quadrature nodes' `requests` need, in increasing order and each once.
pub fn distinct_harmonics(n_min: i32, requests: &Vec<HarmonicRequest>) -> (table: Vec<i32>)
    requires
        requests_in_range(requests@),
    ensures
        is_harmonic_table(n_min, requests@, table@),
{
    let mut table: Vec<i32> = Vec::new();
    table.push(n_min);
    proof {
        assert forall|k: int| #[trigger] holds(table@, k) <==> is_requested(n_min, requests@.take(0), k) by {
            if k == n_min {
                assert(table@[0] == k);
            }
        }
    }
    let len = requests.len();
    for i in 0..len
        invariant
            len == requests.len(),
            requests_in_range(requests@),
            strictly_increasing(table@),
            forall|k: int| #[trigger] holds(table@, k) <==> is_requested(n_min, requests@.take(i as int), k),
    {
        let r = requests[i];
        let ghost prev = table@;
        match r {
            HarmonicRequest::Nearest(n) => {
                insert_unique(&mut table, n);
            },
            HarmonicRequest::Bracket(n) => {
                assert(n < i32::MAX);
                insert_unique(&mut table, n);
                let ghost mid = table@;
                insert_unique(&mut table, n + 1);
                assert forall|k: int| #[trigger] holds(table@, k) <==> (holds(prev, k) || covers(r, k)) by {
                    assert(holds(table@, k) <==> (holds(mid, k) || k == n + 1));
                    assert(holds(mid, k) <==> (holds(prev, k) || k == n));
                }
            },
        }
        assert(forall|k: int| #[trigger] holds(table@, k) <==> (holds(prev, k) || covers(r, k)));
        proof {
            let pre = requests@.take(i as int);
            let post = requests@.take(i + 1);
            assert(post[i as int] == r);
            assert forall|k: int| #[trigger] holds(table@, k) <==> is_requested(n_min, post, k) by {
                assert(holds(prev, k) <==> is_requested(n_min, pre, k));
                assert(holds(table@, k) <==> (holds(prev, k) || covers(r, k)));
                if covers(r, k) {
                    assert(covers(post[i as int], k));
                }
                if is_requested(n_min, pre, k) && k != n_min {
                    let j = choose|j: int| 0 <= j < pre.len() && #[trigger] covers(pre[j], k);
                    assert(post[j] == pre[j]);
                }
                if is_requested(n_min, post, k) && k != n_min && !covers(r, k) {
                    let j = choose|j: int| 0 <= j < post.len() && #[trigger] covers(post[j], k);
                    assert(j != i);
                    assert(pre[j] == post[j]);
                }
            }
        }
    }
    proof {
        assert(requests@.take(len as int) =~= requests@);
    }
    table
}

/// Finds the entry of harmonic `n` in a strictly increasing table, by
/// bisection; `None` where the table does not hold it.
pub fn harmonic_index(table: &Vec<i32>, n: i32) -> (res: Option<usize>)
    requires
        strictly_increasing(table@),
    ensures
        match res {
            Some(i) => i < table.len() && table@[i as int] == n,
            None => !holds(table@, n as int),
        },
{
    let mut lo: usize = 0;
    let mut hi: usize = table.len();
    while lo < hi
        invariant
            lo <= hi <= table.len(),
            strictly_increasing(table@),
            forall|j: int| 0 <= j < lo ==> table@[j] < n,
            forall|j: int| hi <= j < table.len() ==> table@[j] > n,
        decreases hi - lo,
    {
        let mid = lo + (hi - lo) / 2;
        if table[mid] < n {
            lo = mid + 1;
        } else if table[mid] > n {
            hi = mid;
        } else {
            return Some(mid);
        }
    }
    None
}

/// Every harmonic that the lowest order or a quadrature node needs is in
/// the table built for them, so the lookup of it never comes back empty.
pub proof fn lemma_needed_harmonics_are_found(
    n_min: i32,
    requests: Seq<HarmonicRequest>,
    table: Seq<i32>,
    k: int,
)
    requires
        is_harmonic_table(n_min, requests, table),
        is_requested(n_min, requests, k),
    ensures
        holds(table, k),
{
}

/// Two strictly increasing sequences that hold the same values are equal.
proof fn lemma_increasing_same_values_equal(s1: Seq<i32>, s2: Seq<i32>)
    requires
        strictly_increasing(s1),
        strictly_increasing(s2),
        forall|k: int| #![trigger holds(s1, k)] #![trigger holds(s2, k)] holds(s1, k) <==> holds(s2, k),
    ensures
        s1 == s2,
    decreases s1.len(),
{
    if s1.len() == 0 {
        if s2.len() > 0 {
            assert(holds(s2, s2[0] as int));
            assert(holds(s1, s2[0] as int));
        }
        assert(s1 =~= s2);
    } else {
        assert(holds(s1, s1[0] as int));
        if s2.len() == 0 {
            assert(false);
        }
        assert(holds(s2, s2[0] as int));
        assert(holds(s2, s1[0] as int));
        assert(holds(s1, s2[0] as int));
        let p = choose|j: int| 0 <= j < s2.len() && s2[j] == s1[0];
        let q = choose|j: int| 0 <= j < s1.len() && s1[j] == s2[0];
        if p > 0 {
            assert(s2[0] < s2[p]);
            if q > 0 {
                assert(s1[0] < s1[q]);
            }
            assert(false);
        }
        let t1 = s1.drop_first();
        let t2 = s2.drop_first();
        assert forall|k: int| #![trigger holds(t1, k)] #![trigger holds(t2, k)] holds(t1, k) <==> holds(t2, k) by {
            if holds(t1, k) {
                let j = choose|j: int| 0 <= j < t1.len() && t1[j] == k;
                assert(s1[j + 1] == k);
                assert(holds(s1, k));
                let m = choose|m: int| 0 <= m < s2.len() && s2[m] == k;
                assert(s1[0] < s1[j + 1]);
                assert(m != 0);
                assert(t2[m - 1] == k);
            }
            if holds(t2, k) {
                let j = choose|j: int| 0 <= j < t2.len() && t2[j] == k;
                assert(s2[j + 1] == k);
                assert(holds(s2, k));
                let m = choose|m: int| 0 <= m < s1.len() && s1[m] == k;
                assert(s2[0] < s2[j + 1]);
                assert(m != 0);
                assert(t1[m - 1] == k);
            }
        }
        lemma_increasing_same_values_equal(t1, t2);
        assert(s1 =~= seq![s1[0]] + t1);
        assert(s2 =~= seq![s2[0]] + t2);
    }
}

/// The table depends only on which harmonics are needed, not on the order
/// of the requests or on how often a harmonic is asked for: two sets of
/// requests that need the same harmonics give the same table.
pub proof fn lemma_harmonic_table_is_canonical(
    n_min: i32,
    requests1: Seq<HarmonicRequest>,
    requests2: Seq<HarmonicRequest>,
    table1: Seq<i32>,
    table2: Seq<i32>,
)
    requires
        is_harmonic_table(n_min, requests1, table1),
        is_harmonic_table(n_min, requests2, table2),
        forall|k: int| is_requested(n_min, requests1, k) <==> is_requested(n_min, requests2, k),
    ensures
        table1 == table2,
{
    assert forall|k: int| #![trigger holds(table1, k)] #![trigger holds(table2, k)] holds(table1, k) <==> holds(table2, k) by {
        assert(holds(table1, k) <==> is_requested(n_min, requests1, k));
        assert(holds(table2, k) <==> is_requested(n_min, requests2, k));
    }
    lemma_increasing_same_values_equal(table1, table2);
}

} // verus!
