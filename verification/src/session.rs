//! An in-memory execution of one exchange phase and of the whole protocol:
//! every participant's Distributor and Collector run against a schedule that
//! lists, in any order whatsoever, which collector calls which distributor.
//! The result is proved independent of that order.

use vstd::prelude::*;
use crate::arith::{
    col, col_sums, count_true, ints_of, lemma_count_true_except, lemma_count_true_two_unset,
    lemma_count_true_none, lemma_count_true_update, lemma_masked_col_empty, lemma_masked_col_full, lemma_masked_col_set,
    masked_col, matrix_of, sum_int,
};
use crate::arith::{lemma_matrix_total, lemma_sum_bound, row_sums};
use crate::errors::ProtocolError;
use crate::exchange::{Collector, Distributor, PAYLOAD_BOUND};
use crate::orchestrator::spec_average;
use crate::split::{split, SHARE_BOUND};
use crate::{MAX_PARTIES, SECRET_BOUND};

verus! {

/// One connection event: which collector calls which distributor.
pub type Call = (usize, usize);

/// A schedule that delivers every owed connection exactly once, in whatever
/// order the network happened to choose.
pub open spec fn is_full_schedule(s: Seq<Call>, n: int) -> bool {
    &&& forall|k: int|
        0 <= k < s.len() ==> (#[trigger] s[k]).0 < n && s[k].1 < n && s[k].0 != s[k].1
    &&& forall|k1: int, k2: int| 0 <= k1 < k2 < s.len() ==> s[k1] != s[k2]
    &&& forall|c: usize, d: usize|
        c < n && d < n && c != d ==> #[trigger] s.contains((c, d))
}

/// A well-dimensioned, bounded payload table: one row per participant, row
/// `i` holding what participant `i` owes each destination.
pub open spec fn valid_payloads(p: Seq<Vec<i64>>) -> bool {
    &&& 1 <= p.len() <= MAX_PARTIES
    &&& forall|i: int| 0 <= i < p.len() ==> (#[trigger] p[i])@.len() == p.len()
    &&& forall|i: int, j: int|
        0 <= i < p.len() && 0 <= j < p.len() ==> -PAYLOAD_BOUND <= (#[trigger] p[i]@[j])
            <= PAYLOAD_BOUND
}

/// Which distributors have already answered collector `c`.
pub open spec fn served_mask(dists: Seq<Distributor>, c: int) -> Seq<bool> {
    Seq::new(dists.len(), |i: int| dists[i].served@[c])
}

fn copy_row(v: &Vec<i64>) -> (r: Vec<i64>)
    ensures
        r@ == v@,
{
    let mut r: Vec<i64> = Vec::new();
    let mut i: usize = 0;
    while i < v.len()
        invariant
            i <= v@.len(),
            r@ == v@.take(i as int),
        decreases v@.len() - i,
    {
        r.push(v[i]);
        proof {
            assert(v@.take(i as int + 1) =~= v@.take(i as int).push(v@[i as int]));
        }
        i = i + 1;
    }
    proof {
        assert(v@.take(v@.len() as int) =~= v@);
    }
    r
}

/// Run one whole phase over a connection schedule. Succeeds exactly when the
/// schedule delivers every owed connection once; each participant's gathered
/// total is then its column of the payload table summed — whatever order the
/// schedule chose.
pub fn run_phase(payloads: &Vec<Vec<i64>>, schedule: &Vec<Call>) -> (r: Result<
    Vec<i128>,
    ProtocolError,
>)
    requires
        valid_payloads(payloads@),
    ensures
        r is Ok <==> is_full_schedule(schedule@, payloads@.len() as int),
        r matches Ok(sums) ==> sums@.len() == payloads@.len() && forall|j: int|
            0 <= j < payloads@.len() ==> #[trigger] sums@[j] as int == sum_int(
                col(matrix_of(payloads@), j),
            ),
{
    let n = payloads.len();
    let ghost m = matrix_of(payloads@);
    let mut dists: Vec<Distributor> = Vec::new();
    let mut i: usize = 0;
    while i < n
        invariant
            i <= n,
            valid_payloads(payloads@),
            n == payloads@.len(),
            dists@.len() == i,
            forall|t: int|
                0 <= t < i ==> {
                    &&& (#[trigger] dists@[t]).wf()
                    &&& dists@[t].self_id == t
                    &&& dists@[t].count == n
                    &&& dists@[t].payload@ == payloads@[t]@
                    &&& forall|c: int| 0 <= c < n ==> !dists@[t].served@[c]
                },
        decreases n - i,
    {
        let row = copy_row(&payloads[i]);
        dists.push(Distributor::new(i, n, row));
        i = i + 1;
    }
    let mut colls: Vec<Collector> = Vec::new();
    let mut j: usize = 0;
    while j < n
        invariant
            j <= n,
            valid_payloads(payloads@),
            n == payloads@.len(),
            colls@.len() == j,
            forall|t: int|
                0 <= t < j ==> {
                    &&& (#[trigger] colls@[t]).wf()
                    &&& colls@[t].self_id == t
                    &&& colls@[t].count == n
                    &&& colls@[t].pending == n - 1
                    &&& colls@[t].total == payloads@[t]@[t] as int
                },
        decreases n - j,
    {
        colls.push(Collector::new(j, n, payloads[j][j]));
        j = j + 1;
    }
    proof {
        assert forall|t: int| 0 <= t < n implies count_true(served_mask(dists@, t)) == 0
            && sum_int(masked_col(m, t, served_mask(dists@, t))) == 0 by {
            lemma_count_true_none(served_mask(dists@, t));
            lemma_masked_col_empty(m, t, served_mask(dists@, t));
        }
    }
    let mut k: usize = 0;
    while k < schedule.len()
        invariant
            k <= schedule@.len(),
            valid_payloads(payloads@),
            n == payloads@.len(),
            m == matrix_of(payloads@),
            dists@.len() == n,
            colls@.len() == n,
            forall|t: int|
                0 <= t < n ==> {
                    &&& (#[trigger] dists@[t]).wf()
                    &&& dists@[t].self_id == t
                    &&& dists@[t].count == n
                    &&& dists@[t].payload@ == payloads@[t]@
                },
            forall|t: int|
                0 <= t < n ==> {
                    &&& (#[trigger] colls@[t]).wf()
                    &&& colls@[t].self_id == t
                    &&& colls@[t].count == n
                    &&& colls@[t].pending == n - 1 - count_true(served_mask(dists@, t))
                    &&& colls@[t].total == m[t][t] + sum_int(masked_col(m, t, served_mask(dists@, t)))
                },
            // a distributor's record of who it answered is exactly the prefix
            // of the schedule processed so far
            forall|c: int, d: int|
                0 <= c < n && 0 <= d < n ==> ((#[trigger] dists@[d].served@[c])
                    <==> schedule@.take(k as int).contains((c as usize, d as usize))),
            forall|k1: int| 0 <= k1 < k ==> (#[trigger] schedule@[k1]).0 < n && schedule@[k1].1 < n
                && schedule@[k1].0 != schedule@[k1].1,
            forall|k1: int, k2: int| 0 <= k1 < k2 < k ==> schedule@[k1] != schedule@[k2],
        decreases schedule@.len() - k,
    {
        let (c, d) = schedule[k];
        if c >= n || d >= n || c == d {
            proof {
                lemma_not_full_bad_entry(schedule@, n as int, k as int);
            }
            return Err(ProtocolError::ProtocolViolation);
        }
        let token = colls[c].token();
        let ghost old_dists = dists@;
        let ghost old_colls = colls@;
        let reply = match dists[d].handle_request(&token) {
            Ok(reply) => reply,
            Err(_) => {
                // the only way a valid call fails is that this pair was
                // already delivered: the schedule repeats itself
                proof {
                    let prefix = schedule@.take(k as int);
                    assert(prefix.contains((c, d)));
                    let k1 = choose|k1: int| 0 <= k1 < prefix.len() && prefix[k1] == (c, d);
                    assert(schedule@[k1] == (c, d));
                    lemma_not_full_dup(schedule@, n as int, k1, k as int);
                }
                return Err(ProtocolError::ProtocolViolation);
            },
        };
        proof {
            assert(served_mask(dists@, c as int) =~= served_mask(old_dists, c as int).update(
                d as int,
                true,
            ));
            assert forall|t: int| 0 <= t < n && t != c implies served_mask(dists@, t)
                =~= served_mask(old_dists, t) by {
            }
            lemma_masked_col_set(m, c as int, served_mask(old_dists, c as int), d as int);
            lemma_count_true_update(served_mask(old_dists, c as int), d as int);
            lemma_count_true_two_unset(served_mask(old_dists, c as int), c as int, d as int);
        }
        match colls[c].record(&reply) {
            Ok(_) => {},
            Err(_) => {
                // unreachable: the reply is well-formed, in range, and owed
                proof {
                    assert(false);
                }
                return Err(ProtocolError::ProtocolViolation);
            },
        }
        proof {
            assert forall|k1: int| 0 <= k1 < k implies schedule@[k1] != (c, d) by {
                if schedule@[k1] == (c, d) {
                    assert(schedule@.take(k as int)[k1] == (c, d));
                    assert(schedule@.take(k as int).contains((c, d)));
                }
            }
            assert(schedule@.take(k as int + 1) =~= schedule@.take(k as int).push((c, d)));
            assert forall|c2: int, d2: int| 0 <= c2 < n && 0 <= d2 < n implies ((
            #[trigger] dists@[d2].served@[c2]) <==> schedule@.take(k as int + 1).contains(
                (c2 as usize, d2 as usize),
            )) by {
                let prefix = schedule@.take(k as int);
                let longer = schedule@.take(k as int + 1);
                if c2 == c as int && d2 == d as int {
                    assert(longer[k as int] == (c, d));
                    assert(longer.contains((c, d)));
                } else {
                    if longer.contains((c2 as usize, d2 as usize)) {
                        let k1 = choose|k1: int|
                            0 <= k1 < longer.len() && longer[k1] == (c2 as usize, d2 as usize);
                        if k1 < k as int {
                            assert(prefix[k1] == (c2 as usize, d2 as usize));
                            assert(prefix.contains((c2 as usize, d2 as usize)));
                        }
                    }
                    if prefix.contains((c2 as usize, d2 as usize)) {
                        let k1 = choose|k1: int|
                            0 <= k1 < prefix.len() && prefix[k1] == (c2 as usize, d2 as usize);
                        assert(longer[k1] == (c2 as usize, d2 as usize));
                        assert(longer.contains((c2 as usize, d2 as usize)));
                    }
                }
            }
        }
        k = k + 1;
    }
    proof {
        assert(schedule@.take(schedule@.len() as int) =~= schedule@);
    }
    // the phase's completion barrier: every distributor has served all
    // others, and every collector holds all replies it is owed
    let mut t: usize = 0;
    while t < n
        invariant
            t <= n,
            n == payloads@.len() >= 1,
            m == matrix_of(payloads@),
            dists@.len() == n,
            colls@.len() == n,
            forall|u: int|
                0 <= u < n ==> {
                    &&& (#[trigger] dists@[u]).wf()
                    &&& dists@[u].self_id == u
                    &&& dists@[u].count == n
                },
            forall|u: int|
                0 <= u < n ==> {
                    &&& (#[trigger] colls@[u]).wf()
                    &&& colls@[u].self_id == u
                    &&& colls@[u].count == n
                    &&& colls@[u].pending == n - 1 - count_true(served_mask(dists@, u))
                    &&& colls@[u].total == m[u][u] + sum_int(masked_col(m, u, served_mask(dists@, u)))
                },
            forall|c: int, d: int|
                0 <= c < n && 0 <= d < n ==> ((#[trigger] dists@[d].served@[c])
                    <==> schedule@.contains((c as usize, d as usize))),
            forall|k1: int|
                0 <= k1 < schedule@.len() ==> (#[trigger] schedule@[k1]).0 < n && schedule@[k1].1
                    < n && schedule@[k1].0 != schedule@[k1].1,
            forall|k1: int, k2: int|
                0 <= k1 < k2 < schedule@.len() ==> schedule@[k1] != schedule@[k2],
            forall|u: int, c: int|
                0 <= u < t && 0 <= c < n && c != u ==> #[trigger] dists@[u].served@[c],
        decreases n - t,
    {
        if !dists[t].done() || !colls[t].complete() {
            // some owed connection never happened: the schedule is not full
            proof {
                if colls@[t as int].pending != 0 {
                    lemma_pending_means_unserved(dists@, t as int, n as int);
                }
                assert(exists|c: int, d: int|
                    0 <= c < n && 0 <= d < n && c != d && !dists@[d].served@[c]);
                let (c, d) = choose|c: int, d: int|
                    0 <= c < n && 0 <= d < n && c != d && !dists@[d].served@[c];
                assert(!schedule@.contains((c as usize, d as usize)));
            }
            return Err(ProtocolError::ConnectionError);
        }
        t = t + 1;
    }
    let mut sums: Vec<i128> = Vec::new();
    let mut u: usize = 0;
    while u < n
        invariant
            u <= n,
            n == payloads@.len() >= 1,
            m == matrix_of(payloads@),
            dists@.len() == n,
            colls@.len() == n,
            forall|v: int|
                0 <= v < n ==> {
                    &&& (#[trigger] dists@[v]).wf()
                    &&& dists@[v].self_id == v
                    &&& dists@[v].count == n
                },
            forall|v: int|
                0 <= v < n ==> {
                    &&& (#[trigger] colls@[v]).wf()
                    &&& colls@[v].self_id == v
                    &&& colls@[v].total == m[v][v] + sum_int(
                        masked_col(m, v, served_mask(dists@, v)),
                    )
                },
            forall|v: int, c: int|
                0 <= v < n && 0 <= c < n && c != v ==> #[trigger] dists@[v].served@[c],
            forall|c: int, d: int|
                0 <= c < n && 0 <= d < n ==> ((#[trigger] dists@[d].served@[c])
                    <==> schedule@.contains((c as usize, d as usize))),
            forall|k1: int|
                0 <= k1 < schedule@.len() ==> (#[trigger] schedule@[k1]).0 < n && schedule@[k1].1
                    < n && schedule@[k1].0 != schedule@[k1].1,
            forall|k1: int, k2: int|
                0 <= k1 < k2 < schedule@.len() ==> schedule@[k1] != schedule@[k2],
            sums@.len() == u,
            forall|v: int|
                0 <= v < u ==> #[trigger] sums@[v] as int == sum_int(col(m, v)),
        decreases n - u,
    {
        proof {
            assert(!dists@[u as int].served@[u as int]);
            lemma_masked_col_full(m, u as int, served_mask(dists@, u as int), u as int);
        }
        sums.push(colls[u].total);
        u = u + 1;
    }
    proof {
        assert forall|c: usize, d: usize| c < n && d < n && c != d implies #[trigger] schedule@
            .contains((c, d)) by {
            assert(dists@[d as int].served@[c as int]);
        }
        assert(is_full_schedule(schedule@, n as int));
    }
    Ok(sums)
}

/// A schedule with an out-of-range or self-addressed entry is not full.
proof fn lemma_not_full_bad_entry(s: Seq<Call>, n: int, k: int)
    requires
        0 <= k < s.len(),
        !((s[k]).0 < n && (s[k]).1 < n && (s[k]).0 != (s[k]).1),
    ensures
        !is_full_schedule(s, n),
{
}

/// A schedule that repeats an entry is not full.
proof fn lemma_not_full_dup(s: Seq<Call>, n: int, k1: int, k2: int)
    requires
        0 <= k1 < k2 < s.len(),
        s[k1] == s[k2],
    ensures
        !is_full_schedule(s, n),
{
}

/// A collector still owed a reply means some distributor has not served it.
proof fn lemma_pending_means_unserved(dists: Seq<Distributor>, t: int, n: int)
    requires
        dists.len() == n,
        0 <= t < n,
        forall|u: int| 0 <= u < n ==> (#[trigger] dists[u]).served@.len() == n,
        !dists[t].served@[t],
        count_true(served_mask(dists, t)) != n - 1,
    ensures
        exists|d: int| 0 <= d < n && d != t && !(#[trigger] dists[d]).served@[t],
{
    let mask = served_mask(dists, t);
    if forall|d: int| 0 <= d < n && d != t ==> (#[trigger] dists[d]).served@[t] {
        assert forall|d: int| 0 <= d < mask.len() && d != t implies mask[d] by {}
        lemma_count_true_except(mask, t);
    }
}

/// Every owed connection once, collectors in ascending order: the canonical
/// full schedule. Any permutation of it would serve equally well.
pub fn full_schedule(n: usize) -> (r: Vec<Call>)
    requires
        n <= MAX_PARTIES,
    ensures
        is_full_schedule(r@, n as int),
{
    let mut sched: Vec<Call> = Vec::new();
    let mut c: usize = 0;
    while c < n
        invariant
            c <= n,
            forall|k: int|
                0 <= k < sched@.len() ==> (#[trigger] sched@[k]).0 < n && sched@[k].1 < n
                    && sched@[k].0 != sched@[k].1,
            forall|k: int| 0 <= k < sched@.len() ==> (#[trigger] sched@[k]).0 < c,
            forall|k1: int, k2: int| 0 <= k1 < k2 < sched@.len() ==> sched@[k1] != sched@[k2],
            forall|c2: usize, d2: usize|
                c2 < c && d2 < n && c2 != d2 ==> #[trigger] sched@.contains((c2, d2)),
        decreases n - c,
    {
        let mut d: usize = 0;
        while d < n
            invariant
                c < n,
                d <= n,
                forall|k: int|
                    0 <= k < sched@.len() ==> (#[trigger] sched@[k]).0 < n && sched@[k].1 < n
                        && sched@[k].0 != sched@[k].1,
                forall|k: int|
                    0 <= k < sched@.len() ==> (#[trigger] sched@[k]).0 < c || (sched@[k].0 == c
                        && sched@[k].1 < d),
                forall|k1: int, k2: int| 0 <= k1 < k2 < sched@.len() ==> sched@[k1] != sched@[k2],
                forall|c2: usize, d2: usize|
                    c2 < c && d2 < n && c2 != d2 ==> #[trigger] sched@.contains((c2, d2)),
                forall|d2: usize| d2 < d && d2 != c ==> #[trigger] sched@.contains((c, d2)),
            decreases n - d,
        {
            if d != c {
                let ghost before = sched@;
                sched.push((c, d));
                proof {
                    assert(sched@[before.len() as int] == (c, d));
                    assert(sched@.contains((c, d)));
                    assert forall|c2: usize, d2: usize|
                        c2 < c && d2 < n && c2 != d2 implies #[trigger] sched@.contains(
                        (c2, d2),
                    ) by {
                        assert(before.contains((c2, d2)));
                        let k = choose|k: int|
                            0 <= k < before.len() && before[k] == (c2, d2);
                        assert(sched@[k] == (c2, d2));
                    }
                    assert forall|d2: usize| d2 < d + 1 && d2 != c implies #[trigger] sched@
                        .contains((c, d2)) by {
                        if d2 < d {
                            assert(before.contains((c, d2)));
                            let k = choose|k: int|
                                0 <= k < before.len() && before[k] == (c, d2);
                            assert(sched@[k] == (c, d2));
                        }
                    }
                }
            }
            d = d + 1;
        }
        c = c + 1;
    }
    sched
}

/// Run the whole protocol in memory for every participant at once: split
/// each secret, exchange shares over one schedule, exchange the column sums
/// over another, and average. Every participant ends with the same average,
/// the average of the secrets themselves — for any random draw and for any
/// two full schedules.
pub fn run_protocol(
    secrets: &Vec<i64>,
    schedule_shares: &Vec<Call>,
    schedule_sums: &Vec<Call>,
) -> (r: Result<Vec<i64>, ProtocolError>)
    requires
        1 <= secrets@.len() <= MAX_PARTIES,
        forall|i: int|
            0 <= i < secrets@.len() ==> -SECRET_BOUND <= #[trigger] secrets@[i] <= SECRET_BOUND,
        is_full_schedule(schedule_shares@, secrets@.len() as int),
        is_full_schedule(schedule_sums@, secrets@.len() as int),
    ensures
        r is Ok,
        r matches Ok(avgs) ==> avgs@.len() == secrets@.len() && forall|j: int|
            0 <= j < avgs@.len() ==> #[trigger] avgs@[j] as int == spec_average(
                sum_int(ints_of(secrets@)),
                secrets@.len() as int,
            ),
{
    let n = secrets.len();
    // every participant splits its secret
    let mut table: Vec<Vec<i64>> = Vec::new();
    let mut i: usize = 0;
    while i < n
        invariant
            i <= n,
            1 <= n == secrets@.len() <= MAX_PARTIES,
            forall|t: int| 0 <= t < n ==> -SECRET_BOUND <= #[trigger] secrets@[t] <= SECRET_BOUND,
            table@.len() == i,
            forall|t: int|
                0 <= t < i ==> {
                    &&& (#[trigger] table@[t])@.len() == n
                    &&& sum_int(ints_of(table@[t]@)) == secrets@[t] as int
                    &&& forall|j: int|
                        0 <= j < n ==> -SHARE_BOUND <= #[trigger] table@[t]@[j] <= SHARE_BOUND
                },
        decreases n - i,
    {
        table.push(split(secrets[i], n));
        i = i + 1;
    }
    let ghost m1 = matrix_of(table@);
    proof {
        assert(0 <= (n as int) * (SHARE_BOUND as int) <= PAYLOAD_BOUND as int)
            by (nonlinear_arith)
            requires
                0 <= n <= 1024,
                PAYLOAD_BOUND as int == 1024 * (SHARE_BOUND as int),
                SHARE_BOUND as int >= 0,
        ;
        assert forall|t: int, j: int| 0 <= t < n && 0 <= j < n implies -PAYLOAD_BOUND <= (
        #[trigger] m1[t][j]) <= PAYLOAD_BOUND by {
            assert(m1[t][j] == table@[t]@[j] as int);
        }
        assert(valid_payloads(table@));
    }
    // phase one: exchange shares, each participant gathering its column sum
    let sums1 = match run_phase(&table, schedule_shares) {
        Ok(s) => s,
        Err(e) => {
            proof {
                assert(false);
            }
            return Err(e);
        },
    };
    proof {
        assert forall|j: int| 0 <= j < n implies -PAYLOAD_BOUND <= sum_int(#[trigger] col(m1, j))
            <= PAYLOAD_BOUND by {
            assert forall|t: int| 0 <= t < col(m1, j).len() implies -(SHARE_BOUND as int) <= (
            #[trigger] col(m1, j)[t]) <= SHARE_BOUND as int by {
                assert(col(m1, j)[t] == table@[t]@[j] as int);
            }
            lemma_sum_bound(col(m1, j), SHARE_BOUND as int);
        }
    }
    // phase two: every participant owes every peer its one column sum
    let mut table2: Vec<Vec<i64>> = Vec::new();
    let mut t2: usize = 0;
    while t2 < n
        invariant
            t2 <= n,
            1 <= n <= MAX_PARTIES,
            m1.len() == n,
            sums1@.len() == n,
            forall|j: int|
                0 <= j < n ==> #[trigger] sums1@[j] as int == sum_int(col(m1, j)),
            forall|j: int|
                0 <= j < n ==> -PAYLOAD_BOUND <= sum_int(#[trigger] col(m1, j)) <= PAYLOAD_BOUND,
            table2@.len() == t2,
            forall|t: int|
                0 <= t < t2 ==> {
                    &&& (#[trigger] table2@[t])@.len() == n
                    &&& forall|j: int|
                        0 <= j < n ==> (#[trigger] table2@[t]@[j]) as int == sum_int(col(m1, t))
                },
        decreases n - t2,
    {
        let own: i64 = sums1[t2] as i64;
        let mut row: Vec<i64> = Vec::new();
        let mut j: usize = 0;
        while j < n
            invariant
                j <= n,
                row@.len() == j,
                forall|u: int| 0 <= u < j ==> #[trigger] row@[u] == own,
            decreases n - j,
        {
            row.push(own);
            j = j + 1;
        }
        table2.push(row);
        t2 = t2 + 1;
    }
    let ghost m2 = matrix_of(table2@);
    proof {
        assert forall|t: int, j: int| 0 <= t < n && 0 <= j < n implies -PAYLOAD_BOUND <= (
        #[trigger] m2[t][j]) <= PAYLOAD_BOUND by {
            assert(m2[t][j] == table2@[t]@[j] as int);
            assert(table2@[t]@[j] as int == sum_int(col(m1, t)));
        }
        assert(valid_payloads(table2@));
    }
    let sums2 = match run_phase(&table2, schedule_sums) {
        Ok(s) => s,
        Err(e) => {
            proof {
                assert(false);
            }
            return Err(e);
        },
    };
    // whichever column a participant gathered, it holds the one global sum:
    // the sum of all column sums, which is the sum of all the secrets
    let ghost total = sum_int(ints_of(secrets@));
    proof {
        lemma_matrix_total(m1, n as int);
        assert(row_sums(m1) =~= ints_of(secrets@));
        assert forall|j: int| 0 <= j < n implies #[trigger] sums2@[j] as int == total by {
            assert(col(m2, j) =~= col_sums(m1, n as int));
        }
        lemma_sum_bound(ints_of(secrets@), SECRET_BOUND as int);
        assert(0 <= (n as int) * (SECRET_BOUND as int) < PAYLOAD_BOUND as int)
            by (nonlinear_arith)
            requires
                0 <= n <= 1024,
                PAYLOAD_BOUND as int == 1024 * (SHARE_BOUND as int),
                SHARE_BOUND as int > SECRET_BOUND as int >= 0,
        ;
    }
    let mut avgs: Vec<i64> = Vec::new();
    let mut a: usize = 0;
    while a < n
        invariant
            a <= n,
            1 <= n <= MAX_PARTIES,
            sums2@.len() == n,
            forall|j: int| 0 <= j < n ==> #[trigger] sums2@[j] as int == total,
            -PAYLOAD_BOUND < total < PAYLOAD_BOUND,
            avgs@.len() == a,
            forall|j: int|
                0 <= j < a ==> #[trigger] avgs@[j] as int == spec_average(total, n as int),
        decreases n - a,
    {
        let g: i64 = sums2[a] as i64;
        avgs.push(crate::orchestrator::average_of(g, n));
        a = a + 1;
    }
    Ok(avgs)
}

/// Whatever random draws produced two share tables for the same secrets, the
/// global sum — and with it the average — is the same: the protocol's result
/// is deterministic even though the shares are not.
pub proof fn lemma_average_stable(t1: Seq<Seq<int>>, t2: Seq<Seq<int>>, secrets: Seq<int>)
    requires
        t1.len() == secrets.len(),
        t2.len() == secrets.len(),
        forall|i: int| 0 <= i < secrets.len() ==> (#[trigger] t1[i]).len() == secrets.len(),
        forall|i: int| 0 <= i < secrets.len() ==> (#[trigger] t2[i]).len() == secrets.len(),
        forall|i: int| 0 <= i < secrets.len() ==> sum_int(#[trigger] t1[i]) == secrets[i],
        forall|i: int| 0 <= i < secrets.len() ==> sum_int(#[trigger] t2[i]) == secrets[i],
    ensures
        sum_int(col_sums(t1, secrets.len() as int)) == sum_int(col_sums(t2, secrets.len() as int)),
        sum_int(col_sums(t1, secrets.len() as int)) == sum_int(secrets),
{
    let n = secrets.len() as int;
    assert forall|i: int| 0 <= i < t1.len() implies #[trigger] t1[i].len() == n by {
        assert(t1[i].len() == secrets.len());
    }
    assert forall|i: int| 0 <= i < t2.len() implies #[trigger] t2[i].len() == n by {
        assert(t2[i].len() == secrets.len());
    }
    lemma_matrix_total(t1, n);
    lemma_matrix_total(t2, n);
    assert forall|i: int| 0 <= i < n implies #[trigger] row_sums(t1)[i] == secrets[i] by {
        assert(sum_int(t1[i]) == secrets[i]);
    }
    assert forall|i: int| 0 <= i < n implies #[trigger] row_sums(t2)[i] == secrets[i] by {
        assert(sum_int(t2[i]) == secrets[i]);
    }
    assert(row_sums(t1) =~= secrets);
    assert(row_sums(t2) =~= secrets);
}

/// A single participant needs no exchange at all: the empty schedule is a
/// full schedule, and the average of one value is that value.
pub proof fn lemma_single_party(total: int)
    ensures
        is_full_schedule(Seq::<Call>::empty(), 1),
        spec_average(total, 1) == total,
{
}

} // verus!
