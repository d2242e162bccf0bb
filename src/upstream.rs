//! Upstream pools and the weighted, health-aware choice of a backend.
//!
//! Health verdicts come from outside: for each server, in list order, the
//! caller passes the cached verdict (`fall_down`, used for the weight sums)
//! and the per-server verdict (`check_down`, used during the scan). `true`
//! means the server is currently excluded.

use vstd::prelude::*;

verus! {

/// A socket address held as plain values: the IP as a 128-bit number (an
/// IPv4 address occupies the low 32 bits) and the port.
#[derive(Debug, Clone, Copy, PartialEq, Eq, Structural)]
pub struct SockAddr {
    pub ip: u128,
    pub v6: bool,
    pub port: u16,
}

pub fn default_weight() -> (r: u16)
    ensures
        r == 100,
{
    100
}

/// Default time, in seconds, that a server stays excluded after falling.
pub fn fail_timeout() -> (r: u64)
    ensures
        r == 30,
{
    30
}

pub fn default_fall_times() -> (r: usize)
    ensures
        r == 2,
{
    2
}

pub fn default_rise_times() -> (r: usize)
    ensures
        r == 2,
{
    2
}

/// One backend of a pool.
#[derive(Debug, Clone)]
pub struct SingleStreamConfig {
    pub addr: SockAddr,
    /// Relative share of traffic; a zero weight is never chosen.
    pub weight: u16,
    /// Seconds a fallen server stays excluded before it is retried.
    pub fail_timeout: u64,
    /// Consecutive failures that mark the server down.
    pub fall_times: usize,
    /// Consecutive successes that mark a fallen server healthy again.
    pub rise_times: usize,
    /// Transient health annotation, never part of the configuration.
    pub status: Option<String>,
}

/// A named group of backends.
#[derive(Debug, Clone)]
pub struct UpstreamConfig {
    pub name: String,
    pub bind: String,
    pub server: Vec<SingleStreamConfig>,
}

/// The weights of the servers, in list order.
pub open spec fn weights(servers: Seq<SingleStreamConfig>) -> Seq<u16> {
    servers.map_values(|s: SingleStreamConfig| s.weight)
}

/// A verdict list that excludes nobody.
pub open spec fn no_skip(n: nat) -> Seq<bool> {
    Seq::new(n, |_i: int| false)
}

/// Sum of the weights from index `i` on, leaving out the excluded servers.
pub open spec fn sum_from(ws: Seq<u16>, skip: Seq<bool>, i: int) -> int
    decreases ws.len() - i,
{
    if i < 0 || i >= ws.len() {
        0
    } else {
        (if skip[i] {
            0
        } else {
            ws[i] as int
        }) + sum_from(ws, skip, i + 1)
    }
}

/// The scan: from index `i`, each server that is not excluded and has a
/// positive weight is taken when `r` is at most its weight; otherwise its
/// weight is taken off `r` and the scan goes on.
pub open spec fn pick_from(ws: Seq<u16>, skip: Seq<bool>, r: int, i: int) -> Option<int>
    decreases ws.len() - i,
{
    if i < 0 || i >= ws.len() {
        None
    } else if skip[i] || ws[i] == 0 {
        pick_from(ws, skip, r, i + 1)
    } else if r <= ws[i] {
        Some(i)
    } else {
        pick_from(ws, skip, r - ws[i], i + 1)
    }
}

/// The address the scan with draw `r` lands on, if any.
pub open spec fn spec_pick(servers: Seq<SingleStreamConfig>, skip: Seq<bool>, r: int) -> Option<
    SockAddr,
> {
    match pick_from(weights(servers), skip, r, 0) {
        Some(i) => Some(servers[i].addr),
        None => None,
    }
}

/// Weight of the servers not excluded by `fall_down`.
pub open spec fn healthy_weight(servers: Seq<SingleStreamConfig>, fall_down: Seq<bool>) -> int {
    sum_from(weights(servers), fall_down, 0)
}

/// Weight of all servers.
pub open spec fn total_weight(servers: Seq<SingleStreamConfig>) -> int {
    sum_from(weights(servers), no_skip(servers.len()), 0)
}

/// What a selection may return: with some healthy weight, the scan over the
/// per-server verdicts for a draw below it; with none, the scan over all
/// servers for a draw below the total; with no weight at all, nothing.
pub open spec fn selection_outcome(
    servers: Seq<SingleStreamConfig>,
    fall_down: Seq<bool>,
    check_down: Seq<bool>,
    res: Option<SockAddr>,
) -> bool {
    let healthy = healthy_weight(servers, fall_down);
    let total = total_weight(servers);
    if healthy > 0 {
        exists|r: int| 0 <= r < healthy && res == spec_pick(servers, check_down, r)
    } else if total > 0 {
        exists|r: int| 0 <= r < total && res == spec_pick(servers, no_skip(servers.len()), r)
    } else {
        res is None
    }
}

/// Relies on `rand::thread_rng` and `Rng::gen_range`: a draw from `[0, n)`;
/// `gen_range` panics only on an empty range.
#[verifier::external_body]
fn random_below(n: u128) -> (r: u128)
    requires
        n > 0,
    ensures
        r < n,
{
    rand::Rng::gen_range(&mut rand::thread_rng(), 0..n)
}

impl SingleStreamConfig {
    /// A server with the given weight and health parameters and no status.
    pub fn new(
        addr: SockAddr,
        weight: u16,
        fail_timeout: u64,
        fall_times: usize,
        rise_times: usize,
    ) -> (r: SingleStreamConfig)
        ensures
            r.addr == addr,
            r.weight == weight,
            r.fail_timeout == fail_timeout,
            r.fall_times == fall_times,
            r.rise_times == rise_times,
            (r.status is None),
    {
        SingleStreamConfig { addr, weight, fail_timeout, fall_times, rise_times, status: None }
    }
}

impl UpstreamConfig {
    /// Chooses a backend: weighted at random among the servers deemed
    /// healthy, or among all servers when none is; `None` for an empty pool
    /// or one without weight.
    pub fn get_server_addr(&self, fall_down: &Vec<bool>, check_down: &Vec<bool>) -> (res: Option<
        SockAddr,
    >)
        requires
            fall_down@.len() == self.server@.len(),
            check_down@.len() == self.server@.len(),
        ensures
            selection_outcome(self.server@, fall_down@, check_down@, res),
            self.server@.len() == 0 ==> (res is None),
            healthy_weight(self.server@, fall_down@) == 0 && total_weight(self.server@) > 0
                ==> (res is Some),
            healthy_weight(self.server@, fall_down@) > 0 && check_down@ == fall_down@
                ==> (res is Some),
    {
        if self.server.len() == 0 {
            return None;
        }
        let (sum, sum_all) = self.calc_sum_weight(fall_down);
        if sum != 0 {
            let r = random_below(sum);
            let res = self.pick_by_weight(check_down, r);
            proof {
                if check_down@ == fall_down@ {
                    lemma_pick_some(weights(self.server@), check_down@, r as int, 0);
                }
            }
            res
        } else if sum_all != 0 {
            let r = random_below(sum_all);
            let all = no_exclusion(self.server.len());
            let res = self.pick_by_weight(&all, r);
            proof {
                lemma_pick_some(weights(self.server@), all@, r as int, 0);
            }
            res
        } else {
            None
        }
    }

    /// The weight of the servers not marked in `fall_down`, and the weight of
    /// all servers. Sums of `u16` weights over any list fit a `u128`.
    pub fn calc_sum_weight(&self, fall_down: &Vec<bool>) -> (r: (u128, u128))
        requires
            fall_down@.len() == self.server@.len(),
        ensures
            r.0 == healthy_weight(self.server@, fall_down@),
            r.1 == total_weight(self.server@),
    {
        let ghost ws = weights(self.server@);
        let ghost all = no_skip(self.server@.len());
        let n = self.server.len();
        let mut sum: u128 = 0;
        let mut sum_all: u128 = 0;
        let mut i: usize = 0;
        while i < n
            invariant
                n == self.server@.len(),
                ws == weights(self.server@),
                all == no_skip(self.server@.len()),
                fall_down@.len() == n,
                i <= n,
                sum + sum_from(ws, fall_down@, i as int) == sum_from(ws, fall_down@, 0),
                sum_all + sum_from(ws, all, i as int) == sum_from(ws, all, 0),
                sum <= 65535 * i,
                sum_all <= 65535 * i,
            decreases n - i,
        {
            let w = self.server[i].weight;
            if !fall_down[i] {
                sum = sum + w as u128;
            }
            sum_all = sum_all + w as u128;
            i += 1;
        }
        (sum, sum_all)
    }

    /// The scan for a given draw `r`, skipping the servers marked in `skip`
    /// and those of zero weight.
    pub fn pick_by_weight(&self, skip: &Vec<bool>, r: u128) -> (res: Option<SockAddr>)
        requires
            skip@.len() == self.server@.len(),
        ensures
            res == spec_pick(self.server@, skip@, r as int),
    {
        let ghost ws = weights(self.server@);
        let n = self.server.len();
        let mut rem: u128 = r;
        let mut i: usize = 0;
        while i < n
            invariant
                n == self.server@.len(),
                ws == weights(self.server@),
                skip@.len() == n,
                i <= n,
                pick_from(ws, skip@, r as int, 0) == pick_from(ws, skip@, rem as int, i as int),
            decreases n - i,
        {
            let w = self.server[i].weight;
            if !skip[i] && w != 0 {
                if rem <= w as u128 {
                    return Some(self.server[i].addr);
                }
                rem = rem - w as u128;
            }
            i += 1;
        }
        None
    }
}

/// A verdict list of length `n` that excludes nobody.
fn no_exclusion(n: usize) -> (r: Vec<bool>)
    ensures
        r@ == no_skip(n as nat),
{
    let mut v: Vec<bool> = Vec::new();
    let mut i: usize = 0;
    while i < n
        invariant
            i <= n,
            v@ == no_skip(i as nat),
        decreases n - i,
    {
        v.push(false);
        i += 1;
        assert(v@ =~= no_skip(i as nat));
    }
    v
}

/// A draw below the remaining eligible weight always lands on a server.
pub proof fn lemma_pick_some(ws: Seq<u16>, skip: Seq<bool>, r: int, i: int)
    requires
        skip.len() == ws.len(),
        0 <= i,
        0 <= r < sum_from(ws, skip, i),
    ensures
        (pick_from(ws, skip, r, i) is Some),
    decreases ws.len() - i,
{
    if i < ws.len() {
        if skip[i] || ws[i] == 0 {
            lemma_pick_some(ws, skip, r, i + 1);
        } else if r > ws[i] {
            lemma_pick_some(ws, skip, r - ws[i], i + 1);
        }
    }
}

/// The scan only ever lands on a server from `i` on that is not excluded and
/// has a positive weight.
pub proof fn lemma_pick_eligible(ws: Seq<u16>, skip: Seq<bool>, r: int, i: int)
    requires
        skip.len() == ws.len(),
        0 <= i,
    ensures
        pick_from(ws, skip, r, i) matches Some(j) ==> i <= j < ws.len() && !skip[j] && ws[j] > 0,
    decreases ws.len() - i,
{
    if i < ws.len() {
        if skip[i] || ws[i] == 0 {
            lemma_pick_eligible(ws, skip, r, i + 1);
        } else if r > ws[i] {
            lemma_pick_eligible(ws, skip, r - ws[i], i + 1);
        }
    }
}

proof fn lemma_sum_mono(ws: Seq<u16>, skip: Seq<bool>, i: int, k: int)
    requires
        0 <= i <= k,
    ensures
        sum_from(ws, skip, i) >= sum_from(ws, skip, k),
    decreases k - i,
{
    if i < k {
        lemma_sum_mono(ws, skip, i + 1, k);
    }
}

proof fn lemma_sum_nonneg(ws: Seq<u16>, skip: Seq<bool>, i: int)
    ensures
        sum_from(ws, skip, i) >= 0,
    decreases ws.len() - i,
{
    if 0 <= i < ws.len() {
        lemma_sum_nonneg(ws, skip, i + 1);
    }
}

proof fn lemma_pick_offset(ws: Seq<u16>, skip: Seq<bool>, i: int, k: int)
    requires
        skip.len() == ws.len(),
        0 <= i <= k < ws.len(),
        !skip[k],
        ws[k] > 0,
    ensures
        pick_from(ws, skip, sum_from(ws, skip, i) - sum_from(ws, skip, k) + 1, i) == Some(k),
    decreases k - i,
{
    if i < k {
        lemma_sum_mono(ws, skip, i + 1, k);
        lemma_pick_offset(ws, skip, i + 1, k);
    }
}

proof fn lemma_pick_first(ws: Seq<u16>, skip: Seq<bool>, i: int, k: int)
    requires
        skip.len() == ws.len(),
        0 <= i <= k < ws.len(),
        !skip[k],
        ws[k] > 0,
        sum_from(ws, skip, i) == sum_from(ws, skip, k),
    ensures
        pick_from(ws, skip, 0, i) == Some(k),
    decreases k - i,
{
    if i < k {
        lemma_sum_mono(ws, skip, i + 1, k);
        lemma_pick_first(ws, skip, i + 1, k);
    }
}

/// A server that is not excluded and has a positive weight is the outcome of
/// some draw below the eligible weight, unless it is preceded by eligible
/// weight and the eligible weight from it on is 1: the scan admits a draw
/// equal to a weight, so such a server has no draw left.
pub proof fn lemma_pick_reaches(servers: Seq<SingleStreamConfig>, skip: Seq<bool>, k: int)
    requires
        skip.len() == servers.len(),
        0 <= k < servers.len(),
        !skip[k],
        servers[k].weight > 0,
        sum_from(weights(servers), skip, k) >= 2 || sum_from(weights(servers), skip, 0)
            == sum_from(weights(servers), skip, k),
    ensures
        exists|r: int|
            0 <= r < sum_from(weights(servers), skip, 0) && spec_pick(servers, skip, r) == Some(
                servers[k].addr,
            ),
{
    let ws = weights(servers);
    lemma_sum_mono(ws, skip, 0, k);
    lemma_sum_nonneg(ws, skip, k + 1);
    assert(ws[k] == servers[k].weight);
    if sum_from(ws, skip, 0) == sum_from(ws, skip, k) {
        lemma_pick_first(ws, skip, 0, k);
        assert(spec_pick(servers, skip, 0) == Some(servers[k].addr));
    } else {
        lemma_pick_offset(ws, skip, 0, k);
        let r = sum_from(ws, skip, 0) - sum_from(ws, skip, k) + 1;
        assert(spec_pick(servers, skip, r) == Some(servers[k].addr));
    }
}

/// Degenerate pools: an empty one gives nothing; a single server of positive
/// weight is returned whether it is healthy or, with no healthy weight left,
/// through the fallback over all servers.
pub proof fn lemma_selection_degenerate(
    servers: Seq<SingleStreamConfig>,
    fall_down: Seq<bool>,
    check_down: Seq<bool>,
    res: Option<SockAddr>,
)
    requires
        fall_down.len() == servers.len(),
        check_down.len() == servers.len(),
        selection_outcome(servers, fall_down, check_down, res),
    ensures
        servers.len() == 0 ==> res is None,
        servers.len() == 1 && servers[0].weight > 0 && !fall_down[0] && !check_down[0] ==> res
            == Some(servers[0].addr),
        servers.len() == 1 && servers[0].weight > 0 && fall_down[0] ==> res == Some(
            servers[0].addr,
        ),
{
    let ws = weights(servers);
    if servers.len() == 1 && servers[0].weight > 0 {
        assert(sum_from(ws, fall_down, 1) == 0);
        assert(sum_from(ws, no_skip(1), 1) == 0);
        if !fall_down[0] && !check_down[0] {
            let r = choose|r: int|
                0 <= r < healthy_weight(servers, fall_down) && res == spec_pick(
                    servers,
                    check_down,
                    r,
                );
            assert(pick_from(ws, check_down, r, 0) == Some(0int));
        } else if fall_down[0] {
            let r = choose|r: int|
                0 <= r < total_weight(servers) && res == spec_pick(servers, no_skip(1), r);
            assert(no_skip(1)[0] == false);
            assert(pick_from(ws, no_skip(1), r, 0) == Some(0int));
        }
    }
}

/// While a server is excluded by both verdicts and some healthy weight
/// remains, a selection never lands on it: whatever comes back is the address
/// of another server that the per-server verdict admits.
pub proof fn lemma_failover(
    servers: Seq<SingleStreamConfig>,
    fall_down: Seq<bool>,
    check_down: Seq<bool>,
    res: Option<SockAddr>,
    k: int,
)
    requires
        fall_down.len() == servers.len(),
        check_down.len() == servers.len(),
        selection_outcome(servers, fall_down, check_down, res),
        0 <= k < servers.len(),
        fall_down[k],
        check_down[k],
        healthy_weight(servers, fall_down) > 0,
    ensures
        res matches Some(a) ==> exists|j: int|
            0 <= j < servers.len() && j != k && !check_down[j] && servers[j].weight > 0
                && #[trigger] servers[j].addr == a,
{
    let r = choose|r: int|
        0 <= r < healthy_weight(servers, fall_down) && res == spec_pick(servers, check_down, r);
    lemma_pick_eligible(weights(servers), check_down, r, 0);
}

} // verus!
