//! Plans the fetches of a run and assembles their Outcomes into a Snapshot.
//! Best-effort: every Provider×Identity fetch is recorded as its own Outcome.
//! Fetches run concurrently across hosts but strictly serially within one
//! host; every Provider maps onto one host, so a Provider's name stands for
//! its host. The threads that run the queues live with the program.

use vstd::prelude::*;

use crate::identity::{canonical_text, Identity, IdentityView, Project};
use crate::model::{Category, FetchResult, Outcome, Snapshot, Timestamp};
use crate::provider::Provider;
use crate::providers::{any_category, any_name, any_supports, AnyProvider};
use crate::text::{owned, str_eq};

verus! {

/// The default cap on concurrently fetched hosts.
pub const DEFAULT_CONCURRENCY: usize = 8;

/// One Provider×Identity fetch: indices into the registry and the Project's
/// identities, and the Identity's canonical text.
pub struct Job {
    pub provider: usize,
    pub identity: usize,
    pub canonical: String,
}

/// The fetches of a run, identity-major and provider-minor: every Provider
/// that understands an Identity, for each Identity in order.
pub open spec fn jobs_spec(ids: Seq<IdentityView>, ps: Seq<AnyProvider>) -> Seq<(int, int)>
    decreases ids.len(),
{
    if ids.len() == 0 {
        seq![]
    } else {
        jobs_spec(ids.drop_last(), ps) + jobs_for(ids.len() - 1, ids.last(), ps)
    }
}

/// The fetches of Identity number `i`, in registry order.
pub open spec fn jobs_for(i: int, id: IdentityView, ps: Seq<AnyProvider>) -> Seq<(int, int)>
    decreases ps.len(),
{
    if ps.len() == 0 {
        seq![]
    } else {
        jobs_for(i, id, ps.drop_last()) + if any_supports(ps.last(), id) { seq![(ps.len() - 1, i)] } else { seq![] }
    }
}

pub open spec fn job_pairs(js: Seq<Job>) -> Seq<(int, int)> {
    js.map_values(|j: Job| (j.provider as int, j.identity as int))
}

pub open spec fn id_views(ids: Seq<Identity>) -> Seq<IdentityView> {
    ids.map_values(|i: Identity| i@)
}

/// Plans every fetch of a run.
pub fn plan_jobs(project: &Project, providers: &Vec<AnyProvider>) -> (r: Vec<Job>)
    ensures
        job_pairs(r@) == jobs_spec(id_views(project.identities@), providers@),
        forall|k: int| 0 <= k < r@.len() ==> (#[trigger] r@[k]).identity < project.identities@.len()
            && r@[k].provider < providers@.len()
            && r@[k].canonical@ == canonical_text(project.identities@[r@[k].identity as int]@),
{
    let ghost iv = id_views(project.identities@);
    let mut jobs: Vec<Job> = Vec::new();
    let mut i: usize = 0;
    assert(job_pairs(jobs@) =~= seq![]);
    while i < project.identities.len()
        invariant
            i <= project.identities.len(),
            iv == id_views(project.identities@),
            job_pairs(jobs@) == jobs_spec(iv.take(i as int), providers@),
            forall|k: int| 0 <= k < jobs@.len() ==> (#[trigger] jobs@[k]).identity < project.identities@.len()
                && jobs@[k].provider < providers@.len()
                && jobs@[k].canonical@ == canonical_text(project.identities@[jobs@[k].identity as int]@),
        decreases project.identities.len() - i,
    {
        assert(iv.take(i + 1).drop_last() =~= iv.take(i as int));
        assert(iv.take(i + 1).last() == project.identities@[i as int]@);
        let id = &project.identities[i];
        let canonical = id.canonical();
        let ghost before = job_pairs(jobs@);
        let mut p: usize = 0;
        assert(before + jobs_for(i as int, id@, providers@.take(0)) =~= before);
        while p < providers.len()
            invariant
                p <= providers.len(),
                i < project.identities.len(),
                id == &project.identities[i as int],
                canonical@ == canonical_text(id@),
                job_pairs(jobs@) == before + jobs_for(i as int, id@, providers@.take(p as int)),
                forall|k: int| 0 <= k < jobs@.len() ==> (#[trigger] jobs@[k]).identity < project.identities@.len()
                    && jobs@[k].provider < providers@.len()
                    && jobs@[k].canonical@ == canonical_text(project.identities@[jobs@[k].identity as int]@),
            decreases providers.len() - p,
        {
            assert(providers@.take(p + 1).drop_last() =~= providers@.take(p as int));
            assert(providers@.take(p + 1).last() == providers@[p as int]);
            if providers[p].supports(id) {
                let ghost pre = job_pairs(jobs@);
                jobs.push(Job { provider: p, identity: i, canonical: canonical.clone() });
                assert(job_pairs(jobs@) =~= pre.push((p as int, i as int)));
            }
            p = p + 1;
        }
        assert(providers@.take(providers.len() as int) =~= providers@);
        i = i + 1;
    }
    assert(iv.take(project.identities.len() as int) =~= iv);
    jobs
}

/// Jobs grouped into one queue per host, hosts in first-seen order, each
/// queue in job order. `hosts[k]` is the host of job `k`.
pub open spec fn queues_spec(hosts: Seq<Seq<char>>) -> Seq<Seq<int>>
    decreases hosts.len(),
{
    if hosts.len() == 0 {
        seq![]
    } else {
        let q = queues_spec(hosts.drop_last());
        let k = hosts.len() - 1;
        match queue_of(q, hosts.drop_last(), hosts.last(), 0) {
            Some(s) => q.update(s, q[s].push(k)),
            None => q.push(seq![k]),
        }
    }
}

/// The queue whose host is `h`: the one whose first job has host `h`.
pub open spec fn queue_of(q: Seq<Seq<int>>, hosts: Seq<Seq<char>>, h: Seq<char>, from: int) -> Option<int>
    decreases q.len() - from,
{
    if from < 0 || from >= q.len() {
        None
    } else if q[from].len() > 0 && 0 <= q[from][0] < hosts.len() && hosts[q[from][0]] == h {
        Some(from)
    } else {
        queue_of(q, hosts, h, from + 1)
    }
}

pub open spec fn job_hosts(js: Seq<Job>, ps: Seq<AnyProvider>) -> Seq<Seq<char>> {
    js.map_values(|j: Job| if j.provider < ps.len() { any_name(ps[j.provider as int]) } else { seq![] })
}

pub open spec fn queue_views(q: Seq<Vec<usize>>) -> Seq<Seq<int>> {
    q.map_values(|v: Vec<usize>| v@.map_values(|x: usize| x as int))
}

fn find_head(heads: &Vec<&'static str>, host: &str) -> (r: Option<usize>)
    ensures
        match r {
            Some(s) => s < heads@.len() && heads@[s as int]@ == host@ && forall|t: int| 0 <= t < s ==> heads@[t]@ != host@,
            None => forall|t: int| 0 <= t < heads@.len() ==> heads@[t]@ != host@,
        },
{
    let mut s: usize = 0;
    while s < heads.len()
        invariant
            s <= heads.len(),
            forall|t: int| 0 <= t < s ==> heads@[t]@ != host@,
        decreases heads.len() - s,
    {
        if str_eq(heads[s], host) {
            return Some(s);
        }
        s = s + 1;
    }
    None
}

/// With every queue non-empty and `heads[s]` the host of queue `s`'s first
/// job, `queue_of` finds the first queue whose head is `h`.
proof fn lemma_queue_of(q: Seq<Seq<int>>, hosts: Seq<Seq<char>>, h: Seq<char>, from: int, heads: Seq<Seq<char>>)
    requires
        0 <= from <= q.len(),
        heads.len() == q.len(),
        forall|s: int| 0 <= s < q.len() ==> (#[trigger] q[s]).len() > 0 && 0 <= q[s][0] < hosts.len() && heads[s] == hosts[q[s][0]],
    ensures
        match queue_of(q, hosts, h, from) {
            Some(s) => from <= s < q.len() && heads[s] == h && forall|t: int| from <= t < s ==> heads[t] != h,
            None => forall|t: int| from <= t < q.len() ==> heads[t] != h,
        },
    decreases q.len() - from,
{
    if from < q.len() {
        assert(q[from].len() > 0);
        if heads[from] != h {
            lemma_queue_of(q, hosts, h, from + 1, heads);
        }
    }
}

/// Groups the jobs by host: one queue per host in first-seen order, each
/// holding its jobs' indices in job order, to be drained strictly in order.
pub fn host_queues(jobs: &Vec<Job>, providers: &Vec<AnyProvider>) -> (r: Vec<Vec<usize>>)
    requires
        forall|k: int| 0 <= k < jobs@.len() ==> (#[trigger] jobs@[k]).provider < providers@.len(),
    ensures
        queue_views(r@) == queues_spec(job_hosts(jobs@, providers@)),
{
    let ghost hosts = job_hosts(jobs@, providers@);
    let mut queues: Vec<Vec<usize>> = Vec::new();
    let mut heads: Vec<&'static str> = Vec::new();
    let mut i: usize = 0;
    assert(queue_views(queues@) =~= seq![]);
    while i < jobs.len()
        invariant
            i <= jobs.len(),
            hosts == job_hosts(jobs@, providers@),
            forall|k: int| 0 <= k < jobs@.len() ==> (#[trigger] jobs@[k]).provider < providers@.len(),
            queue_views(queues@) == queues_spec(hosts.take(i as int)),
            heads@.len() == queues@.len(),
            forall|s: int| 0 <= s < queues@.len() ==> (#[trigger] queues@[s])@.len() > 0 && queues@[s]@[0] < i
                && heads@[s]@ == hosts[queues@[s]@[0] as int],
            forall|s: int| 0 <= s < queues@.len() ==> (#[trigger] queue_views(queues@)[s]) == queues@[s]@.map_values(|x: usize| x as int),
        decreases jobs.len() - i,
    {
        let ghost hs = hosts.take(i as int);
        assert(hosts.take(i + 1).drop_last() =~= hs);
        assert(hosts.take(i + 1).last() == hosts[i as int]);
        let host = providers[jobs[i].provider].name();
        assert(host@ == hosts[i as int]);
        let ghost qv = queue_views(queues@);
        let found = find_head(&heads, host);
        let ghost hv = heads@.map_values(|h: &str| h@);
        proof {
            assert forall|t: int| 0 <= t < qv.len() implies (#[trigger] qv[t]).len() > 0 && 0 <= qv[t][0] < hs.len() && hv[t] == hs[qv[t][0]] by {
                assert(qv[t] == queues@[t]@.map_values(|x: usize| x as int));
                assert(qv[t][0] == queues@[t]@[0] as int);
                assert(hv[t] == heads@[t]@);
            }
            lemma_queue_of(qv, hs, host@, 0, hv);
            match found {
                Some(slot) => {
                    assert(hv[slot as int] == heads@[slot as int]@);
                    assert forall|t: int| 0 <= t < slot implies hv[t] != host@ by {
                        assert(hv[t] == heads@[t]@);
                    }
                    assert(queue_of(qv, hs, host@, 0) == Some(slot as int));
                },
                None => {
                    assert forall|t: int| 0 <= t < qv.len() implies hv[t] != host@ by {
                        assert(hv[t] == heads@[t]@);
                    }
                    assert(queue_of(qv, hs, host@, 0) is None);
                },
            }
        }
        let ghost pre = queue_views(queues@);
        match found {
            Some(slot) => {
                let mut q: Vec<usize> = Vec::new();
                let mut t: usize = 0;
                while t < queues[slot].len()
                    invariant
                        slot < queues@.len(),
                        t <= queues@[slot as int]@.len(),
                        q@ == queues@[slot as int]@.take(t as int),
                    decreases queues@[slot as int]@.len() - t,
                {
                    q.push(queues[slot][t]);
                    t = t + 1;
                    assert(q@ =~= queues@[slot as int]@.take(t as int));
                }
                assert(q@ =~= queues@[slot as int]@);
                q.push(i);
                assert(q@.map_values(|x: usize| x as int) =~= queues@[slot as int]@.map_values(|x: usize| x as int).push(i as int));
                assert(pre[slot as int] == queues@[slot as int]@.map_values(|x: usize| x as int));
                queues.set(slot, q);
                assert(queue_views(queues@) =~= pre.update(slot as int, pre[slot as int].push(i as int)));
            },
            None => {
                let mut q: Vec<usize> = Vec::new();
                q.push(i);
                assert(q@.map_values(|x: usize| x as int) =~= seq![i as int]);
                queues.push(q);
                heads.push(host);
                assert(queue_views(queues@) =~= pre.push(seq![i as int]));
            },
        }
        i = i + 1;
    }
    assert(hosts.take(jobs.len() as int) =~= hosts);
    queues
}

/// How many workers drain the host queues: one per host, at most `max`
/// (and at least one, since `0` would run nothing).
pub fn worker_count(host_count: usize, max: usize) -> (r: usize)
    ensures
        r == if host_count < (if max == 0 { 1 } else { max }) { host_count } else if max == 0 { 1 } else { max },
{
    let cap = if max == 0 { 1 } else { max };
    if host_count < cap { host_count } else { cap }
}

/// Assembles a run's Snapshot: one result per job, in job order (never
/// completion order), each with the Outcome its fetch gave, and the
/// Project's identities in canonical form.
pub fn assemble_snapshot(
    project: &Project,
    jobs: &Vec<Job>,
    providers: &Vec<AnyProvider>,
    outcomes: Vec<Outcome>,
    created_at: Timestamp,
) -> (r: Snapshot)
    requires
        outcomes@.len() == jobs@.len(),
        forall|k: int| 0 <= k < jobs@.len() ==> (#[trigger] jobs@[k]).provider < providers@.len(),
    ensures
        r.schema_version == 1,
        r.tool@ == "boast"@,
        r.tool_version@ == "0.3.0"@,
        r.created_at == created_at,
        r.identities@.map_values(|s: String| s@) == project.identities@.map_values(|i: Identity| canonical_text(i@)),
        r.results@.len() == jobs@.len(),
        forall|k: int| 0 <= k < jobs@.len() ==> {
            &&& (#[trigger] r.results@[k]).provider@ == any_name(providers@[jobs@[k].provider as int])
            &&& r.results@[k].identity@ == jobs@[k].canonical@
            &&& r.results@[k].category == any_category(providers@[jobs@[k].provider as int])
            &&& r.results@[k].outcome == outcomes@[k]
        },
{
    let ghost os = outcomes@;
    let mut outcomes = outcomes;
    let mut results: Vec<FetchResult> = Vec::new();
    let mut k: usize = 0;
    while k < jobs.len()
        invariant
            k <= jobs@.len(),
            k + outcomes@.len() == jobs@.len(),
            outcomes@ == os.skip(k as int),
            os.len() == jobs@.len(),
            results@.len() == k,
            forall|j: int| 0 <= j < jobs@.len() ==> (#[trigger] jobs@[j]).provider < providers@.len(),
            forall|t: int| 0 <= t < k ==> {
                &&& (#[trigger] results@[t]).provider@ == any_name(providers@[jobs@[t].provider as int])
                &&& results@[t].identity@ == jobs@[t].canonical@
                &&& results@[t].category == any_category(providers@[jobs@[t].provider as int])
                &&& results@[t].outcome == os[t]
            },
        decreases outcomes.len(),
    {
        assert(k < jobs@.len());
        let o = outcomes.remove(0);
        assert(o == os[k as int]);
        assert(outcomes@ =~= os.skip(k + 1));
        let job = &jobs[k];
        let p = &providers[job.provider];
        results.push(FetchResult { provider: owned(p.name()), identity: job.canonical.clone(), category: p.category(), outcome: o });
        k = k + 1;
    }
    let mut identities: Vec<String> = Vec::new();
    let mut i: usize = 0;
    while i < project.identities.len()
        invariant
            i <= project.identities.len(),
            identities@.map_values(|s: String| s@) == project.identities@.take(i as int).map_values(|x: Identity| canonical_text(x@)),
        decreases project.identities.len() - i,
    {
        let ghost before = identities@;
        identities.push(project.identities[i].canonical());
        proof {
            crate::text::lemma_map_push(before, identities@[i as int], |s: String| s@);
            crate::text::lemma_take_push(project.identities@, i as int);
            crate::text::lemma_map_push(project.identities@.take(i as int), project.identities@[i as int], |x: Identity| canonical_text(x@));
        }
        i = i + 1;
    }
    assert(project.identities@.take(project.identities.len() as int) =~= project.identities@);
    Snapshot {
        schema_version: 1,
        tool: owned("boast"),
        tool_version: owned("0.3.0"),
        created_at,
        identities,
        results,
    }
}

} // verus!

verus! {

/// Job `k` sits in some queue of `q`.
pub open spec fn queued(q: Seq<Seq<int>>, k: int) -> bool {
    exists|s: int, t: int| 0 <= s < q.len() && 0 <= t < q[s].len() && q[s][t] == k
}

/// `q` splits the jobs of `hosts` by host: every queue is non-empty and holds
/// jobs of one host in increasing job order, no two queues share a host, and
/// every job sits in a queue.
pub open spec fn queues_partition(q: Seq<Seq<int>>, hosts: Seq<Seq<char>>) -> bool {
    &&& forall|s: int| 0 <= s < q.len() ==> (#[trigger] q[s]).len() > 0
    &&& forall|s: int, t: int|
        0 <= s < q.len() && 0 <= t < q[s].len() ==> 0 <= #[trigger] q[s][t] < hosts.len() && hosts[q[s][t]]
            == hosts[q[s][0]]
    &&& forall|s: int, t: int, u: int|
        0 <= s < q.len() && 0 <= t < u < q[s].len() ==> #[trigger] q[s][t] < #[trigger] q[s][u]
    &&& forall|s1: int, s2: int|
        0 <= s1 < s2 < q.len() ==> hosts[#[trigger] q[s1][0]] != hosts[#[trigger] q[s2][0]]
    &&& forall|k: int| 0 <= k < hosts.len() ==> #[trigger] queued(q, k)
}

/// Fetches run in parallel across hosts and strictly in order within one:
/// the host queues put every job in exactly one queue, a queue never mixes
/// hosts, its jobs keep their order, and no host has two queues.
pub proof fn law_host_queues_partition(hosts: Seq<Seq<char>>)
    ensures
        queues_partition(queues_spec(hosts), hosts),
    decreases hosts.len(),
{
    if hosts.len() > 0 {
        let hs = hosts.drop_last();
        let q0 = queues_spec(hs);
        law_host_queues_partition(hs);
        let k = hosts.len() - 1;
        let h = hosts.last();
        let heads = Seq::new(q0.len(), |s: int| hs[q0[s][0]]);
        assert forall|s: int| 0 <= s < q0.len() implies (#[trigger] q0[s]).len() > 0 && 0 <= q0[s][0] < hs.len()
            && heads[s] == hs[q0[s][0]] by {
            assert(q0[s].len() > 0);
            assert(0 <= q0[s][0] < hs.len());
        }
        lemma_queue_of(q0, hs, h, 0, heads);
        let q = queues_spec(hosts);
        match queue_of(q0, hs, h, 0) {
            Some(s0) => {
                assert(q == q0.update(s0, q0[s0].push(k)));
                let n0 = q0[s0].len() as int;
                assert forall|s: int| 0 <= s < q.len() implies (#[trigger] q[s]).len() > 0 by {
                    if s != s0 {
                        assert(q[s] == q0[s]);
                    }
                }
                assert forall|s: int, t: int| 0 <= s < q.len() && 0 <= t < q[s].len() implies 0 <= #[trigger] q[s][t]
                    < hosts.len() && hosts[q[s][t]] == hosts[q[s][0]] by {
                    if s == s0 {
                        assert(q[s][0] == q0[s0][0]);
                        assert(0 <= q0[s0][0] < hs.len());
                        assert(heads[s0] == h);
                        if t < n0 {
                            assert(q[s][t] == q0[s0][t]);
                            assert(0 <= q0[s0][t] < hs.len());
                        } else {
                            assert(q[s][t] == k);
                        }
                    } else {
                        assert(q[s] == q0[s]);
                        assert(0 <= q0[s][t] < hs.len());
                        assert(0 <= q0[s][0] < hs.len());
                    }
                }
                assert forall|s: int, t: int, u: int| 0 <= s < q.len() && 0 <= t < u < q[s].len() implies #[trigger] q[s][t]
                    < #[trigger] q[s][u] by {
                    if s == s0 {
                        assert(q[s][t] == q0[s0][t]);
                        if u < n0 {
                            assert(q[s][u] == q0[s0][u]);
                            assert(q0[s0][t] < q0[s0][u]);
                        } else {
                            assert(0 <= q0[s0][t] < hs.len());
                        }
                    } else {
                        assert(q[s] == q0[s]);
                        assert(q0[s][t] < q0[s][u]);
                    }
                }
                assert forall|s1: int, s2: int| 0 <= s1 < s2 < q.len() implies hosts[#[trigger] q[s1][0]]
                    != hosts[#[trigger] q[s2][0]] by {
                    assert(q[s1][0] == q0[s1][0]);
                    assert(q[s2][0] == q0[s2][0]);
                    assert(0 <= q0[s1][0] < hs.len());
                    assert(0 <= q0[s2][0] < hs.len());
                    assert(hs[q0[s1][0]] != hs[q0[s2][0]]);
                }
                assert forall|j: int| 0 <= j < hosts.len() implies #[trigger] queued(q, j) by {
                    if j < k {
                        assert(queued(q0, j));
                        let (s, t) = choose|s: int, t: int| 0 <= s < q0.len() && 0 <= t < q0[s].len() && q0[s][t] == j;
                        if s == s0 {
                            assert(q[s][t] == q0[s][t]);
                        } else {
                            assert(q[s] == q0[s]);
                        }
                        assert(q[s][t] == j);
                    } else {
                        assert(q[s0][n0] == k);
                    }
                }
            },
            None => {
                assert(q == q0.push(seq![k]));
                let m = q0.len() as int;
                assert forall|s: int| 0 <= s < q.len() implies (#[trigger] q[s]).len() > 0 by {
                    if s < m {
                        assert(q[s] == q0[s]);
                    }
                }
                assert forall|s: int, t: int| 0 <= s < q.len() && 0 <= t < q[s].len() implies 0 <= #[trigger] q[s][t]
                    < hosts.len() && hosts[q[s][t]] == hosts[q[s][0]] by {
                    if s < m {
                        assert(q[s] == q0[s]);
                        assert(0 <= q0[s][t] < hs.len());
                        assert(0 <= q0[s][0] < hs.len());
                    } else {
                        assert(q[s] == seq![k]);
                    }
                }
                assert forall|s: int, t: int, u: int| 0 <= s < q.len() && 0 <= t < u < q[s].len() implies #[trigger] q[s][t]
                    < #[trigger] q[s][u] by {
                    if s < m {
                        assert(q[s] == q0[s]);
                        assert(q0[s][t] < q0[s][u]);
                    }
                }
                assert forall|s1: int, s2: int| 0 <= s1 < s2 < q.len() implies hosts[#[trigger] q[s1][0]]
                    != hosts[#[trigger] q[s2][0]] by {
                    assert(q[s1] == q0[s1]);
                    assert(0 <= q0[s1][0] < hs.len());
                    if s2 < m {
                        assert(q[s2] == q0[s2]);
                        assert(0 <= q0[s2][0] < hs.len());
                        assert(hs[q0[s1][0]] != hs[q0[s2][0]]);
                    } else {
                        assert(q[s2][0] == k);
                        assert(heads[s1] != h);
                    }
                }
                assert forall|j: int| 0 <= j < hosts.len() implies #[trigger] queued(q, j) by {
                    if j < k {
                        assert(queued(q0, j));
                        let (s, t) = choose|s: int, t: int| 0 <= s < q0.len() && 0 <= t < q0[s].len() && q0[s][t] == j;
                        assert(q[s] == q0[s]);
                        assert(q[s][t] == j);
                    } else {
                        assert(q[m][0] == k);
                    }
                }
            },
        }
    }
}

} // verus!

verus! {

/// The fetches of `js` are in strictly increasing order: by Identity, then
/// by Provider.
pub open spec fn plan_ordered(js: Seq<(int, int)>) -> bool {
    forall|j: int, k: int|
        0 <= j < k < js.len() ==> (#[trigger] js[j]).1 < (#[trigger] js[k]).1 || (js[j].1 == js[k].1 && js[j].0 < js[k].0)
}

/// Every fetch of `js` pairs a Provider of `ps` with an Identity of `ids`
/// that it understands.
pub open spec fn plan_sound(js: Seq<(int, int)>, ids: Seq<IdentityView>, ps: Seq<AnyProvider>) -> bool {
    forall|k: int| 0 <= k < js.len() ==> {
        &&& 0 <= (#[trigger] js[k]).0 < ps.len()
        &&& 0 <= js[k].1 < ids.len()
        &&& any_supports(ps[js[k].0], ids[js[k].1])
    }
}

proof fn lemma_jobs_for(i: int, id: IdentityView, ps: Seq<AnyProvider>)
    ensures
        forall|k: int| 0 <= k < jobs_for(i, id, ps).len() ==> {
            &&& (#[trigger] jobs_for(i, id, ps)[k]).1 == i
            &&& 0 <= jobs_for(i, id, ps)[k].0 < ps.len()
            &&& any_supports(ps[jobs_for(i, id, ps)[k].0], id)
        },
        forall|j: int, k: int| 0 <= j < k < jobs_for(i, id, ps).len() ==> (#[trigger] jobs_for(i, id, ps)[j]).0
            < (#[trigger] jobs_for(i, id, ps)[k]).0,
        forall|p: int| 0 <= p < ps.len() && any_supports(#[trigger] ps[p], id) ==> jobs_for(i, id, ps).contains((p, i)),
    decreases ps.len(),
{
    if ps.len() > 0 {
        let pre = ps.drop_last();
        lemma_jobs_for(i, id, pre);
        let a = jobs_for(i, id, pre);
        let s = jobs_for(i, id, ps);
        let tail: Seq<(int, int)> = if any_supports(ps.last(), id) { seq![(ps.len() - 1, i)] } else { seq![] };
        assert(s == a + tail);
        assert forall|k: int| 0 <= k < s.len() implies {
            &&& (#[trigger] s[k]).1 == i
            &&& 0 <= s[k].0 < ps.len()
            &&& any_supports(ps[s[k].0], id)
        } by {
            if k < a.len() {
                assert(s[k] == a[k]);
                assert(ps[a[k].0] == pre[a[k].0]);
            }
        }
        assert forall|j: int, k: int| 0 <= j < k < s.len() implies (#[trigger] s[j]).0 < (#[trigger] s[k]).0 by {
            if k < a.len() {
                assert(s[j] == a[j] && s[k] == a[k]);
            } else {
                assert(s[j] == a[j]);
            }
        }
        assert forall|p: int| 0 <= p < ps.len() && any_supports(#[trigger] ps[p], id) implies s.contains((p, i)) by {
            if p < pre.len() {
                assert(pre[p] == ps[p]);
                let t = choose|t: int| 0 <= t < a.len() && a[t] == (p, i);
                assert(s[t] == a[t]);
            } else {
                assert(s[a.len() as int] == (p, i));
            }
        }
    }
}

/// A run fetches exactly the Provider×Identity pairs where the Provider
/// understands the Identity, each once, Identity by Identity in order and,
/// within one Identity, in registry order.
pub proof fn law_each_supported_pair_fetched_once(ids: Seq<IdentityView>, ps: Seq<AnyProvider>)
    ensures
        plan_sound(jobs_spec(ids, ps), ids, ps),
        plan_ordered(jobs_spec(ids, ps)),
        forall|p: int, i: int|
            0 <= p < ps.len() && 0 <= i < ids.len() && any_supports(#[trigger] ps[p], #[trigger] ids[i])
                ==> jobs_spec(ids, ps).contains((p, i)),
    decreases ids.len(),
{
    if ids.len() > 0 {
        let pre = ids.drop_last();
        let n = ids.len() - 1;
        law_each_supported_pair_fetched_once(pre, ps);
        lemma_jobs_for(n, ids.last(), ps);
        let a = jobs_spec(pre, ps);
        let b = jobs_for(n, ids.last(), ps);
        let s = jobs_spec(ids, ps);
        assert(s == a + b);
        assert forall|k: int| 0 <= k < s.len() implies {
            &&& 0 <= (#[trigger] s[k]).0 < ps.len()
            &&& 0 <= s[k].1 < ids.len()
            &&& any_supports(ps[s[k].0], ids[s[k].1])
        } by {
            if k < a.len() {
                assert(s[k] == a[k]);
                assert(ids[a[k].1] == pre[a[k].1]);
            } else {
                assert(s[k] == b[k - a.len()]);
            }
        }
        assert forall|j: int, k: int| 0 <= j < k < s.len() implies (#[trigger] s[j]).1 < (#[trigger] s[k]).1 || (s[j].1
            == s[k].1 && s[j].0 < s[k].0) by {
            if k < a.len() {
                assert(s[j] == a[j] && s[k] == a[k]);
            } else if j < a.len() {
                assert(s[j] == a[j]);
                assert(s[k] == b[k - a.len()]);
            } else {
                assert(s[j] == b[j - a.len()] && s[k] == b[k - a.len()]);
            }
        }
        assert forall|p: int, i: int|
            0 <= p < ps.len() && 0 <= i < ids.len() && any_supports(#[trigger] ps[p], #[trigger] ids[i]) implies s.contains(
            (p, i),
        ) by {
            if i < n {
                assert(pre[i] == ids[i]);
                assert(any_supports(ps[p], pre[i]));
                let t = choose|t: int| 0 <= t < a.len() && a[t] == (p, i);
                assert(s[t] == a[t]);
            } else {
                assert(b.contains((p, i)));
                let t = choose|t: int| 0 <= t < b.len() && b[t] == (p, i);
                assert(s[a.len() + t] == b[t]);
            }
        }
    }
}

} // verus!

verus! {

/// Result `r` is the one the run records for fetch `(p, i)`: Provider `p`'s
/// name and Category, Identity `i`'s canonical text, and the Outcome `o`.
pub open spec fn records_fetch(r: FetchResult, ids: Seq<IdentityView>, ps: Seq<AnyProvider>, pair: (int, int), o: Outcome) -> bool {
    &&& r.provider@ == any_name(ps[pair.0])
    &&& r.identity@ == canonical_text(ids[pair.1])
    &&& r.category == any_category(ps[pair.0])
    &&& r.outcome == o
}

/// A run's Snapshot follows its plan: given results laid out as
/// `assemble_snapshot` lays out the Outcomes of `plan_jobs`' jobs, there is
/// exactly one result per Provider×Identity pair where the Provider
/// understands the Identity, and none for any other pair, in Identity order
/// and then registry order, each carrying its own fetch's Outcome.
pub proof fn law_run_snapshot_follows_plan(
    ids: Seq<IdentityView>,
    ps: Seq<AnyProvider>,
    outcomes: Seq<Outcome>,
    results: Seq<FetchResult>,
)
    requires
        outcomes.len() == jobs_spec(ids, ps).len(),
        results.len() == jobs_spec(ids, ps).len(),
        forall|k: int| 0 <= k < results.len() ==> records_fetch(#[trigger] results[k], ids, ps, jobs_spec(ids, ps)[k], outcomes[k]),
    ensures
        forall|p: int, i: int|
            0 <= p < ps.len() && 0 <= i < ids.len() && any_supports(#[trigger] ps[p], #[trigger] ids[i])
                ==> exists|k: int| 0 <= k < results.len() && jobs_spec(ids, ps)[k] == (p, i)
                && #[trigger] records_fetch(results[k], ids, ps, (p, i), outcomes[k]),
        forall|k: int| 0 <= k < results.len() ==> {
            let pair = jobs_spec(ids, ps)[k];
            &&& 0 <= pair.0 < ps.len() && 0 <= pair.1 < ids.len()
            &&& any_supports(ps[pair.0], ids[pair.1])
            &&& records_fetch(#[trigger] results[k], ids, ps, pair, outcomes[k])
        },
        forall|j: int, k: int| 0 <= j < k < results.len() ==> (#[trigger] jobs_spec(ids, ps)[j]) != (#[trigger] jobs_spec(ids, ps)[k]),
        plan_ordered(jobs_spec(ids, ps)),
{
    law_each_supported_pair_fetched_once(ids, ps);
    let js = jobs_spec(ids, ps);
    assert forall|p: int, i: int|
        0 <= p < ps.len() && 0 <= i < ids.len() && any_supports(#[trigger] ps[p], #[trigger] ids[i]) implies exists|k: int|
        0 <= k < results.len() && js[k] == (p, i) && #[trigger] records_fetch(results[k], ids, ps, (p, i), outcomes[k]) by {
        assert(js.contains((p, i)));
        let k = choose|k: int| 0 <= k < js.len() && js[k] == (p, i);
        assert(records_fetch(results[k], ids, ps, js[k], outcomes[k]));
    }
    assert forall|k: int| 0 <= k < results.len() implies {
        let pair = js[k];
        &&& 0 <= pair.0 < ps.len() && 0 <= pair.1 < ids.len()
        &&& any_supports(ps[pair.0], ids[pair.1])
        &&& records_fetch(#[trigger] results[k], ids, ps, pair, outcomes[k])
    } by {
        assert(0 <= js[k].0 < ps.len());
    }
    assert forall|j: int, k: int| 0 <= j < k < results.len() implies (#[trigger] js[j]) != (#[trigger] js[k]) by {
        assert(js[j].1 < js[k].1 || (js[j].1 == js[k].1 && js[j].0 < js[k].0));
    }
}

} // verus!
