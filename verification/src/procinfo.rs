//! Victim selection: scores raw process records by a composite badness
//! (resident-set share, OOM adjustment, slice priority), drops excluded
//! and protected processes, and orders the survivors deterministically.
//! Scores are fixed-point integers in hundredths of a point.

use vstd::prelude::*;
use vstd::seq_lib::group_to_multiset_ensures;
use crate::cgroups::{opt_view, spec_is_protected, CgroupSlice};
use crate::text::{contains_seq, str_contains, str_eq, views_of};

verus! {

/// A lightweight process row: what the resident-set ranking needs.
#[derive(Debug, Clone)]
pub struct ProcLite {
    pub pid: i32,
    pub name: String,
    pub rss_bytes: u64,
}

/// A raw enumerated process record, as the process-table walk hands it
/// over: identity, resident set, OOM adjustment, and control-group
/// attribution.
#[derive(Debug, Clone)]
pub struct RawProc {
    pub pid: i32,
    pub name: String,
    pub rss_bytes: u64,
    pub oom_score_adj: i32,
    pub cgroup_slice: CgroupSlice,
    pub cgroup_unit: Option<String>,
}

/// A scored process record. `badness_score` is in hundredths of a point.
#[derive(Debug, Clone)]
pub struct ProcWithBadness {
    pub pid: i32,
    pub name: String,
    pub rss_bytes: u64,
    pub oom_score_adj: i32,
    pub cgroup_slice: CgroupSlice,
    pub cgroup_unit: Option<String>,
    pub badness_score: i64,
}

/// One step of `Seq::filter`, unfolded from the back.
proof fn lemma_filter_step<A>(s: Seq<A>, pred: spec_fn(A) -> bool)
    requires
        s.len() > 0,
    ensures
        s.filter(pred) == (if pred(s.last()) {
            s.drop_last().filter(pred).push(s.last())
        } else {
            s.drop_last().filter(pred)
        }),
{
    reveal(Seq::filter);
}

/// Filtering the empty sequence leaves it empty.
proof fn lemma_filter_nil<A>(s: Seq<A>, pred: spec_fn(A) -> bool)
    requires
        s.len() == 0,
    ensures
        s.filter(pred) == Seq::<A>::empty(),
{
    reveal(Seq::filter);
    assert(s.filter(pred) =~= Seq::<A>::empty());
}

/// Saturation guard on the resident-set share term, in hundredths of a
/// point. A resident set within total memory scores at most 100,000; the
/// guard only matters for inconsistent inputs.
pub const RSS_SCORE_CAP: u64 = 1000000000;

/// The resident-set term: the share of total memory scaled to 1000
/// points, in hundredths of a point, saturated at `RSS_SCORE_CAP`.
pub open spec fn spec_rss_part(rss: int, total: int) -> int
    recommends
        total > 0,
{
    let p = rss * 100000 / total;
    if p > RSS_SCORE_CAP {
        RSS_SCORE_CAP as int
    } else {
        p
    }
}

/// The OOM-adjustment term in hundredths of a point: the adjustment
/// itself in points when non-negative, halved when negative (a negative
/// adjustment reduces killability but never shields).
pub open spec fn spec_oom_part(oom: int) -> int {
    if oom >= 0 {
        100 * oom
    } else {
        50 * oom
    }
}

/// The composite badness in hundredths of a point: resident-set share
/// plus OOM adjustment plus slice priority.
pub open spec fn spec_badness(rss: int, total: int, oom: int, slice: CgroupSlice) -> int
    recommends
        total > 0,
{
    spec_rss_part(rss, total) + spec_oom_part(oom) + 100 * slice.spec_priority()
}

/// Compute the composite badness of one record.
pub fn badness_centi(rss_bytes: u64, total_mem: u64, oom: i32, slice: &CgroupSlice) -> (r: i64)
    requires
        total_mem > 0,
    ensures
        r as int == spec_badness(rss_bytes as int, total_mem as int, oom as int, *slice),
{
    let wide: u128 = (rss_bytes as u128) * 100000 / (total_mem as u128);
    let rss_part: u64 = if wide > RSS_SCORE_CAP as u128 {
        RSS_SCORE_CAP
    } else {
        wide as u64
    };
    let oom_part: i64 = if oom >= 0 {
        (oom as i64) * 100
    } else {
        (oom as i64) * 50
    };
    let prio: i64 = (slice.priority_score() as i64) * 100;
    (rss_part as i64) + oom_part + prio
}

impl ProcWithBadness {
    /// Set this record's composite badness from its own fields and the
    /// host's total memory in bytes; nothing else changes.
    pub fn calculate_badness(&mut self, total_mem: u64)
        requires
            total_mem > 0,
        ensures
            final(self).badness_score as int == spec_badness(
                old(self).rss_bytes as int,
                total_mem as int,
                old(self).oom_score_adj as int,
                old(self).cgroup_slice,
            ),
            final(self).pid == old(self).pid,
            final(self).name == old(self).name,
            final(self).rss_bytes == old(self).rss_bytes,
            final(self).oom_score_adj == old(self).oom_score_adj,
            final(self).cgroup_slice == old(self).cgroup_slice,
            final(self).cgroup_unit == old(self).cgroup_unit,
    {
        self.badness_score = badness_centi(
            self.rss_bytes,
            total_mem,
            self.oom_score_adj,
            &self.cgroup_slice,
        );
    }
}

/// Whether a command name matches any exclusion entry, by substring.
pub open spec fn name_excluded(name: Seq<char>, excl: Seq<Seq<char>>) -> bool {
    exists|j: int| 0 <= j < excl.len() && contains_seq(name, #[trigger] excl[j])
}

/// Whether a command name matches any exclusion entry, by characters.
pub fn name_matches_any(name: &str, list: &Vec<String>) -> (r: bool)
    ensures
        r == name_excluded(name@, views_of(list@)),
{
    let mut j: usize = 0;
    while j < list.len()
        invariant
            0 <= j <= list@.len(),
            forall|k: int| 0 <= k < j ==> !contains_seq(name@, #[trigger] views_of(list@)[k]),
        decreases list@.len() - j,
    {
        proof {
            assert(views_of(list@)[j as int] == list@[j as int]@);
        }
        if str_contains(name, list[j].as_str()) {
            return true;
        }
        j += 1;
    }
    false
}

/// Whether a process's unit name is on the protected list.
pub fn unit_protected(unit: &Option<String>, protected_units: &Vec<String>) -> (r: bool)
    ensures
        r == spec_is_protected(opt_view(*unit), views_of(protected_units@)),
{
    match unit {
        Some(u) => {
            let mut j: usize = 0;
            while j < protected_units.len()
                invariant
                    0 <= j <= protected_units@.len(),
                    opt_view(*unit) == Some(u@),
                    forall|k: int| 0 <= k < j ==> views_of(protected_units@)[k] != u@,
                decreases protected_units@.len() - j,
            {
                proof {
                    assert(views_of(protected_units@)[j as int] == protected_units@[j as int]@);
                }
                if str_eq(u.as_str(), protected_units[j].as_str()) {
                    proof {
                        assert(views_of(protected_units@)[j as int] == u@);
                    }
                    return true;
                }
                j += 1;
            }
            false
        },
        None => false,
    }
}

/// The enumeration noise floor: processes under 10 MiB resident are
/// dropped before scoring.
pub const RSS_FLOOR_BYTES: u64 = 10485760;

/// Whether a raw record survives the filters: at least 10 MiB resident,
/// name not excluded, unit not protected.
pub open spec fn passes_filters(p: RawProc, excl: Seq<Seq<char>>, prot: Seq<Seq<char>>) -> bool {
    &&& p.rss_bytes >= RSS_FLOOR_BYTES
    &&& !name_excluded(p.name@, excl)
    &&& !spec_is_protected(opt_view(p.cgroup_unit), prot)
}

/// The scored record a raw record becomes.
pub open spec fn scored(p: RawProc, total: int) -> ProcWithBadness {
    ProcWithBadness {
        pid: p.pid,
        name: p.name,
        rss_bytes: p.rss_bytes,
        oom_score_adj: p.oom_score_adj,
        cgroup_slice: p.cgroup_slice,
        cgroup_unit: p.cgroup_unit,
        badness_score: spec_badness(
            p.rss_bytes as int,
            total,
            p.oom_score_adj as int,
            p.cgroup_slice,
        ) as i64,
    }
}

/// The records the scorer must hand back, before ordering: the surviving
/// raw records, scored.
pub open spec fn spec_candidates(
    procs: Seq<RawProc>,
    excl: Seq<Seq<char>>,
    prot: Seq<Seq<char>>,
    total: int,
) -> Seq<ProcWithBadness> {
    procs.filter(|p: RawProc| passes_filters(p, excl, prot)).map_values(
        |p: RawProc| scored(p, total),
    )
}

/// The badness of a real record fits an `i64`: the resident-set term is
/// saturated, the adjustment and priority terms are small.
pub proof fn lemma_badness_fits(rss: int, total: int, oom: int, slice: CgroupSlice)
    requires
        total > 0,
        0 <= rss <= u64::MAX,
        i32::MIN <= oom <= i32::MAX,
    ensures
        i64::MIN <= spec_badness(rss, total, oom, slice) <= i64::MAX,
{
    assert(rss * 100000 >= 0) by (nonlinear_arith)
        requires
            rss >= 0,
    ;
    assert(rss * 100000 / total >= 0) by (nonlinear_arith)
        requires
            rss * 100000 >= 0,
            total > 0,
    ;
    assert(0 <= spec_rss_part(rss, total) <= RSS_SCORE_CAP);
    assert(0 <= 100 * slice.spec_priority() <= 10000);
}

/// Everything the scorer keeps came through the filters: a record of the
/// candidate set has no excluded name, no protected unit, and carries its
/// own badness.
proof fn lemma_candidate_member(
    procs: Seq<RawProc>,
    excl: Seq<Seq<char>>,
    prot: Seq<Seq<char>>,
    total: int,
    x: ProcWithBadness,
)
    requires
        total > 0,
        spec_candidates(procs, excl, prot, total).contains(x),
    ensures
        !name_excluded(x.name@, excl),
        !spec_is_protected(opt_view(x.cgroup_unit), prot),
        x.badness_score as int == spec_badness(
            x.rss_bytes as int,
            total,
            x.oom_score_adj as int,
            x.cgroup_slice,
        ),
{
    let all = spec_candidates(procs, excl, prot, total);
    let pred = |p: RawProc| passes_filters(p, excl, prot);
    let filtered = procs.filter(pred);
    let i = choose|i: int| 0 <= i < all.len() && all[i] == x;
    assert(all[i] == scored(filtered[i], total));
    procs.lemma_filter_pred(pred, i);
    assert(passes_filters(filtered[i], excl, prot));
    lemma_badness_fits(
        filtered[i].rss_bytes as int,
        total,
        filtered[i].oom_score_adj as int,
        filtered[i].cgroup_slice,
    );
}

/// The selection order: higher badness first, then larger resident set,
/// then smaller pid. `ranked_before(a, b)` says `a` may stand at or
/// before `b`.
pub open spec fn ranked_before(a: ProcWithBadness, b: ProcWithBadness) -> bool {
    ||| a.badness_score > b.badness_score
    ||| (a.badness_score == b.badness_score && a.rss_bytes > b.rss_bytes)
    ||| (a.badness_score == b.badness_score && a.rss_bytes == b.rss_bytes && a.pid <= b.pid)
}

/// Whether a sequence is sorted by the selection order.
pub open spec fn sorted_by_rank(s: Seq<ProcWithBadness>) -> bool {
    forall|i: int, j: int| 0 <= i < j < s.len() ==> ranked_before(#[trigger] s[i], #[trigger] s[j])
}

/// The selection order is total: any two records are comparable.
pub proof fn lemma_rank_total(a: ProcWithBadness, b: ProcWithBadness)
    ensures
        ranked_before(a, b) || ranked_before(b, a),
{
}

/// The selection order is antisymmetric on its key: records ordered both
/// ways agree on badness, resident set and pid.
pub proof fn lemma_rank_antisymmetric(a: ProcWithBadness, b: ProcWithBadness)
    requires
        ranked_before(a, b),
        ranked_before(b, a),
    ensures
        a.badness_score == b.badness_score,
        a.rss_bytes == b.rss_bytes,
        a.pid == b.pid,
{
}

/// The selection order is transitive.
pub proof fn lemma_rank_transitive(a: ProcWithBadness, b: ProcWithBadness, c: ProcWithBadness)
    requires
        ranked_before(a, b),
        ranked_before(b, c),
    ensures
        ranked_before(a, c),
{
}

/// The selection order, by fields.
fn rank_le(a: &ProcWithBadness, b: &ProcWithBadness) -> (r: bool)
    ensures
        r == ranked_before(*a, *b),
{
    if a.badness_score > b.badness_score {
        true
    } else if a.badness_score == b.badness_score {
        if a.rss_bytes > b.rss_bytes {
            true
        } else if a.rss_bytes == b.rss_bytes {
            a.pid <= b.pid
        } else {
            false
        }
    } else {
        false
    }
}

/// Order scored records by the selection order, keeping the collection.
fn sort_by_rank(input: Vec<ProcWithBadness>) -> (r: Vec<ProcWithBadness>)
    ensures
        sorted_by_rank(r@),
        r@.to_multiset() == input@.to_multiset(),
{
    broadcast use group_to_multiset_ensures;

    let ghost all = input@;
    let mut rest = input;
    let mut out: Vec<ProcWithBadness> = Vec::new();
    proof {
        assert(out@.to_multiset().add(rest@.to_multiset()) =~= all.to_multiset());
    }
    while rest.len() > 0
        invariant
            sorted_by_rank(out@),
            out@.to_multiset().add(rest@.to_multiset()) == all.to_multiset(),
        decreases rest@.len(),
    {
        broadcast use group_to_multiset_ensures;

        let ghost prev = rest@;
        let x = rest.pop().unwrap();
        proof {
            assert(prev =~= rest@.push(x));
            assert(prev.to_multiset() == rest@.to_multiset().insert(x));
        }
        let mut k: usize = 0;
        while k < out.len() && rank_le(&out[k], &x)
            invariant
                0 <= k <= out@.len(),
                sorted_by_rank(out@),
                forall|j: int| 0 <= j < k ==> ranked_before(#[trigger] out@[j], x),
            decreases out@.len() - k,
        {
            k += 1;
        }
        proof {
            let s = out@;
            let t = s.insert(k as int, x);
            s.insert_ensures(k as int, x);
            if (k as int) < s.len() {
                lemma_rank_total(s[k as int], x);
            }
            assert forall|i: int, j: int| 0 <= i < j < t.len() implies ranked_before(
                #[trigger] t[i],
                #[trigger] t[j],
            ) by {
                if i == k && j > k + 0 {
                    if j == k + 1 {
                        assert(ranked_before(x, s[k as int]));
                    } else {
                        lemma_rank_transitive(x, s[k as int], s[j - 1]);
                    }
                } else if i < k && j == k {
                    assert(ranked_before(s[i], x));
                }
            }
            assert(t.to_multiset() == s.to_multiset().insert(x));
        }
        out.insert(k, x);
    }
    proof {
        assert(rest@.to_multiset().len() == 0);
        assert(out@.to_multiset().add(rest@.to_multiset()) =~= out@.to_multiset());
    }
    out
}

/// Score and order the raw process table for victim selection. Records
/// under the 10 MiB noise floor, with an excluded name, or in a protected
/// unit are dropped; the rest are scored against `total_mem` (bytes) and
/// sorted by descending badness, then descending resident set, then
/// ascending pid. The result holds exactly the surviving records, no
/// excluded name and no protected unit among them.
pub fn processes_with_badness(
    procs: Vec<RawProc>,
    exclude: &Vec<String>,
    protected_units: &Vec<String>,
    total_mem: u64,
) -> (r: Vec<ProcWithBadness>)
    requires
        total_mem > 0,
    ensures
        sorted_by_rank(r@),
        r@.to_multiset() == spec_candidates(
            procs@,
            views_of(exclude@),
            views_of(protected_units@),
            total_mem as int,
        ).to_multiset(),
        forall|k: int|
            0 <= k < r@.len() ==> !name_excluded(#[trigger] r@[k].name@, views_of(exclude@)),
        forall|k: int|
            0 <= k < r@.len() ==> !spec_is_protected(
                opt_view(#[trigger] r@[k].cgroup_unit),
                views_of(protected_units@),
            ),
        forall|k: int|
            0 <= k < r@.len() ==> (#[trigger] r@[k].badness_score) as int == spec_badness(
                r@[k].rss_bytes as int,
                total_mem as int,
                r@[k].oom_score_adj as int,
                r@[k].cgroup_slice,
            ),
{
    broadcast use group_to_multiset_ensures;

    let ghost excl = views_of(exclude@);
    let ghost prot = views_of(protected_units@);
    let ghost all = spec_candidates(procs@, excl, prot, total_mem as int);
    let ghost pred = |p: RawProc| passes_filters(p, excl, prot);
    let ghost score_map = |p: RawProc| scored(p, total_mem as int);
    let mut rest = procs;
    let mut cand: Vec<ProcWithBadness> = Vec::new();
    proof {
        assert(cand@.to_multiset().add(rest@.filter(pred).map_values(score_map).to_multiset())
            =~= all.to_multiset());
    }
    while rest.len() > 0
        invariant
            total_mem > 0,
            excl == views_of(exclude@),
            prot == views_of(protected_units@),
            pred == (|p: RawProc| passes_filters(p, excl, prot)),
            score_map == (|p: RawProc| scored(p, total_mem as int)),
            all == spec_candidates(procs@, excl, prot, total_mem as int),
            cand@.to_multiset().add(rest@.filter(pred).map_values(score_map).to_multiset())
                == all.to_multiset(),
        decreases rest@.len(),
    {
        broadcast use group_to_multiset_ensures;

        let ghost prev = rest@;
        let p = rest.pop().unwrap();
        proof {
            assert(prev.drop_last() =~= rest@);
            assert(prev.last() == p);
        }
        let keep = p.rss_bytes >= RSS_FLOOR_BYTES && !name_matches_any(p.name.as_str(), exclude)
            && !unit_protected(&p.cgroup_unit, protected_units);
        proof {
            assert(pred(p) == passes_filters(p, excl, prot));
            lemma_filter_step(prev, pred);
            if pred(p) {
                assert(prev.filter(pred) =~= rest@.filter(pred).push(p));
                assert(prev.filter(pred).map_values(score_map) =~= rest@.filter(pred).map_values(
                    score_map,
                ).push(score_map(p)));
            } else {
                assert(prev.filter(pred) =~= rest@.filter(pred));
            }
        }
        if keep {
            let badness = badness_centi(p.rss_bytes, total_mem, p.oom_score_adj, &p.cgroup_slice);
            let rec = ProcWithBadness {
                pid: p.pid,
                name: p.name,
                rss_bytes: p.rss_bytes,
                oom_score_adj: p.oom_score_adj,
                cgroup_slice: p.cgroup_slice,
                cgroup_unit: p.cgroup_unit,
                badness_score: badness,
            };
            proof {
                assert(rec == score_map(p));
            }
            cand.push(rec);
        }
    }
    proof {
        lemma_filter_nil(rest@, pred);
        assert(rest@.filter(pred).map_values(score_map) =~= Seq::<ProcWithBadness>::empty());
        assert(cand@.to_multiset().add(Seq::<ProcWithBadness>::empty().to_multiset())
            =~= cand@.to_multiset());
    }
    let out = sort_by_rank(cand);
    proof {
        assert forall|k: int| 0 <= k < out@.len() implies !name_excluded(
            (#[trigger] out@[k]).name@,
            excl,
        ) && !spec_is_protected(opt_view(out@[k].cgroup_unit), prot) && out@[k].badness_score
            as int == spec_badness(
            out@[k].rss_bytes as int,
            total_mem as int,
            out@[k].oom_score_adj as int,
            out@[k].cgroup_slice,
        ) by {
            let x = out@[k];
            assert(out@.contains(x));
            assert(out@.to_multiset().count(x) > 0);
            assert(all.to_multiset().count(x) > 0);
            assert(all.contains(x));
            lemma_candidate_member(procs@, excl, prot, total_mem as int, x);
        }
    }
    out
}

/// The rows the resident-set ranking keeps: names not excluded.
pub open spec fn spec_top_candidates(procs: Seq<ProcLite>, excl: Seq<Seq<char>>) -> Seq<ProcLite> {
    procs.filter(|p: ProcLite| !name_excluded(p.name@, excl))
}

/// Descending resident-set order.
pub open spec fn rss_before(a: ProcLite, b: ProcLite) -> bool {
    a.rss_bytes >= b.rss_bytes
}

/// Whether a sequence is sorted by descending resident set.
pub open spec fn sorted_by_rss(s: Seq<ProcLite>) -> bool {
    forall|i: int, j: int| 0 <= i < j < s.len() ==> rss_before(#[trigger] s[i], #[trigger] s[j])
}

/// Order lightweight rows by descending resident set.
fn sort_by_rss(input: Vec<ProcLite>) -> (r: Vec<ProcLite>)
    ensures
        sorted_by_rss(r@),
        r@.to_multiset() == input@.to_multiset(),
{
    broadcast use group_to_multiset_ensures;

    let ghost all = input@;
    let mut rest = input;
    let mut out: Vec<ProcLite> = Vec::new();
    proof {
        assert(out@.to_multiset().add(rest@.to_multiset()) =~= all.to_multiset());
    }
    while rest.len() > 0
        invariant
            sorted_by_rss(out@),
            out@.to_multiset().add(rest@.to_multiset()) == all.to_multiset(),
        decreases rest@.len(),
    {
        broadcast use group_to_multiset_ensures;

        let ghost prev = rest@;
        let x = rest.pop().unwrap();
        proof {
            assert(prev =~= rest@.push(x));
        }
        let mut k: usize = 0;
        while k < out.len() && out[k].rss_bytes >= x.rss_bytes
            invariant
                0 <= k <= out@.len(),
                sorted_by_rss(out@),
                forall|j: int| 0 <= j < k ==> rss_before(#[trigger] out@[j], x),
            decreases out@.len() - k,
        {
            k += 1;
        }
        proof {
            let s = out@;
            let t = s.insert(k as int, x);
            s.insert_ensures(k as int, x);
            assert forall|i: int, j: int| 0 <= i < j < t.len() implies rss_before(
                #[trigger] t[i],
                #[trigger] t[j],
            ) by {
            }
            assert(t.to_multiset() == s.to_multiset().insert(x));
        }
        out.insert(k, x);
    }
    proof {
        assert(rest@.to_multiset().len() == 0);
        assert(out@.to_multiset().add(rest@.to_multiset()) =~= out@.to_multiset());
    }
    out
}

/// The largest resident sets first: drop excluded names, order the rest
/// by descending resident set, and keep at most `limit` rows. The result
/// is a prefix of some full descending ordering of the surviving rows.
pub fn top_processes(procs: Vec<ProcLite>, limit: usize, exclude: &Vec<String>) -> (r: Vec<
    ProcLite,
>)
    ensures
        sorted_by_rss(r@),
        exists|full: Seq<ProcLite>|
            {
                &&& full.to_multiset() == spec_top_candidates(procs@, views_of(exclude@)).to_multiset()
                &&& sorted_by_rss(full)
                &&& r@ == full.take(
                    if limit as int <= full.len() {
                        limit as int
                    } else {
                        full.len() as int
                    },
                )
            },
{
    broadcast use group_to_multiset_ensures;

    let ghost excl = views_of(exclude@);
    let ghost pred = |p: ProcLite| !name_excluded(p.name@, excl);
    let mut rest = procs;
    let mut kept: Vec<ProcLite> = Vec::new();
    proof {
        assert(kept@.to_multiset().add(rest@.filter(pred).to_multiset())
            =~= procs@.filter(pred).to_multiset());
    }
    while rest.len() > 0
        invariant
            excl == views_of(exclude@),
            pred == (|p: ProcLite| !name_excluded(p.name@, excl)),
            kept@.to_multiset().add(rest@.filter(pred).to_multiset()) == procs@.filter(
                pred,
            ).to_multiset(),
        decreases rest@.len(),
    {
        broadcast use group_to_multiset_ensures;

        let ghost prev = rest@;
        let p = rest.pop().unwrap();
        proof {
            assert(prev.drop_last() =~= rest@);
            assert(prev.last() == p);
        }
        let keep = !name_matches_any(p.name.as_str(), exclude);
        proof {
            lemma_filter_step(prev, pred);
            if pred(p) {
                assert(prev.filter(pred) =~= rest@.filter(pred).push(p));
            } else {
                assert(prev.filter(pred) =~= rest@.filter(pred));
            }
        }
        if keep {
            kept.push(p);
        }
    }
    proof {
        lemma_filter_nil(rest@, pred);
        assert(kept@.to_multiset().add(Seq::<ProcLite>::empty().to_multiset())
            =~= kept@.to_multiset());
    }
    let mut sorted = sort_by_rss(kept);
    let ghost full = sorted@;
    proof {
        assert(spec_top_candidates(procs@, excl) == procs@.filter(pred));
    }
    sorted.truncate(limit);
    proof {
        if limit <= full.len() {
            assert(sorted@ == full.subrange(0, limit as int));
            assert(full.subrange(0, limit as int) =~= full.take(limit as int));
        } else {
            assert(sorted@ == full);
            assert(full =~= full.take(full.len() as int));
        }
        assert forall|i: int, j: int| 0 <= i < j < sorted@.len() implies rss_before(
            #[trigger] sorted@[i],
            #[trigger] sorted@[j],
        ) by {
            assert(sorted@[i] == full[i]);
            assert(sorted@[j] == full[j]);
        }
    }
    sorted
}

} // verus!
