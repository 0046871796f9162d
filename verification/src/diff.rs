//! Diffs two Snapshots into per-Metric growth, purely offline: only Metrics
//! sharing Provider, Identity, Name, *and* Window are compared. A Metric with
//! no counterpart, or one whose Window changed, is reported explicitly rather
//! than silently dropped or forced into a comparison.

use vstd::prelude::*;

use crate::model::{
    flat_metrics, Category, FetchResult, Metric, MetricValue, MetricView, Outcome, Snapshot,
    ValueView, Window, WindowView,
};
use crate::model::{category_label, same_value, value_text, window_text};
use crate::report::{
    category_order, category_order_exec, concat, notice_lines, pad_right, provider_notices, push_notice_lines,
    snapshot_notices,
};
use crate::text::{dec, lemma_map_push, lemma_take_push, owned, push_str, push_u64, str_eq};

verus! {

/// One Metric present, with a matching Window, in both Snapshots.
#[derive(Debug, Clone, PartialEq, Eq)]
pub struct MetricChange {
    pub provider: String,
    pub identity: String,
    pub name: String,
    pub category: Category,
    pub window: Window,
    pub old_value: MetricValue,
    pub new_value: MetricValue,
}

/// A Metric present under the same Provider/Identity/Name in both Snapshots
/// but with a different Window — never diffed.
#[derive(Debug, Clone, PartialEq, Eq)]
pub struct WindowChanged {
    pub provider: String,
    pub identity: String,
    pub name: String,
    pub old_window: Window,
    pub new_window: Window,
}

/// The result of diffing two Snapshots: every shared Metric's change, plus
/// every mismatch accounted for explicitly.
#[derive(Debug, Clone, PartialEq, Eq)]
pub struct Diff {
    pub changed: Vec<MetricChange>,
    /// In `new` with no counterpart in `old`.
    pub added: Vec<Metric>,
    /// In `old` with no counterpart in `new`, and `new` confirmed the absence
    /// with an explicit `NotApplicable` for that Provider×Identity.
    pub removed: Vec<Metric>,
    /// In `old` with no counterpart in `new`, absence not confirmed (the fetch
    /// failed, or was not attempted).
    pub inconclusive: Vec<Metric>,
    pub window_changed: Vec<WindowChanged>,
}

pub struct ChangeView {
    pub provider: Seq<char>,
    pub identity: Seq<char>,
    pub name: Seq<char>,
    pub category: Category,
    pub window: WindowView,
    pub old_value: ValueView,
    pub new_value: ValueView,
}

pub struct WindowChangeView {
    pub provider: Seq<char>,
    pub identity: Seq<char>,
    pub name: Seq<char>,
    pub old_window: WindowView,
    pub new_window: WindowView,
}

#[verifier::ext_equal]
pub struct DiffView {
    pub changed: Seq<ChangeView>,
    pub added: Seq<MetricView>,
    pub removed: Seq<MetricView>,
    pub inconclusive: Seq<MetricView>,
    pub window_changed: Seq<WindowChangeView>,
}

impl View for MetricChange {
    type V = ChangeView;

    open spec fn view(&self) -> ChangeView {
        ChangeView {
            provider: self.provider@,
            identity: self.identity@,
            name: self.name@,
            category: self.category,
            window: self.window@,
            old_value: self.old_value@,
            new_value: self.new_value@,
        }
    }
}

impl View for WindowChanged {
    type V = WindowChangeView;

    open spec fn view(&self) -> WindowChangeView {
        WindowChangeView {
            provider: self.provider@,
            identity: self.identity@,
            name: self.name@,
            old_window: self.old_window@,
            new_window: self.new_window@,
        }
    }
}

impl View for Diff {
    type V = DiffView;

    open spec fn view(&self) -> DiffView {
        DiffView {
            changed: self.changed@.map_values(|c: MetricChange| c@),
            added: self.added@.map_values(|m: Metric| m@),
            removed: self.removed@.map_values(|m: Metric| m@),
            inconclusive: self.inconclusive@.map_values(|m: Metric| m@),
            window_changed: self.window_changed@.map_values(|w: WindowChanged| w@),
        }
    }
}

pub open spec fn views(ms: Seq<Metric>) -> Seq<MetricView> {
    ms.map_values(|m: Metric| m@)
}

/// Same Provider, Identity, and Name.
pub open spec fn same_key(a: MetricView, b: MetricView) -> bool {
    a.provider == b.provider && a.identity == b.identity && a.name == b.name
}

/// The first position at or after `i` of a not-yet-matched Metric of `news`
/// with the key of `om`.
pub open spec fn match_from(news: Seq<MetricView>, matched: Seq<bool>, om: MetricView, i: int) -> Option<int>
    decreases news.len() - i,
{
    if i < 0 || i >= news.len() {
        None
    } else if !matched[i] && same_key(news[i], om) {
        Some(i)
    } else {
        match_from(news, matched, om, i + 1)
    }
}

/// Whether `results` positively confirmed (`NotApplicable`) that this
/// Provider×Identity has no presence.
pub open spec fn confirmed_absent(results: Seq<FetchResult>, provider: Seq<char>, identity: Seq<char>) -> bool {
    exists|i: int|
        0 <= i < results.len() && results[i].provider@ == provider && results[i].identity@
            == identity && (#[trigger] results[i].outcome) is NotApplicable
}

pub open spec fn empty_diff() -> DiffView {
    DiffView {
        changed: seq![],
        added: seq![],
        removed: seq![],
        inconclusive: seq![],
        window_changed: seq![],
    }
}

/// Accounting for one old Metric `om`: paired with the first unmatched new
/// Metric of the same key (a change when the Windows are equal, a Window
/// change otherwise), or else removed when absence is confirmed, inconclusive
/// when not.
pub open spec fn diff_step(
    state: (Seq<bool>, DiffView),
    om: MetricView,
    news: Seq<MetricView>,
    results: Seq<FetchResult>,
) -> (Seq<bool>, DiffView) {
    let (matched, d) = state;
    match match_from(news, matched, om, 0) {
        Some(i) => {
            let nm = news[i];
            let m2 = matched.update(i, true);
            if nm.window == om.window {
                (
                    m2,
                    DiffView {
                        changed: d.changed.push(
                            ChangeView {
                                provider: om.provider,
                                identity: om.identity,
                                name: om.name,
                                category: om.category,
                                window: om.window,
                                old_value: om.value,
                                new_value: nm.value,
                            },
                        ),
                        ..d
                    },
                )
            } else {
                (
                    m2,
                    DiffView {
                        window_changed: d.window_changed.push(
                            WindowChangeView {
                                provider: om.provider,
                                identity: om.identity,
                                name: om.name,
                                old_window: om.window,
                                new_window: nm.window,
                            },
                        ),
                        ..d
                    },
                )
            }
        },
        None => if confirmed_absent(results, om.provider, om.identity) {
            (matched, DiffView { removed: d.removed.push(om), ..d })
        } else {
            (matched, DiffView { inconclusive: d.inconclusive.push(om), ..d })
        },
    }
}

/// The matched flags over `news` and the partial Diff after accounting for
/// every Metric of `olds`, in order.
pub open spec fn diff_fold(olds: Seq<MetricView>, news: Seq<MetricView>, results: Seq<FetchResult>) -> (Seq<bool>, DiffView)
    decreases olds.len(),
{
    if olds.len() == 0 {
        (Seq::new(news.len(), |i: int| false), empty_diff())
    } else {
        diff_step(diff_fold(olds.drop_last(), news, results), olds.last(), news, results)
    }
}

proof fn lemma_fold_added_empty(olds: Seq<MetricView>, news: Seq<MetricView>, results: Seq<FetchResult>)
    ensures
        diff_fold(olds, news, results).1.added == Seq::<MetricView>::empty(),
        diff_fold(olds, news, results).0.len() == news.len(),
    decreases olds.len(),
{
    if olds.len() > 0 {
        lemma_fold_added_empty(olds.drop_last(), news, results);
        let st = diff_fold(olds.drop_last(), news, results);
        lemma_match_from(news, st.0, olds.last(), 0);
    }
}

pub proof fn lemma_match_from(news: Seq<MetricView>, matched: Seq<bool>, om: MetricView, i: int)
    ensures
        match_from(news, matched, om, i) matches Some(j) ==> i <= j < news.len() && !matched[j]
            && same_key(news[j], om),
    decreases news.len() - i,
{
    if i < 0 || i >= news.len() {
    } else if !matched[i] && same_key(news[i], om) {
    } else {
        lemma_match_from(news, matched, om, i + 1);
    }
}

/// The Metrics of `news` not flagged in `matched`, in order.
pub open spec fn unmatched(news: Seq<MetricView>, matched: Seq<bool>) -> Seq<MetricView>
    decreases news.len(),
{
    if news.len() == 0 {
        seq![]
    } else if matched[news.len() - 1] {
        unmatched(news.drop_last(), matched)
    } else {
        unmatched(news.drop_last(), matched).push(news.last())
    }
}

pub open spec fn diff_spec(olds: Seq<MetricView>, news: Seq<MetricView>, results: Seq<FetchResult>) -> DiffView {
    let (matched, d) = diff_fold(olds, news, results);
    DiffView { added: unmatched(news, matched), ..d }
}

/// Whether `snapshot` positively confirmed this Provider×Identity has no
/// presence (`NotApplicable`).
pub fn confirmed_not_applicable(snapshot: &Snapshot, provider: &str, identity: &str) -> (r: bool)
    ensures
        r == confirmed_absent(snapshot.results@, provider@, identity@),
        r == has_not_applicable(snapshot.results@, provider@, identity@),
{
    let mut i: usize = 0;
    while i < snapshot.results.len()
        invariant
            i <= snapshot.results.len(),
            forall|k: int|
                0 <= k < i ==> !(snapshot.results@[k].provider@ == provider@
                    && snapshot.results@[k].identity@ == identity@
                    && (#[trigger] snapshot.results@[k].outcome) is NotApplicable),
        decreases snapshot.results.len() - i,
    {
        let r = &snapshot.results[i];
        if let Outcome::NotApplicable { .. } = &r.outcome {
            if str_eq(r.provider.as_str(), provider) && str_eq(r.identity.as_str(), identity) {
                assert(snapshot.results@[i as int].outcome is NotApplicable);
                assert(snapshot.results@[i as int].provider@ == provider@);
                return true;
            }
        }
        i = i + 1;
    }
    proof {
        if has_not_applicable(snapshot.results@, provider@, identity@) {
            let k = choose|k: int| 0 <= k < snapshot.results@.len() && #[trigger] snapshot.results@[k].provider@ == provider@
                && snapshot.results@[k].identity@ == identity@ && snapshot.results@[k].outcome is NotApplicable;
            assert(snapshot.results@[k].outcome is NotApplicable);
        }
    }
    false
}

fn same_key_exec(a: &Metric, b: &Metric) -> (r: bool)
    ensures
        r == same_key(a@, b@),
{
    str_eq(a.provider.as_str(), b.provider.as_str()) && str_eq(a.identity.as_str(), b.identity.as_str())
        && str_eq(a.name.as_str(), b.name.as_str())
}

fn find_match(news: &Vec<&Metric>, matched: &Vec<bool>, om: &Metric) -> (r: Option<usize>)
    requires
        matched@.len() == news@.len(),
    ensures
        match r {
            Some(i) => match_from(crate::rollup::metric_views(news@), matched@, om@, 0) == Some(
                i as int,
            ) && i < news@.len(),
            None => match_from(crate::rollup::metric_views(news@), matched@, om@, 0) is None,
        },
{
    let ghost nv = crate::rollup::metric_views(news@);
    let mut i: usize = 0;
    while i < news.len()
        invariant
            i <= news.len(),
            matched@.len() == news@.len(),
            nv == crate::rollup::metric_views(news@),
            match_from(nv, matched@, om@, 0) == match_from(nv, matched@, om@, i as int),
        decreases news.len() - i,
    {
        if !matched[i] && same_key_exec(news[i], om) {
            return Some(i);
        }
        i = i + 1;
    }
    None
}

/// Diff `old` against `new`. A Metric is matched by (Provider, Identity,
/// Name) to the first not-yet-matched new Metric; a match with an equal
/// Window is a change, with a differing Window a Window change. An old Metric
/// with no match is `removed` only when `new` confirms absence
/// (`NotApplicable`) for its Provider×Identity, and `inconclusive` otherwise.
/// New Metrics left unmatched are `added`.
pub fn compute(old: &Snapshot, new: &Snapshot) -> (d: Diff)
    ensures
        d@ == diff_spec(
            views(flat_metrics(old.results@)),
            views(flat_metrics(new.results@)),
            new.results@,
        ),
{
    let olds = old.metrics();
    let news = new.metrics();
    let ghost ov = crate::rollup::metric_views(olds@);
    let ghost nv = crate::rollup::metric_views(news@);
    assert(ov =~= views(flat_metrics(old.results@)));
    assert(nv =~= views(flat_metrics(new.results@)));
    let mut matched: Vec<bool> = Vec::new();
    let mut k: usize = 0;
    while k < news.len()
        invariant
            k <= news.len(),
            matched@ =~= Seq::new(k as nat, |i: int| false),
        decreases news.len() - k,
    {
        matched.push(false);
        k = k + 1;
    }
    let mut d = Diff {
        changed: Vec::new(),
        added: Vec::new(),
        removed: Vec::new(),
        inconclusive: Vec::new(),
        window_changed: Vec::new(),
    };
    assert(d@ =~= empty_diff());
    let mut i: usize = 0;
    while i < olds.len()
        invariant
            i <= olds.len(),
            ov == crate::rollup::metric_views(olds@),
            nv == crate::rollup::metric_views(news@),
            matched@.len() == news@.len(),
            (matched@, d@) == diff_fold(ov.take(i as int), nv, new.results@),
        decreases olds.len() - i,
    {
        assert(ov.take(i + 1).drop_last() =~= ov.take(i as int));
        assert(ov.take(i + 1).last() == olds@[i as int]@);
        let om = olds[i];
        match find_match(&news, &matched, om) {
            Some(j) => {
                let nm = news[j];
                let ghost prev = d@;
                matched.set(j, true);
                if nm.window.same_as(&om.window) {
                    d.changed.push(
                        MetricChange {
                            provider: om.provider.clone(),
                            identity: om.identity.clone(),
                            name: om.name.clone(),
                            category: om.category,
                            window: om.window.duplicate(),
                            old_value: om.value.duplicate(),
                            new_value: nm.value.duplicate(),
                        },
                    );
                    assert(d@.changed =~= prev.changed.push(
                        ChangeView {
                            provider: om@.provider,
                            identity: om@.identity,
                            name: om@.name,
                            category: om@.category,
                            window: om@.window,
                            old_value: om@.value,
                            new_value: nm@.value,
                        },
                    ));
                } else {
                    d.window_changed.push(
                        WindowChanged {
                            provider: om.provider.clone(),
                            identity: om.identity.clone(),
                            name: om.name.clone(),
                            old_window: om.window.duplicate(),
                            new_window: nm.window.duplicate(),
                        },
                    );
                    assert(d@.window_changed =~= prev.window_changed.push(
                        WindowChangeView {
                            provider: om@.provider,
                            identity: om@.identity,
                            name: om@.name,
                            old_window: om@.window,
                            new_window: nm@.window,
                        },
                    ));
                }
            },
            None => {
                let ghost prev = d@;
                if confirmed_not_applicable(new, om.provider.as_str(), om.identity.as_str()) {
                    d.removed.push(om.duplicate());
                    assert(d@.removed =~= prev.removed.push(om@));
                } else {
                    d.inconclusive.push(om.duplicate());
                    assert(d@.inconclusive =~= prev.inconclusive.push(om@));
                }
            },
        }
        i = i + 1;
    }
    assert(ov.take(olds.len() as int) =~= ov);
    proof {
        lemma_fold_added_empty(ov, nv, new.results@);
    }
    let ghost fold_diff = d@;
    let ghost final_matched = matched@;
    let mut j: usize = 0;
    assert(d.added@.map_values(|m: Metric| m@) =~= seq![]);
    assert(unmatched(nv.take(0), matched@) =~= seq![]);
    while j < news.len()
        invariant
            j <= news.len(),
            nv == crate::rollup::metric_views(news@),
            matched@ == final_matched,
            matched@.len() == news@.len(),
            d@.changed == fold_diff.changed,
            d@.removed == fold_diff.removed,
            d@.inconclusive == fold_diff.inconclusive,
            d@.window_changed == fold_diff.window_changed,
            d.added@.map_values(|m: Metric| m@) == unmatched(nv.take(j as int), matched@),
        decreases news.len() - j,
    {
        assert(nv.take(j + 1).drop_last() =~= nv.take(j as int));
        let ghost prev = d.added@.map_values(|m: Metric| m@);
        if !matched[j] {
            d.added.push(news[j].duplicate());
            assert(d.added@.map_values(|m: Metric| m@) =~= prev.push(nv[j as int]));
        }
        j = j + 1;
    }
    assert(nv.take(news.len() as int) =~= nv);
    assert(d@ =~= diff_spec(ov, nv, new.results@));
    d
}


/// How many flags are set.
pub open spec fn trues(m: Seq<bool>) -> nat
    decreases m.len(),
{
    if m.len() == 0 {
        0
    } else {
        trues(m.drop_last()) + if m.last() {
            1nat
        } else {
            0nat
        }
    }
}

proof fn lemma_trues_update(m: Seq<bool>, i: int)
    requires
        0 <= i < m.len(),
        !m[i],
    ensures
        trues(m.update(i, true)) == trues(m) + 1,
    decreases m.len(),
{
    let u = m.update(i, true);
    if i == m.len() - 1 {
        assert(u.drop_last() =~= m.drop_last());
    } else {
        assert(u.drop_last() =~= m.drop_last().update(i, true));
        lemma_trues_update(m.drop_last(), i);
    }
}

proof fn lemma_trues_none(n: nat)
    ensures
        trues(Seq::new(n, |i: int| false)) == 0,
    decreases n,
{
    if n > 0 {
        assert(Seq::new(n, |i: int| false).drop_last() =~= Seq::new((n - 1) as nat, |i: int| false));
        lemma_trues_none((n - 1) as nat);
    }
}

proof fn lemma_unmatched_len(news: Seq<MetricView>, m: Seq<bool>)
    requires
        m.len() == news.len(),
    ensures
        unmatched(news, m).len() + trues(m) == news.len(),
    decreases news.len(),
{
    if news.len() > 0 {
        assert(m.drop_last().len() == news.drop_last().len());
        lemma_unmatched_prefix(news.drop_last(), m);
        lemma_unmatched_len(news.drop_last(), m.drop_last());
    }
}

proof fn lemma_unmatched_prefix(news: Seq<MetricView>, m: Seq<bool>)
    requires
        news.len() <= m.len(),
    ensures
        unmatched(news, m) == unmatched(news, m.take(news.len() as int)),
    decreases news.len(),
{
    if news.len() > 0 {
        lemma_unmatched_prefix(news.drop_last(), m);
        lemma_unmatched_prefix(news.drop_last(), m.take(news.len() as int));
        assert(m.take(news.len() as int).take(news.len() - 1) =~= m.take(news.len() - 1));
    }
}

proof fn lemma_fold_counts(olds: Seq<MetricView>, news: Seq<MetricView>, results: Seq<FetchResult>)
    ensures
        ({
            let (m, d) = diff_fold(olds, news, results);
            &&& m.len() == news.len()
            &&& d.changed.len() + d.window_changed.len() + d.removed.len() + d.inconclusive.len()
                == olds.len()
            &&& trues(m) == d.changed.len() + d.window_changed.len()
            &&& forall|k: int|
                0 <= k < d.removed.len() ==> confirmed_absent(
                    results,
                    (#[trigger] d.removed[k]).provider,
                    d.removed[k].identity,
                )
            &&& forall|k: int|
                0 <= k < d.inconclusive.len() ==> !confirmed_absent(
                    results,
                    (#[trigger] d.inconclusive[k]).provider,
                    d.inconclusive[k].identity,
                )
            &&& forall|k: int|
                0 <= k < d.window_changed.len() ==> (#[trigger] d.window_changed[k]).old_window
                    != d.window_changed[k].new_window
        }),
    decreases olds.len(),
{
    if olds.len() == 0 {
        lemma_trues_none(news.len());
    } else {
        lemma_fold_counts(olds.drop_last(), news, results);
        let (m0, d0) = diff_fold(olds.drop_last(), news, results);
        let om = olds.last();
        lemma_match_from(news, m0, om, 0);
        match match_from(news, m0, om, 0) {
            Some(i) => {
                lemma_trues_update(m0, i);
            },
            None => {},
        }
        let (m, d) = diff_fold(olds, news, results);
        assert forall|k: int| 0 <= k < d.removed.len() implies confirmed_absent(
            results,
            (#[trigger] d.removed[k]).provider,
            d.removed[k].identity,
        ) by {
            if k < d0.removed.len() {
                assert(d.removed[k] == d0.removed[k]);
            }
        }
        assert forall|k: int| 0 <= k < d.inconclusive.len() implies !confirmed_absent(
            results,
            (#[trigger] d.inconclusive[k]).provider,
            d.inconclusive[k].identity,
        ) by {
            if k < d0.inconclusive.len() {
                assert(d.inconclusive[k] == d0.inconclusive[k]);
            }
        }
        assert forall|k: int| 0 <= k < d.window_changed.len() implies (#[trigger] d.window_changed[k]).old_window
            != d.window_changed[k].new_window by {
            if k < d0.window_changed.len() {
                assert(d.window_changed[k] == d0.window_changed[k]);
            }
        }
    }
}

/// Nothing is silently dropped by a diff: every old Metric is exactly one of
/// changed, Window-changed, removed, or inconclusive, and every new Metric is
/// exactly one of changed, Window-changed, or added. A Metric is `removed`
/// only when the new Snapshot confirmed (`NotApplicable`) its
/// Provider×Identity has no presence; an `inconclusive` one never was. A
/// Window change always joins two different Windows.
pub proof fn law_diff_accounts_for_every_metric(
    olds: Seq<MetricView>,
    news: Seq<MetricView>,
    results: Seq<FetchResult>,
)
    ensures
        ({
            let d = diff_spec(olds, news, results);
            &&& d.changed.len() + d.window_changed.len() + d.removed.len() + d.inconclusive.len()
                == olds.len()
            &&& d.changed.len() + d.window_changed.len() + d.added.len() == news.len()
            &&& forall|k: int|
                0 <= k < d.removed.len() ==> confirmed_absent(
                    results,
                    (#[trigger] d.removed[k]).provider,
                    d.removed[k].identity,
                )
            &&& forall|k: int|
                0 <= k < d.inconclusive.len() ==> !confirmed_absent(
                    results,
                    (#[trigger] d.inconclusive[k]).provider,
                    d.inconclusive[k].identity,
                )
            &&& forall|k: int|
                0 <= k < d.window_changed.len() ==> (#[trigger] d.window_changed[k]).old_window
                    != d.window_changed[k].new_window
        }),
{
    lemma_fold_counts(olds, news, results);
    let (m, d) = diff_fold(olds, news, results);
    lemma_unmatched_len(news, m);
}

/// An old Metric that no new Metric shares a key with is `removed` when the
/// new Snapshot confirmed its Provider×Identity has no presence, and
/// `inconclusive` otherwise: it is never dropped, whatever else the diff
/// pairs up.
pub proof fn law_unmatched_old_metric_is_removed_or_inconclusive(
    olds: Seq<MetricView>,
    news: Seq<MetricView>,
    results: Seq<FetchResult>,
    k: int,
)
    requires
        0 <= k < olds.len(),
        forall|j: int| 0 <= j < news.len() ==> !same_key(#[trigger] news[j], olds[k]),
    ensures
        confirmed_absent(results, olds[k].provider, olds[k].identity) ==> diff_spec(olds, news, results).removed.contains(
            olds[k],
        ),
        !confirmed_absent(results, olds[k].provider, olds[k].identity) ==> diff_spec(
            olds,
            news,
            results,
        ).inconclusive.contains(olds[k]),
    decreases olds.len(),
{
    let pre = olds.drop_last();
    let om = olds.last();
    let st = diff_fold(pre, news, results);
    let (m0, d0) = st;
    lemma_match_from(news, m0, om, 0);
    let (m, d) = diff_fold(olds, news, results);
    if k == olds.len() - 1 {
        assert(match_from(news, m0, om, 0) is None) by {
            if match_from(news, m0, om, 0) is Some {
                let j = match_from(news, m0, om, 0)->Some_0;
                assert(same_key(news[j], om));
                assert(!same_key(news[j], olds[k]));
            }
        }
        if confirmed_absent(results, om.provider, om.identity) {
            assert(d.removed == d0.removed.push(om));
            assert(d.removed[d0.removed.len() as int] == om);
        } else {
            assert(d.inconclusive == d0.inconclusive.push(om));
            assert(d.inconclusive[d0.inconclusive.len() as int] == om);
        }
    } else {
        assert(pre[k] == olds[k]);
        law_unmatched_old_metric_is_removed_or_inconclusive(pre, news, results, k);
        let x = olds[k];
        if confirmed_absent(results, x.provider, x.identity) {
            let t = choose|t: int| 0 <= t < d0.removed.len() && d0.removed[t] == x;
            assert(d.removed == d0.removed || d.removed == d0.removed.push(om));
            assert(d.removed[t] == x);
        } else {
            let t = choose|t: int| 0 <= t < d0.inconclusive.len() && d0.inconclusive[t] == x;
            assert(d.inconclusive == d0.inconclusive || d.inconclusive == d0.inconclusive.push(om));
            assert(d.inconclusive[t] == x);
        }
    }
}

/// `c` records the change from old Metric `o` to new Metric `n`: one key,
/// one Window, and their values.
pub open spec fn change_of(c: ChangeView, o: MetricView, n: MetricView) -> bool {
    &&& same_key(n, o)
    &&& o.window == n.window
    &&& c.provider == o.provider && c.identity == o.identity && c.name == o.name
    &&& c.category == o.category && c.window == o.window
    &&& c.old_value == o.value && c.new_value == n.value
}

/// `w` records the move of old Metric `o` to new Metric `n`: one key, two
/// different Windows.
pub open spec fn window_change_of(w: WindowChangeView, o: MetricView, n: MetricView) -> bool {
    &&& same_key(n, o)
    &&& o.window != n.window
    &&& w.provider == o.provider && w.identity == o.identity && w.name == o.name
    &&& w.old_window == o.window && w.new_window == n.window
}

proof fn lemma_change_paired(olds: Seq<MetricView>, news: Seq<MetricView>, results: Seq<FetchResult>, k: int)
    requires
        0 <= k < diff_fold(olds, news, results).1.changed.len(),
    ensures
        exists|i: int, j: int|
            0 <= i < olds.len() && 0 <= j < news.len()
                && #[trigger] change_of(diff_fold(olds, news, results).1.changed[k], olds[i], news[j]),
    decreases olds.len(),
{
    if olds.len() == 0 {
        assert(diff_fold(olds, news, results).1 == empty_diff());
    } else {
        let pre = olds.drop_last();
        let m0 = diff_fold(pre, news, results).0;
        let d0 = diff_fold(pre, news, results).1;
        let om = olds.last();
        let last = olds.len() - 1;
        lemma_match_from(news, m0, om, 0);
        let d = diff_fold(olds, news, results).1;
        if k < d0.changed.len() {
            assert(d.changed[k] == d0.changed[k]);
            lemma_change_paired(pre, news, results, k);
            let (i, j) = choose|i: int, j: int|
                0 <= i < pre.len() && 0 <= j < news.len() && #[trigger] change_of(d0.changed[k], pre[i], news[j]);
            assert(olds[i] == pre[i]);
            assert(change_of(d.changed[k], olds[i], news[j]));
        } else {
            let j = match_from(news, m0, om, 0)->Some_0;
            assert(olds[last] == om);
            assert(change_of(d.changed[k], olds[last], news[j]));
        }
    }
}

proof fn lemma_window_change_paired(olds: Seq<MetricView>, news: Seq<MetricView>, results: Seq<FetchResult>, k: int)
    requires
        0 <= k < diff_fold(olds, news, results).1.window_changed.len(),
    ensures
        exists|i: int, j: int|
            0 <= i < olds.len() && 0 <= j < news.len()
                && #[trigger] window_change_of(diff_fold(olds, news, results).1.window_changed[k], olds[i], news[j]),
    decreases olds.len(),
{
    if olds.len() == 0 {
        assert(diff_fold(olds, news, results).1 == empty_diff());
    } else {
        let pre = olds.drop_last();
        let m0 = diff_fold(pre, news, results).0;
        let d0 = diff_fold(pre, news, results).1;
        let om = olds.last();
        let last = olds.len() - 1;
        lemma_match_from(news, m0, om, 0);
        let d = diff_fold(olds, news, results).1;
        if k < d0.window_changed.len() {
            assert(d.window_changed[k] == d0.window_changed[k]);
            lemma_window_change_paired(pre, news, results, k);
            let (i, j) = choose|i: int, j: int|
                0 <= i < pre.len() && 0 <= j < news.len() && #[trigger] window_change_of(d0.window_changed[k], pre[i], news[j]);
            assert(olds[i] == pre[i]);
            assert(window_change_of(d.window_changed[k], olds[i], news[j]));
        } else {
            let j = match_from(news, m0, om, 0)->Some_0;
            assert(olds[last] == om);
            assert(window_change_of(d.window_changed[k], olds[last], news[j]));
        }
    }
}

/// Some old Metric and some new Metric are the pair `c` records a change
/// between.
pub open spec fn change_paired(c: ChangeView, olds: Seq<MetricView>, news: Seq<MetricView>) -> bool {
    exists|i: int, j: int| 0 <= i < olds.len() && 0 <= j < news.len() && #[trigger] change_of(c, olds[i], news[j])
}

/// Some old Metric and some new Metric are the pair `w` records a Window
/// change between.
pub open spec fn window_change_paired(w: WindowChangeView, olds: Seq<MetricView>, news: Seq<MetricView>) -> bool {
    exists|i: int, j: int| 0 <= i < olds.len() && 0 <= j < news.len() && #[trigger] window_change_of(w, olds[i], news[j])
}

/// Every change a diff reports pairs an old Metric with a new Metric of the
/// same key (provider, Identity, name): a value change between Metrics of
/// one Window, carrying their old and new values; a Window change between
/// Metrics of two different Windows.
pub proof fn law_diff_pairs_metrics_of_one_key(olds: Seq<MetricView>, news: Seq<MetricView>, results: Seq<FetchResult>)
    ensures
        forall|k: int| 0 <= k < diff_spec(olds, news, results).changed.len() ==> change_paired(
            #[trigger] diff_spec(olds, news, results).changed[k],
            olds,
            news,
        ),
        forall|k: int| 0 <= k < diff_spec(olds, news, results).window_changed.len() ==> window_change_paired(
            #[trigger] diff_spec(olds, news, results).window_changed[k],
            olds,
            news,
        ),
{
    let d = diff_spec(olds, news, results);
    assert forall|k: int| 0 <= k < d.changed.len() implies change_paired(#[trigger] d.changed[k], olds, news) by {
        lemma_change_paired(olds, news, results, k);
    }
    assert forall|k: int| 0 <= k < d.window_changed.len() implies window_change_paired(#[trigger] d.window_changed[k], olds, news) by {
        lemma_window_change_paired(olds, news, results, k);
    }
}

/// Some result of `results` is a `NotApplicable` of exactly this Provider
/// and this Identity.
pub open spec fn has_not_applicable(results: Seq<FetchResult>, provider: Seq<char>, identity: Seq<char>) -> bool {
    exists|i: int| 0 <= i < results.len() && #[trigger] results[i].provider@ == provider && results[i].identity@ == identity
        && results[i].outcome is NotApplicable
}

/// A Metric is `removed` only on the new Snapshot's word for that very
/// Metric: some new result for the same Provider and the same Identity is
/// `NotApplicable`. A Metric is `inconclusive` when no new result for its
/// Provider and Identity is `NotApplicable`, whatever the Provider answered
/// for other Identities.
pub proof fn law_removed_only_on_confirmation_for_its_identity(
    olds: Seq<MetricView>,
    news: Seq<MetricView>,
    results: Seq<FetchResult>,
)
    ensures
        forall|k: int| 0 <= k < diff_spec(olds, news, results).removed.len() ==> has_not_applicable(
            results,
            (#[trigger] diff_spec(olds, news, results).removed[k]).provider,
            diff_spec(olds, news, results).removed[k].identity,
        ),
        forall|k: int| 0 <= k < diff_spec(olds, news, results).inconclusive.len() ==> !has_not_applicable(
            results,
            (#[trigger] diff_spec(olds, news, results).inconclusive[k]).provider,
            diff_spec(olds, news, results).inconclusive[k].identity,
        ),
{
    law_diff_accounts_for_every_metric(olds, news, results);
    let d = diff_spec(olds, news, results);
    assert forall|k: int| 0 <= k < d.removed.len() implies has_not_applicable(
        results,
        (#[trigger] d.removed[k]).provider,
        d.removed[k].identity,
    ) by {
        assert(confirmed_absent(results, d.removed[k].provider, d.removed[k].identity));
        let i = choose|i: int| 0 <= i < results.len() && results[i].provider@ == d.removed[k].provider
            && results[i].identity@ == d.removed[k].identity && (#[trigger] results[i].outcome) is NotApplicable;
        assert(results[i].provider@ == d.removed[k].provider);
    }
    assert forall|k: int| 0 <= k < d.inconclusive.len() implies !has_not_applicable(
        results,
        (#[trigger] d.inconclusive[k]).provider,
        d.inconclusive[k].identity,
    ) by {
        assert(!confirmed_absent(results, d.inconclusive[k].provider, d.inconclusive[k].identity));
        if has_not_applicable(results, d.inconclusive[k].provider, d.inconclusive[k].identity) {
            let i = choose|i: int| 0 <= i < results.len() && #[trigger] results[i].provider@ == d.inconclusive[k].provider
                && results[i].identity@ == d.inconclusive[k].identity && results[i].outcome is NotApplicable;
            assert(results[i].outcome is NotApplicable);
        }
    }
}

/// A signed difference, `+` shown for zero and up.
pub open spec fn signed_text(d: int) -> Seq<char> {
    if d >= 0 { "+"@ + dec(d as nat) } else { "-"@ + dec((-d) as nat) }
}

/// How a value changed: counts with their signed difference; reals, shown
/// to two decimals, with `real_delta` (their signed difference, to two
/// decimals); anything else as `old → new`, or `(unchanged)`.
pub open spec fn change_text(o: ValueView, n: ValueView, real_delta: Seq<char>) -> Seq<char> {
    match (o, n) {
        (ValueView::Count(a), ValueView::Count(b)) => dec(a as nat) + " → "@ + dec(b as nat) + " ("@ + signed_text(b - a) + ")"@,
        (ValueView::Real(_, sa), ValueView::Real(_, sb)) => sa + " → "@ + sb + " ("@ + real_delta + ")"@,
        _ => if same_value(o, n) {
            value_text(o) + " (unchanged)"@
        } else {
            value_text(o) + " → "@ + value_text(n)
        },
    }
}

/// Describes the change between two values of one Metric.
pub fn describe_change(old: &MetricValue, new: &MetricValue, real_delta: &str) -> (r: String)
    ensures
        r@ == change_text(old@, new@, real_delta@),
{
    match (old, new) {
        (MetricValue::Count(o), MetricValue::Count(n)) => {
            let mut t = crate::text::u64_text(*o);
            push_str(&mut t, " → ");
            push_u64(&mut t, *n);
            push_str(&mut t, " (");
            if *n >= *o {
                push_str(&mut t, "+");
                push_u64(&mut t, *n - *o);
            } else {
                push_str(&mut t, "-");
                push_u64(&mut t, *o - *n);
            }
            push_str(&mut t, ")");
            t
        },
        (MetricValue::Real(o), MetricValue::Real(n)) => {
            let mut t = o.shown.clone();
            push_str(&mut t, " → ");
            push_str(&mut t, n.shown.as_str());
            push_str(&mut t, " (");
            push_str(&mut t, real_delta);
            push_str(&mut t, ")");
            t
        },
        _ => {
            let mut t = old.text();
            if old.same_as(new) {
                push_str(&mut t, " (unchanged)");
            } else {
                push_str(&mut t, " → ");
                let nt = new.text();
                push_str(&mut t, nt.as_str());
            }
            t
        },
    }
}

/// The Identities of both Snapshots: the old ones in order, then each new
/// one not among them.
pub open spec fn merged_identities(olds: Seq<Seq<char>>, news: Seq<Seq<char>>) -> Seq<Seq<char>>
    decreases news.len(),
{
    if news.len() == 0 {
        olds
    } else {
        let m = merged_identities(olds, news.drop_last());
        if m.contains(news.last()) { m } else { m.push(news.last()) }
    }
}

/// One changed Metric's line.
pub open spec fn change_line(c: ChangeView, real_delta: Seq<char>) -> Seq<char> {
    "  "@ + pad_right(c.name, 20) + "  "@ + pad_right(c.provider, 12) + "  "@ + change_text(c.old_value, c.new_value, real_delta) + "\n"@
}

/// The lines of the changes of Identity `id` and Category `cat`, in order.
pub open spec fn change_lines(cs: Seq<(ChangeView, Seq<char>)>, id: Seq<char>, cat: Category) -> Seq<char>
    decreases cs.len(),
{
    if cs.len() == 0 {
        seq![]
    } else {
        let (c, d) = cs.last();
        change_lines(cs.drop_last(), id, cat) + if c.identity == id && c.category == cat { change_line(c, d) } else { seq![] }
    }
}

pub open spec fn has_change(cs: Seq<(ChangeView, Seq<char>)>, id: Seq<char>, cat: Option<Category>) -> bool {
    exists|k: int| 0 <= k < cs.len() && (#[trigger] cs[k]).0.identity == id && (cat matches Some(c) ==> cs[k].0.category == c)
}

pub open spec fn change_categories(cs: Seq<(ChangeView, Seq<char>)>, id: Seq<char>, cats: Seq<Category>) -> Seq<char>
    decreases cats.len(),
{
    if cats.len() == 0 {
        seq![]
    } else {
        let c = cats.last();
        change_categories(cs, id, cats.drop_last()) + if has_change(cs, id, Some(c)) {
            "── "@ + category_label(c) + " ──\n"@ + change_lines(cs, id, c)
        } else {
            seq![]
        }
    }
}

pub open spec fn change_identities(cs: Seq<(ChangeView, Seq<char>)>, ids: Seq<Seq<char>>) -> Seq<char>
    decreases ids.len(),
{
    if ids.len() == 0 {
        seq![]
    } else {
        let id = ids.last();
        change_identities(cs, ids.drop_last()) + if has_change(cs, id, None) {
            "\n━━ "@ + id + " ━━\n"@ + change_categories(cs, id, category_order())
        } else {
            seq![]
        }
    }
}

/// A Metric's line in the Added, Removed or Inconclusive sections.
pub open spec fn metric_lines(ms: Seq<MetricView>) -> Seq<char>
    decreases ms.len(),
{
    if ms.len() == 0 {
        seq![]
    } else {
        let m = ms.last();
        metric_lines(ms.drop_last()) + "  "@ + m.name + " ("@ + m.provider + ") "@ + m.identity + " — "@ + value_text(m.value) + "\n"@
    }
}

pub open spec fn metric_section(heading: Seq<char>, ms: Seq<MetricView>) -> Seq<char> {
    if ms.len() == 0 { seq![] } else { "\n"@ + heading + ":\n"@ + metric_lines(ms) }
}

pub open spec fn window_lines(ws: Seq<WindowChangeView>) -> Seq<char>
    decreases ws.len(),
{
    if ws.len() == 0 {
        seq![]
    } else {
        let w = ws.last();
        window_lines(ws.drop_last()) + "  "@ + w.name + " ("@ + w.provider + ") "@ + w.identity + " — "@
            + window_text(w.old_window) + " → "@ + window_text(w.new_window) + "\n"@
    }
}

/// The notices of both Snapshots: the old ones, then each new one not among
/// them.
pub open spec fn merged_notices(olds: Seq<Seq<char>>, news: Seq<Seq<char>>) -> Seq<Seq<char>> {
    merged_identities(olds, news)
}

pub open spec fn zip_deltas(cs: Seq<ChangeView>, ds: Seq<Seq<char>>) -> Seq<(ChangeView, Seq<char>)> {
    Seq::new(cs.len(), |k: int| (cs[k], ds[k]))
}

/// The diff report: each Identity's changed Metrics by Category, then the
/// Added, Removed, Inconclusive and Window-changed Metrics, then the
/// notices of both Snapshots.
pub open spec fn diff_text(old: Snapshot, new: Snapshot, d: DiffView, deltas: Seq<Seq<char>>) -> Seq<char> {
    let cs = zip_deltas(d.changed, deltas);
    let ns = merged_notices(snapshot_notices(old), snapshot_notices(new));
    "boast diff — "@ + crate::clock::rfc3339_text(old.created_at.unix_nanos as int, old.created_at.offset_secs as int) + " → "@
        + crate::clock::rfc3339_text(new.created_at.unix_nanos as int, new.created_at.offset_secs as int) + "\n"@
        + change_identities(cs, merged_identities(crate::model::seq_views(old.identities@), crate::model::seq_views(new.identities@)))
        + metric_section("Added (no earlier data point)"@, d.added)
        + metric_section("Removed (no longer present)"@, d.removed)
        + metric_section("Inconclusive (not fetched, or fetch failed, in the new Snapshot; not confirmed removed)"@, d.inconclusive)
        + (if d.window_changed.len() == 0 { seq![] } else { "\nWindow changed (not diffed):\n"@ + window_lines(d.window_changed) })
        + (if ns.len() == 0 { seq![] } else { "\n── Notices ──\n"@ + notice_lines(ns, "  "@) })
}

fn contains_string(v: &Vec<String>, s: &str) -> (r: bool)
    ensures
        r == crate::model::seq_views(v@).contains(s@),
{
    let mut i: usize = 0;
    while i < v.len()
        invariant
            i <= v.len(),
            forall|k: int| 0 <= k < i ==> v@[k]@ != s@,
        decreases v.len() - i,
    {
        if str_eq(v[i].as_str(), s) {
            assert(crate::model::seq_views(v@)[i as int] == s@);
            return true;
        }
        i = i + 1;
    }
    assert(!crate::model::seq_views(v@).contains(s@)) by {
        if crate::model::seq_views(v@).contains(s@) {
            let k = choose|k: int| 0 <= k < v@.len() && crate::model::seq_views(v@)[k] == s@;
            assert(v@[k]@ == s@);
        }
    }
    false
}

/// `olds` followed by each of `news` not already present.
fn merge_texts(olds: &Vec<String>, news: &Vec<String>) -> (r: Vec<String>)
    ensures
        crate::model::seq_views(r@) == merged_identities(crate::model::seq_views(olds@), crate::model::seq_views(news@)),
{
    let mut out: Vec<String> = Vec::new();
    let mut i: usize = 0;
    while i < olds.len()
        invariant
            i <= olds.len(),
            crate::model::seq_views(out@) == crate::model::seq_views(olds@).take(i as int),
        decreases olds.len() - i,
    {
        let ghost before = out@;
        out.push(olds[i].clone());
        proof {
            lemma_map_push(before, out@[i as int], |s: String| s@);
            lemma_take_push(crate::model::seq_views(olds@), i as int);
        }
        i = i + 1;
    }
    assert(crate::model::seq_views(olds@).take(olds.len() as int) =~= crate::model::seq_views(olds@));
    let ghost nv = crate::model::seq_views(news@);
    let mut j: usize = 0;
    while j < news.len()
        invariant
            j <= news.len(),
            nv == crate::model::seq_views(news@),
            crate::model::seq_views(out@) == merged_identities(crate::model::seq_views(olds@), nv.take(j as int)),
        decreases news.len() - j,
    {
        assert(nv.take(j + 1).drop_last() =~= nv.take(j as int));
        if !contains_string(&out, news[j].as_str()) {
            let ghost before = out@;
            out.push(news[j].clone());
            proof {
                lemma_map_push(before, out@[out@.len() - 1], |s: String| s@);
            }
        }
        j = j + 1;
    }
    assert(nv.take(news.len() as int) =~= nv);
    out
}

fn push_change_line(out: &mut String, c: &MetricChange, real_delta: &str)
    ensures
        final(out)@ == old(out)@ + change_line(c@, real_delta@),
{
    push_str(out, "  ");
    crate::report::push_pad_right(out, c.name.as_str(), 20);
    push_str(out, "  ");
    crate::report::push_pad_right(out, c.provider.as_str(), 12);
    push_str(out, "  ");
    let t = describe_change(&c.old_value, &c.new_value, real_delta);
    push_str(out, t.as_str());
    push_str(out, "\n");
}

fn push_category_changes(out: &mut String, diff: &Diff, deltas: &Vec<String>, id: &str, c: Category)
    requires
        deltas@.len() == diff.changed@.len(),
    ensures
        final(out)@ == old(out)@ + change_lines(zip_deltas(diff@.changed, crate::model::seq_views(deltas@)), id@, c),
{
    let ghost cs = zip_deltas(diff@.changed, crate::model::seq_views(deltas@));
    let ghost start = out@;
    let mut i: usize = 0;
    assert(cs.take(0) =~= seq![]);
    while i < diff.changed.len()
        invariant
            i <= diff.changed.len(),
            deltas@.len() == diff.changed@.len(),
            cs == zip_deltas(diff@.changed, crate::model::seq_views(deltas@)),
            out@ == start + change_lines(cs.take(i as int), id@, c),
        decreases diff.changed.len() - i,
    {
        assert(cs.take(i + 1).drop_last() =~= cs.take(i as int));
        assert(cs.take(i + 1).last() == (diff.changed@[i as int]@, deltas@[i as int]@));
        let ch = &diff.changed[i];
        if str_eq(ch.identity.as_str(), id) && ch.category == c {
            push_change_line(out, ch, deltas[i].as_str());
        }
        i = i + 1;
    }
    assert(cs.take(diff.changed.len() as int) =~= cs);
}

/// Whether any change (of Category `cat`, when given) belongs to `id`, and
/// the lines of those of Category `cat`.
fn push_identity_changes(out: &mut String, diff: &Diff, deltas: &Vec<String>, id: &str)
    requires
        deltas@.len() == diff.changed@.len(),
    ensures
        final(out)@ == old(out)@ + (if has_change(zip_deltas(diff@.changed, crate::model::seq_views(deltas@)), id@, None) {
            "\n━━ "@ + id@ + " ━━\n"@ + change_categories(zip_deltas(diff@.changed, crate::model::seq_views(deltas@)), id@, category_order())
        } else {
            seq![]
        }),
{
    let ghost cs = zip_deltas(diff@.changed, crate::model::seq_views(deltas@));
    let any = first_change(diff, id, None);
    if !any {
        return;
    }
    push_str(out, "\n━━ ");
    push_str(out, id);
    push_str(out, " ━━\n");
    let ghost mid = out@;
    let order = category_order_exec();
    let mut k: usize = 0;
    assert(order@.take(0) =~= seq![]);
    while k < order.len()
        invariant
            k <= order.len(),
            order@ == category_order(),
            deltas@.len() == diff.changed@.len(),
            cs == zip_deltas(diff@.changed, crate::model::seq_views(deltas@)),
            out@ == mid + change_categories(cs, id@, order@.take(k as int)),
        decreases order.len() - k,
    {
        assert(order@.take(k + 1).drop_last() =~= order@.take(k as int));
        let c = order[k];
        if first_change(diff, id, Some(c)) {
            push_str(out, "── ");
            push_str(out, c.label());
            push_str(out, " ──\n");
            push_category_changes(out, diff, deltas, id, c);
        }
        k = k + 1;
    }
    assert(order@.take(4) =~= order@);
}

/// Whether a change of `id` (and of Category `cat`, when given) exists.
fn first_change(diff: &Diff, id: &str, cat: Option<Category>) -> (r: bool)
    ensures
        forall|ds: Seq<Seq<char>>| ds.len() == diff@.changed.len() ==> r == has_change(zip_deltas(diff@.changed, ds), id@, cat),
{
    let mut i: usize = 0;
    while i < diff.changed.len()
        invariant
            i <= diff.changed.len(),
            forall|k: int| 0 <= k < i ==> !((#[trigger] diff.changed@[k])@.identity == id@ && (cat matches Some(c) ==> diff.changed@[k]@.category == c)),
        decreases diff.changed.len() - i,
    {
        let ch = &diff.changed[i];
        let hit = str_eq(ch.identity.as_str(), id) && match cat {
            Some(c) => ch.category == c,
            None => true,
        };
        if hit {
            assert forall|ds: Seq<Seq<char>>| ds.len() == diff@.changed.len() implies has_change(zip_deltas(diff@.changed, ds), id@, cat) by {
                assert(zip_deltas(diff@.changed, ds)[i as int].0 == diff@.changed[i as int]);
            }
            return true;
        }
        i = i + 1;
    }
    assert forall|ds: Seq<Seq<char>>| ds.len() == diff@.changed.len() implies !has_change(zip_deltas(diff@.changed, ds), id@, cat) by {
        if has_change(zip_deltas(diff@.changed, ds), id@, cat) {
            let k = choose|k: int| 0 <= k < zip_deltas(diff@.changed, ds).len() && (#[trigger] zip_deltas(diff@.changed, ds)[k]).0.identity == id@ && (cat matches Some(c) ==> zip_deltas(diff@.changed, ds)[k].0.category == c);
            assert(zip_deltas(diff@.changed, ds)[k].0 == diff@.changed[k]);
            assert(diff.changed@[k]@ == diff@.changed[k]);
        }
    }
    false
}

fn push_metric_section(out: &mut String, heading: &str, ms: &Vec<Metric>)
    ensures
        final(out)@ == old(out)@ + metric_section(heading@, ms@.map_values(|m: Metric| m@)),
{
    if ms.len() == 0 {
        return;
    }
    push_str(out, "\n");
    push_str(out, heading);
    push_str(out, ":\n");
    let ghost mv = ms@.map_values(|m: Metric| m@);
    let ghost start = out@;
    let mut i: usize = 0;
    assert(start + metric_lines(mv.take(0)) =~= start);
    while i < ms.len()
        invariant
            i <= ms.len(),
            mv == ms@.map_values(|m: Metric| m@),
            out@ == start + metric_lines(mv.take(i as int)),
        decreases ms.len() - i,
    {
        assert(mv.take(i + 1).drop_last() =~= mv.take(i as int));
        assert(mv.take(i + 1).last() == ms@[i as int]@);
        let m = &ms[i];
        push_str(out, "  ");
        push_str(out, m.name.as_str());
        push_str(out, " (");
        push_str(out, m.provider.as_str());
        push_str(out, ") ");
        push_str(out, m.identity.as_str());
        push_str(out, " — ");
        let v = m.value.text();
        push_str(out, v.as_str());
        push_str(out, "\n");
        i = i + 1;
    }
    assert(mv.take(ms.len() as int) =~= mv);
}

fn push_window_lines(out: &mut String, ws: &Vec<WindowChanged>)
    ensures
        final(out)@ == old(out)@ + window_lines(ws@.map_values(|w: WindowChanged| w@)),
{
    let ghost wv = ws@.map_values(|w: WindowChanged| w@);
    let ghost start = out@;
    let mut i: usize = 0;
    assert(start + window_lines(wv.take(0)) =~= start);
    while i < ws.len()
        invariant
            i <= ws.len(),
            wv == ws@.map_values(|w: WindowChanged| w@),
            out@ == start + window_lines(wv.take(i as int)),
        decreases ws.len() - i,
    {
        assert(wv.take(i + 1).drop_last() =~= wv.take(i as int));
        assert(wv.take(i + 1).last() == ws@[i as int]@);
        let w = &ws[i];
        push_str(out, "  ");
        push_str(out, w.name.as_str());
        push_str(out, " (");
        push_str(out, w.provider.as_str());
        push_str(out, ") ");
        push_str(out, w.identity.as_str());
        push_str(out, " — ");
        let a = w.old_window.describe();
        push_str(out, a.as_str());
        push_str(out, " → ");
        let b = w.new_window.describe();
        push_str(out, b.as_str());
        push_str(out, "\n");
        i = i + 1;
    }
    assert(wv.take(ws.len() as int) =~= wv);
}

/// Renders a diff for the terminal. `real_deltas[i]` is the signed
/// difference, to two decimals, of `diff.changed[i]` when both its values
/// are real numbers (unused otherwise).
pub fn render(old: &Snapshot, new: &Snapshot, diff: &Diff, real_deltas: &Vec<String>) -> (r: String)
    requires
        real_deltas@.len() == diff.changed@.len(),
    ensures
        r@ == diff_text(*old, *new, diff@, crate::model::seq_views(real_deltas@)),
{
    let mut out = owned("boast diff — ");
    let a = crate::clock::rfc3339(old.created_at);
    push_str(&mut out, a.as_str());
    push_str(&mut out, " → ");
    let b = crate::clock::rfc3339(new.created_at);
    push_str(&mut out, b.as_str());
    push_str(&mut out, "\n");
    let ids = merge_texts(&old.identities, &new.identities);
    let ghost iv = crate::model::seq_views(ids@);
    let ghost cs = zip_deltas(diff@.changed, crate::model::seq_views(real_deltas@));
    let ghost head = out@;
    let mut i: usize = 0;
    assert(head + change_identities(cs, iv.take(0)) =~= head);
    while i < ids.len()
        invariant
            i <= ids.len(),
            real_deltas@.len() == diff.changed@.len(),
            iv == crate::model::seq_views(ids@),
            cs == zip_deltas(diff@.changed, crate::model::seq_views(real_deltas@)),
            out@ == head + change_identities(cs, iv.take(i as int)),
        decreases ids.len() - i,
    {
        assert(iv.take(i + 1).drop_last() =~= iv.take(i as int));
        push_identity_changes(&mut out, diff, real_deltas, ids[i].as_str());
        i = i + 1;
    }
    assert(iv.take(ids.len() as int) =~= iv);
    push_metric_section(&mut out, "Added (no earlier data point)", &diff.added);
    push_metric_section(&mut out, "Removed (no longer present)", &diff.removed);
    push_metric_section(&mut out, "Inconclusive (not fetched, or fetch failed, in the new Snapshot; not confirmed removed)", &diff.inconclusive);
    if diff.window_changed.len() > 0 {
        push_str(&mut out, "\nWindow changed (not diffed):\n");
        push_window_lines(&mut out, &diff.window_changed);
    }
    let old_notices = provider_notices(old);
    let new_notices = provider_notices(new);
    let notices = merge_texts(&old_notices, &new_notices);
    if notices.len() > 0 {
        push_str(&mut out, "\n── Notices ──\n");
        push_notice_lines(&mut out, &notices, "  ");
    }
    out
}

} // verus!

verus! {

proof fn lemma_match_self(news: Seq<MetricView>, matched: Seq<bool>, n: int, i: int)
    requires
        0 <= i <= n < news.len(),
        matched.len() == news.len(),
        forall|j: int| 0 <= j < n ==> matched[j],
        !matched[n],
    ensures
        match_from(news, matched, news[n], i) == Some(n),
    decreases n - i,
{
    if i < n {
        lemma_match_self(news, matched, n, i + 1);
    }
}

proof fn lemma_unmatched_none(news: Seq<MetricView>, matched: Seq<bool>)
    requires
        news.len() <= matched.len(),
        forall|j: int| 0 <= j < news.len() ==> matched[j],
    ensures
        unmatched(news, matched) == Seq::<MetricView>::empty(),
    decreases news.len(),
{
    if news.len() > 0 {
        lemma_unmatched_none(news.drop_last(), matched);
    }
}

/// The state after the first `n` Metrics of `ms` are diffed against `ms`.
proof fn lemma_fold_self(ms: Seq<MetricView>, results: Seq<FetchResult>, n: int)
    requires
        0 <= n <= ms.len(),
    ensures
        ({
            let (matched, d) = diff_fold(ms.take(n), ms, results);
            &&& matched.len() == ms.len()
            &&& forall|j: int| 0 <= j < ms.len() ==> matched[j] == (j < n)
            &&& d.changed.len() == n
            &&& forall|k: int| 0 <= k < n ==> (#[trigger] d.changed[k]).old_value == ms[k].value
                && d.changed[k].new_value == ms[k].value && d.changed[k].name == ms[k].name
                && d.changed[k].provider == ms[k].provider && d.changed[k].identity == ms[k].identity
                && d.changed[k].window == ms[k].window
            &&& d.added.len() == 0
            &&& d.removed.len() == 0
            &&& d.inconclusive.len() == 0
            &&& d.window_changed.len() == 0
        }),
    decreases n,
{
    if n > 0 {
        lemma_fold_self(ms, results, n - 1);
        assert(ms.take(n).drop_last() =~= ms.take(n - 1));
        assert(ms.take(n).last() == ms[n - 1]);
        let (m0, d0) = diff_fold(ms.take(n - 1), ms, results);
        lemma_match_self(ms, m0, n - 1, 0);
        let (m1, d1) = diff_fold(ms.take(n), ms, results);
        assert(m1 == m0.update(n - 1, true));
        assert forall|k: int| 0 <= k < n implies (#[trigger] d1.changed[k]).old_value == ms[k].value
            && d1.changed[k].new_value == ms[k].value && d1.changed[k].name == ms[k].name
            && d1.changed[k].provider == ms[k].provider && d1.changed[k].identity == ms[k].identity
            && d1.changed[k].window == ms[k].window by {
            if k < n - 1 {
                assert(d1.changed[k] == d0.changed[k]);
            }
        }
    } else {
        assert(ms.take(0) =~= Seq::<MetricView>::empty());
    }
}

/// Diffing Metrics against themselves changes nothing: every Metric is
/// paired with itself, old and new values equal, and nothing is added,
/// removed, inconclusive or Window-changed.
pub proof fn law_diff_against_itself_is_unchanged(ms: Seq<MetricView>, results: Seq<FetchResult>)
    ensures
        ({
            let d = diff_spec(ms, ms, results);
            &&& d.changed.len() == ms.len()
            &&& forall|k: int| 0 <= k < ms.len() ==> (#[trigger] d.changed[k]).old_value == ms[k].value
                && d.changed[k].new_value == ms[k].value && d.changed[k].name == ms[k].name
                && d.changed[k].provider == ms[k].provider && d.changed[k].identity == ms[k].identity
            &&& d.added.len() == 0
            &&& d.removed.len() == 0
            &&& d.inconclusive.len() == 0
            &&& d.window_changed.len() == 0
        }),
{
    lemma_fold_self(ms, results, ms.len() as int);
    assert(ms.take(ms.len() as int) =~= ms);
    let (matched, d) = diff_fold(ms, ms, results);
    lemma_unmatched_none(ms, matched);
}

} // verus!
