//! Derived Rollup totals across compatible Metrics: Metrics are summed only
//! when their Windows are exactly equal. A Rollup is computed from
//! already-fetched Metrics at render time and always names every channel it
//! includes.

use vstd::prelude::*;

use crate::model::{Category, Metric, MetricValue, MetricView, ValueView, Window, WindowView};
use crate::text::str_eq;

verus! {

/// One Metric's contribution to a Rollup.
#[derive(Debug, Clone, PartialEq, Eq)]
pub struct RollupChannel {
    pub provider: String,
    pub identity: String,
    pub value: u64,
}

/// A derived total across two or more Metrics sharing an exactly-equal Window.
#[derive(Debug, Clone, PartialEq, Eq)]
pub struct Rollup {
    pub window: Window,
    pub total: u64,
    pub channels: Vec<RollupChannel>,
}

pub struct ChannelView {
    pub provider: Seq<char>,
    pub identity: Seq<char>,
    pub value: u64,
}

pub struct RollupView {
    pub window: WindowView,
    pub total: nat,
    pub channels: Seq<ChannelView>,
}

impl View for RollupChannel {
    type V = ChannelView;

    open spec fn view(&self) -> ChannelView {
        ChannelView { provider: self.provider@, identity: self.identity@, value: self.value }
    }
}

impl View for Rollup {
    type V = RollupView;

    open spec fn view(&self) -> RollupView {
        RollupView {
            window: self.window@,
            total: self.total as nat,
            channels: self.channels@.map_values(|c: RollupChannel| c@),
        }
    }
}

pub open spec fn is_count(v: ValueView) -> bool {
    v is Count
}

pub open spec fn channel_of(m: MetricView) -> ChannelView {
    ChannelView {
        provider: m.provider,
        identity: m.identity,
        value: match m.value {
            ValueView::Count(n) => n,
            _ => 0,
        },
    }
}

/// The channels of the Count Metrics among `ms` whose Window is `w`, in order.
pub open spec fn channels_in(ms: Seq<MetricView>, w: WindowView) -> Seq<ChannelView>
    decreases ms.len(),
{
    if ms.len() == 0 {
        seq![]
    } else {
        let rest = channels_in(ms.drop_last(), w);
        let m = ms.last();
        if is_count(m.value) && m.window == w {
            rest.push(channel_of(m))
        } else {
            rest
        }
    }
}

/// The Windows of the Count Metrics among `ms`, each once, in first-seen order.
pub open spec fn count_windows(ms: Seq<MetricView>) -> Seq<WindowView>
    decreases ms.len(),
{
    if ms.len() == 0 {
        seq![]
    } else {
        let rest = count_windows(ms.drop_last());
        let m = ms.last();
        if is_count(m.value) && !rest.contains(m.window) {
            rest.push(m.window)
        } else {
            rest
        }
    }
}

pub open spec fn channel_sum(cs: Seq<ChannelView>) -> nat
    decreases cs.len(),
{
    if cs.len() == 0 {
        0
    } else {
        channel_sum(cs.drop_last()) + cs.last().value as nat
    }
}

/// Whether, for every Window, the Count values with that Window sum within
/// `u64`: what a Rollup's total needs (sums are only ever taken within one
/// Window).
#[verifier::opaque]
pub open spec fn window_sums_fit(ms: Seq<MetricView>) -> bool {
    forall|w: WindowView| #[trigger] channel_sum(channels_in(ms, w)) <= u64::MAX
}

pub open spec fn rollups_over(ms: Seq<MetricView>, ws: Seq<WindowView>) -> Seq<RollupView>
    decreases ws.len(),
{
    if ws.len() == 0 {
        seq![]
    } else {
        let rest = rollups_over(ms, ws.drop_last());
        let w = ws.last();
        let cs = channels_in(ms, w);
        if cs.len() >= 2 {
            rest.push(RollupView { window: w, total: channel_sum(cs), channels: cs })
        } else {
            rest
        }
    }
}

/// One Rollup per Window shared by two or more Count Metrics, in the order
/// the Windows are first seen; channels in input order.
pub open spec fn rollups(ms: Seq<MetricView>) -> Seq<RollupView> {
    rollups_over(ms, count_windows(ms))
}

pub open spec fn metric_views(ms: Seq<&Metric>) -> Seq<MetricView> {
    ms.map_values(|m: &Metric| m@)
}

/// A prefix's channels of a Window never sum to more than the whole's.
pub proof fn lemma_channel_sum_prefix(ms: Seq<MetricView>, n: int, w: WindowView)
    requires
        0 <= n <= ms.len(),
    ensures
        channel_sum(channels_in(ms.take(n), w)) <= channel_sum(channels_in(ms, w)),
    decreases ms.len() - n,
{
    if n < ms.len() {
        lemma_channel_sum_prefix(ms, n + 1, w);
        let pre = ms.take(n);
        let next = ms.take(n + 1);
        assert(next.drop_last() =~= pre);
        let rest = channels_in(pre, w);
        if is_count(next.last().value) && next.last().window == w {
            assert(rest.push(channel_of(next.last())).drop_last() =~= rest);
        }
    } else {
        assert(ms.take(n) =~= ms);
    }
}

/// A Window no Count Metric has gathers no channels.
pub proof fn lemma_channels_outside(ms: Seq<MetricView>, w: WindowView)
    requires
        !count_windows(ms).contains(w),
    ensures
        channels_in(ms, w).len() == 0,
    decreases ms.len(),
{
    if ms.len() > 0 {
        let rest = count_windows(ms.drop_last());
        let m = ms.last();
        if is_count(m.value) && m.window == w {
            if !rest.contains(m.window) {
                assert(rest.push(m.window)[rest.len() as int] == w);
            }
            assert(false);
        }
        if rest.contains(w) {
            let k = choose|k: int| 0 <= k < rest.len() && rest[k] == w;
            if is_count(m.value) && !rest.contains(m.window) {
                assert(rest.push(m.window)[k] == w);
            }
            assert(false);
        }
        lemma_channels_outside(ms.drop_last(), w);
    }
}

fn window_listed(ws: &Vec<Window>, w: &Window) -> (r: bool)
    ensures
        r == ws@.map_values(|x: Window| x@).contains(w@),
{
    let ghost wv = ws@.map_values(|x: Window| x@);
    let mut i: usize = 0;
    while i < ws.len()
        invariant
            i <= ws.len(),
            wv == ws@.map_values(|x: Window| x@),
            forall|k: int| 0 <= k < i ==> wv[k] != w@,
        decreases ws.len() - i,
    {
        if ws[i].same_as(w) {
            assert(wv[i as int] == w@);
            return true;
        }
        i = i + 1;
    }
    false
}

fn windows_of_counts(ms: &Vec<&Metric>) -> (r: Vec<Window>)
    ensures
        r@.map_values(|x: Window| x@) == count_windows(metric_views(ms@)),
{
    let mut ws: Vec<Window> = Vec::new();
    let mut i: usize = 0;
    while i < ms.len()
        invariant
            i <= ms.len(),
            ws@.map_values(|x: Window| x@) == count_windows(metric_views(ms@.take(i as int))),
        decreases ms.len() - i,
    {
        let ghost prefix = metric_views(ms@.take(i as int));
        assert(metric_views(ms@.take(i + 1)).drop_last() =~= prefix);
        assert(metric_views(ms@.take(i + 1)).last() == ms@[i as int]@);
        let m = ms[i];
        if let MetricValue::Count(_) = &m.value {
            if !window_listed(&ws, &m.window) {
                let ghost prev = ws@.map_values(|x: Window| x@);
                ws.push(m.window.duplicate());
                assert(ws@.map_values(|x: Window| x@) =~= prev.push(m.window@));
            }
        }
        i = i + 1;
    }
    assert(ms@.take(ms.len() as int) =~= ms@);
    ws
}

fn channels_for(ms: &Vec<&Metric>, w: &Window) -> (r: (Vec<RollupChannel>, u64))
    requires
        channel_sum(channels_in(metric_views(ms@), w@)) <= u64::MAX,
    ensures
        r.0@.map_values(|c: RollupChannel| c@) == channels_in(metric_views(ms@), w@),
        r.1 as nat == channel_sum(channels_in(metric_views(ms@), w@)),
{
    let mut cs: Vec<RollupChannel> = Vec::new();
    let mut total: u64 = 0;
    let mut i: usize = 0;
    while i < ms.len()
        invariant
            i <= ms.len(),
            channel_sum(channels_in(metric_views(ms@), w@)) <= u64::MAX,
            cs@.map_values(|c: RollupChannel| c@) == channels_in(metric_views(ms@.take(i as int)), w@),
            total as nat == channel_sum(channels_in(metric_views(ms@.take(i as int)), w@)),
        decreases ms.len() - i,
    {
        let ghost prefix = metric_views(ms@.take(i as int));
        let ghost next = metric_views(ms@.take(i + 1));
        assert(next.drop_last() =~= prefix);
        assert(next.last() == ms@[i as int]@);
        let m = ms[i];
        if let MetricValue::Count(v) = &m.value {
            if m.window.same_as(w) {
                proof {
                    let before = channels_in(prefix, w@);
                    assert(channels_in(next, w@) == before.push(channel_of(ms@[i as int]@)));
                    assert(before.push(channel_of(ms@[i as int]@)).drop_last() =~= before);
                    lemma_channel_sum_prefix(metric_views(ms@), i + 1, w@);
                    assert(metric_views(ms@).take(i + 1) =~= next);
                }
                let ghost prev = cs@.map_values(|c: RollupChannel| c@);
                total = total + *v;
                cs.push(RollupChannel { provider: m.provider.clone(), identity: m.identity.clone(), value: *v });
                assert(cs@.map_values(|c: RollupChannel| c@) =~= prev.push(channel_of(m@)));
            }
        }
        i = i + 1;
    }
    assert(ms@.take(ms.len() as int) =~= ms@);
    (cs, total)
}

/// Whether the Count values among `ms` with Window `w` sum within `u64`.
fn window_sum_fits(ms: &Vec<&Metric>, w: &Window) -> (r: bool)
    ensures
        r == (channel_sum(channels_in(metric_views(ms@), w@)) <= u64::MAX),
{
    let mut total: u128 = 0;
    let mut i: usize = 0;
    while i < ms.len()
        invariant
            i <= ms.len(),
            total == channel_sum(channels_in(metric_views(ms@.take(i as int)), w@)),
            total <= u64::MAX,
        decreases ms.len() - i,
    {
        let ghost prefix = metric_views(ms@.take(i as int));
        let ghost next = metric_views(ms@.take(i + 1));
        assert(next.drop_last() =~= prefix);
        assert(next.last() == ms@[i as int]@);
        let m = ms[i];
        if let MetricValue::Count(v) = &m.value {
            if m.window.same_as(w) {
                let ghost before = channels_in(prefix, w@);
                assert(before.push(channel_of(ms@[i as int]@)).drop_last() =~= before);
                total = total + *v as u128;
            }
        }
        assert(total == channel_sum(channels_in(next, w@)));
        if total > u64::MAX as u128 {
            proof {
                lemma_channel_sum_prefix(metric_views(ms@), i + 1, w@);
                assert(metric_views(ms@).take(i + 1) =~= next);
            }
            return false;
        }
        i = i + 1;
    }
    assert(ms@.take(ms.len() as int) =~= ms@);
    true
}

/// Whether every Window's Count values sum within `u64`, as `compute`
/// needs.
pub fn sums_fit(metrics: &Vec<&Metric>) -> (r: bool)
    ensures
        r == window_sums_fit(metric_views(metrics@)),
{
    let ws = windows_of_counts(metrics);
    let ghost wv = ws@.map_values(|x: Window| x@);
    let ghost mv = metric_views(metrics@);
    let mut i: usize = 0;
    while i < ws.len()
        invariant
            i <= ws.len(),
            wv == ws@.map_values(|x: Window| x@),
            wv == count_windows(mv),
            mv == metric_views(metrics@),
            forall|k: int| 0 <= k < i ==> #[trigger] channel_sum(channels_in(mv, wv[k])) <= u64::MAX,
        decreases ws.len() - i,
    {
        if !window_sum_fits(metrics, &ws[i]) {
            assert(channel_sum(channels_in(mv, wv[i as int])) > u64::MAX);
            proof {
                reveal(window_sums_fit);
            }
            return false;
        }
        i = i + 1;
    }
    assert forall|w: WindowView| #[trigger] channel_sum(channels_in(mv, w)) <= u64::MAX by {
        if wv.contains(w) {
            let k = choose|k: int| 0 <= k < wv.len() && wv[k] == w;
            assert(channel_sum(channels_in(mv, wv[k])) <= u64::MAX);
        } else {
            lemma_channels_outside(mv, w);
        }
    }
    proof {
        reveal(window_sums_fit);
    }
    true
}

/// Group `metrics` by exactly-equal Window and sum each group of two or more
/// Count values into a Rollup. Windows with a single contributing Metric are
/// left out; values other than counts never contribute.
pub fn compute(metrics: &Vec<&Metric>) -> (r: Vec<Rollup>)
    requires
        window_sums_fit(metric_views(metrics@)),
    ensures
        r@.map_values(|x: Rollup| x@) == rollups(metric_views(metrics@)),
{
    let ws = windows_of_counts(metrics);
    let ghost wv = ws@.map_values(|x: Window| x@);
    let mut out: Vec<Rollup> = Vec::new();
    let mut i: usize = 0;
    while i < ws.len()
        invariant
            i <= ws.len(),
            wv == ws@.map_values(|x: Window| x@),
            window_sums_fit(metric_views(metrics@)),
            out@.map_values(|x: Rollup| x@) == rollups_over(metric_views(metrics@), wv.take(i as int)),
        decreases ws.len() - i,
    {
        assert(wv.take(i + 1).drop_last() =~= wv.take(i as int));
        assert(channel_sum(channels_in(metric_views(metrics@), ws@[i as int]@)) <= u64::MAX) by {
            reveal(window_sums_fit);
        }
        let (cs, total) = channels_for(metrics, &ws[i]);
        if cs.len() >= 2 {
            let ghost prev = out@.map_values(|x: Rollup| x@);
            out.push(Rollup { window: ws[i].duplicate(), total, channels: cs });
            assert(out@.map_values(|x: Rollup| x@) =~= prev.push(
                RollupView {
                    window: wv[i as int],
                    total: channel_sum(channels_in(metric_views(metrics@), wv[i as int])),
                    channels: channels_in(metric_views(metrics@), wv[i as int]),
                },
            ));
        }
        i = i + 1;
    }
    assert(wv.take(ws.len() as int) =~= wv);
    out
}

pub open spec fn counts_as_download_spec(m: MetricView) -> bool {
    m.category == Category::Downloads || (m.provider == "github"@ && m.name
        == "release_downloads"@)
}

/// Whether `m` counts as a download for the Downloads Rollup: every Downloads
/// Metric, plus GitHub's `release_downloads` (shown under Code).
pub fn counts_as_download(m: &Metric) -> (r: bool)
    ensures
        r == counts_as_download_spec(m@),
{
    m.category == Category::Downloads || (str_eq(m.provider.as_str(), "github") && str_eq(
        m.name.as_str(),
        "release_downloads",
    ))
}


proof fn lemma_rollups_over_shape(ms: Seq<MetricView>, ws: Seq<WindowView>)
    ensures
        forall|k: int|
            0 <= k < rollups_over(ms, ws).len() ==> {
                let r = #[trigger] rollups_over(ms, ws)[k];
                &&& r.channels == channels_in(ms, r.window)
                &&& r.channels.len() >= 2
                &&& r.total == channel_sum(r.channels)
                &&& ws.contains(r.window)
            },
    decreases ws.len(),
{
    if ws.len() > 0 {
        lemma_rollups_over_shape(ms, ws.drop_last());
        let rest = rollups_over(ms, ws.drop_last());
        let out = rollups_over(ms, ws);
        assert forall|k: int| 0 <= k < out.len() implies ({
            let r = #[trigger] out[k];
            &&& r.channels == channels_in(ms, r.window)
            &&& r.channels.len() >= 2
            &&& r.total == channel_sum(r.channels)
            &&& ws.contains(r.window)
        }) by {
            if k < rest.len() {
                assert(out[k] == rest[k]);
                let j = choose|j: int| 0 <= j < ws.drop_last().len() && ws.drop_last()[j] == rest[k].window;
                assert(ws[j] == rest[k].window);
            } else {
                assert(ws[ws.len() - 1] == out[k].window);
            }
        }
    }
}

proof fn lemma_channel_origin(ms: Seq<MetricView>, w: WindowView)
    ensures
        forall|k: int|
            0 <= k < channels_in(ms, w).len() ==> exists|j: int|
                0 <= j < ms.len() && is_count(ms[j].value) && ms[j].window == w && channel_of(ms[j])
                    == #[trigger] channels_in(ms, w)[k],
    decreases ms.len(),
{
    if ms.len() > 0 {
        let init = ms.drop_last();
        lemma_channel_origin(init, w);
        let rest = channels_in(init, w);
        let cs = channels_in(ms, w);
        assert forall|k: int| 0 <= k < cs.len() implies exists|j: int|
            0 <= j < ms.len() && is_count(ms[j].value) && ms[j].window == w && channel_of(ms[j])
                == #[trigger] cs[k] by {
            if k < rest.len() {
                assert(cs[k] == rest[k]);
                let j = choose|j: int|
                    0 <= j < init.len() && is_count(init[j].value) && init[j].window == w
                        && channel_of(init[j]) == #[trigger] rest[k];
                assert(ms[j] == init[j]);
            } else {
                assert(cs[k] == channel_of(ms[ms.len() - 1]));
            }
        }
    }
}

/// A Rollup never mixes Windows: every Rollup has at least two channels, its
/// total is their sum, and each channel is a Count Metric of the input whose
/// Window is exactly the Rollup's Window.
pub proof fn law_rollup_never_mixes_windows(ms: Seq<MetricView>)
    ensures
        forall|k: int|
            0 <= k < rollups(ms).len() ==> {
                let r = #[trigger] rollups(ms)[k];
                &&& r.channels.len() >= 2
                &&& r.total == channel_sum(r.channels)
                &&& forall|c: int|
                    0 <= c < r.channels.len() ==> exists|j: int|
                        0 <= j < ms.len() && is_count(ms[j].value) && ms[j].window == r.window
                            && channel_of(ms[j]) == #[trigger] r.channels[c]
            },
{
    lemma_rollups_over_shape(ms, count_windows(ms));
    assert forall|k: int| 0 <= k < rollups(ms).len() implies ({
        let r = #[trigger] rollups(ms)[k];
        &&& r.channels.len() >= 2
        &&& r.total == channel_sum(r.channels)
        &&& forall|c: int|
            0 <= c < r.channels.len() ==> exists|j: int|
                0 <= j < ms.len() && is_count(ms[j].value) && ms[j].window == r.window
                    && channel_of(ms[j]) == #[trigger] r.channels[c]
    }) by {
        lemma_channel_origin(ms, rollups(ms)[k].window);
    }
}

proof fn lemma_count_windows_complete(ms: Seq<MetricView>)
    ensures
        forall|j: int| 0 <= j < ms.len() && is_count(ms[j].value) ==> count_windows(ms).contains(
            #[trigger] ms[j].window,
        ),
        forall|a: int, b: int|
            0 <= a < b < count_windows(ms).len() ==> count_windows(ms)[a] != count_windows(ms)[b],
    decreases ms.len(),
{
    if ms.len() > 0 {
        let init = ms.drop_last();
        lemma_count_windows_complete(init);
        let rest = count_windows(init);
        let ws = count_windows(ms);
        assert forall|j: int| 0 <= j < ms.len() && is_count(ms[j].value) implies ws.contains(
            #[trigger] ms[j].window,
        ) by {
            if j < init.len() {
                assert(init[j] == ms[j]);
                assert(rest.contains(init[j].window));
                let i = choose|i: int| 0 <= i < rest.len() && rest[i] == init[j].window;
                assert(ws[i] == rest[i]);
            } else if !rest.contains(ms[j].window) {
                assert(ws[ws.len() - 1] == ms[j].window);
            } else {
                let i = choose|i: int| 0 <= i < rest.len() && rest[i] == ms[j].window;
                assert(ws[i] == rest[i]);
            }
        }
    }
}

proof fn lemma_rollups_over_complete(ms: Seq<MetricView>, ws: Seq<WindowView>, w: WindowView)
    requires
        ws.contains(w),
        channels_in(ms, w).len() >= 2,
    ensures
        exists|k: int| 0 <= k < rollups_over(ms, ws).len() && (#[trigger] rollups_over(ms, ws)[k]).window == w,
    decreases ws.len(),
{
    let out = rollups_over(ms, ws);
    if ws.last() == w {
        assert(out[out.len() - 1].window == w);
    } else {
        let i = choose|i: int| 0 <= i < ws.len() && ws[i] == w;
        assert(ws.drop_last()[i] == w);
        lemma_rollups_over_complete(ms, ws.drop_last(), w);
        let rest = rollups_over(ms, ws.drop_last());
        let k = choose|k: int| 0 <= k < rest.len() && (#[trigger] rest[k]).window == w;
        assert(out[k] == rest[k]);
    }
}

/// Every Count Metric whose Window is shared by at least one other Count
/// Metric is rolled up: some Rollup has its Window (and so, by the other law,
/// lists its channel). Rollup Windows are pairwise distinct.
pub proof fn law_rollup_complete_and_distinct(ms: Seq<MetricView>)
    ensures
        forall|j: int|
            0 <= j < ms.len() && is_count(ms[j].value) && channels_in(ms, ms[j].window).len() >= 2
                ==> exists|k: int| 0 <= k < rollups(ms).len() && (#[trigger] rollups(ms)[k]).window
                == ms[j].window,
        forall|a: int, b: int|
            0 <= a < b < rollups(ms).len() ==> rollups(ms)[a].window != rollups(ms)[b].window,
{
    lemma_count_windows_complete(ms);
    assert forall|j: int|
        0 <= j < ms.len() && is_count(ms[j].value) && channels_in(ms, ms[j].window).len() >= 2 implies exists|k: int|
        0 <= k < rollups(ms).len() && (#[trigger] rollups(ms)[k]).window == ms[j].window by {
        assert(count_windows(ms).contains(ms[j].window));
        lemma_rollups_over_complete(ms, count_windows(ms), ms[j].window);
    }
    lemma_rollups_over_distinct(ms, count_windows(ms));
}

proof fn lemma_rollups_over_distinct(ms: Seq<MetricView>, ws: Seq<WindowView>)
    requires
        forall|a: int, b: int| 0 <= a < b < ws.len() ==> ws[a] != ws[b],
    ensures
        forall|a: int, b: int|
            0 <= a < b < rollups_over(ms, ws).len() ==> rollups_over(ms, ws)[a].window
                != rollups_over(ms, ws)[b].window,
        forall|k: int|
            0 <= k < rollups_over(ms, ws).len() ==> ws.contains(
                (#[trigger] rollups_over(ms, ws)[k]).window,
            ),
    decreases ws.len(),
{
    if ws.len() > 0 {
        let init = ws.drop_last();
        assert forall|a: int, b: int| 0 <= a < b < init.len() implies init[a] != init[b] by {
            assert(init[a] == ws[a] && init[b] == ws[b]);
        }
        lemma_rollups_over_distinct(ms, init);
        let rest = rollups_over(ms, init);
        let out = rollups_over(ms, ws);
        assert forall|k: int| 0 <= k < out.len() implies ws.contains(
            (#[trigger] out[k]).window,
        ) by {
            if k < rest.len() {
                assert(out[k] == rest[k]);
                let i = choose|i: int| 0 <= i < init.len() && init[i] == rest[k].window;
                assert(ws[i] == init[i]);
            } else {
                assert(ws[ws.len() - 1] == out[k].window);
            }
        }
        assert forall|a: int, b: int| 0 <= a < b < out.len() implies out[a].window
            != out[b].window by {
            if b < rest.len() {
                assert(out[a] == rest[a] && out[b] == rest[b]);
            } else {
                assert(out[a] == rest[a]);
                assert(init.contains(rest[a].window));
                let i = choose|i: int| 0 <= i < init.len() && init[i] == rest[a].window;
                assert(ws[i] == init[i]);
                assert(out[b].window == ws[ws.len() - 1]);
            }
        }
    }
}

} // verus!

verus! {

/// Some Count Metric before position `t` of `ms` has Window `w`.
pub open spec fn seen_before(ms: Seq<MetricView>, w: WindowView, t: int) -> bool {
    exists|s: int| 0 <= s < t && is_count(ms[s].value) && #[trigger] ms[s].window == w
}

/// `x` stands before `y` in `ws`.
pub open spec fn listed_before(ws: Seq<WindowView>, x: WindowView, y: WindowView) -> bool {
    exists|a: int, b: int| 0 <= a < b < ws.len() && #[trigger] ws[a] == x && #[trigger] ws[b] == y
}

proof fn lemma_count_windows_origin(ms: Seq<MetricView>)
    ensures
        forall|a: int| 0 <= a < count_windows(ms).len() ==> seen_before(ms, #[trigger] count_windows(ms)[a], ms.len() as int),
    decreases ms.len(),
{
    if ms.len() > 0 {
        let init = ms.drop_last();
        lemma_count_windows_origin(init);
        let rest = count_windows(init);
        let ws = count_windows(ms);
        assert forall|a: int| 0 <= a < ws.len() implies seen_before(ms, #[trigger] ws[a], ms.len() as int) by {
            if a < rest.len() {
                assert(ws[a] == rest[a]);
                assert(seen_before(init, rest[a], init.len() as int));
                let s = choose|s: int| 0 <= s < init.len() && is_count(init[s].value) && #[trigger] init[s].window == rest[a];
                assert(ms[s] == init[s]);
            } else {
                assert(ms[ms.len() - 1].window == ws[a]);
            }
        }
    }
}

proof fn lemma_count_windows_first_seen(ms: Seq<MetricView>)
    ensures
        forall|a: int, b: int, t: int|
            0 <= a < b < count_windows(ms).len() && 0 <= t < ms.len() && is_count(ms[t].value)
                && #[trigger] ms[t].window == #[trigger] count_windows(ms)[b] && #[trigger] count_windows(ms)[a]
                == count_windows(ms)[a] ==> seen_before(ms, count_windows(ms)[a], t),
    decreases ms.len(),
{
    if ms.len() > 0 {
        let init = ms.drop_last();
        lemma_count_windows_first_seen(init);
        lemma_count_windows_origin(init);
        lemma_count_windows_complete(init);
        let rest = count_windows(init);
        let ws = count_windows(ms);
        let last = ms.len() - 1;
        assert forall|a: int, b: int, t: int|
            0 <= a < b < ws.len() && 0 <= t < ms.len() && is_count(ms[t].value) && #[trigger] ms[t].window
                == #[trigger] ws[b] && #[trigger] ws[a] == ws[a] implies seen_before(ms, ws[a], t) by {
            assert(ws[a] == rest[a]);
            assert(seen_before(init, rest[a], init.len() as int));
            let s0 = choose|s: int| 0 <= s < init.len() && is_count(init[s].value) && #[trigger] init[s].window == rest[a];
            assert(ms[s0] == init[s0]);
            if b < rest.len() {
                assert(ws[b] == rest[b]);
                if t < last {
                    assert(init[t] == ms[t]);
                    assert(seen_before(init, rest[a], t));
                    let s = choose|s: int| 0 <= s < t && is_count(init[s].value) && #[trigger] init[s].window == rest[a];
                    assert(ms[s] == init[s]);
                } else {
                    assert(s0 < t);
                }
            } else {
                // `ws[b]` is the last Metric's Window, new to `init`: no
                // earlier Count Metric has it, so `t` is the last position.
                assert(ws[b] == ms[last].window);
                assert(!rest.contains(ms[last].window));
                if t < last {
                    assert(init[t] == ms[t]);
                    assert(rest.contains(init[t].window));
                }
                assert(s0 < t);
            }
        }
    }
}

proof fn lemma_rollups_over_order(ms: Seq<MetricView>, ws: Seq<WindowView>)
    ensures
        forall|j: int, k: int| 0 <= j < k < rollups_over(ms, ws).len() ==> listed_before(
            ws,
            (#[trigger] rollups_over(ms, ws)[j]).window,
            (#[trigger] rollups_over(ms, ws)[k]).window,
        ),
    decreases ws.len(),
{
    if ws.len() > 0 {
        let pre = ws.drop_last();
        lemma_rollups_over_order(ms, pre);
        lemma_rollups_over_shape(ms, pre);
        let rest = rollups_over(ms, pre);
        let out = rollups_over(ms, ws);
        assert forall|j: int, k: int| 0 <= j < k < out.len() implies listed_before(
            ws,
            (#[trigger] out[j]).window,
            (#[trigger] out[k]).window,
        ) by {
            assert(out[j] == rest[j]);
            if k < rest.len() {
                assert(out[k] == rest[k]);
                assert(listed_before(pre, rest[j].window, rest[k].window));
                let (a, b) = choose|a: int, b: int| 0 <= a < b < pre.len() && #[trigger] pre[a] == rest[j].window
                    && #[trigger] pre[b] == rest[k].window;
                assert(ws[a] == pre[a] && ws[b] == pre[b]);
            } else {
                assert(out[k].window == ws[ws.len() - 1]);
                assert(pre.contains(rest[j].window));
                let a = choose|a: int| 0 <= a < pre.len() && pre[a] == rest[j].window;
                assert(ws[a] == pre[a]);
                assert(ws[a] == out[j].window && ws[ws.len() - 1] == out[k].window);
            }
        }
    }
}

/// Rollups come in the order in which their Windows first appear among the
/// Count Metrics: of two Rollups, the earlier one's Window is held by some
/// Count Metric before any Count Metric holds the later one's. No two
/// Rollups share a Window.
pub proof fn law_rollups_in_first_appearance_order(ms: Seq<MetricView>)
    ensures
        forall|j: int, k: int, t: int|
            0 <= j < k < rollups(ms).len() && 0 <= t < ms.len() && is_count(ms[t].value)
                && #[trigger] ms[t].window == (#[trigger] rollups(ms)[k]).window ==> seen_before(
                ms,
                (#[trigger] rollups(ms)[j]).window,
                t,
            ),
        forall|j: int, k: int| 0 <= j < k < rollups(ms).len() ==> (#[trigger] rollups(ms)[j]).window
            != (#[trigger] rollups(ms)[k]).window,
{
    let cw = count_windows(ms);
    let rs = rollups(ms);
    lemma_rollups_over_order(ms, cw);
    lemma_count_windows_first_seen(ms);
    lemma_count_windows_complete(ms);
    assert forall|j: int, k: int, t: int|
        0 <= j < k < rs.len() && 0 <= t < ms.len() && is_count(ms[t].value) && #[trigger] ms[t].window
            == (#[trigger] rs[k]).window implies seen_before(ms, (#[trigger] rs[j]).window, t) by {
        assert(listed_before(cw, rs[j].window, rs[k].window));
        let (a, b) = choose|a: int, b: int| 0 <= a < b < cw.len() && #[trigger] cw[a] == rs[j].window
            && #[trigger] cw[b] == rs[k].window;
        assert(ms[t].window == cw[b] && cw[a] == cw[a]);
    }
    assert forall|j: int, k: int| 0 <= j < k < rs.len() implies (#[trigger] rs[j]).window != (#[trigger] rs[k]).window by {
        assert(listed_before(cw, rs[j].window, rs[k].window));
        let (a, b) = choose|a: int, b: int| 0 <= a < b < cw.len() && #[trigger] cw[a] == rs[j].window
            && #[trigger] cw[b] == rs[k].window;
        assert(cw[a] != cw[b]);
    }
}

} // verus!

verus! {

/// The Count Metrics of `ms` whose Window is `w`, in order.
pub open spec fn counts_in_window(ms: Seq<MetricView>, w: WindowView) -> Seq<MetricView> {
    ms.filter(|m: MetricView| is_count(m.value) && m.window == w)
}

proof fn lemma_channels_are_the_window_counts(ms: Seq<MetricView>, w: WindowView)
    ensures
        channels_in(ms, w) == counts_in_window(ms, w).map_values(|m: MetricView| channel_of(m)),
    decreases ms.len(),
{
    let pred = |m: MetricView| is_count(m.value) && m.window == w;
    if ms.len() == 0 {
        reveal(Seq::filter);
        assert(counts_in_window(ms, w) =~= seq![]);
        assert(counts_in_window(ms, w).map_values(|m: MetricView| channel_of(m)) =~= seq![]);
    } else {
        let pre = ms.drop_last();
        lemma_channels_are_the_window_counts(pre, w);
        assert(ms =~= pre.push(ms.last()));
        pre.lemma_filter_push(ms.last(), pred);
        if pred(ms.last()) {
            crate::text::lemma_map_push(pre.filter(pred), ms.last(), |m: MetricView| channel_of(m));
        }
    }
}

/// A Rollup leaves no channel out: the channels of the Rollup of a Window
/// are exactly the Count Metrics of the input with that Window, in input
/// order and each once, so there are as many channels as such Metrics, and
/// the total is the sum of all their values.
pub proof fn law_rollup_gathers_every_count_of_its_window(ms: Seq<MetricView>)
    ensures
        forall|k: int| 0 <= k < rollups(ms).len() ==> {
            let r = #[trigger] rollups(ms)[k];
            &&& r.channels == counts_in_window(ms, r.window).map_values(|m: MetricView| channel_of(m))
            &&& r.channels.len() == counts_in_window(ms, r.window).len()
            &&& r.total == channel_sum(r.channels)
        },
{
    lemma_rollups_over_shape(ms, count_windows(ms));
    assert forall|k: int| 0 <= k < rollups(ms).len() implies {
        let r = #[trigger] rollups(ms)[k];
        &&& r.channels == counts_in_window(ms, r.window).map_values(|m: MetricView| channel_of(m))
        &&& r.channels.len() == counts_in_window(ms, r.window).len()
        &&& r.total == channel_sum(r.channels)
    } by {
        lemma_channels_are_the_window_counts(ms, rollups(ms)[k].window);
    }
}

} // verus!
