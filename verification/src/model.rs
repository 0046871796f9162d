//! The core domain model: Identity, Project, Metric (with its Window),
//! Outcome, and Snapshot. NotApplicable and Failed outcomes are recorded
//! explicitly and never coerced to a zero value.

use vstd::prelude::*;

use crate::text::{concat2, concat3, dec, dec_signed, i64_text, owned, push_str, push_u64, str_eq, u64_text};

verus! {

/// The family a Metric belongs to; groups the Report.
#[derive(Debug, Clone, Copy, PartialEq, Eq, Structural)]
pub enum Category {
    Code,
    Downloads,
    Citations,
    Attention,
}

pub open spec fn category_label(c: Category) -> Seq<char> {
    match c {
        Category::Code => "Code"@,
        Category::Downloads => "Downloads"@,
        Category::Citations => "Citations"@,
        Category::Attention => "Attention"@,
    }
}

impl Category {
    pub fn label(self) -> (r: &'static str)
        ensures
            r@ == category_label(self),
    {
        match self {
            Category::Code => "Code",
            Category::Downloads => "Downloads",
            Category::Citations => "Citations",
            Category::Attention => "Attention",
        }
    }
}

/// A point in time, held as nanoseconds since the Unix epoch, with the UTC
/// offset (in seconds east of UTC) it was recorded in, so that it is shown
/// as the same local date and time it was taken at.
#[derive(Debug, Clone, Copy, PartialEq, Eq, Structural)]
pub struct Timestamp {
    pub unix_nanos: i128,
    pub offset_secs: i32,
}

/// The span of time a Metric's value covers. Two Metrics may only be summed
/// into a Rollup when their Windows are equal.
#[derive(Debug, Clone, PartialEq, Eq)]
pub enum Window {
    /// All-time (e.g. crates.io total downloads, a citation count).
    Cumulative,
    /// A rolling period (e.g. Homebrew 365-day installs).
    Trailing { days: u32 },
    /// A named bucket (e.g. citations in year "2023").
    Periodic { label: String },
}

pub enum WindowView {
    Cumulative,
    Trailing(u32),
    Periodic(Seq<char>),
}

impl View for Window {
    type V = WindowView;

    open spec fn view(&self) -> WindowView {
        match self {
            Window::Cumulative => WindowView::Cumulative,
            Window::Trailing { days } => WindowView::Trailing(*days),
            Window::Periodic { label } => WindowView::Periodic(label@),
        }
    }
}

pub open spec fn window_text(w: WindowView) -> Seq<char> {
    match w {
        WindowView::Cumulative => "all-time"@,
        WindowView::Trailing(days) => "last "@ + dec(days as nat) + " days"@,
        WindowView::Periodic(label) => label,
    }
}

impl Window {
    /// A human description of the Window, e.g. `all-time` or `last 30 days`.
    pub fn describe(&self) -> (r: String)
        ensures
            r@ == window_text(self@),
    {
        match self {
            Window::Cumulative => owned("all-time"),
            Window::Trailing { days } => {
                let mut s = owned("last ");
                push_u64(&mut s, *days as u64);
                push_str(&mut s, " days");
                s
            },
            Window::Periodic { label } => label.clone(),
        }
    }

    /// A copy with the same view.
    pub fn duplicate(&self) -> (r: Window)
        ensures
            r@ == self@,
    {
        match self {
            Window::Cumulative => Window::Cumulative,
            Window::Trailing { days } => Window::Trailing { days: *days },
            Window::Periodic { label } => Window::Periodic { label: label.clone() },
        }
    }

    /// Whether two Windows cover the same span.
    pub fn same_as(&self, other: &Window) -> (r: bool)
        ensures
            r == (self@ == other@),
    {
        match (self, other) {
            (Window::Cumulative, Window::Cumulative) => true,
            (Window::Trailing { days: a }, Window::Trailing { days: b }) => *a == *b,
            (Window::Periodic { label: a }, Window::Periodic { label: b }) => str_eq(
                a.as_str(),
                b.as_str(),
            ),
            _ => false,
        }
    }
}

/// A real-valued measurement: its IEEE-754 bit pattern (so it round-trips
/// exactly) and its two-decimal rendering.
#[derive(Debug, Clone, PartialEq, Eq)]
pub struct Real {
    pub bits: u64,
    pub shown: String,
}

/// A Metric's measured value.
#[derive(Debug, Clone, PartialEq, Eq)]
pub enum MetricValue {
    Count(u64),
    Real(Real),
    Text(String),
    Flag(bool),
}

pub enum ValueView {
    Count(u64),
    Real(u64, Seq<char>),
    Text(Seq<char>),
    Flag(bool),
}

impl View for MetricValue {
    type V = ValueView;

    open spec fn view(&self) -> ValueView {
        match self {
            MetricValue::Count(n) => ValueView::Count(*n),
            MetricValue::Real(r) => ValueView::Real(r.bits, r.shown@),
            MetricValue::Text(t) => ValueView::Text(t@),
            MetricValue::Flag(b) => ValueView::Flag(*b),
        }
    }
}

/// How a value is shown: counts in decimal, reals to two decimals, flags as
/// `yes`/`no`.
pub open spec fn value_text(v: ValueView) -> Seq<char> {
    match v {
        ValueView::Count(n) => dec(n as nat),
        ValueView::Real(_, shown) => shown,
        ValueView::Text(t) => t,
        ValueView::Flag(b) => if b {
            "yes"@
        } else {
            "no"@
        },
    }
}

/// Values are equal when they are of one kind and hold the same count, bit
/// pattern, text, or flag.
pub open spec fn same_value(a: ValueView, b: ValueView) -> bool {
    match (a, b) {
        (ValueView::Count(x), ValueView::Count(y)) => x == y,
        (ValueView::Real(x, _), ValueView::Real(y, _)) => x == y,
        (ValueView::Text(x), ValueView::Text(y)) => x == y,
        (ValueView::Flag(x), ValueView::Flag(y)) => x == y,
        _ => false,
    }
}

impl MetricValue {
    /// The value as shown in a Report.
    pub fn text(&self) -> (r: String)
        ensures
            r@ == value_text(self@),
    {
        match self {
            MetricValue::Count(n) => u64_text(*n),
            MetricValue::Real(r) => r.shown.clone(),
            MetricValue::Text(t) => t.clone(),
            MetricValue::Flag(b) => if *b {
                owned("yes")
            } else {
                owned("no")
            },
        }
    }

    pub fn duplicate(&self) -> (r: MetricValue)
        ensures
            r@ == self@,
    {
        match self {
            MetricValue::Count(n) => MetricValue::Count(*n),
            MetricValue::Real(r) => MetricValue::Real(Real { bits: r.bits, shown: r.shown.clone() }),
            MetricValue::Text(t) => MetricValue::Text(t.clone()),
            MetricValue::Flag(b) => MetricValue::Flag(*b),
        }
    }

    pub fn same_as(&self, other: &MetricValue) -> (r: bool)
        ensures
            r == same_value(self@, other@),
    {
        match (self, other) {
            (MetricValue::Count(a), MetricValue::Count(b)) => *a == *b,
            (MetricValue::Real(a), MetricValue::Real(b)) => a.bits == b.bits,
            (MetricValue::Text(a), MetricValue::Text(b)) => str_eq(a.as_str(), b.as_str()),
            (MetricValue::Flag(a), MetricValue::Flag(b)) => *a == *b,
            _ => false,
        }
    }
}

pub open spec fn opt_view(o: Option<String>) -> Option<Seq<char>> {
    match o {
        Some(s) => Some(s@),
        None => None,
    }
}

pub fn copy_opt(o: &Option<String>) -> (r: Option<String>)
    ensures
        opt_view(r) == opt_view(*o),
{
    match o {
        Some(s) => Some(s.clone()),
        None => None,
    }
}

/// A single measured quantity of reach, with full provenance.
#[derive(Debug, Clone, PartialEq, Eq)]
pub struct Metric {
    pub name: String,
    pub category: Category,
    pub value: MetricValue,
    pub window: Window,
    pub provider: String,
    pub identity: String,
    pub as_of: Timestamp,
    pub source: String,
    pub note: Option<String>,
}

pub struct MetricView {
    pub name: Seq<char>,
    pub category: Category,
    pub value: ValueView,
    pub window: WindowView,
    pub provider: Seq<char>,
    pub identity: Seq<char>,
    pub as_of: Timestamp,
    pub source: Seq<char>,
    pub note: Option<Seq<char>>,
}

impl View for Metric {
    type V = MetricView;

    open spec fn view(&self) -> MetricView {
        MetricView {
            name: self.name@,
            category: self.category,
            value: self.value@,
            window: self.window@,
            provider: self.provider@,
            identity: self.identity@,
            as_of: self.as_of,
            source: self.source@,
            note: opt_view(self.note),
        }
    }
}

impl Metric {
    pub fn duplicate(&self) -> (r: Metric)
        ensures
            r@ == self@,
    {
        Metric {
            name: self.name.clone(),
            category: self.category,
            value: self.value.duplicate(),
            window: self.window.duplicate(),
            provider: self.provider.clone(),
            identity: self.identity.clone(),
            as_of: self.as_of,
            source: self.source.clone(),
            note: copy_opt(&self.note),
        }
    }
}

/// Descriptive bibliographic metadata for a paper Identity; labels the paper
/// in Reports.
#[derive(Debug, Clone, PartialEq, Eq)]
pub struct PaperMetadata {
    pub identity: String,
    pub title: Option<String>,
    pub authors: Vec<String>,
    pub container: Option<String>,
    pub year: Option<i32>,
    pub provider: String,
    pub source: String,
}

pub open spec fn seq_views(v: Seq<String>) -> Seq<Seq<char>> {
    v.map_values(|s: String| s@)
}

/// `parts.join(sep)`.
pub open spec fn join(parts: Seq<Seq<char>>, sep: Seq<char>) -> Seq<char>
    decreases parts.len(),
{
    if parts.len() == 0 {
        seq![]
    } else if parts.len() == 1 {
        parts[0]
    } else {
        join(parts.drop_last(), sep) + sep + parts.last()
    }
}

/// The pieces after the title: first author (with `et al.` when there are
/// several), container, year.
pub open spec fn summary_tail(authors: Seq<Seq<char>>, container: Option<Seq<char>>, year: Option<i32>) -> Seq<Seq<char>> {
    let a: Seq<Seq<char>> = if authors.len() == 0 {
        seq![]
    } else if authors.len() > 1 {
        seq![authors[0] + " et al."@]
    } else {
        seq![authors[0]]
    };
    let c: Seq<Seq<char>> = match container {
        Some(x) => a.push(x),
        None => a,
    };
    match year {
        Some(y) => c.push(dec_signed(y as int)),
        None => c,
    }
}

pub open spec fn summary_spec(title: Option<Seq<char>>, authors: Seq<Seq<char>>, container: Option<Seq<char>>, year: Option<i32>) -> Seq<char> {
    let head: Seq<Seq<char>> = match title {
        Some(t) => seq!["\""@ + t + "\""@],
        None => seq![],
    };
    let tail = summary_tail(authors, container, year);
    let parts = if tail.len() > 0 {
        head.push(join(tail, ", "@))
    } else {
        head
    };
    join(parts, " — "@)
}

/// `parts.join(sep)` over owned strings.
pub fn join_strings(parts: &Vec<String>, sep: &str) -> (r: String)
    ensures
        r@ == join(seq_views(parts@), sep@),
{
    let mut r = String::new();
    let mut i: usize = 0;
    while i < parts.len()
        invariant
            i <= parts.len(),
            r@ == join(seq_views(parts@.take(i as int)), sep@),
        decreases parts.len() - i,
    {
        let ghost before = seq_views(parts@.take(i as int));
        if i > 0 {
            push_str(&mut r, sep);
        }
        push_str(&mut r, parts[i].as_str());
        i = i + 1;
        proof {
            let now = seq_views(parts@.take(i as int));
            assert(now.drop_last() =~= before);
            assert(now.last() == parts@[i - 1]@);
            if i == 1 {
                assert(before.len() == 0);
                assert(r@ =~= now[0]);
            }
        }
    }
    assert(parts@.take(parts.len() as int) =~= parts@);
    r
}

impl PaperMetadata {
    /// A one-line human summary, e.g. `"Title" — Stephens et al., PLOS Biology, 2015`.
    pub fn summary(&self) -> (r: String)
        ensures
            r@ == summary_spec(
                opt_view(self.title),
                seq_views(self.authors@),
                opt_view(self.container),
                self.year,
            ),
    {
        let mut parts: Vec<String> = Vec::new();
        if let Some(title) = &self.title {
            parts.push(concat3("\"", title.as_str(), "\""));
        }
        let mut tail: Vec<String> = Vec::new();
        if self.authors.len() > 0 {
            let first = &self.authors[0];
            if self.authors.len() > 1 {
                tail.push(concat2(first.as_str(), " et al."));
            } else {
                tail.push(first.clone());
            }
        }
        if let Some(container) = &self.container {
            tail.push(container.clone());
        }
        if let Some(year) = self.year {
            tail.push(i64_text(year as i64));
        }
        let ghost want_tail = summary_tail(seq_views(self.authors@), opt_view(self.container), self.year);
        assert(seq_views(tail@) =~= want_tail);
        if tail.len() > 0 {
            parts.push(join_strings(&tail, ", "));
        }
        let r = join_strings(&parts, " — ");
        proof {
            let head: Seq<Seq<char>> = match opt_view(self.title) {
                Some(t) => seq!["\""@ + t + "\""@],
                None => seq![],
            };
            let want = if want_tail.len() > 0 {
                head.push(join(want_tail, ", "@))
            } else {
                head
            };
            assert(seq_views(parts@) =~= want);
        }
        r
    }
}


/// The result of one Provider×Identity fetch — exactly one of three states.
#[derive(Debug, Clone, PartialEq, Eq)]
pub enum Outcome {
    /// One or more real Metrics, plus any descriptive metadata.
    Values { metrics: Vec<Metric>, metadata: Option<PaperMetadata> },
    /// The Identity legitimately has no presence on this channel (shown N/A).
    NotApplicable { note: String },
    /// A transient error; the number exists but wasn't retrievable now.
    Failed { error: String },
}

/// One row of a Snapshot: a Provider's Outcome for one Identity.
#[derive(Debug, Clone, PartialEq, Eq)]
pub struct FetchResult {
    pub provider: String,
    pub identity: String,
    pub category: Category,
    pub outcome: Outcome,
}

/// The primary durable artifact: a timestamped record of one run, with every
/// Outcome recorded explicitly.
#[derive(Debug, Clone, PartialEq, Eq)]
pub struct Snapshot {
    pub schema_version: u32,
    pub tool: String,
    pub tool_version: String,
    pub created_at: Timestamp,
    pub identities: Vec<String>,
    pub results: Vec<FetchResult>,
}

/// Every Metric of the `Values` outcomes among `rs`, in order.
pub open spec fn flat_metrics(rs: Seq<FetchResult>) -> Seq<Metric>
    decreases rs.len(),
{
    if rs.len() == 0 {
        seq![]
    } else {
        flat_metrics(rs.drop_last()) + match rs.last().outcome {
            Outcome::Values { metrics, .. } => metrics@,
            _ => seq![],
        }
    }
}

/// The metadata of the `Values` outcomes among `rs` that carry one, in order.
pub open spec fn flat_descriptions(rs: Seq<FetchResult>) -> Seq<PaperMetadata>
    decreases rs.len(),
{
    if rs.len() == 0 {
        seq![]
    } else {
        flat_descriptions(rs.drop_last()) + match rs.last().outcome {
            Outcome::Values { metadata: Some(md), .. } => seq![md],
            _ => seq![],
        }
    }
}

pub open spec fn is_failed(o: Outcome) -> bool {
    o is Failed
}

pub open spec fn snapshot_has_failures(rs: Seq<FetchResult>) -> bool {
    exists|i: int| 0 <= i < rs.len() && is_failed(#[trigger] rs[i].outcome)
}

impl Snapshot {
    pub const SCHEMA_VERSION: u32 = 1;

    /// True if any fetch is still in the `Failed` state (drives the exit code).
    pub fn has_failures(&self) -> (r: bool)
        ensures
            r == snapshot_has_failures(self.results@),
    {
        let mut i: usize = 0;
        while i < self.results.len()
            invariant
                i <= self.results.len(),
                forall|k: int| 0 <= k < i ==> !is_failed(#[trigger] self.results@[k].outcome),
            decreases self.results.len() - i,
        {
            if let Outcome::Failed { .. } = &self.results[i].outcome {
                assert(is_failed(self.results@[i as int].outcome));
                return true;
            }
            i = i + 1;
        }
        false
    }

    /// Every successfully-fetched Metric across all results.
    pub fn metrics(&self) -> (r: Vec<&Metric>)
        ensures
            r@.map_values(|m: &Metric| *m) == flat_metrics(self.results@),
    {
        let mut r: Vec<&Metric> = Vec::new();
        let mut i: usize = 0;
        while i < self.results.len()
            invariant
                i <= self.results.len(),
                r@.map_values(|m: &Metric| *m) == flat_metrics(self.results@.take(i as int)),
            decreases self.results.len() - i,
        {
            let ghost before = r@.map_values(|m: &Metric| *m);
            assert(self.results@.take(i + 1).drop_last() =~= self.results@.take(i as int));
            if let Outcome::Values { metrics, .. } = &self.results[i].outcome {
                let mut j: usize = 0;
                while j < metrics.len()
                    invariant
                        j <= metrics.len(),
                        r@.map_values(|m: &Metric| *m) == before + metrics@.take(j as int),
                    decreases metrics.len() - j,
                {
                    let ghost prev = r@;
                    r.push(&metrics[j]);
                    assert(r@.map_values(|m: &Metric| *m) =~= prev.map_values(|m: &Metric| *m).push(
                        metrics@[j as int],
                    ));
                    assert(metrics@.take(j + 1) =~= metrics@.take(j as int).push(metrics@[j as int]));
                    j = j + 1;
                }
                assert(metrics@.take(metrics.len() as int) =~= metrics@);
            } else {
                assert(r@.map_values(|m: &Metric| *m) =~= before + seq![]);
            }
            i = i + 1;
        }
        assert(self.results@.take(self.results.len() as int) =~= self.results@);
        r
    }

    /// Descriptive metadata resolved for the Project's identities.
    pub fn descriptions(&self) -> (r: Vec<&PaperMetadata>)
        ensures
            r@.map_values(|m: &PaperMetadata| *m) == flat_descriptions(self.results@),
    {
        let mut r: Vec<&PaperMetadata> = Vec::new();
        let mut i: usize = 0;
        while i < self.results.len()
            invariant
                i <= self.results.len(),
                r@.map_values(|m: &PaperMetadata| *m) == flat_descriptions(
                    self.results@.take(i as int),
                ),
            decreases self.results.len() - i,
        {
            let ghost before = r@.map_values(|m: &PaperMetadata| *m);
            assert(self.results@.take(i + 1).drop_last() =~= self.results@.take(i as int));
            match &self.results[i].outcome {
                Outcome::Values { metadata: Some(md), .. } => {
                    r.push(md);
                    assert(r@.map_values(|m: &PaperMetadata| *m) =~= before + seq![*md]);
                },
                _ => {
                    assert(r@.map_values(|m: &PaperMetadata| *m) =~= before + seq![]);
                },
            }
            i = i + 1;
        }
        assert(self.results@.take(self.results.len() as int) =~= self.results@);
        r
    }
}


pub struct MetadataView {
    pub identity: Seq<char>,
    pub title: Option<Seq<char>>,
    pub authors: Seq<Seq<char>>,
    pub container: Option<Seq<char>>,
    pub year: Option<i32>,
    pub provider: Seq<char>,
    pub source: Seq<char>,
}

impl View for PaperMetadata {
    type V = MetadataView;

    open spec fn view(&self) -> MetadataView {
        MetadataView {
            identity: self.identity@,
            title: opt_view(self.title),
            authors: seq_views(self.authors@),
            container: opt_view(self.container),
            year: self.year,
            provider: self.provider@,
            source: self.source@,
        }
    }
}

pub enum OutcomeView {
    Values(Seq<MetricView>, Option<MetadataView>),
    NotApplicable(Seq<char>),
    Failed(Seq<char>),
}

pub open spec fn metric_seq_view(ms: Seq<Metric>) -> Seq<MetricView> {
    ms.map_values(|m: Metric| m@)
}

impl View for Outcome {
    type V = OutcomeView;

    open spec fn view(&self) -> OutcomeView {
        match self {
            Outcome::Values { metrics, metadata } => OutcomeView::Values(
                metric_seq_view(metrics@),
                match metadata {
                    Some(md) => Some(md@),
                    None => None,
                },
            ),
            Outcome::NotApplicable { note } => OutcomeView::NotApplicable(note@),
            Outcome::Failed { error } => OutcomeView::Failed(error@),
        }
    }
}

/// A cumulative Metric with the given provenance.
pub open spec fn cumulative(
    name: Seq<char>,
    category: Category,
    value: ValueView,
    provider: Seq<char>,
    identity: Seq<char>,
    as_of: Timestamp,
    source: Seq<char>,
    note: Option<Seq<char>>,
) -> MetricView {
    MetricView { name, category, value, window: WindowView::Cumulative, provider, identity, as_of, source, note }
}

pub open spec fn str_opt(o: Option<&str>) -> Option<Seq<char>> {
    match o {
        Some(s) => Some(s@),
        None => None,
    }
}

/// Builds a cumulative Metric.
pub fn cumulative_metric(
    name: &str,
    category: Category,
    value: MetricValue,
    provider: &str,
    identity: &str,
    as_of: Timestamp,
    source: &str,
    note: Option<&str>,
) -> (m: Metric)
    ensures
        m@ == cumulative(name@, category, value@, provider@, identity@, as_of, source@, str_opt(note)),
{
    Metric {
        name: owned(name),
        category,
        value,
        window: Window::Cumulative,
        provider: owned(provider),
        identity: owned(identity),
        as_of,
        source: owned(source),
        note: match note {
            Some(n) => Some(owned(n)),
            None => None,
        },
    }
}

/// `s` with `a` appended when `cond` holds.
pub open spec fn push_if<A>(s: Seq<A>, cond: bool, a: A) -> Seq<A> {
    if cond {
        s.push(a)
    } else {
        s
    }
}

/// A `Values` outcome holding `metrics` and no metadata.
pub fn values_of(metrics: Vec<Metric>) -> (o: Outcome)
    ensures
        o@ == OutcomeView::Values(metric_seq_view(metrics@), None),
{
    Outcome::Values { metrics, metadata: None }
}

pub fn push_metric(ms: &mut Vec<Metric>, m: Metric)
    ensures
        metric_seq_view(final(ms)@) == metric_seq_view(old(ms)@).push(m@),
{
    let ghost before = ms@;
    ms.push(m);
    assert(metric_seq_view(ms@) =~= metric_seq_view(before).push(m@));
}

/// A `Values` outcome holding the one Metric `m` and no metadata.
pub fn one_metric(m: Metric) -> (o: Outcome)
    ensures
        o@ == OutcomeView::Values(seq![m@], None),
{
    let ghost mv = m@;
    let mut ms: Vec<Metric> = Vec::new();
    ms.push(m);
    assert(metric_seq_view(ms@) =~= seq![mv]);
    Outcome::Values { metrics: ms, metadata: None }
}

/// A Metric over `window` with the given provenance.
pub open spec fn windowed(
    name: Seq<char>,
    category: Category,
    value: ValueView,
    window: WindowView,
    provider: Seq<char>,
    identity: Seq<char>,
    as_of: Timestamp,
    source: Seq<char>,
    note: Option<Seq<char>>,
) -> MetricView {
    MetricView { name, category, value, window, provider, identity, as_of, source, note }
}

/// Builds a Metric over `window`.
pub fn windowed_metric(
    name: &str,
    category: Category,
    value: MetricValue,
    window: Window,
    provider: &str,
    identity: &str,
    as_of: Timestamp,
    source: &str,
    note: Option<&str>,
) -> (m: Metric)
    ensures
        m@ == windowed(name@, category, value@, window@, provider@, identity@, as_of, source@, str_opt(note)),
{
    Metric {
        name: owned(name),
        category,
        value,
        window,
        provider: owned(provider),
        identity: owned(identity),
        as_of,
        source: owned(source),
        note: match note {
            Some(n) => Some(owned(n)),
            None => None,
        },
    }
}

pub open spec fn real_value(r: Real) -> ValueView {
    ValueView::Real(r.bits, r.shown@)
}

/// The Metric value of a real number.
pub fn real_metric_value(r: &Real) -> (v: MetricValue)
    ensures
        v@ == real_value(*r),
{
    MetricValue::Real(Real { bits: r.bits, shown: r.shown.clone() })
}

/// The text of an optional string, borrowed.
pub fn opt_as_str(o: &Option<String>) -> (r: Option<&str>)
    ensures
        str_opt(r) == opt_view(*o),
{
    match o {
        Some(s) => Some(s.as_str()),
        None => None,
    }
}

} // verus!
