//! Renders a Snapshot as a terminal table, a Markdown Report, or a
//! grant-ready prose sentence. A Report is always derived from a Snapshot and
//! never fetches. NotApplicable shows as N/A and Failed is flagged — never a
//! misleading 0.

use vstd::prelude::*;

use crate::model::{
    category_label, opt_view, value_text, window_text, Category, FetchResult, Metric, MetricValue, MetricView,
    Outcome, Snapshot, Window, WindowView,
};
use crate::text::{
    chars_of, concat2, dec, lemma_map_push, lemma_take_push, owned, push_char, push_chars, push_str, push_u64,
    str_eq, string_of,
};

verus! {

/// Display order of the Categories, shared with the diff renderer.
pub open spec fn category_order() -> Seq<Category> {
    seq![Category::Code, Category::Downloads, Category::Citations, Category::Attention]
}

pub fn category_order_exec() -> (r: Vec<Category>)
    ensures
        r@ == category_order(),
{
    let r = vec![Category::Code, Category::Downloads, Category::Citations, Category::Attention];
    assert(r@ =~= category_order());
    r
}

/// A note at or under this many bytes is a short gloss and stays on its row;
/// a longer one is a Provider-level notice, shown once in the footer.
pub const INLINE_DETAIL_LIMIT: usize = 80;

/// The number of UTF-8 bytes that encode `c`.
pub open spec fn char_bytes(c: char) -> nat {
    if (c as u32) < 0x80 {
        1
    } else if (c as u32) < 0x800 {
        2
    } else if (c as u32) < 0x10000 {
        3
    } else {
        4
    }
}

/// `str::len`: the length of the UTF-8 encoding.
pub open spec fn byte_len(s: Seq<char>) -> nat
    decreases s.len(),
{
    if s.len() == 0 {
        0
    } else {
        byte_len(s.drop_last()) + char_bytes(s.last())
    }
}

/// The byte length of `s`, capped at `usize::MAX`.
pub fn byte_length(s: &str) -> (r: usize)
    ensures
        r == if byte_len(s@) > usize::MAX { usize::MAX as nat } else { byte_len(s@) },
{
    let v = chars_of(s);
    let mut n: usize = 0;
    let mut i: usize = 0;
    while i < v.len()
        invariant
            i <= v.len(),
            v@ == s@,
            n == if byte_len(v@.take(i as int)) > usize::MAX { usize::MAX as nat } else { byte_len(v@.take(i as int)) },
        decreases v.len() - i,
    {
        assert(v@.take(i + 1).drop_last() =~= v@.take(i as int));
        let c = v[i] as u32;
        let w: usize = if c < 0x80 { 1 } else if c < 0x800 { 2 } else if c < 0x10000 { 3 } else { 4 };
        assert(char_bytes(v@[i as int]) == w);
        n = if n > usize::MAX - w { usize::MAX } else { n + w };
        i = i + 1;
    }
    assert(v@.take(v.len() as int) =~= v@);
    n
}

/// A detail shown on its own row: present and short.
pub open spec fn inline_detail(d: Seq<char>) -> bool {
    d.len() > 0 && byte_len(d) <= INLINE_DETAIL_LIMIT
}

fn is_inline(d: &str) -> (r: bool)
    ensures
        r == inline_detail(d@),
{
    d.unicode_len() > 0 && byte_length(d) <= INLINE_DETAIL_LIMIT
}

/// A Markdown table cell: `|` escaped and newlines made spaces, so that the
/// value can neither split its row nor break out of it.
pub open spec fn md_cell(s: Seq<char>) -> Seq<char>
    decreases s.len(),
{
    if s.len() == 0 {
        seq![]
    } else {
        md_cell(s.drop_last()) + if s.last() == '|' {
            seq!['\\', '|']
        } else if s.last() == '\n' {
            seq![' ']
        } else {
            seq![s.last()]
        }
    }
}

pub fn escape_md_cell(s: &str) -> (r: String)
    ensures
        r@ == md_cell(s@),
{
    let v = chars_of(s);
    let mut out = String::new();
    let mut i: usize = 0;
    while i < v.len()
        invariant
            i <= v.len(),
            v@ == s@,
            out@ == md_cell(v@.take(i as int)),
        decreases v.len() - i,
    {
        assert(v@.take(i + 1).drop_last() =~= v@.take(i as int));
        let c = v[i];
        if c == '|' {
            push_char(&mut out, '\\');
            push_char(&mut out, '|');
        } else if c == '\n' {
            push_char(&mut out, ' ');
        } else {
            push_char(&mut out, c);
        }
        i = i + 1;
        assert(out@ =~= md_cell(v@.take(i as int)));
    }
    assert(v@.take(v.len() as int) =~= v@);
    out
}

/// An English list with an Oxford comma: `a`, `a and b`, `a, b, and c`.
pub open spec fn and_list(cs: Seq<Seq<char>>) -> Seq<char> {
    if cs.len() == 0 {
        seq![]
    } else if cs.len() == 1 {
        cs[0]
    } else if cs.len() == 2 {
        cs[0] + " and "@ + cs[1]
    } else {
        crate::model::join(cs.drop_last(), ", "@) + ", and "@ + cs.last()
    }
}

pub fn join_with_and(clauses: &Vec<String>) -> (r: String)
    ensures
        r@ == and_list(crate::model::seq_views(clauses@)),
{
    let n = clauses.len();
    let ghost cs = crate::model::seq_views(clauses@);
    if n == 0 {
        String::new()
    } else if n == 1 {
        clauses[0].clone()
    } else if n == 2 {
        let mut s = clauses[0].clone();
        push_str(&mut s, " and ");
        push_str(&mut s, clauses[1].as_str());
        s
    } else {
        let mut head: Vec<String> = Vec::new();
        let mut i: usize = 0;
        while i < n - 1
            invariant
                i <= n - 1,
                n == clauses.len(),
                crate::model::seq_views(head@) == cs.take(i as int),
                cs == crate::model::seq_views(clauses@),
            decreases n - 1 - i,
        {
            let ghost before = head@;
            head.push(clauses[i].clone());
            proof {
                lemma_map_push(before, head@[i as int], |s: String| s@);
                lemma_take_push(cs, i as int);
            }
            i = i + 1;
        }
        assert(cs.take(n - 1) =~= cs.drop_last());
        let mut s = crate::model::join_strings(&head, ", ");
        push_str(&mut s, ", and ");
        push_str(&mut s, clauses[n - 1].as_str());
        s
    }
}

/// One display row of a Report.
pub struct Row {
    pub name: String,
    pub value: String,
    pub window: String,
    pub provider: String,
    pub detail: String,
    /// The Metric's source URL; empty for an N/A or FAILED row.
    pub source: String,
}

pub struct RowView {
    pub name: Seq<char>,
    pub value: Seq<char>,
    pub window: Seq<char>,
    pub provider: Seq<char>,
    pub detail: Seq<char>,
    pub source: Seq<char>,
}

impl View for Row {
    type V = RowView;

    open spec fn view(&self) -> RowView {
        RowView {
            name: self.name@,
            value: self.value@,
            window: self.window@,
            provider: self.provider@,
            detail: self.detail@,
            source: self.source@,
        }
    }
}

pub open spec fn row_views(rs: Seq<Row>) -> Seq<RowView> {
    rs.map_values(|r: Row| r@)
}

pub open spec fn metric_row(m: MetricView) -> RowView {
    RowView {
        name: m.name,
        value: value_text(m.value),
        window: window_text(m.window),
        provider: m.provider,
        detail: match m.note {
            Some(n) => n,
            None => seq![],
        },
        source: m.source,
    }
}

/// The rows of the Metrics of Category `c`, in order.
pub open spec fn metric_rows(ms: Seq<Metric>, c: Category) -> Seq<RowView>
    decreases ms.len(),
{
    if ms.len() == 0 {
        seq![]
    } else {
        metric_rows(ms.drop_last(), c) + if ms.last().category == c { seq![metric_row(ms.last()@)] } else { seq![] }
    }
}

pub open spec fn outcome_row(provider: Seq<char>, value: Seq<char>, detail: Seq<char>) -> RowView {
    RowView { name: provider, value, window: seq![], provider: seq![], detail, source: seq![] }
}

/// The rows one result contributes to Category `c`: each Metric in its own
/// Category; an N/A or FAILED row in the Provider's Category.
pub open spec fn result_rows(r: FetchResult, c: Category) -> Seq<RowView> {
    match r.outcome {
        Outcome::Values { metrics, .. } => metric_rows(metrics@, c),
        Outcome::NotApplicable { note } => if r.category == c { seq![outcome_row(r.provider@, "N/A"@, note@)] } else { seq![] },
        Outcome::Failed { error } => if r.category == c { seq![outcome_row(r.provider@, "FAILED"@, error@)] } else { seq![] },
    }
}

/// The rows of one Identity and Category, in result order.
pub open spec fn rows_spec(results: Seq<FetchResult>, identity: Seq<char>, c: Category) -> Seq<RowView>
    decreases results.len(),
{
    if results.len() == 0 {
        seq![]
    } else {
        rows_spec(results.drop_last(), identity, c) + if results.last().identity@ == identity {
            result_rows(results.last(), c)
        } else {
            seq![]
        }
    }
}

fn push_row(rows: &mut Vec<Row>, row: Row)
    ensures
        row_views(final(rows)@) == row_views(old(rows)@).push(row@),
{
    let ghost before = rows@;
    let ghost rv = row@;
    rows.push(row);
    assert(row_views(rows@) =~= row_views(before).push(rv));
}

fn push_metric_rows(rows: &mut Vec<Row>, ms: &Vec<Metric>, c: Category)
    ensures
        row_views(final(rows)@) == row_views(old(rows)@) + metric_rows(ms@, c),
{
    let ghost start = row_views(rows@);
    let mut i: usize = 0;
    assert(start + seq![] =~= start);
    while i < ms.len()
        invariant
            i <= ms.len(),
            row_views(rows@) == start + metric_rows(ms@.take(i as int), c),
        decreases ms.len() - i,
    {
        assert(ms@.take(i + 1).drop_last() =~= ms@.take(i as int));
        let m = &ms[i];
        let ghost pre = row_views(rows@);
        if m.category == c {
            push_row(rows, Row {
                name: m.name.clone(),
                value: m.value.text(),
                window: m.window.describe(),
                provider: m.provider.clone(),
                detail: match &m.note {
                    Some(n) => n.clone(),
                    None => String::new(),
                },
                source: m.source.clone(),
            });
            assert(row_views(rows@) =~= start + metric_rows(ms@.take(i + 1), c));
        } else {
            assert(row_views(rows@) =~= start + metric_rows(ms@.take(i + 1), c));
        }
        i = i + 1;
    }
    assert(ms@.take(ms.len() as int) =~= ms@);
}

/// The display rows of one Identity and Category. A Metric is shown in its
/// own Category (one fetch can carry Metrics of several); an N/A or FAILED
/// outcome, which has no Metrics, in its Provider's Category.
pub fn rows_for(snapshot: &Snapshot, identity: &str, category: Category) -> (r: Vec<Row>)
    ensures
        row_views(r@) == rows_spec(snapshot.results@, identity@, category),
{
    let mut rows: Vec<Row> = Vec::new();
    let mut i: usize = 0;
    assert(row_views(rows@) =~= seq![]);
    while i < snapshot.results.len()
        invariant
            i <= snapshot.results.len(),
            row_views(rows@) == rows_spec(snapshot.results@.take(i as int), identity@, category),
        decreases snapshot.results.len() - i,
    {
        assert(snapshot.results@.take(i + 1).drop_last() =~= snapshot.results@.take(i as int));
        let result = &snapshot.results[i];
        let ghost pre = row_views(rows@);
        if str_eq(result.identity.as_str(), identity) {
            match &result.outcome {
                Outcome::Values { metrics, .. } => {
                    push_metric_rows(&mut rows, metrics, category);
                },
                Outcome::NotApplicable { note } => {
                    if result.category == category {
                        push_row(&mut rows, Row {
                            name: result.provider.clone(),
                            value: owned("N/A"),
                            window: String::new(),
                            provider: String::new(),
                            detail: note.clone(),
                            source: String::new(),
                        });
                    }
                },
                Outcome::Failed { error } => {
                    if result.category == category {
                        push_row(&mut rows, Row {
                            name: result.provider.clone(),
                            value: owned("FAILED"),
                            window: String::new(),
                            provider: String::new(),
                            detail: error.clone(),
                            source: String::new(),
                        });
                    }
                },
            }
            assert(row_views(rows@) =~= rows_spec(snapshot.results@.take(i + 1), identity@, category));
        } else {
            assert(row_views(rows@) =~= rows_spec(snapshot.results@.take(i + 1), identity@, category));
        }
        i = i + 1;
    }
    assert(snapshot.results@.take(snapshot.results.len() as int) =~= snapshot.results@);
    rows
}

/// The distinct long notes (Provider-level notices) of `ms`, in first-seen
/// order.
pub open spec fn notices_of(ms: Seq<MetricView>) -> Seq<Seq<char>>
    decreases ms.len(),
{
    if ms.len() == 0 {
        seq![]
    } else {
        let prev = notices_of(ms.drop_last());
        match ms.last().note {
            Some(n) => if byte_len(n) > INLINE_DETAIL_LIMIT && !prev.contains(n) { prev.push(n) } else { prev },
            None => prev,
        }
    }
}

fn contains_text(v: &Vec<String>, s: &str) -> (r: bool)
    ensures
        r == crate::model::seq_views(v@).contains(s@),
{
    let mut i: usize = 0;
    while i < v.len()
        invariant
            i <= v.len(),
            forall|k: int| 0 <= k < i ==> v@[k]@ != s@,
        decreases v.len() - i,
    {
        if str_eq(v[i].as_str(), s) {
            assert(crate::model::seq_views(v@)[i as int] == s@);
            return true;
        }
        i = i + 1;
    }
    assert(!crate::model::seq_views(v@).contains(s@)) by {
        if crate::model::seq_views(v@).contains(s@) {
            let k = choose|k: int| 0 <= k < crate::model::seq_views(v@).len() && crate::model::seq_views(v@)[k] == s@;
            assert(v@[k]@ == s@);
        }
    }
    false
}

/// Every distinct Provider-level notice (a note longer than the inline
/// limit) across the Snapshot's Metrics, in first-seen order, each once.
pub fn provider_notices(snapshot: &Snapshot) -> (r: Vec<String>)
    ensures
        crate::model::seq_views(r@) == notices_of(crate::rollup::metric_views(
            crate::model::flat_metrics(snapshot.results@).map_values(|m: Metric| &m),
        )),
{
    let ms = snapshot.metrics();
    let ghost mv = crate::rollup::metric_views(ms@);
    assert(mv =~= crate::rollup::metric_views(crate::model::flat_metrics(snapshot.results@).map_values(|m: Metric| &m)));
    let mut notices: Vec<String> = Vec::new();
    let mut i: usize = 0;
    assert(crate::model::seq_views(notices@) =~= seq![]);
    while i < ms.len()
        invariant
            i <= ms.len(),
            mv == crate::rollup::metric_views(ms@),
            crate::model::seq_views(notices@) == notices_of(mv.take(i as int)),
        decreases ms.len() - i,
    {
        assert(mv.take(i + 1).drop_last() =~= mv.take(i as int));
        assert(mv.take(i + 1).last() == ms@[i as int]@);
        let m = ms[i];
        if let Some(note) = &m.note {
            if byte_length(note.as_str()) > INLINE_DETAIL_LIMIT && !contains_text(&notices, note.as_str()) {
                let ghost before = notices@;
                notices.push(note.clone());
                assert(crate::model::seq_views(notices@) =~= crate::model::seq_views(before).push(note@));
            }
        }
        i = i + 1;
    }
    assert(mv.take(ms.len() as int) =~= mv);
    notices
}

/// The notices never repeat, and every note longer than the inline limit is
/// among them.
pub proof fn law_notices_are_distinct_and_complete(ms: Seq<MetricView>)
    ensures
        forall|i: int, j: int| 0 <= i < j < notices_of(ms).len() ==> notices_of(ms)[i] != notices_of(ms)[j],
        forall|k: int| 0 <= k < ms.len() && (#[trigger] ms[k]).note is Some && byte_len(ms[k].note->0) > INLINE_DETAIL_LIMIT
            ==> notices_of(ms).contains(ms[k].note->0),
        forall|k: int| 0 <= k < notices_of(ms).len() ==> byte_len(#[trigger] notices_of(ms)[k]) > INLINE_DETAIL_LIMIT,
    decreases ms.len(),
{
    if ms.len() > 0 {
        let prev = ms.drop_last();
        law_notices_are_distinct_and_complete(prev);
        let p = notices_of(prev);
        assert forall|k: int| 0 <= k < ms.len() && (#[trigger] ms[k]).note is Some && byte_len(ms[k].note->0) > INLINE_DETAIL_LIMIT
            implies notices_of(ms).contains(ms[k].note->0) by {
            if k < ms.len() - 1 {
                assert(prev[k] == ms[k]);
                let j = choose|j: int| 0 <= j < p.len() && p[j] == ms[k].note->0;
                assert(notices_of(ms)[j] == p[j]);
            } else {
                if p.contains(ms[k].note->0) {
                    let j = choose|j: int| 0 <= j < p.len() && p[j] == ms[k].note->0;
                    assert(notices_of(ms)[j] == p[j]);
                } else {
                    assert(notices_of(ms)[p.len() as int] == ms[k].note->0);
                }
            }
        }
    }
}

/// Which Outcome a Provider Note came from; part of its identity, so that an
/// N/A and a FAILED never merge even with the same text.
#[derive(Debug, Clone, Copy, PartialEq, Eq, Structural)]
pub enum OutcomeKind {
    NotApplicable,
    Failed,
}

pub open spec fn kind_label(k: OutcomeKind) -> Seq<char> {
    match k {
        OutcomeKind::NotApplicable => "N/A"@,
        OutcomeKind::Failed => "FAILED"@,
    }
}

impl OutcomeKind {
    /// The word the row's own Value column shows.
    pub fn label(self) -> (r: &'static str)
        ensures
            r@ == kind_label(self),
    {
        match self {
            OutcomeKind::NotApplicable => "N/A",
            OutcomeKind::Failed => "FAILED",
        }
    }
}

/// One Provider Notes entry: an N/A or FAILED message longer than the inline
/// limit, with every Identity it was seen on.
pub struct ProviderNote {
    pub provider: String,
    pub kind: OutcomeKind,
    pub message: String,
    pub identities: Vec<String>,
}

pub struct NoteView {
    pub provider: Seq<char>,
    pub kind: OutcomeKind,
    pub message: Seq<char>,
    pub identities: Seq<Seq<char>>,
}

impl View for ProviderNote {
    type V = NoteView;

    open spec fn view(&self) -> NoteView {
        NoteView {
            provider: self.provider@,
            kind: self.kind,
            message: self.message@,
            identities: crate::model::seq_views(self.identities@),
        }
    }
}

pub open spec fn note_views(ns: Seq<ProviderNote>) -> Seq<NoteView> {
    ns.map_values(|n: ProviderNote| n@)
}

/// The first note with this provider, kind and message.
pub open spec fn note_index(ns: Seq<NoteView>, provider: Seq<char>, kind: OutcomeKind, message: Seq<char>, from: int) -> Option<int>
    decreases ns.len() - from,
{
    if from < 0 || from >= ns.len() {
        None
    } else if ns[from].provider == provider && ns[from].kind == kind && ns[from].message == message {
        Some(from)
    } else {
        note_index(ns, provider, kind, message, from + 1)
    }
}

/// The kind and message of a result's N/A or FAILED outcome.
pub open spec fn long_outcome(r: FetchResult) -> Option<(OutcomeKind, Seq<char>)> {
    match r.outcome {
        Outcome::NotApplicable { note } => if byte_len(note@) > INLINE_DETAIL_LIMIT { Some((OutcomeKind::NotApplicable, note@)) } else { None },
        Outcome::Failed { error } => if byte_len(error@) > INLINE_DETAIL_LIMIT { Some((OutcomeKind::Failed, error@)) } else { None },
        Outcome::Values { .. } => None,
    }
}

/// The Provider Notes of `results`: one per distinct (provider, kind,
/// message), in first-seen order, each naming every Identity it covers.
pub open spec fn notes_of(results: Seq<FetchResult>) -> Seq<NoteView>
    decreases results.len(),
{
    if results.len() == 0 {
        seq![]
    } else {
        let prev = notes_of(results.drop_last());
        let r = results.last();
        match long_outcome(r) {
            None => prev,
            Some((kind, message)) => match note_index(prev, r.provider@, kind, message, 0) {
                Some(i) => prev.update(i, NoteView { identities: prev[i].identities.push(r.identity@), ..prev[i] }),
                None => prev.push(NoteView { provider: r.provider@, kind, message, identities: seq![r.identity@] }),
            },
        }
    }
}

fn find_note(ns: &Vec<ProviderNote>, provider: &str, kind: OutcomeKind, message: &str) -> (r: Option<usize>)
    ensures
        match r {
            Some(i) => note_index(note_views(ns@), provider@, kind, message@, 0) == Some(i as int) && i < ns.len(),
            None => note_index(note_views(ns@), provider@, kind, message@, 0) is None,
        },
{
    let ghost nv = note_views(ns@);
    let mut i: usize = 0;
    while i < ns.len()
        invariant
            i <= ns.len(),
            nv == note_views(ns@),
            note_index(nv, provider@, kind, message@, 0) == note_index(nv, provider@, kind, message@, i as int),
        decreases ns.len() - i,
    {
        if str_eq(ns[i].provider.as_str(), provider) && ns[i].kind == kind && str_eq(ns[i].message.as_str(), message) {
            return Some(i);
        }
        i = i + 1;
    }
    None
}

/// The Provider Notes of a Snapshot: its N/A and FAILED messages longer than
/// the inline limit, one entry per distinct (provider, kind, message) in
/// first-seen order, naming every Identity the message was seen on.
pub fn provider_operational_notes(snapshot: &Snapshot) -> (r: Vec<ProviderNote>)
    ensures
        note_views(r@) == notes_of(snapshot.results@),
{
    let mut notes: Vec<ProviderNote> = Vec::new();
    let mut i: usize = 0;
    assert(note_views(notes@) =~= seq![]);
    while i < snapshot.results.len()
        invariant
            i <= snapshot.results.len(),
            note_views(notes@) == notes_of(snapshot.results@.take(i as int)),
        decreases snapshot.results.len() - i,
    {
        assert(snapshot.results@.take(i + 1).drop_last() =~= snapshot.results@.take(i as int));
        let result = &snapshot.results[i];
        let km: Option<(OutcomeKind, &str)> = match &result.outcome {
            Outcome::NotApplicable { note } => if byte_length(note.as_str()) > INLINE_DETAIL_LIMIT {
                Some((OutcomeKind::NotApplicable, note.as_str()))
            } else {
                None
            },
            Outcome::Failed { error } => if byte_length(error.as_str()) > INLINE_DETAIL_LIMIT {
                Some((OutcomeKind::Failed, error.as_str()))
            } else {
                None
            },
            Outcome::Values { .. } => None,
        };
        if let Some((kind, message)) = km {
            let ghost prev = note_views(notes@);
            match find_note(&notes, result.provider.as_str(), kind, message) {
                Some(k) => {
                    let mut ids: Vec<String> = Vec::new();
                    let mut j: usize = 0;
                    while j < notes[k].identities.len()
                        invariant
                            k < notes.len(),
                            j <= notes[k as int].identities.len(),
                            crate::model::seq_views(ids@) == crate::model::seq_views(notes[k as int].identities@.take(j as int)),
                        decreases notes[k as int].identities.len() - j,
                    {
                        let ghost b = ids@;
                        ids.push(notes[k].identities[j].clone());
                        proof {
                            lemma_map_push(b, ids@[j as int], |s: String| s@);
                            lemma_take_push(notes[k as int].identities@, j as int);
                            lemma_map_push(notes[k as int].identities@.take(j as int), notes[k as int].identities@[j as int], |s: String| s@);
                        }
                        j = j + 1;
                    }
                    assert(notes[k as int].identities@.take(notes[k as int].identities.len() as int) =~= notes[k as int].identities@);
                    let ghost bi = ids@;
                    ids.push(result.identity.clone());
                    proof {
                        lemma_map_push(bi, ids@[ids@.len() - 1], |s: String| s@);
                    }
                    let updated = ProviderNote {
                        provider: notes[k].provider.clone(),
                        kind: notes[k].kind,
                        message: notes[k].message.clone(),
                        identities: ids,
                    };
                    notes.set(k, updated);
                    assert(note_views(notes@) =~= prev.update(k as int, NoteView { identities: prev[k as int].identities.push(result.identity@), ..prev[k as int] }));
                },
                None => {
                    let mut ids: Vec<String> = Vec::new();
                    ids.push(result.identity.clone());
                    assert(crate::model::seq_views(ids@) =~= seq![result.identity@]);
                    notes.push(ProviderNote { provider: result.provider.clone(), kind, message: owned(message), identities: ids });
                    assert(note_views(notes@) =~= prev.push(NoteView { provider: result.provider@, kind, message: message@, identities: seq![result.identity@] }));
                },
            }
        }
        i = i + 1;
    }
    assert(snapshot.results@.take(snapshot.results.len() as int) =~= snapshot.results@);
    notes
}

/// The Identities a note covers, truncated past three to `a, b, c, and N
/// more`.
pub open spec fn covered_text(ids: Seq<Seq<char>>) -> Seq<char> {
    if ids.len() <= 3 {
        and_list(ids)
    } else {
        crate::model::join(ids.take(3), ", "@) + ", and "@ + dec((ids.len() - 3) as nat) + " more"@
    }
}

pub fn format_covered_identities(identities: &Vec<String>) -> (r: String)
    ensures
        r@ == covered_text(crate::model::seq_views(identities@)),
{
    if identities.len() <= 3 {
        join_with_and(identities)
    } else {
        let mut shown: Vec<String> = Vec::new();
        shown.push(identities[0].clone());
        shown.push(identities[1].clone());
        shown.push(identities[2].clone());
        assert(crate::model::seq_views(shown@) =~= crate::model::seq_views(identities@).take(3));
        let mut s = crate::model::join_strings(&shown, ", ");
        push_str(&mut s, ", and ");
        push_u64(&mut s, (identities.len() - 3) as u64);
        push_str(&mut s, " more");
        s
    }
}

/// The Metrics that count as downloads, in order.
pub open spec fn downloads_of(ms: Seq<MetricView>) -> Seq<MetricView>
    decreases ms.len(),
{
    if ms.len() == 0 {
        seq![]
    } else {
        downloads_of(ms.drop_last()) + if crate::rollup::counts_as_download_spec(ms.last()) { seq![ms.last()] } else { seq![] }
    }
}

/// The Snapshot's Metrics, in result order.
pub open spec fn snapshot_metrics(s: Snapshot) -> Seq<MetricView> {
    crate::model::flat_metrics(s.results@).map_values(|m: Metric| m@)
}

/// The Snapshot's download Metrics, whose counts the Rollups sum.
pub open spec fn snapshot_downloads(s: Snapshot) -> Seq<MetricView> {
    downloads_of(snapshot_metrics(s))
}

/// Whether, within every Window, the download counts of a Snapshot sum
/// within `u64`, as the Rollups need.
pub open spec fn downloads_fit(s: Snapshot) -> bool {
    crate::rollup::window_sums_fit(snapshot_downloads(s))
}

/// The Snapshot's download Metrics, in order.
pub fn download_metrics(snapshot: &Snapshot) -> (r: Vec<&Metric>)
    ensures
        crate::rollup::metric_views(r@) == snapshot_downloads(*snapshot),
{
    let ms = snapshot.metrics();
    let ghost mv = crate::rollup::metric_views(ms@);
    assert(mv =~= snapshot_metrics(*snapshot));
    let mut out: Vec<&Metric> = Vec::new();
    let mut i: usize = 0;
    assert(crate::rollup::metric_views(out@) =~= seq![]);
    while i < ms.len()
        invariant
            i <= ms.len(),
            mv == crate::rollup::metric_views(ms@),
            crate::rollup::metric_views(out@) == downloads_of(mv.take(i as int)),
        decreases ms.len() - i,
    {
        assert(mv.take(i + 1).drop_last() =~= mv.take(i as int));
        assert(mv.take(i + 1).last() == ms@[i as int]@);
        if crate::rollup::counts_as_download(ms[i]) {
            let ghost before = out@;
            out.push(ms[i]);
            assert(crate::rollup::metric_views(out@) =~= crate::rollup::metric_views(before).push(ms@[i as int]@));
        } else {
            assert(downloads_of(mv.take(i + 1)) =~= downloads_of(mv.take(i as int)));
        }
        i = i + 1;
    }
    assert(mv.take(ms.len() as int) =~= mv);
    out
}

/// Whether a Snapshot's download counts sum within `u64` in every Window
/// (the Rollups' precondition).
pub fn downloads_sum_fits(snapshot: &Snapshot) -> (r: bool)
    ensures
        r == downloads_fit(*snapshot),
{
    let ds = download_metrics(snapshot);
    crate::rollup::sums_fit(&ds)
}

/// The headline citation candidate of one Metric: a `citations` count in
/// Citations, with its Provider and its notice (a note over the inline
/// limit), if any.
pub open spec fn citation_candidate(m: MetricView) -> Option<(u64, Seq<char>, Option<Seq<char>>)> {
    if m.category == Category::Citations && m.name == "citations"@ {
        match m.value {
            crate::model::ValueView::Count(c) => Some((c, m.provider, match m.note {
                Some(n) => if byte_len(n) > INLINE_DETAIL_LIMIT { Some(n) } else { None },
                None => None,
            })),
            _ => None,
        }
    } else {
        None
    }
}

/// The largest citation count across the Snapshot (the last one among
/// equals), with its Provider and notice.
pub open spec fn best_citation(ms: Seq<MetricView>) -> Option<(u64, Seq<char>, Option<Seq<char>>)>
    decreases ms.len(),
{
    if ms.len() == 0 {
        None
    } else {
        let b = best_citation(ms.drop_last());
        match citation_candidate(ms.last()) {
            None => b,
            Some(c) => match b {
                Some(x) => if c.0 >= x.0 { Some(c) } else { b },
                None => Some(c),
            },
        }
    }
}

pub open spec fn opt_triple_view(o: Option<(u64, String, Option<String>)>) -> Option<(u64, Seq<char>, Option<Seq<char>>)> {
    match o {
        Some((c, p, n)) => Some((c, p@, opt_view(n))),
        None => None,
    }
}

/// The headline citation count: the largest `citations` Metric across the
/// whole Snapshot with its Provider, plus its Provider-level notice so that
/// the number is never quoted without its terms.
pub fn headline_citations(snapshot: &Snapshot) -> (r: Option<(u64, String, Option<String>)>)
    ensures
        opt_triple_view(r) == best_citation(snapshot_metrics(*snapshot)),
{
    let ms = snapshot.metrics();
    let ghost mv = crate::rollup::metric_views(ms@);
    assert(mv =~= snapshot_metrics(*snapshot));
    let mut best: Option<(u64, String, Option<String>)> = None;
    let mut i: usize = 0;
    while i < ms.len()
        invariant
            i <= ms.len(),
            mv == crate::rollup::metric_views(ms@),
            opt_triple_view(best) == best_citation(mv.take(i as int)),
        decreases ms.len() - i,
    {
        assert(mv.take(i + 1).drop_last() =~= mv.take(i as int));
        assert(mv.take(i + 1).last() == ms@[i as int]@);
        let m = ms[i];
        if m.category == Category::Citations && str_eq(m.name.as_str(), "citations") {
            if let MetricValue::Count(c) = &m.value {
                let notice = match &m.note {
                    Some(n) => if byte_length(n.as_str()) > INLINE_DETAIL_LIMIT { Some(n.clone()) } else { None },
                    None => None,
                };
                let replace = match &best {
                    Some((b, _, _)) => *c >= *b,
                    None => true,
                };
                if replace {
                    best = Some((*c, m.provider.clone(), notice));
                }
            }
        }
        i = i + 1;
    }
    assert(mv.take(ms.len() as int) =~= mv);
    best
}

pub open spec fn star_count(m: MetricView) -> Option<u64> {
    if m.category == Category::Code && m.name == "stars"@ {
        match m.value {
            crate::model::ValueView::Count(c) => Some(c),
            _ => None,
        }
    } else {
        None
    }
}

pub open spec fn best_stars(ms: Seq<MetricView>) -> Option<u64>
    decreases ms.len(),
{
    if ms.len() == 0 {
        None
    } else {
        let b = best_stars(ms.drop_last());
        match star_count(ms.last()) {
            None => b,
            Some(c) => match b {
                Some(x) => if c >= x { Some(c) } else { b },
                None => Some(c),
            },
        }
    }
}

/// The largest `stars` Metric across the whole Snapshot.
pub fn headline_stars(snapshot: &Snapshot) -> (r: Option<u64>)
    ensures
        r == best_stars(snapshot_metrics(*snapshot)),
{
    let ms = snapshot.metrics();
    let ghost mv = crate::rollup::metric_views(ms@);
    assert(mv =~= snapshot_metrics(*snapshot));
    let mut best: Option<u64> = None;
    let mut i: usize = 0;
    while i < ms.len()
        invariant
            i <= ms.len(),
            mv == crate::rollup::metric_views(ms@),
            best == best_stars(mv.take(i as int)),
        decreases ms.len() - i,
    {
        assert(mv.take(i + 1).drop_last() =~= mv.take(i as int));
        assert(mv.take(i + 1).last() == ms@[i as int]@);
        let m = ms[i];
        if m.category == Category::Code && str_eq(m.name.as_str(), "stars") {
            if let MetricValue::Count(c) = &m.value {
                let replace = match best {
                    Some(b) => *c >= b,
                    None => true,
                };
                if replace {
                    best = Some(*c);
                }
            }
        }
        i = i + 1;
    }
    assert(mv.take(ms.len() as int) =~= mv);
    best
}

/// The headline download figure.
pub enum DownloadsHeadline {
    /// The largest Rollup: a total over `channels` channels sharing `window`.
    Rollup { total: u64, channels: usize, window: Window },
    /// With no Rollup, the largest single download channel.
    Single { total: u64, provider: String, window: Window },
}

pub enum HeadlineView {
    Rollup(nat, nat, WindowView),
    Single(u64, Seq<char>, WindowView),
}

impl View for DownloadsHeadline {
    type V = HeadlineView;

    open spec fn view(&self) -> HeadlineView {
        match self {
            DownloadsHeadline::Rollup { total, channels, window } => HeadlineView::Rollup(*total as nat, *channels as nat, window@),
            DownloadsHeadline::Single { total, provider, window } => HeadlineView::Single(*total, provider@, window@),
        }
    }
}

pub open spec fn best_rollup(rs: Seq<crate::rollup::RollupView>) -> Option<crate::rollup::RollupView>
    decreases rs.len(),
{
    if rs.len() == 0 {
        None
    } else {
        let b = best_rollup(rs.drop_last());
        match b {
            Some(x) => if rs.last().total >= x.total { Some(rs.last()) } else { b },
            None => Some(rs.last()),
        }
    }
}

pub open spec fn best_channel(ms: Seq<MetricView>) -> Option<(u64, Seq<char>, WindowView)>
    decreases ms.len(),
{
    if ms.len() == 0 {
        None
    } else {
        let b = best_channel(ms.drop_last());
        match ms.last().value {
            crate::model::ValueView::Count(c) => match b {
                Some(x) => if c >= x.0 { Some((c, ms.last().provider, ms.last().window)) } else { b },
                None => Some((c, ms.last().provider, ms.last().window)),
            },
            _ => b,
        }
    }
}

/// The headline download figure of a set of download Metrics: the largest
/// Rollup (the last among equals), else the largest single channel.
pub open spec fn downloads_headline(ds: Seq<MetricView>) -> Option<HeadlineView> {
    match best_rollup(crate::rollup::rollups(ds)) {
        Some(r) => Some(HeadlineView::Rollup(r.total, r.channels.len(), r.window)),
        None => match best_channel(ds) {
            Some((c, p, w)) => Some(HeadlineView::Single(c, p, w)),
            None => None,
        },
    }
}

/// The headline download figure: the largest Rollup when two or more
/// channels share a Window, otherwise the largest single channel. The clause
/// always names the Window it covers.
pub fn headline_downloads(snapshot: &Snapshot) -> (r: Option<DownloadsHeadline>)
    requires
        downloads_fit(*snapshot),
    ensures
        match r {
            Some(h) => downloads_headline(snapshot_downloads(*snapshot)) == Some(h@),
            None => downloads_headline(snapshot_downloads(*snapshot)) is None,
        },
{
    let ds = download_metrics(snapshot);
    let rollups = crate::rollup::compute(&ds);
    let ghost rv = rollups@.map_values(|x: crate::rollup::Rollup| x@);
    let mut best: Option<usize> = None;
    let mut i: usize = 0;
    while i < rollups.len()
        invariant
            i <= rollups.len(),
            rv == rollups@.map_values(|x: crate::rollup::Rollup| x@),
            match best {
                Some(k) => k < i && best_rollup(rv.take(i as int)) == Some(rv[k as int]),
                None => i == 0 && best_rollup(rv.take(i as int)) is None,
            },
        decreases rollups.len() - i,
    {
        assert(rv.take(i + 1).drop_last() =~= rv.take(i as int));
        assert(rv.take(i + 1).last() == rv[i as int]);
        let replace = match best {
            Some(k) => rollups[i].total >= rollups[k].total,
            None => true,
        };
        if replace {
            best = Some(i);
        }
        i = i + 1;
    }
    assert(rv.take(rollups.len() as int) =~= rv);
    if let Some(k) = best {
        return Some(DownloadsHeadline::Rollup {
            total: rollups[k].total,
            channels: rollups[k].channels.len(),
            window: rollups[k].window.duplicate(),
        });
    }
    let ghost dv = crate::rollup::metric_views(ds@);
    let mut single: Option<usize> = None;
    let mut j: usize = 0;
    while j < ds.len()
        invariant
            j <= ds.len(),
            dv == crate::rollup::metric_views(ds@),
            match single {
                Some(k) => k < j && (ds@[k as int]@.value matches crate::model::ValueView::Count(c)
                    && best_channel(dv.take(j as int)) == Some((c, ds@[k as int]@.provider, ds@[k as int]@.window))),
                None => best_channel(dv.take(j as int)) is None,
            },
        decreases ds.len() - j,
    {
        assert(dv.take(j + 1).drop_last() =~= dv.take(j as int));
        assert(dv.take(j + 1).last() == ds@[j as int]@);
        if let MetricValue::Count(c) = &ds[j].value {
            let replace = match single {
                Some(k) => match &ds[k].value {
                    MetricValue::Count(b) => *c >= *b,
                    _ => true,
                },
                None => true,
            };
            if replace {
                single = Some(j);
            }
        }
        j = j + 1;
    }
    assert(dv.take(ds.len() as int) =~= dv);
    match single {
        Some(k) => match &ds[k].value {
            MetricValue::Count(c) => Some(DownloadsHeadline::Single {
                total: *c,
                provider: ds[k].provider.clone(),
                window: ds[k].window.duplicate(),
            }),
            _ => None,
        },
        None => None,
    }
}

pub open spec fn downloads_clause(h: HeadlineView) -> Seq<char> {
    match h {
        HeadlineView::Rollup(total, channels, w) => "has been downloaded "@ + dec(total) + " times ("@ + window_text(w)
            + ") across "@ + dec(channels) + " channels"@,
        HeadlineView::Single(total, p, w) => "has been downloaded "@ + dec(total as nat) + " times ("@ + p + ", "@
            + window_text(w) + ")"@,
    }
}

pub open spec fn prose_clauses(ms: Seq<MetricView>, ds: Seq<MetricView>) -> Seq<Seq<char>> {
    let c1: Seq<Seq<char>> = match best_citation(ms) {
        Some((c, p, _)) => seq!["has been cited "@ + dec(c as nat) + " times ("@ + p + ")"@],
        None => seq![],
    };
    let c2 = match best_stars(ms) {
        Some(n) => c1.push("has "@ + dec(n as nat) + " GitHub stars"@),
        None => c1,
    };
    match downloads_headline(ds) {
        Some(h) => c2.push(downloads_clause(h)),
        None => c2,
    }
}

/// The grant-ready sentence: the headline citations, stars and downloads
/// that resolved to a value (an absent or failed one is left out, never
/// implied as 0), the citation notice when there is one, and a caveat on a
/// partial Snapshot.
pub open spec fn prose_text(s: Snapshot) -> Seq<char> {
    let date = crate::clock::date_text(s.created_at);
    let clauses = prose_clauses(snapshot_metrics(s), snapshot_downloads(s));
    let head = if clauses.len() == 0 {
        "As of "@ + date + ", no headline metrics were available for this Snapshot."@
    } else {
        "As of "@ + date + ", this project "@ + and_list(clauses) + "."@
    };
    let with_notice = match best_citation(snapshot_metrics(s)) {
        Some((_, _, Some(n))) => head + " "@ + n,
        _ => head,
    };
    if crate::model::snapshot_has_failures(s.results@) {
        with_notice + " (Note: some metrics failed to fetch and are not reflected here.)"@
    } else {
        with_notice
    }
}

/// A single grant-ready sentence of the Snapshot's headline Metrics.
pub fn render_prose(snapshot: &Snapshot) -> (r: String)
    requires
        downloads_fit(*snapshot),
    ensures
        r@ == prose_text(*snapshot),
{
    let date = crate::clock::local_date(snapshot.created_at);
    let mut clauses: Vec<String> = Vec::new();
    let mut notice: Option<String> = None;
    let cites = headline_citations(snapshot);
    if let Some((count, provider, n)) = cites {
        let mut c = owned("has been cited ");
        push_u64(&mut c, count);
        push_str(&mut c, " times (");
        push_str(&mut c, provider.as_str());
        push_str(&mut c, ")");
        clauses.push(c);
        notice = n;
    }
    if let Some(stars) = headline_stars(snapshot) {
        let mut c = owned("has ");
        push_u64(&mut c, stars);
        push_str(&mut c, " GitHub stars");
        clauses.push(c);
    }
    if let Some(h) = headline_downloads(snapshot) {
        let c = match &h {
            DownloadsHeadline::Rollup { total, channels, window } => {
                let mut c = owned("has been downloaded ");
                push_u64(&mut c, *total);
                push_str(&mut c, " times (");
                let w = window.describe();
                push_str(&mut c, w.as_str());
                push_str(&mut c, ") across ");
                push_u64(&mut c, *channels as u64);
                push_str(&mut c, " channels");
                c
            },
            DownloadsHeadline::Single { total, provider, window } => {
                let mut c = owned("has been downloaded ");
                push_u64(&mut c, *total);
                push_str(&mut c, " times (");
                push_str(&mut c, provider.as_str());
                push_str(&mut c, ", ");
                let w = window.describe();
                push_str(&mut c, w.as_str());
                push_str(&mut c, ")");
                c
            },
        };
        clauses.push(c);
    }
    assert(crate::model::seq_views(clauses@) =~= prose_clauses(snapshot_metrics(*snapshot), snapshot_downloads(*snapshot)));
    let mut sentence = if clauses.len() == 0 {
        let mut t = owned("As of ");
        push_str(&mut t, date.as_str());
        push_str(&mut t, ", no headline metrics were available for this Snapshot.");
        t
    } else {
        let mut t = owned("As of ");
        push_str(&mut t, date.as_str());
        push_str(&mut t, ", this project ");
        let list = join_with_and(&clauses);
        push_str(&mut t, list.as_str());
        push_str(&mut t, ".");
        t
    };
    if let Some(n) = &notice {
        push_str(&mut sentence, " ");
        push_str(&mut sentence, n.as_str());
    }
    if snapshot.has_failures() {
        push_str(&mut sentence, " (Note: some metrics failed to fetch and are not reflected here.)");
    }
    sentence
}

/// The pieces of a text, joined.
pub open spec fn concat(parts: Seq<Seq<char>>) -> Seq<char>
    decreases parts.len(),
{
    if parts.len() == 0 {
        seq![]
    } else {
        concat(parts.drop_last()) + parts.last()
    }
}

pub open spec fn spaces(n: nat) -> Seq<char> {
    Seq::new(n, |i: int| ' ')
}

/// `{:<w$}`: `s` padded on the right with spaces to `w` characters.
pub open spec fn pad_right(s: Seq<char>, w: nat) -> Seq<char> {
    if s.len() >= w { s } else { s + spaces((w - s.len()) as nat) }
}

/// `{:>w$}`: `s` padded on the left with spaces to `w` characters.
pub open spec fn pad_left(s: Seq<char>, w: nat) -> Seq<char> {
    if s.len() >= w { s } else { spaces((w - s.len()) as nat) + s }
}

pub(crate) fn push_spaces(out: &mut String, n: usize)
    ensures
        final(out)@ == old(out)@ + spaces(n as nat),
{
    let ghost start = out@;
    let mut k: usize = 0;
    while k < n
        invariant
            k <= n,
            out@ == start + spaces(k as nat),
        decreases n - k,
    {
        push_char(out, ' ');
        k = k + 1;
        assert(out@ =~= start + spaces(k as nat));
    }
}

pub(crate) fn push_pad_right(out: &mut String, s: &str, w: usize)
    ensures
        final(out)@ == old(out)@ + pad_right(s@, w as nat),
{
    let n = s.unicode_len();
    push_str(out, s);
    if n < w {
        push_spaces(out, w - n);
    }
    assert(final(out)@ =~= old(out)@ + pad_right(s@, w as nat)) by {
        if n < w {
            assert(old(out)@ + s@ + spaces((w - n) as nat) =~= old(out)@ + (s@ + spaces((w - n) as nat)));
        }
    }
}

fn push_pad_left(out: &mut String, s: &str, w: usize)
    ensures
        final(out)@ == old(out)@ + pad_left(s@, w as nat),
{
    let n = s.unicode_len();
    if n < w {
        push_spaces(out, w - n);
    }
    push_str(out, s);
    assert(final(out)@ =~= old(out)@ + pad_left(s@, w as nat)) by {
        if n < w {
            assert(old(out)@ + spaces((w - n) as nat) + s@ =~= old(out)@ + (spaces((w - n) as nat) + s@));
        }
    }
}

/// The widest byte length of a column over `rows`: 0 name, 1 value,
/// 2 window, 3 provider.
pub open spec fn column_width(rows: Seq<RowView>, col: int) -> nat
    decreases rows.len(),
{
    if rows.len() == 0 {
        0
    } else {
        let w = column_width(rows.drop_last(), col);
        let r = rows.last();
        let b = byte_len(if col == 0 { r.name } else if col == 1 { r.value } else if col == 2 { r.window } else { r.provider });
        if b > w { b } else { w }
    }
}

fn column_width_exec(rows: &Vec<Row>, col: usize) -> (r: usize)
    ensures
        r as nat == (if column_width(row_views(rows@), col as int) > usize::MAX { usize::MAX as nat } else { column_width(row_views(rows@), col as int) }),
{
    let ghost rv = row_views(rows@);
    let mut w: usize = 0;
    let mut i: usize = 0;
    while i < rows.len()
        invariant
            i <= rows.len(),
            rv == row_views(rows@),
            w as nat == (if column_width(rv.take(i as int), col as int) > usize::MAX { usize::MAX as nat } else { column_width(rv.take(i as int), col as int) }),
        decreases rows.len() - i,
    {
        assert(rv.take(i + 1).drop_last() =~= rv.take(i as int));
        assert(rv.take(i + 1).last() == rows@[i as int]@);
        let f = if col == 0 {
            rows[i].name.as_str()
        } else if col == 1 {
            rows[i].value.as_str()
        } else if col == 2 {
            rows[i].window.as_str()
        } else {
            rows[i].provider.as_str()
        };
        let b = byte_length(f);
        if b > w {
            w = b;
        }
        i = i + 1;
    }
    assert(rv.take(rows.len() as int) =~= rv);
    w
}

/// The cap a column width is held to (a width past it is never reached).
pub open spec fn capped(n: nat) -> nat {
    if n > usize::MAX { usize::MAX as nat } else { n }
}

/// One terminal row: the four columns aligned (the value to the right),
/// trailing blanks trimmed, then a short detail.
pub open spec fn term_row(r: RowView, wn: nat, wv: nat, ww: nat, wp: nat) -> Seq<char> {
    crate::text::trim_end("  "@ + pad_right(r.name, wn) + "  "@ + pad_left(r.value, wv) + "  "@ + pad_right(r.window, ww) + "  "@ + pad_right(r.provider, wp))
        + (if inline_detail(r.detail) { "  "@ + r.detail } else { seq![] }) + "\n"@
}

pub open spec fn term_rows(rows: Seq<RowView>) -> Seq<char> {
    let wn = capped(column_width(rows, 0));
    let wv = capped(column_width(rows, 1));
    let ww = capped(column_width(rows, 2));
    let wp = capped(column_width(rows, 3));
    concat(rows.map_values(|r: RowView| term_row(r, wn, wv, ww, wp)))
}

pub open spec fn term_category(rows: Seq<RowView>, c: Category) -> Seq<char> {
    if rows.len() == 0 {
        seq![]
    } else {
        "── "@ + category_label(c) + " ──\n"@ + term_rows(rows)
    }
}

/// Appends `concat(parts.take(i + 1))` growth: the next piece.
proof fn lemma_concat_step(parts: Seq<Seq<char>>, i: int)
    requires
        0 <= i < parts.len(),
    ensures
        concat(parts.take(i + 1)) == concat(parts.take(i)) + parts[i],
{
    assert(parts.take(i + 1).drop_last() =~= parts.take(i));
}

fn push_term_rows(out: &mut String, rows: &Vec<Row>)
    ensures
        final(out)@ == old(out)@ + term_rows(row_views(rows@)),
{
    let ghost rv = row_views(rows@);
    let wn = column_width_exec(rows, 0);
    let wv = column_width_exec(rows, 1);
    let ww = column_width_exec(rows, 2);
    let wp = column_width_exec(rows, 3);
    let ghost f = |r: RowView| term_row(r, wn as nat, wv as nat, ww as nat, wp as nat);
    let ghost parts = rv.map_values(f);
    let ghost start = out@;
    let mut i: usize = 0;
    assert(start + concat(parts.take(0)) =~= start);
    while i < rows.len()
        invariant
            i <= rows.len(),
            rv == row_views(rows@),
            parts == rv.map_values(f),
            f == (|r: RowView| term_row(r, wn as nat, wv as nat, ww as nat, wp as nat)),
            out@ == start + concat(parts.take(i as int)),
        decreases rows.len() - i,
    {
        let r = &rows[i];
        let mut line = owned("  ");
        push_pad_right(&mut line, r.name.as_str(), wn);
        push_str(&mut line, "  ");
        push_pad_left(&mut line, r.value.as_str(), wv);
        push_str(&mut line, "  ");
        push_pad_right(&mut line, r.window.as_str(), ww);
        push_str(&mut line, "  ");
        push_pad_right(&mut line, r.provider.as_str(), wp);
        let lv = chars_of(line.as_str());
        let end = crate::text::trim_end_pos(&lv, 0, lv.len());
        assert(lv@.subrange(0, lv@.len() as int) =~= lv@);
        let kept = crate::text::slice_chars(&lv, 0, end);
        let ghost before = out@;
        push_chars(out, &kept);
        if is_inline(r.detail.as_str()) {
            push_str(out, "  ");
            push_str(out, r.detail.as_str());
        }
        push_str(out, "\n");
        proof {
            lemma_concat_step(parts, i as int);
            assert(parts[i as int] == term_row(rows@[i as int]@, wn as nat, wv as nat, ww as nat, wp as nat));
            assert(out@ =~= before + parts[i as int]);
        }
        i = i + 1;
    }
    assert(parts.take(rows.len() as int) =~= parts);
}

pub open spec fn summary_of(d: crate::model::PaperMetadata) -> Seq<char> {
    crate::model::summary_spec(opt_view(d.title), crate::model::seq_views(d.authors@), opt_view(d.container), d.year)
}

/// The non-empty summaries of the descriptions of Identity `id`, each
/// framed by `before` and `after`.
pub open spec fn summaries_text(ds: Seq<crate::model::PaperMetadata>, id: Seq<char>, before: Seq<char>, after: Seq<char>) -> Seq<char>
    decreases ds.len(),
{
    if ds.len() == 0 {
        seq![]
    } else {
        let d = ds.last();
        summaries_text(ds.drop_last(), id, before, after) + if d.identity@ == id && summary_of(d).len() > 0 {
            before + summary_of(d) + after
        } else {
            seq![]
        }
    }
}

fn push_summaries(out: &mut String, ds: &Vec<&crate::model::PaperMetadata>, id: &str, before: &str, after: &str)
    ensures
        final(out)@ == old(out)@ + summaries_text(ds@.map_values(|m: &crate::model::PaperMetadata| *m), id@, before@, after@),
{
    let ghost dv = ds@.map_values(|m: &crate::model::PaperMetadata| *m);
    let ghost start = out@;
    let mut i: usize = 0;
    assert(start + summaries_text(dv.take(0), id@, before@, after@) =~= start);
    while i < ds.len()
        invariant
            i <= ds.len(),
            dv == ds@.map_values(|m: &crate::model::PaperMetadata| *m),
            out@ == start + summaries_text(dv.take(i as int), id@, before@, after@),
        decreases ds.len() - i,
    {
        assert(dv.take(i + 1).drop_last() =~= dv.take(i as int));
        assert(dv.take(i + 1).last() == *ds@[i as int]);
        let d = ds[i];
        let ghost pre = out@;
        if str_eq(d.identity.as_str(), id) {
            let sm = d.summary();
            if sm.unicode_len() > 0 {
                push_str(out, before);
                push_str(out, sm.as_str());
                push_str(out, after);
                assert(out@ =~= pre + (before@ + sm@ + after@));
            }
        }
        i = i + 1;
    }
    assert(dv.take(ds.len() as int) =~= dv);
}

pub open spec fn term_categories(results: Seq<FetchResult>, id: Seq<char>, cs: Seq<Category>) -> Seq<char>
    decreases cs.len(),
{
    if cs.len() == 0 {
        seq![]
    } else {
        term_categories(results, id, cs.drop_last()) + term_category(rows_spec(results, id, cs.last()), cs.last())
    }
}

pub open spec fn term_identity(s: Snapshot, id: Seq<char>) -> Seq<char> {
    "\n━━ "@ + id + " ━━\n"@ + summaries_text(crate::model::flat_descriptions(s.results@), id, seq![], "\n"@)
        + term_categories(s.results@, id, category_order())
}

pub open spec fn term_identities(s: Snapshot, ids: Seq<String>) -> Seq<char>
    decreases ids.len(),
{
    if ids.len() == 0 {
        seq![]
    } else {
        term_identities(s, ids.drop_last()) + term_identity(s, ids.last()@)
    }
}

fn push_term_category(out: &mut String, snapshot: &Snapshot, id: &str, c: Category)
    ensures
        final(out)@ == old(out)@ + term_category(rows_spec(snapshot.results@, id@, c), c),
{
    let rows = rows_for(snapshot, id, c);
    if rows.len() > 0 {
        push_str(out, "── ");
        push_str(out, c.label());
        push_str(out, " ──\n");
        push_term_rows(out, &rows);
    }
}

fn push_term_identity(out: &mut String, snapshot: &Snapshot, ds: &Vec<&crate::model::PaperMetadata>, id: &str)
    requires
        ds@.map_values(|m: &crate::model::PaperMetadata| *m) == crate::model::flat_descriptions(snapshot.results@),
    ensures
        final(out)@ == old(out)@ + term_identity(*snapshot, id@),
{
    let ghost start = out@;
    push_str(out, "\n━━ ");
    push_str(out, id);
    push_str(out, " ━━\n");
    push_summaries(out, ds, id, "", "\n");
    proof {
        reveal_strlit("");
        assert(""@ =~= seq![]);
    }
    let ghost mid = out@;
    let order = category_order_exec();
    let mut k: usize = 0;
    assert(order@.take(0) =~= seq![]);
    while k < order.len()
        invariant
            k <= order.len(),
            order@ == category_order(),
            out@ == mid + term_categories(snapshot.results@, id@, order@.take(k as int)),
        decreases order.len() - k,
    {
        assert(order@.take(k + 1).drop_last() =~= order@.take(k as int));
        push_term_category(out, snapshot, id, order[k]);
        k = k + 1;
    }
    assert(order@.take(4) =~= order@);
}

/// The breakdown of a Rollup: each channel's Identity and count.
pub open spec fn breakdown(cs: Seq<crate::rollup::ChannelView>) -> Seq<Seq<char>> {
    cs.map_values(|c: crate::rollup::ChannelView| c.identity + " ("@ + dec(c.value as nat) + ")"@)
}

fn breakdown_exec(cs: &Vec<crate::rollup::RollupChannel>) -> (r: Vec<String>)
    ensures
        crate::model::seq_views(r@) == breakdown(cs@.map_values(|c: crate::rollup::RollupChannel| c@)),
{
    let ghost cv = cs@.map_values(|c: crate::rollup::RollupChannel| c@);
    let mut r: Vec<String> = Vec::new();
    let mut i: usize = 0;
    while i < cs.len()
        invariant
            i <= cs.len(),
            cv == cs@.map_values(|c: crate::rollup::RollupChannel| c@),
            crate::model::seq_views(r@) == breakdown(cv.take(i as int)),
        decreases cs.len() - i,
    {
        let mut t = cs[i].identity.clone();
        push_str(&mut t, " (");
        push_u64(&mut t, cs[i].value);
        push_str(&mut t, ")");
        let ghost before = r@;
        r.push(t);
        proof {
            lemma_map_push(before, r@[i as int], |s: String| s@);
            lemma_take_push(cv, i as int);
            lemma_map_push(cv.take(i as int), cv[i as int], |c: crate::rollup::ChannelView| c.identity + " ("@ + dec(c.value as nat) + ")"@);
        }
        i = i + 1;
    }
    assert(cv.take(cs.len() as int) =~= cv);
    r
}

/// The Rollup lines, each framed by `lead` and `mid` around its total.
pub open spec fn rollup_lines(rs: Seq<crate::rollup::RollupView>, lead: Seq<char>, mid: Seq<char>) -> Seq<char>
    decreases rs.len(),
{
    if rs.len() == 0 {
        seq![]
    } else {
        let r = rs.last();
        rollup_lines(rs.drop_last(), lead, mid) + lead + dec(r.total) + mid + window_text(r.window) + " = "@
            + crate::model::join(breakdown(r.channels), " + "@) + "\n"@
    }
}

fn push_rollup_lines(out: &mut String, rs: &Vec<crate::rollup::Rollup>, lead: &str, mid: &str)
    ensures
        final(out)@ == old(out)@ + rollup_lines(rs@.map_values(|x: crate::rollup::Rollup| x@), lead@, mid@),
{
    let ghost rv = rs@.map_values(|x: crate::rollup::Rollup| x@);
    let ghost start = out@;
    let mut i: usize = 0;
    assert(start + rollup_lines(rv.take(0), lead@, mid@) =~= start);
    while i < rs.len()
        invariant
            i <= rs.len(),
            rv == rs@.map_values(|x: crate::rollup::Rollup| x@),
            out@ == start + rollup_lines(rv.take(i as int), lead@, mid@),
        decreases rs.len() - i,
    {
        assert(rv.take(i + 1).drop_last() =~= rv.take(i as int));
        assert(rv.take(i + 1).last() == rs@[i as int]@);
        let r = &rs[i];
        let ghost pre = out@;
        push_str(out, lead);
        push_u64(out, r.total);
        push_str(out, mid);
        let w = r.window.describe();
        push_str(out, w.as_str());
        push_str(out, " = ");
        let parts = breakdown_exec(&r.channels);
        let joined = crate::model::join_strings(&parts, " + ");
        push_str(out, joined.as_str());
        push_str(out, "\n");
        i = i + 1;
    }
    assert(rv.take(rs.len() as int) =~= rv);
}

/// The notices, one per line between `lead` and a newline.
pub open spec fn notice_lines(ns: Seq<Seq<char>>, lead: Seq<char>) -> Seq<char>
    decreases ns.len(),
{
    if ns.len() == 0 {
        seq![]
    } else {
        notice_lines(ns.drop_last(), lead) + lead + ns.last() + "\n"@
    }
}

pub(crate) fn push_notice_lines(out: &mut String, ns: &Vec<String>, lead: &str)
    ensures
        final(out)@ == old(out)@ + notice_lines(crate::model::seq_views(ns@), lead@),
{
    let ghost nv = crate::model::seq_views(ns@);
    let ghost start = out@;
    let mut i: usize = 0;
    assert(start + notice_lines(nv.take(0), lead@) =~= start);
    while i < ns.len()
        invariant
            i <= ns.len(),
            nv == crate::model::seq_views(ns@),
            out@ == start + notice_lines(nv.take(i as int), lead@),
        decreases ns.len() - i,
    {
        assert(nv.take(i + 1).drop_last() =~= nv.take(i as int));
        push_str(out, lead);
        push_str(out, ns[i].as_str());
        push_str(out, "\n");
        i = i + 1;
    }
    assert(nv.take(ns.len() as int) =~= nv);
}

/// Terminal Provider Notes lines.
pub open spec fn term_note_lines(ns: Seq<NoteView>) -> Seq<char>
    decreases ns.len(),
{
    if ns.len() == 0 {
        seq![]
    } else {
        let n = ns.last();
        term_note_lines(ns.drop_last()) + "  "@ + n.provider + " ("@ + kind_label(n.kind) + "): "@ + n.message + " — "@
            + covered_text(n.identities) + "\n"@
    }
}

fn push_term_notes(out: &mut String, ns: &Vec<ProviderNote>)
    ensures
        final(out)@ == old(out)@ + term_note_lines(note_views(ns@)),
{
    let ghost nv = note_views(ns@);
    let ghost start = out@;
    let mut i: usize = 0;
    assert(start + term_note_lines(nv.take(0)) =~= start);
    while i < ns.len()
        invariant
            i <= ns.len(),
            nv == note_views(ns@),
            out@ == start + term_note_lines(nv.take(i as int)),
        decreases ns.len() - i,
    {
        assert(nv.take(i + 1).drop_last() =~= nv.take(i as int));
        assert(nv.take(i + 1).last() == ns@[i as int]@);
        let n = &ns[i];
        push_str(out, "  ");
        push_str(out, n.provider.as_str());
        push_str(out, " (");
        push_str(out, n.kind.label());
        push_str(out, "): ");
        push_str(out, n.message.as_str());
        push_str(out, " — ");
        let covered = format_covered_identities(&n.identities);
        push_str(out, covered.as_str());
        push_str(out, "\n");
        i = i + 1;
    }
    assert(nv.take(ns.len() as int) =~= nv);
}

pub open spec fn snapshot_notices(s: Snapshot) -> Seq<Seq<char>> {
    notices_of(crate::rollup::metric_views(crate::model::flat_metrics(s.results@).map_values(|m: Metric| &m)))
}

pub open spec fn framed<A>(items: Seq<A>, heading: Seq<char>, body: Seq<char>) -> Seq<char> {
    if items.len() == 0 { seq![] } else { heading + body }
}

/// The terminal Report: a header, then per Identity its paper summary and
/// its rows by Category; the Downloads Rollups; the Provider-level notices;
/// the Provider Notes; and a warning on a partial Snapshot.
pub open spec fn terminal_text(s: Snapshot) -> Seq<char> {
    let rs = crate::rollup::rollups(snapshot_downloads(s));
    let ns = snapshot_notices(s);
    let pn = notes_of(s.results@);
    "boast "@ + s.tool_version@ + " — as of "@ + crate::clock::rfc3339_text(s.created_at.unix_nanos as int, s.created_at.offset_secs as int) + "\n"@
        + term_identities(s, s.identities@)
        + framed(rs, "\n═══ Downloads Rollup (derived — see channels above) ═══\n"@, rollup_lines(rs, "  "@, " "@))
        + framed(ns, "\n── Notices ──\n"@, notice_lines(ns, "  "@))
        + framed(pn, "\n── Provider Notes ──\n"@, term_note_lines(pn))
        + if crate::model::snapshot_has_failures(s.results@) {
            "\n⚠ partial snapshot: some metrics failed to fetch (see FAILED rows); exit code 1.\n"@
        } else {
            seq![]
        }
}

/// Renders the Snapshot as a terminal table, grouped by Identity then
/// Category, so that a batch of identifiers stays readable.
#[verifier::spinoff_prover]
#[verifier::rlimit(30)]
pub fn render_terminal(snapshot: &Snapshot) -> (r: String)
    requires
        downloads_fit(*snapshot),
    ensures
        r@ == terminal_text(*snapshot),
{
    let mut out = owned("boast ");
    push_str(&mut out, snapshot.tool_version.as_str());
    push_str(&mut out, " — as of ");
    let created = crate::clock::rfc3339(snapshot.created_at);
    push_str(&mut out, created.as_str());
    push_str(&mut out, "\n");
    let ghost head = out@;
    let ds = snapshot.descriptions();
    let mut i: usize = 0;
    assert(head + term_identities(*snapshot, snapshot.identities@.take(0)) =~= head);
    while i < snapshot.identities.len()
        invariant
            i <= snapshot.identities.len(),
            ds@.map_values(|m: &crate::model::PaperMetadata| *m) == crate::model::flat_descriptions(snapshot.results@),
            out@ == head + term_identities(*snapshot, snapshot.identities@.take(i as int)),
        decreases snapshot.identities.len() - i,
    {
        assert(snapshot.identities@.take(i + 1).drop_last() =~= snapshot.identities@.take(i as int));
        push_term_identity(&mut out, snapshot, &ds, snapshot.identities[i].as_str());
        i = i + 1;
    }
    assert(snapshot.identities@.take(snapshot.identities.len() as int) =~= snapshot.identities@);
    let downloads = download_metrics(snapshot);
    let rollups = crate::rollup::compute(&downloads);
    if rollups.len() > 0 {
        push_str(&mut out, "\n═══ Downloads Rollup (derived — see channels above) ═══\n");
        push_rollup_lines(&mut out, &rollups, "  ", " ");
    }
    let notices = provider_notices(snapshot);
    if notices.len() > 0 {
        push_str(&mut out, "\n── Notices ──\n");
        push_notice_lines(&mut out, &notices, "  ");
    }
    let notes = provider_operational_notes(snapshot);
    if notes.len() > 0 {
        push_str(&mut out, "\n── Provider Notes ──\n");
        push_term_notes(&mut out, &notes);
    }
    if snapshot.has_failures() {
        push_str(&mut out, "\n⚠ partial snapshot: some metrics failed to fetch (see FAILED rows); exit code 1.\n");
    }
    out
}

/// One Markdown table row: each cell escaped; the Provider linked to its
/// source when there is one; a short detail only.
pub open spec fn md_row(r: RowView) -> Seq<char> {
    let provider = if r.source.len() == 0 {
        md_cell(r.provider)
    } else {
        "["@ + md_cell(r.provider) + "]("@ + r.source + ")"@
    };
    let detail = if inline_detail(r.detail) { md_cell(r.detail) } else { seq![] };
    "| "@ + md_cell(r.name) + " | "@ + md_cell(r.value) + " | "@ + md_cell(r.window) + " | "@ + provider + " | "@ + detail
        + " |\n"@
}

pub open spec fn md_rows(rows: Seq<RowView>) -> Seq<char>
    decreases rows.len(),
{
    if rows.len() == 0 {
        seq![]
    } else {
        md_rows(rows.drop_last()) + md_row(rows.last())
    }
}

pub open spec fn md_category(rows: Seq<RowView>, c: Category) -> Seq<char> {
    if rows.len() == 0 {
        seq![]
    } else {
        "\n### "@ + category_label(c) + "\n\n"@ + "| Metric | Value | Window | Provider | Detail |\n"@
            + "| --- | --- | --- | --- | --- |\n"@ + md_rows(rows)
    }
}

pub open spec fn md_categories(results: Seq<FetchResult>, id: Seq<char>, cs: Seq<Category>) -> Seq<char>
    decreases cs.len(),
{
    if cs.len() == 0 {
        seq![]
    } else {
        md_categories(results, id, cs.drop_last()) + md_category(rows_spec(results, id, cs.last()), cs.last())
    }
}

pub open spec fn md_identity(s: Snapshot, id: Seq<char>) -> Seq<char> {
    "\n## "@ + id + "\n"@ + summaries_text(crate::model::flat_descriptions(s.results@), id, "\n"@, "\n"@)
        + md_categories(s.results@, id, category_order())
}

pub open spec fn md_identities(s: Snapshot, ids: Seq<String>) -> Seq<char>
    decreases ids.len(),
{
    if ids.len() == 0 {
        seq![]
    } else {
        md_identities(s, ids.drop_last()) + md_identity(s, ids.last()@)
    }
}

fn push_md_row(out: &mut String, r: &Row)
    ensures
        final(out)@ == old(out)@ + md_row(r@),
{
    push_str(out, "| ");
    let c = escape_md_cell(r.name.as_str());
    push_str(out, c.as_str());
    push_str(out, " | ");
    let c = escape_md_cell(r.value.as_str());
    push_str(out, c.as_str());
    push_str(out, " | ");
    let c = escape_md_cell(r.window.as_str());
    push_str(out, c.as_str());
    push_str(out, " | ");
    let p = escape_md_cell(r.provider.as_str());
    if r.source.unicode_len() == 0 {
        push_str(out, p.as_str());
    } else {
        push_str(out, "[");
        push_str(out, p.as_str());
        push_str(out, "](");
        push_str(out, r.source.as_str());
        push_str(out, ")");
    }
    push_str(out, " | ");
    if is_inline(r.detail.as_str()) {
        let d = escape_md_cell(r.detail.as_str());
        push_str(out, d.as_str());
    }
    push_str(out, " |\n");
}

fn push_md_rows(out: &mut String, rows: &Vec<Row>)
    ensures
        final(out)@ == old(out)@ + md_rows(row_views(rows@)),
{
    let ghost rv = row_views(rows@);
    let ghost start = out@;
    let mut i: usize = 0;
    assert(start + md_rows(rv.take(0)) =~= start);
    while i < rows.len()
        invariant
            i <= rows.len(),
            rv == row_views(rows@),
            out@ == start + md_rows(rv.take(i as int)),
        decreases rows.len() - i,
    {
        assert(rv.take(i + 1).drop_last() =~= rv.take(i as int));
        assert(rv.take(i + 1).last() == rows@[i as int]@);
        push_md_row(out, &rows[i]);
        i = i + 1;
    }
    assert(rv.take(rows.len() as int) =~= rv);
}

fn push_md_category(out: &mut String, snapshot: &Snapshot, id: &str, c: Category)
    ensures
        final(out)@ == old(out)@ + md_category(rows_spec(snapshot.results@, id@, c), c),
{
    let rows = rows_for(snapshot, id, c);
    if rows.len() > 0 {
        push_str(out, "\n### ");
        push_str(out, c.label());
        push_str(out, "\n\n");
        push_str(out, "| Metric | Value | Window | Provider | Detail |\n");
        push_str(out, "| --- | --- | --- | --- | --- |\n");
        push_md_rows(out, &rows);
    }
}

fn push_md_identity(out: &mut String, snapshot: &Snapshot, ds: &Vec<&crate::model::PaperMetadata>, id: &str)
    requires
        ds@.map_values(|m: &crate::model::PaperMetadata| *m) == crate::model::flat_descriptions(snapshot.results@),
    ensures
        final(out)@ == old(out)@ + md_identity(*snapshot, id@),
{
    push_str(out, "\n## ");
    push_str(out, id);
    push_str(out, "\n");
    push_summaries(out, ds, id, "\n", "\n");
    let ghost mid = out@;
    let order = category_order_exec();
    let mut k: usize = 0;
    assert(order@.take(0) =~= seq![]);
    while k < order.len()
        invariant
            k <= order.len(),
            order@ == category_order(),
            out@ == mid + md_categories(snapshot.results@, id@, order@.take(k as int)),
        decreases order.len() - k,
    {
        assert(order@.take(k + 1).drop_last() =~= order@.take(k as int));
        push_md_category(out, snapshot, id, order[k]);
        k = k + 1;
    }
    assert(order@.take(4) =~= order@);
}

/// Markdown Provider Notes lines.
pub open spec fn md_note_lines(ns: Seq<NoteView>) -> Seq<char>
    decreases ns.len(),
{
    if ns.len() == 0 {
        seq![]
    } else {
        let n = ns.last();
        md_note_lines(ns.drop_last()) + "- **"@ + md_cell(n.provider) + "** ("@ + kind_label(n.kind) + "): "@
            + md_cell(n.message) + " — "@ + md_cell(covered_text(n.identities)) + "\n"@
    }
}

fn push_md_notes(out: &mut String, ns: &Vec<ProviderNote>)
    ensures
        final(out)@ == old(out)@ + md_note_lines(note_views(ns@)),
{
    let ghost nv = note_views(ns@);
    let ghost start = out@;
    let mut i: usize = 0;
    assert(start + md_note_lines(nv.take(0)) =~= start);
    while i < ns.len()
        invariant
            i <= ns.len(),
            nv == note_views(ns@),
            out@ == start + md_note_lines(nv.take(i as int)),
        decreases ns.len() - i,
    {
        assert(nv.take(i + 1).drop_last() =~= nv.take(i as int));
        assert(nv.take(i + 1).last() == ns@[i as int]@);
        let n = &ns[i];
        push_str(out, "- **");
        let p = escape_md_cell(n.provider.as_str());
        push_str(out, p.as_str());
        push_str(out, "** (");
        push_str(out, n.kind.label());
        push_str(out, "): ");
        let m = escape_md_cell(n.message.as_str());
        push_str(out, m.as_str());
        push_str(out, " — ");
        let covered = format_covered_identities(&n.identities);
        let c = escape_md_cell(covered.as_str());
        push_str(out, c.as_str());
        push_str(out, "\n");
        i = i + 1;
    }
    assert(nv.take(ns.len() as int) =~= nv);
}

/// The Markdown Report: the same content as the terminal Report, as
/// headings and tables, each Provider linked to its source.
pub open spec fn markdown_text(s: Snapshot) -> Seq<char> {
    let rs = crate::rollup::rollups(snapshot_downloads(s));
    let ns = snapshot_notices(s);
    let pn = notes_of(s.results@);
    "# boast Report\n\n_boast "@ + s.tool_version@ + " — as of "@ + crate::clock::rfc3339_text(s.created_at.unix_nanos as int, s.created_at.offset_secs as int) + "_\n"@
        + md_identities(s, s.identities@)
        + framed(rs, "\n## Downloads Rollup (derived — see channels above)\n\n"@, rollup_lines(rs, "- **"@, "** "@))
        + framed(ns, "\n## Notices\n\n"@, notice_lines(ns, "- "@))
        + framed(pn, "\n## Provider Notes\n\n"@, md_note_lines(pn))
        + if crate::model::snapshot_has_failures(s.results@) {
            "\n> ⚠ **partial snapshot**: some metrics failed to fetch (see FAILED rows); exit code 1.\n"@
        } else {
            seq![]
        }
}

/// Renders the Snapshot as a Markdown Report grouped by Identity then
/// Category: the primary saved artifact.
pub fn render_markdown(snapshot: &Snapshot) -> (r: String)
    requires
        downloads_fit(*snapshot),
    ensures
        r@ == markdown_text(*snapshot),
{
    let mut out = owned("# boast Report\n\n_boast ");
    push_str(&mut out, snapshot.tool_version.as_str());
    push_str(&mut out, " — as of ");
    let created = crate::clock::rfc3339(snapshot.created_at);
    push_str(&mut out, created.as_str());
    push_str(&mut out, "_\n");
    let ghost head = out@;
    let ds = snapshot.descriptions();
    let mut i: usize = 0;
    assert(head + md_identities(*snapshot, snapshot.identities@.take(0)) =~= head);
    while i < snapshot.identities.len()
        invariant
            i <= snapshot.identities.len(),
            ds@.map_values(|m: &crate::model::PaperMetadata| *m) == crate::model::flat_descriptions(snapshot.results@),
            out@ == head + md_identities(*snapshot, snapshot.identities@.take(i as int)),
        decreases snapshot.identities.len() - i,
    {
        assert(snapshot.identities@.take(i + 1).drop_last() =~= snapshot.identities@.take(i as int));
        push_md_identity(&mut out, snapshot, &ds, snapshot.identities[i].as_str());
        i = i + 1;
    }
    assert(snapshot.identities@.take(snapshot.identities.len() as int) =~= snapshot.identities@);
    let downloads = download_metrics(snapshot);
    let rollups = crate::rollup::compute(&downloads);
    if rollups.len() > 0 {
        push_str(&mut out, "\n## Downloads Rollup (derived — see channels above)\n\n");
        push_rollup_lines(&mut out, &rollups, "- **", "** ");
    }
    let notices = provider_notices(snapshot);
    if notices.len() > 0 {
        push_str(&mut out, "\n## Notices\n\n");
        push_notice_lines(&mut out, &notices, "- ");
    }
    let notes = provider_operational_notes(snapshot);
    if notes.len() > 0 {
        push_str(&mut out, "\n## Provider Notes\n\n");
        push_md_notes(&mut out, &notes);
    }
    if snapshot.has_failures() {
        push_str(&mut out, "\n> ⚠ **partial snapshot**: some metrics failed to fetch (see FAILED rows); exit code 1.\n");
    }
    out
}

} // verus!

verus! {

proof fn lemma_note_index(ns: Seq<NoteView>, provider: Seq<char>, kind: OutcomeKind, message: Seq<char>, from: int)
    requires
        0 <= from,
    ensures
        match note_index(ns, provider, kind, message, from) {
            Some(i) => from <= i < ns.len() && ns[i].provider == provider && ns[i].kind == kind && ns[i].message == message,
            None => forall|t: int| from <= t < ns.len() ==> !(ns[t].provider == provider && ns[t].kind == kind
                && ns[t].message == message),
        },
    decreases ns.len() - from,
{
    if from < ns.len() {
        if !(ns[from].provider == provider && ns[from].kind == kind && ns[from].message == message) {
            lemma_note_index(ns, provider, kind, message, from + 1);
        }
    }
}

/// Some note of `ns` carries this provider, kind and message and names this
/// Identity.
pub open spec fn noted_in(ns: Seq<NoteView>, provider: Seq<char>, kind: OutcomeKind, message: Seq<char>, identity: Seq<char>) -> bool {
    exists|i: int|
        0 <= i < ns.len() && ns[i].provider == provider && ns[i].kind == kind && ns[i].message == message
            && ns[i].identities.contains(identity)
}

/// Provider Notes never merge across Providers or Outcome kinds: no two
/// entries share provider, kind and message; and every N/A or FAILED message
/// too long to show inline is in the entry for its provider and kind, which
/// names the Identity it was seen on.
pub proof fn law_provider_notes_distinct_and_complete(rs: Seq<FetchResult>)
    ensures
        forall|i: int, j: int|
            0 <= i < j < notes_of(rs).len() ==> !(notes_of(rs)[i].provider == notes_of(rs)[j].provider
                && notes_of(rs)[i].kind == notes_of(rs)[j].kind && notes_of(rs)[i].message == notes_of(rs)[j].message),
        forall|k: int|
            0 <= k < rs.len() && long_outcome(#[trigger] rs[k]) is Some ==> noted_in(
                notes_of(rs),
                rs[k].provider@,
                long_outcome(rs[k]).unwrap().0,
                long_outcome(rs[k]).unwrap().1,
                rs[k].identity@,
            ),
    decreases rs.len(),
{
    if rs.len() > 0 {
        let prev_rs = rs.drop_last();
        law_provider_notes_distinct_and_complete(prev_rs);
        let p = notes_of(prev_rs);
        let r = rs.last();
        let n = notes_of(rs);
        match long_outcome(r) {
            None => {
                assert forall|k: int| 0 <= k < rs.len() && long_outcome(#[trigger] rs[k]) is Some implies noted_in(
                    n,
                    rs[k].provider@,
                    long_outcome(rs[k]).unwrap().0,
                    long_outcome(rs[k]).unwrap().1,
                    rs[k].identity@,
                ) by {
                    assert(k < rs.len() - 1);
                    assert(prev_rs[k] == rs[k]);
                }
            },
            Some((kind, message)) => {
                lemma_note_index(p, r.provider@, kind, message, 0);
                match note_index(p, r.provider@, kind, message, 0) {
                    Some(i) => {
                        let upd = NoteView { identities: p[i].identities.push(r.identity@), ..p[i] };
                        assert(n == p.update(i, upd));
                        assert forall|k: int| 0 <= k < rs.len() && long_outcome(#[trigger] rs[k]) is Some implies noted_in(
                            n,
                            rs[k].provider@,
                            long_outcome(rs[k]).unwrap().0,
                            long_outcome(rs[k]).unwrap().1,
                            rs[k].identity@,
                        ) by {
                            if k < rs.len() - 1 {
                                assert(prev_rs[k] == rs[k]);
                                let j = choose|j: int|
                                    0 <= j < p.len() && p[j].provider == rs[k].provider@ && p[j].kind == long_outcome(rs[k]).unwrap().0
                                        && p[j].message == long_outcome(rs[k]).unwrap().1 && p[j].identities.contains(rs[k].identity@);
                                if j == i {
                                    let t = choose|t: int| 0 <= t < p[j].identities.len() && p[j].identities[t] == rs[k].identity@;
                                    assert(n[j].identities[t] == rs[k].identity@);
                                } else {
                                    assert(n[j] == p[j]);
                                }
                            } else {
                                assert(n[i].identities[p[i].identities.len() as int] == r.identity@);
                            }
                        }
                    },
                    None => {
                        let fresh = NoteView { provider: r.provider@, kind, message, identities: seq![r.identity@] };
                        assert(n == p.push(fresh));
                        assert forall|k: int| 0 <= k < rs.len() && long_outcome(#[trigger] rs[k]) is Some implies noted_in(
                            n,
                            rs[k].provider@,
                            long_outcome(rs[k]).unwrap().0,
                            long_outcome(rs[k]).unwrap().1,
                            rs[k].identity@,
                        ) by {
                            if k < rs.len() - 1 {
                                assert(prev_rs[k] == rs[k]);
                                let j = choose|j: int|
                                    0 <= j < p.len() && p[j].provider == rs[k].provider@ && p[j].kind == long_outcome(rs[k]).unwrap().0
                                        && p[j].message == long_outcome(rs[k]).unwrap().1 && p[j].identities.contains(rs[k].identity@);
                                assert(n[j] == p[j]);
                            } else {
                                assert(n[p.len() as int].identities[0] == r.identity@);
                            }
                        }
                    },
                }
            },
        }
    }
}

} // verus!

verus! {

/// The note a partial Snapshot's sentence ends with.
pub open spec fn prose_failure_note() -> Seq<char> {
    " (Note: some metrics failed to fetch and are not reflected here.)"@
}

/// The warning a partial Snapshot's terminal Report ends with.
pub open spec fn terminal_failure_banner() -> Seq<char> {
    "\n⚠ partial snapshot: some metrics failed to fetch (see FAILED rows); exit code 1.\n"@
}

/// The grant-ready sentence before any failure note.
pub open spec fn prose_sentence(s: Snapshot) -> Seq<char> {
    let date = crate::clock::date_text(s.created_at);
    let clauses = prose_clauses(snapshot_metrics(s), snapshot_downloads(s));
    let head = if clauses.len() == 0 {
        "As of "@ + date + ", no headline metrics were available for this Snapshot."@
    } else {
        "As of "@ + date + ", this project "@ + and_list(clauses) + "."@
    };
    match best_citation(snapshot_metrics(s)) {
        Some((_, _, Some(n))) => head + " "@ + n,
        _ => head,
    }
}

/// The prose never hides a partial Snapshot and never fakes a number: it
/// opens "As of <date>, ", carries the failure note exactly when a fetch
/// failed, and with no headline Metric says that none was available
/// instead of citing a figure.
pub proof fn law_prose_flags_a_partial_snapshot(s: Snapshot)
    ensures
        crate::model::snapshot_has_failures(s.results@) ==> prose_text(s) == prose_sentence(s) + prose_failure_note(),
        !crate::model::snapshot_has_failures(s.results@) ==> prose_text(s) == prose_sentence(s),
        prose_sentence(s).take(("As of "@ + crate::clock::date_text(s.created_at) + ", "@).len() as int) == "As of "@
            + crate::clock::date_text(s.created_at) + ", "@,
        prose_clauses(snapshot_metrics(s), snapshot_downloads(s)).len() == 0 ==> prose_sentence(s) == "As of "@
            + crate::clock::date_text(s.created_at) + ", no headline metrics were available for this Snapshot."@,
{
    let date = crate::clock::date_text(s.created_at);
    let lead = "As of "@ + date + ", "@;
    let clauses = prose_clauses(snapshot_metrics(s), snapshot_downloads(s));
    let head = if clauses.len() == 0 {
        "As of "@ + date + ", no headline metrics were available for this Snapshot."@
    } else {
        "As of "@ + date + ", this project "@ + and_list(clauses) + "."@
    };
    assert(head.take(lead.len() as int) =~= lead && head.len() >= lead.len()) by {
        reveal_strlit(", ");
        reveal_strlit(", no headline metrics were available for this Snapshot.");
        reveal_strlit("no headline metrics were available for this Snapshot.");
        reveal_strlit(", this project ");
        reveal_strlit("this project ");
        if clauses.len() == 0 {
            assert(head =~= lead + "no headline metrics were available for this Snapshot."@);
        } else {
            assert(head =~= lead + "this project "@ + and_list(clauses) + "."@);
        }
    }
    assert(head.len() >= lead.len());
    let sentence = prose_sentence(s);
    assert(sentence.take(lead.len() as int) =~= lead) by {
        match best_citation(snapshot_metrics(s)) {
            Some((_, _, Some(n))) => {
                assert(sentence =~= head + " "@ + n);
                assert(sentence.take(lead.len() as int) =~= head.take(lead.len() as int));
            },
            _ => {},
        }
    }
}

/// An N/A or FAILED result always shows as an `N/A` or `FAILED` row (never a
/// number) under its Identity, in its Provider's Category.
pub proof fn lemma_outcome_row_shown(results: Seq<FetchResult>, k: int)
    requires
        0 <= k < results.len(),
    ensures
        results[k].outcome matches Outcome::NotApplicable { note } ==> rows_spec(results, results[k].identity@, results[k].category).contains(
            outcome_row(results[k].provider@, "N/A"@, note@),
        ),
        results[k].outcome matches Outcome::Failed { error } ==> rows_spec(results, results[k].identity@, results[k].category).contains(
            outcome_row(results[k].provider@, "FAILED"@, error@),
        ),
    decreases results.len(),
{
    let r = results[k];
    let id = r.identity@;
    let c = r.category;
    let pre = results.drop_last();
    let a = rows_spec(pre, id, c);
    let tail = if results.last().identity@ == id { result_rows(results.last(), c) } else { seq![] };
    assert(rows_spec(results, id, c) == a + tail);
    if k == results.len() - 1 {
        match r.outcome {
            Outcome::NotApplicable { note } => {
                assert((a + tail)[a.len() as int] == outcome_row(r.provider@, "N/A"@, note@));
            },
            Outcome::Failed { error } => {
                assert((a + tail)[a.len() as int] == outcome_row(r.provider@, "FAILED"@, error@));
            },
            _ => {},
        }
    } else {
        assert(pre[k] == r);
        lemma_outcome_row_shown(pre, k);
        match r.outcome {
            Outcome::NotApplicable { note } => {
                let t = choose|t: int| 0 <= t < a.len() && a[t] == outcome_row(r.provider@, "N/A"@, note@);
                assert((a + tail)[t] == a[t]);
            },
            Outcome::Failed { error } => {
                let t = choose|t: int| 0 <= t < a.len() && a[t] == outcome_row(r.provider@, "FAILED"@, error@);
                assert((a + tail)[t] == a[t]);
            },
            _ => {},
        }
    }
}

/// The terminal Report before any partial-Snapshot warning.
pub open spec fn terminal_body(s: Snapshot) -> Seq<char> {
    let rs = crate::rollup::rollups(snapshot_downloads(s));
    let ns = snapshot_notices(s);
    let pn = notes_of(s.results@);
    "boast "@ + s.tool_version@ + " — as of "@ + crate::clock::rfc3339_text(s.created_at.unix_nanos as int, s.created_at.offset_secs as int) + "\n"@
        + term_identities(s, s.identities@)
        + framed(rs, "\n═══ Downloads Rollup (derived — see channels above) ═══\n"@, rollup_lines(rs, "  "@, " "@))
        + framed(ns, "\n── Notices ──\n"@, notice_lines(ns, "  "@))
        + framed(pn, "\n── Provider Notes ──\n"@, term_note_lines(pn))
}

/// The terminal Report flags a partial Snapshot and never shows a missing
/// value as a number: it ends with the partial-snapshot warning exactly when
/// a fetch failed (and otherwise is the Report alone), and every N/A or
/// FAILED result is an `N/A` or `FAILED` row among its Identity's rows in its
/// Provider's Category.
pub proof fn law_terminal_flags_a_partial_snapshot(s: Snapshot)
    ensures
        crate::model::snapshot_has_failures(s.results@) ==> terminal_text(s) == terminal_body(s) + terminal_failure_banner(),
        !crate::model::snapshot_has_failures(s.results@) ==> terminal_text(s) == terminal_body(s),
        forall|k: int| 0 <= k < s.results@.len() && (#[trigger] s.results@[k]).outcome is NotApplicable ==> rows_spec(
            s.results@,
            s.results@[k].identity@,
            s.results@[k].category,
        ).contains(outcome_row(s.results@[k].provider@, "N/A"@, s.results@[k].outcome->note@)),
        forall|k: int| 0 <= k < s.results@.len() && (#[trigger] s.results@[k]).outcome is Failed ==> rows_spec(
            s.results@,
            s.results@[k].identity@,
            s.results@[k].category,
        ).contains(outcome_row(s.results@[k].provider@, "FAILED"@, s.results@[k].outcome->error@)),
{
    assert forall|k: int| 0 <= k < s.results@.len() && (#[trigger] s.results@[k]).outcome is NotApplicable implies rows_spec(
        s.results@,
        s.results@[k].identity@,
        s.results@[k].category,
    ).contains(outcome_row(s.results@[k].provider@, "N/A"@, s.results@[k].outcome->note@)) by {
        lemma_outcome_row_shown(s.results@, k);
    }
    assert forall|k: int| 0 <= k < s.results@.len() && (#[trigger] s.results@[k]).outcome is Failed implies rows_spec(
        s.results@,
        s.results@[k].identity@,
        s.results@[k].category,
    ).contains(outcome_row(s.results@[k].provider@, "FAILED"@, s.results@[k].outcome->error@)) by {
        lemma_outcome_row_shown(s.results@, k);
    }
    if crate::model::snapshot_has_failures(s.results@) {
        assert(terminal_text(s) =~= terminal_body(s) + terminal_failure_banner());
    } else {
        assert(terminal_text(s) =~= terminal_body(s) + seq![]);
    }
}

} // verus!

verus! {

/// `m` is a `citations` Metric of the Citations Category with a count.
pub open spec fn is_citation_count(m: MetricView) -> bool {
    m.category == Category::Citations && m.name == "citations"@ && m.value is Count
}

/// The headline citation count is the largest: when there is one, it is at
/// least the count of every `citations` Metric of the Citations Category
/// among `ms`, and it is the count (and Provider) of one of them; there is
/// none exactly when no such Metric has a count.
pub proof fn law_headline_citations_is_the_largest(ms: Seq<MetricView>)
    ensures
        best_citation(ms) is None <==> (forall|k: int| 0 <= k < ms.len() ==> !is_citation_count(#[trigger] ms[k])),
        best_citation(ms) matches Some((c, p, _)) ==> {
            &&& forall|k: int| 0 <= k < ms.len() && is_citation_count(#[trigger] ms[k]) ==> ms[k].value->Count_0 <= c
            &&& exists|k: int| 0 <= k < ms.len() && is_citation_count(#[trigger] ms[k]) && ms[k].value->Count_0 == c
                && ms[k].provider == p
        },
    decreases ms.len(),
{
    if ms.len() > 0 {
        let pre = ms.drop_last();
        law_headline_citations_is_the_largest(pre);
        let m = ms.last();
        let last = ms.len() - 1;
        assert(ms[last] == m);
        assert forall|k: int| 0 <= k < pre.len() implies pre[k] == ms[k] by {}
        if is_citation_count(m) {
            assert(citation_candidate(m) is Some);
        } else {
            assert(citation_candidate(m) is None);
        }
        match best_citation(ms) {
            Some((c, p, _)) => {
                assert forall|k: int| 0 <= k < ms.len() && is_citation_count(#[trigger] ms[k]) implies ms[k].value->Count_0 <= c by {
                    if k < last {
                        assert(pre[k] == ms[k]);
                        assert(is_citation_count(pre[k]));
                    }
                }
                if best_citation(ms) == best_citation(pre) {
                    let k = choose|k: int| 0 <= k < pre.len() && is_citation_count(#[trigger] pre[k]) && pre[k].value->Count_0 == c
                        && pre[k].provider == p;
                    assert(ms[k] == pre[k]);
                } else {
                    assert(is_citation_count(ms[last]));
                }
            },
            None => {
                assert forall|k: int| 0 <= k < ms.len() implies !is_citation_count(#[trigger] ms[k]) by {
                    if k < last {
                        assert(pre[k] == ms[k]);
                    }
                }
            },
        }
        if forall|k: int| 0 <= k < ms.len() ==> !is_citation_count(#[trigger] ms[k]) {
            assert forall|k: int| 0 <= k < pre.len() implies !is_citation_count(#[trigger] pre[k]) by {
                assert(ms[k] == pre[k]);
            }
            assert(!is_citation_count(ms[last]));
        }
    }
}

} // verus!
