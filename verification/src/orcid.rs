//! Expands an ORCID iD into the Paper Identities it has claimed, from ORCID's
//! public works API. An ORCID is an input expander, not an Identity: this
//! module only produces `PaperId` values for `init --orcid` to write into a
//! Manifest; no Provider ever sees an ORCID.

use vstd::prelude::*;

use crate::identity::{IdentityView, OrcidId, PaperId};
use crate::model::{opt_view, Timestamp};
use crate::text::{
    chars_eq, chars_of, concat2, dec, dec_signed, i64_text, is_digit, lower, lower_chars, owned, push_char,
    push_str, push_u64, str_eq, u64_text,
};
use crate::transport::{fetched_view, header_pair_views, transport_error_text, HttpResponse, Transport, TransportError, TransportErrorView};

verus! {

/// One work of an ORCID record: identified by a DOI or PMID (and so able to
/// become a Paper Identity), or unidentified — a poster, talk or dataset that
/// is skipped, never guessed at.
#[derive(Debug, Clone, PartialEq, Eq)]
pub enum OrcidWork {
    Identified { id: PaperId },
    Unidentified { title: Option<String>, year: Option<i32>, kind: Option<String> },
}

pub enum WorkView {
    Identified(IdentityView),
    Unidentified(Option<Seq<char>>, Option<i32>, Option<Seq<char>>),
}

pub open spec fn paper_view(p: PaperId) -> IdentityView {
    match p {
        PaperId::Doi(d) => IdentityView::Doi(d@),
        PaperId::Pmid(m) => IdentityView::Pmid(m@),
    }
}

impl View for OrcidWork {
    type V = WorkView;

    open spec fn view(&self) -> WorkView {
        match self {
            OrcidWork::Identified { id } => WorkView::Identified(paper_view(*id)),
            OrcidWork::Unidentified { title, year, kind } => WorkView::Unidentified(opt_view(*title), *year, opt_view(*kind)),
        }
    }
}

/// Every work of one ORCID record (ORCID's own dedup groups), in the order
/// ORCID returned them.
#[derive(Debug, Clone, Default, PartialEq, Eq)]
pub struct OrcidExpansion {
    pub works: Vec<OrcidWork>,
}

pub open spec fn identified_of(ws: Seq<OrcidWork>) -> Seq<PaperId>
    decreases ws.len(),
{
    if ws.len() == 0 {
        seq![]
    } else {
        let rest = identified_of(ws.drop_last());
        match ws.last() {
            OrcidWork::Identified { id } => rest.push(id),
            _ => rest,
        }
    }
}

pub open spec fn unidentified_of(ws: Seq<OrcidWork>) -> Seq<OrcidWork>
    decreases ws.len(),
{
    if ws.len() == 0 {
        seq![]
    } else {
        let rest = unidentified_of(ws.drop_last());
        match ws.last() {
            OrcidWork::Unidentified { .. } => rest.push(ws.last()),
            _ => rest,
        }
    }
}

impl OrcidExpansion {
    /// The Paper Identities of the identified works, in record order.
    pub fn identified(&self) -> (r: Vec<&PaperId>)
        ensures
            r@.map_values(|p: &PaperId| *p) == identified_of(self.works@),
    {
        let mut r: Vec<&PaperId> = Vec::new();
        let mut i: usize = 0;
        while i < self.works.len()
            invariant
                i <= self.works.len(),
                r@.map_values(|p: &PaperId| *p) == identified_of(self.works@.take(i as int)),
            decreases self.works.len() - i,
        {
            assert(self.works@.take(i + 1).drop_last() =~= self.works@.take(i as int));
            match &self.works[i] {
                OrcidWork::Identified { id } => {
                    let ghost before = r@;
                    r.push(id);
                    assert(r@.map_values(|p: &PaperId| *p) =~= before.map_values(|p: &PaperId| *p).push(*id));
                },
                OrcidWork::Unidentified { .. } => {},
            }
            i = i + 1;
        }
        assert(self.works@.take(self.works.len() as int) =~= self.works@);
        r
    }

    /// The unidentified works, in record order.
    pub fn unidentified(&self) -> (r: Vec<&OrcidWork>)
        ensures
            r@.map_values(|w: &OrcidWork| *w) == unidentified_of(self.works@),
    {
        let mut r: Vec<&OrcidWork> = Vec::new();
        let mut i: usize = 0;
        while i < self.works.len()
            invariant
                i <= self.works.len(),
                r@.map_values(|w: &OrcidWork| *w) == unidentified_of(self.works@.take(i as int)),
            decreases self.works.len() - i,
        {
            assert(self.works@.take(i + 1).drop_last() =~= self.works@.take(i as int));
            let w = &self.works[i];
            match w {
                OrcidWork::Unidentified { .. } => {
                    let ghost before = r@;
                    r.push(w);
                    assert(r@.map_values(|x: &OrcidWork| *x) =~= before.map_values(|x: &OrcidWork| *x).push(*w));
                },
                OrcidWork::Identified { .. } => {},
            }
            i = i + 1;
        }
        assert(self.works@.take(self.works.len() as int) =~= self.works@);
        r
    }
}

/// Why an ORCID record could not be expanded.
#[derive(Debug)]
pub enum OrcidError {
    Transport(TransportError),
    NotFound(OrcidId),
    Status { orcid: OrcidId, status: u16 },
    /// The record could not be read; `source` says why.
    Parse { orcid: OrcidId, source: String },
}

pub enum OrcidErrorView {
    Transport(TransportErrorView),
    NotFound(Seq<char>),
    Status(Seq<char>, u16),
    Parse(Seq<char>, Seq<char>),
}

impl View for OrcidError {
    type V = OrcidErrorView;

    open spec fn view(&self) -> OrcidErrorView {
        match self {
            OrcidError::Transport(e) => OrcidErrorView::Transport(e@),
            OrcidError::NotFound(o) => OrcidErrorView::NotFound(o@),
            OrcidError::Status { orcid, status } => OrcidErrorView::Status(orcid@, *status),
            OrcidError::Parse { orcid, source } => OrcidErrorView::Parse(orcid@, source@),
        }
    }
}

pub open spec fn orcid_error_text(e: OrcidErrorView) -> Seq<char> {
    match e {
        OrcidErrorView::Transport(t) => transport_error_text(t),
        OrcidErrorView::NotFound(o) => "no ORCID record found for "@ + o,
        OrcidErrorView::Status(o, s) => "ORCID responded with status "@ + dec(s as nat) + " for "@ + o,
        OrcidErrorView::Parse(o, src) => "unexpected ORCID response for "@ + o + ": "@ + src,
    }
}

impl OrcidError {
    pub fn message(&self) -> (r: String)
        ensures
            r@ == orcid_error_text(self@),
    {
        match self {
            OrcidError::Transport(e) => e.message(),
            OrcidError::NotFound(o) => concat2("no ORCID record found for ", o.as_str()),
            OrcidError::Status { orcid, status } => {
                let mut s = owned("ORCID responded with status ");
                push_u64(&mut s, *status as u64);
                push_str(&mut s, " for ");
                push_str(&mut s, orcid.as_str());
                s
            },
            OrcidError::Parse { orcid, source } => {
                let mut s = concat2("unexpected ORCID response for ", orcid.as_str());
                push_str(&mut s, ": ");
                push_str(&mut s, source.as_str());
                s
            },
        }
    }
}

pub open spec fn works_url_spec(orcid: Seq<char>) -> Seq<char> {
    "https://pub.orcid.org/v3.0/"@ + orcid + "/works"@
}

/// The works endpoint of an ORCID record.
pub fn works_url(orcid: &OrcidId) -> (r: String)
    ensures
        r@ == works_url_spec(orcid@),
{
    let mut u = owned("https://pub.orcid.org/v3.0/");
    push_str(&mut u, orcid.as_str());
    push_str(&mut u, "/works");
    u
}

pub open spec fn works_settled(orcid: Seq<char>, fetched: Result<crate::transport::HttpResponseView, TransportErrorView>) -> Result<crate::transport::HttpResponseView, OrcidErrorView> {
    match fetched {
        Err(e) => Err(OrcidErrorView::Transport(e)),
        Ok(resp) => if resp.status == 200 {
            Ok(resp)
        } else if resp.status == 404 {
            Err(OrcidErrorView::NotFound(orcid))
        } else {
            Err(OrcidErrorView::Status(orcid, resp.status))
        },
    }
}

/// The first decision on the works endpoint's reply: a transport failure,
/// a missing record (404), or any other status than 200 is an error.
pub fn settle_works(orcid: &OrcidId, fetched: Result<HttpResponse, TransportError>) -> (r: Result<HttpResponse, OrcidError>)
    ensures
        match (r, works_settled(orcid@, fetched_view(fetched))) {
            (Ok(resp), Ok(v)) => resp@ == v,
            (Err(e), Err(v)) => e@ == v,
            _ => false,
        },
{
    match fetched {
        Err(e) => Err(OrcidError::Transport(e)),
        Ok(resp) => if resp.status == 200 {
            Ok(resp)
        } else if resp.status == 404 {
            Err(OrcidError::NotFound(orcid.duplicate()))
        } else {
            Err(OrcidError::Status { orcid: orcid.duplicate(), status: resp.status })
        },
    }
}

/// The one request header of a works lookup: ask for JSON.
pub open spec fn json_accept() -> Seq<(Seq<char>, Seq<char>)> {
    seq![("Accept"@, "application/json"@)]
}

/// A works lookup's result as plain values.
pub open spec fn works_view(r: Result<HttpResponse, OrcidError>) -> Result<crate::transport::HttpResponseView, OrcidErrorView> {
    match r {
        Ok(resp) => Ok(resp@),
        Err(e) => Err(e@),
    }
}

/// Requests `orcid`'s works through `transport`, asking for JSON (ORCID
/// answers in XML otherwise): the 200 reply to read, or the error a refusal
/// stands for.
pub fn request_works<T: Transport>(orcid: &OrcidId, transport: &mut T) -> (r: Result<HttpResponse, OrcidError>)
    ensures
        exists|f: Result<crate::transport::HttpResponseView, TransportErrorView>|
            #![trigger old(transport).replies(final(transport), works_url_spec(orcid@), json_accept(), f)]
            old(transport).replies(final(transport), works_url_spec(orcid@), json_accept(), f)
                && works_view(r) == works_settled(orcid@, f),
{
    let url = works_url(orcid);
    let accept: [(&str, &str); 1] = [("Accept", "application/json")];
    proof {
        assert(header_pair_views(accept@) =~= json_accept());
    }
    let fetched = transport.get_with_headers(url.as_str(), &accept);
    let ghost fv = fetched_view(fetched);
    let r = match settle_works(orcid, fetched) {
        Ok(resp) => Ok(resp),
        Err(e) => Err(e),
    };
    proof {
        assert(works_view(r) == works_settled(orcid@, fv));
    }
    r
}

/// One external identifier of a work group.
pub struct OrcidExternalId {
    pub id_type: String,
    pub value: String,
    pub relationship: Option<String>,
}

/// What a work summary says of a work.
pub struct OrcidWorkSummary {
    pub title: Option<String>,
    pub kind: Option<String>,
    /// `publication-date.year.value`.
    pub year: Option<String>,
}

/// One ORCID dedup group: the work's external identifiers and its summaries.
pub struct OrcidGroup {
    pub external_ids: Vec<OrcidExternalId>,
    pub summaries: Vec<OrcidWorkSummary>,
}

/// Only an identifier whose relationship is `self` names the work itself;
/// anything else (an ISSN `part-of` a journal) is context.
pub open spec fn names_itself(e: OrcidExternalId) -> bool {
    e.relationship matches Some(r) && r@ == "self"@
}

/// The value of the first `self` identifier whose type is `ty`, compared
/// ASCII-case-insensitively (`ty` is lower-case).
pub open spec fn first_self_id(ids: Seq<OrcidExternalId>, ty: Seq<char>) -> Option<Seq<char>>
    decreases ids.len(),
{
    if ids.len() == 0 {
        None
    } else if names_itself(ids[0]) && lower(ids[0].id_type@) == ty {
        Some(ids[0].value@)
    } else {
        first_self_id(ids.drop_first(), ty)
    }
}

pub open spec fn digits_of(s: Seq<char>) -> bool {
    forall|k: int| 0 <= k < s.len() ==> is_digit(#[trigger] s[k])
}

/// `str::parse::<i32>`: an optional sign, then at least one digit, in range.
pub open spec fn parse_i32_spec(s: Seq<char>) -> Option<i32> {
    let neg = s.len() > 0 && s[0] == '-';
    let body = if s.len() > 0 && (s[0] == '-' || s[0] == '+') { s.drop_first() } else { s };
    if body.len() == 0 || !digits_of(body) {
        None
    } else {
        let v = crate::text::digits_value(body) as int;
        let x = if neg { -v } else { v };
        if i32::MIN <= x && x <= i32::MAX {
            Some(x as i32)
        } else {
            None
        }
    }
}

pub open spec fn summary_work(s: Option<OrcidWorkSummary>) -> WorkView {
    match s {
        Some(w) => WorkView::Unidentified(
            opt_view(w.title),
            match w.year {
                Some(y) => parse_i32_spec(y@),
                None => None,
            },
            opt_view(w.kind),
        ),
        None => WorkView::Unidentified(None, None, None),
    }
}

/// One group as a single work: a `self` DOI is preferred to a `self` PMID
/// (more Providers key off DOI); with neither, the first summary describes
/// the unidentified work.
pub open spec fn classify_spec(g: OrcidGroup) -> WorkView {
    match first_self_id(g.external_ids@, "doi"@) {
        Some(d) => WorkView::Identified(IdentityView::Doi(d)),
        None => match first_self_id(g.external_ids@, "pmid"@) {
            Some(p) => WorkView::Identified(IdentityView::Pmid(p)),
            None => summary_work(if g.summaries@.len() > 0 { Some(g.summaries@[0]) } else { None }),
        },
    }
}

fn find_self_id(ids: &Vec<OrcidExternalId>, ty: &str) -> (r: Option<String>)
    ensures
        opt_view(r) == first_self_id(ids@, ty@),
{
    let tyv = chars_of(ty);
    let mut i: usize = 0;
    assert(ids@.skip(0) =~= ids@);
    while i < ids.len()
        invariant
            i <= ids.len(),
            tyv@ == ty@,
            first_self_id(ids@, ty@) == first_self_id(ids@.skip(i as int), ty@),
        decreases ids.len() - i,
    {
        assert(ids@.skip(i as int).drop_first() =~= ids@.skip(i + 1));
        let e = &ids[i];
        let is_self = match &e.relationship {
            Some(r) => str_eq(r.as_str(), "self"),
            None => false,
        };
        if is_self && chars_eq(&lower_chars(&chars_of(e.id_type.as_str())), &tyv) {
            return Some(e.value.clone());
        }
        i = i + 1;
    }
    None
}

/// `str::parse::<i32>`.
pub fn parse_i32(s: &str) -> (r: Option<i32>)
    ensures
        r == parse_i32_spec(s@),
{
    let v = chars_of(s);
    let neg = v.len() > 0 && v[0] == '-';
    let start: usize = if v.len() > 0 && (v[0] == '-' || v[0] == '+') { 1 } else { 0 };
    let ghost body = if s@.len() > 0 && (s@[0] == '-' || s@[0] == '+') { s@.drop_first() } else { s@ };
    assert(body =~= v@.subrange(start as int, v@.len() as int));
    if start == v.len() {
        return None;
    }
    let cap: u64 = 2147483649;
    let mut value: u64 = 0;
    let mut i: usize = start;
    while i < v.len()
        invariant
            start <= i <= v.len(),
            v@ == s@,
            body == v@.subrange(start as int, v@.len() as int),
            body == (if s@.len() > 0 && (s@[0] == '-' || s@[0] == '+') { s@.drop_first() } else { s@ }),
            neg == (s@.len() > 0 && s@[0] == '-'),
            digits_of(v@.subrange(start as int, i as int)),
            value == if crate::text::digits_value(v@.subrange(start as int, i as int)) > cap as nat {
                cap as nat
            } else {
                crate::text::digits_value(v@.subrange(start as int, i as int))
            },
            cap == 2147483649,
        decreases v.len() - i,
    {
        let c = v[i];
        if !('0' <= c && c <= '9') {
            assert(body[i - start] == c);
            assert(!is_digit(body[i - start]));
            assert(!digits_of(body));
            assert(parse_i32_spec(s@) is None);
            return None;
        }
        let d: u64 = (c as u32 - '0' as u32) as u64;
        assert(v@.subrange(start as int, i + 1).drop_last() =~= v@.subrange(start as int, i as int));
        assert(v@.subrange(start as int, i + 1).last() == c);
        let next = value * 10 + d;
        value = if next > cap { cap } else { next };
        i = i + 1;
    }
    let x: i64 = if neg { -(value as i64) } else { value as i64 };
    if -2147483648 <= x && x <= 2147483647 {
        Some(x as i32)
    } else {
        None
    }
}

fn summary_as_work(s: Option<&OrcidWorkSummary>) -> (r: OrcidWork)
    ensures
        r@ == summary_work(match s { Some(w) => Some(*w), None => None }),
{
    match s {
        Some(w) => OrcidWork::Unidentified {
            title: crate::model::copy_opt(&w.title),
            year: match &w.year {
                Some(y) => parse_i32(y.as_str()),
                None => None,
            },
            kind: crate::model::copy_opt(&w.kind),
        },
        None => OrcidWork::Unidentified { title: None, year: None, kind: None },
    }
}

/// Classifies one ORCID dedup group into a single work.
pub fn classify_group(group: &OrcidGroup) -> (r: OrcidWork)
    ensures
        r@ == classify_spec(*group),
{
    if let Some(d) = find_self_id(&group.external_ids, "doi") {
        return OrcidWork::Identified { id: PaperId::Doi(d) };
    }
    if let Some(p) = find_self_id(&group.external_ids, "pmid") {
        return OrcidWork::Identified { id: PaperId::Pmid(p) };
    }
    let first = if group.summaries.len() > 0 { Some(&group.summaries[0]) } else { None };
    summary_as_work(first)
}

/// The expansion of a record's groups, one work per group, in order.
pub fn expansion_of(groups: &Vec<OrcidGroup>) -> (r: OrcidExpansion)
    ensures
        r.works@.len() == groups@.len(),
        forall|k: int| 0 <= k < groups@.len() ==> (#[trigger] r.works@[k])@ == classify_spec(groups@[k]),
{
    let mut works: Vec<OrcidWork> = Vec::new();
    let mut i: usize = 0;
    while i < groups.len()
        invariant
            i <= groups.len(),
            works@.len() == i,
            forall|k: int| 0 <= k < i ==> (#[trigger] works@[k])@ == classify_spec(groups@[k]),
        decreases groups.len() - i,
    {
        works.push(classify_group(&groups[i]));
        i = i + 1;
    }
    OrcidExpansion { works }
}

pub open spec fn plural(n: nat) -> Seq<char> {
    if n == 1 { seq![] } else { "s"@ }
}

fn plural_suffix(n: usize) -> (r: &'static str)
    ensures
        r@ == plural(n as nat),
{
    proof {
        reveal_strlit("");
    }
    if n == 1 { "" } else { "s" }
}

pub open spec fn block_head(n: nat) -> Seq<char> {
    "# ─── "@ + dec(n) + " work"@ + plural(n) + " with no DOI or PMID in your ORCID record ───\n"@
        + "# These can't be measured as-is. If you know the DOI, uncomment the block and\n"@
        + "# fill it in — and consider adding it to your ORCID record so it's there next time.\n"@
}

pub open spec fn work_block(w: OrcidWork) -> Seq<char> {
    match w {
        OrcidWork::Unidentified { title, year, kind } =>
            "#\n# \""@
                + match title { Some(t) => t@, None => "untitled work"@ }
                + "\" ("@
                + match year { Some(y) => dec_signed(y as int), None => "n.d."@ }
                + ", "@
                + match kind { Some(k) => k@, None => "unknown"@ }
                + ")\n# [[project]]\n# identities = [\"doi:\"]\n"@,
        OrcidWork::Identified { .. } => seq![],
    }
}

pub open spec fn work_blocks(ws: Seq<&OrcidWork>) -> Seq<char>
    decreases ws.len(),
{
    if ws.len() == 0 {
        seq![]
    } else {
        work_blocks(ws.drop_last()) + work_block(*ws.last())
    }
}

/// Commented-out `[[project]]` blocks for every unidentified work, so that a
/// user who knows the missing DOI can uncomment and fill it in. Every line is
/// a comment, so the block is inert to the Manifest parser; there is never a
/// placeholder identity.
pub fn render_unidentified_block(unidentified: &[&OrcidWork]) -> (r: String)
    ensures
        r@ == block_head(unidentified@.len() as nat) + work_blocks(unidentified@),
{
    let n = unidentified.len();
    let mut out = owned("# ─── ");
    push_u64(&mut out, n as u64);
    push_str(&mut out, " work");
    push_str(&mut out, plural_suffix(n));
    push_str(&mut out, " with no DOI or PMID in your ORCID record ───\n");
    push_str(&mut out, "# These can't be measured as-is. If you know the DOI, uncomment the block and\n");
    push_str(&mut out, "# fill it in — and consider adding it to your ORCID record so it's there next time.\n");
    let ghost head = out@;
    assert(head == block_head(n as nat));
    let mut i: usize = 0;
    while i < n
        invariant
            i <= n,
            n == unidentified@.len(),
            out@ == head + work_blocks(unidentified@.take(i as int)),
        decreases n - i,
    {
        assert(unidentified@.take(i + 1).drop_last() =~= unidentified@.take(i as int));
        let ghost before = out@;
        match unidentified[i] {
            OrcidWork::Unidentified { title, year, kind } => {
                push_str(&mut out, "#\n# \"");
                match title {
                    Some(t) => push_str(&mut out, t.as_str()),
                    None => push_str(&mut out, "untitled work"),
                }
                push_str(&mut out, "\" (");
                match year {
                    Some(y) => {
                        let t = i64_text(*y as i64);
                        push_str(&mut out, t.as_str());
                    },
                    None => push_str(&mut out, "n.d."),
                }
                push_str(&mut out, ", ");
                match kind {
                    Some(k) => push_str(&mut out, k.as_str()),
                    None => push_str(&mut out, "unknown"),
                }
                push_str(&mut out, ")\n# [[project]]\n# identities = [\"doi:\"]\n");
                assert(out@ =~= before + work_block(*unidentified@[i as int]));
            },
            OrcidWork::Identified { .. } => {
                assert(work_block(*unidentified@[i as int]) =~= seq![]);
                assert(out@ =~= before + work_block(*unidentified@[i as int]));
            },
        }
        i = i + 1;
    }
    assert(unidentified@.take(n as int) =~= unidentified@);
    out
}

pub open spec fn header_text(flags: Seq<char>, date: Seq<char>, total: nat, skipped: nat, provider_count: nat) -> Seq<char> {
    "# Generated by `boast init "@ + flags + "` on "@ + date + " — "@ + dec(total) + " work"@ + plural(total) + ".\n"@
        + "# "@ + dec((total - skipped) as nat) + " written below; "@ + dec(skipped) + " skipped (no DOI/PMID).\n"@
        + "# Re-run with --include-unidentified to list the skipped works for completion.\n"@
        + "# Each remaining work costs ~"@ + dec(provider_count) + " API requests when you run `boast about`.\n"@
}

/// `--orcid <iD>` for each iD, separated by spaces.
pub open spec fn orcid_flags(orcids: Seq<OrcidId>) -> Seq<char>
    decreases orcids.len(),
{
    if orcids.len() == 0 {
        seq![]
    } else if orcids.len() == 1 {
        "--orcid "@ + orcids[0]@
    } else {
        orcid_flags(orcids.drop_last()) + " --orcid "@ + orcids.last()@
    }
}

/// The header comment of a Manifest generated by `init --orcid`: every
/// ORCID expanded, the total and skipped counts, and the per-work request
/// cost. `total` and `skipped` are summed over every ORCID given.
pub fn render_header(orcids: &[OrcidId], total: usize, skipped: usize, generated_at: Timestamp, provider_count: usize) -> (r: String)
    requires
        skipped <= total,
    ensures
        r@ == header_text(
            orcid_flags(orcids@),
            crate::clock::date_text(generated_at),
            total as nat,
            skipped as nat,
            provider_count as nat,
        ),
{
    let mut flags = String::new();
    let mut i: usize = 0;
    while i < orcids.len()
        invariant
            i <= orcids.len(),
            flags@ == orcid_flags(orcids@.take(i as int)),
        decreases orcids.len() - i,
    {
        assert(orcids@.take(i + 1).drop_last() =~= orcids@.take(i as int));
        let ghost prev = flags@;
        if i > 0 {
            push_str(&mut flags, " --orcid ");
        } else {
            push_str(&mut flags, "--orcid ");
        }
        push_str(&mut flags, orcids[i].as_str());
        assert(orcids@.take(i + 1).last() == orcids@[i as int]);
        i = i + 1;
    }
    assert(orcids@.take(orcids.len() as int) =~= orcids@);
    let date = crate::clock::local_date(generated_at);
    let mut out = owned("# Generated by `boast init ");
    push_str(&mut out, flags.as_str());
    push_str(&mut out, "` on ");
    push_str(&mut out, date.as_str());
    push_str(&mut out, " — ");
    push_u64(&mut out, total as u64);
    push_str(&mut out, " work");
    push_str(&mut out, plural_suffix(total));
    push_str(&mut out, ".\n");
    push_str(&mut out, "# ");
    push_u64(&mut out, (total - skipped) as u64);
    push_str(&mut out, " written below; ");
    push_u64(&mut out, skipped as u64);
    push_str(&mut out, " skipped (no DOI/PMID).\n");
    push_str(&mut out, "# Re-run with --include-unidentified to list the skipped works for completion.\n");
    push_str(&mut out, "# Each remaining work costs ~");
    push_u64(&mut out, provider_count as u64);
    push_str(&mut out, " API requests when you run `boast about`.\n");
    out
}

} // verus!
