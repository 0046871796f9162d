//! The Manifest: a committable, secret-free list of one or more Projects for
//! repeatable or batch `boast about` runs. It holds identities and an
//! optional Cohort topic only; secrets are read from the environment, never
//! from a Manifest. `init` and `about --save` generate one from a run's
//! identities. Its TOML reading and writing live with the program.

use vstd::prelude::*;

use crate::identity::{
    canonical_text, error_message, identity_parse, ErrorView, Identity, IdentityError, IdentityView, PaperId,
    Project,
};
use crate::model::opt_view;
use crate::orcid::paper_view;
use crate::text::{concat2, dec, lemma_map_push, lemma_take_push, owned, push_str, push_u64};

verus! {

/// A Manifest is one or more Projects, each its own `[[project]]` table.
#[derive(Debug, Clone, PartialEq)]
pub struct Manifest {
    pub projects: Vec<ManifestProject>,
}

/// One Project's worth of Manifest settings.
#[derive(Debug, Clone, PartialEq)]
pub struct ManifestProject {
    /// Identity strings in the command-line syntax, e.g. `doi:10.x/y`,
    /// `github:owner/name`, `crates:boast`.
    pub identities: Vec<String>,
    /// GitHub topic to rank repository Identities within.
    pub topic: Option<String>,
}

pub struct ProjectEntryView {
    pub identities: Seq<Seq<char>>,
    pub topic: Option<Seq<char>>,
}

impl View for ManifestProject {
    type V = ProjectEntryView;

    open spec fn view(&self) -> ProjectEntryView {
        ProjectEntryView { identities: self.identities@.map_values(|s: String| s@), topic: opt_view(self.topic) }
    }
}

impl View for Manifest {
    type V = Seq<ProjectEntryView>;

    open spec fn view(&self) -> Seq<ProjectEntryView> {
        self.projects@.map_values(|p: ManifestProject| p@)
    }
}

#[derive(Debug)]
pub enum ManifestError {
    /// The TOML text could not be read as a Manifest.
    Parse(String),
    /// The Manifest could not be written as TOML.
    Serialize(String),
    /// Entry `index` (0-based) holds an identifier that does not parse.
    Identity { index: usize, source: IdentityError },
    Empty,
}

pub enum ManifestErrorView {
    Parse(Seq<char>),
    Serialize(Seq<char>),
    Identity(nat, ErrorView),
    Empty,
}

impl View for ManifestError {
    type V = ManifestErrorView;

    open spec fn view(&self) -> ManifestErrorView {
        match self {
            ManifestError::Parse(s) => ManifestErrorView::Parse(s@),
            ManifestError::Serialize(s) => ManifestErrorView::Serialize(s@),
            ManifestError::Identity { index, source } => ManifestErrorView::Identity(*index as nat, source@),
            ManifestError::Empty => ManifestErrorView::Empty,
        }
    }
}

pub open spec fn manifest_error_text(e: ManifestErrorView) -> Seq<char> {
    match e {
        ManifestErrorView::Parse(s) => "invalid manifest: "@ + s,
        ManifestErrorView::Serialize(s) => "could not serialise manifest: "@ + s,
        ManifestErrorView::Identity(i, src) => "project "@ + dec(i) + ": "@ + error_message(src),
        ManifestErrorView::Empty => "manifest has no [[project]] entries"@,
    }
}

impl ManifestError {
    pub fn message(&self) -> (r: String)
        ensures
            r@ == manifest_error_text(self@),
    {
        match self {
            ManifestError::Parse(s) => concat2("invalid manifest: ", s.as_str()),
            ManifestError::Serialize(s) => concat2("could not serialise manifest: ", s.as_str()),
            ManifestError::Identity { index, source } => {
                let mut m = owned("project ");
                push_u64(&mut m, *index as u64);
                push_str(&mut m, ": ");
                let t = source.message();
                push_str(&mut m, t.as_str());
                m
            },
            ManifestError::Empty => owned("manifest has no [[project]] entries"),
        }
    }
}

/// Every identifier parsed in order, or the first error.
pub open spec fn parse_all(ss: Seq<Seq<char>>) -> Result<Seq<IdentityView>, ErrorView>
    decreases ss.len(),
{
    if ss.len() == 0 {
        Ok(seq![])
    } else {
        match parse_all(ss.drop_last()) {
            Err(e) => Err(e),
            Ok(ids) => match identity_parse(ss.last()) {
                Ok(id) => Ok(ids.push(id)),
                Err(e) => Err(e),
            },
        }
    }
}

pub open spec fn identity_views(ids: Seq<Identity>) -> Seq<IdentityView> {
    ids.map_values(|i: Identity| i@)
}

pub open spec fn topic_of(t: Option<&str>) -> Option<Seq<char>> {
    match t {
        Some(s) => Some(s@),
        None => None,
    }
}

fn topic_copy(t: Option<&str>) -> (r: Option<String>)
    ensures
        opt_view(r) == topic_of(t),
{
    match t {
        Some(s) => Some(owned(s)),
        None => None,
    }
}

impl Manifest {
    /// The check that follows reading a Manifest: it must hold at least one
    /// Project.
    pub fn require_projects(self) -> (r: Result<Manifest, ManifestError>)
        ensures
            match r {
                Ok(m) => m@ == self@ && self@.len() > 0,
                Err(e) => self@.len() == 0 && e@ == ManifestErrorView::Empty,
            },
    {
        if self.projects.len() == 0 {
            Err(ManifestError::Empty)
        } else {
            Ok(self)
        }
    }

    /// A single-Project Manifest of a run's identities (canonical text) and
    /// topic: the shared basis of `init` and `about --save`.
    pub fn from_identities(identities: &[Identity], topic: Option<&str>) -> (r: Manifest)
        ensures
            r@ == seq![ProjectEntryView {
                identities: identities@.map_values(|i: Identity| canonical_text(i@)),
                topic: topic_of(topic),
            }],
    {
        let mut ids: Vec<String> = Vec::new();
        let mut i: usize = 0;
        while i < identities.len()
            invariant
                i <= identities.len(),
                ids@.map_values(|s: String| s@) == identities@.take(i as int).map_values(|x: Identity| canonical_text(x@)),
            decreases identities.len() - i,
        {
            let ghost before = ids@;
            ids.push(identities[i].canonical());
            proof {
                lemma_map_push(before, ids@[i as int], |s: String| s@);
                lemma_take_push(identities@, i as int);
                lemma_map_push(identities@.take(i as int), identities@[i as int], |x: Identity| canonical_text(x@));
            }
            i = i + 1;
        }
        assert(identities@.take(identities.len() as int) =~= identities@);
        let mut projects: Vec<ManifestProject> = Vec::new();
        projects.push(ManifestProject { identities: ids, topic: topic_copy(topic) });
        let r = Manifest { projects };
        assert(r@ =~= seq![ProjectEntryView {
            identities: identities@.map_values(|i: Identity| canonical_text(i@)),
            topic: topic_of(topic),
        }]);
        r
    }

    /// A Manifest of ORCID-expanded Paper Identities: one Project per work,
    /// each holding that work's canonical identity.
    pub fn from_orcid_works(works: &[PaperId], topic: Option<&str>) -> (r: Manifest)
        ensures
            r@ == works@.map_values(|w: PaperId| ProjectEntryView {
                identities: seq![canonical_text(paper_view(w))],
                topic: topic_of(topic),
            }),
    {
        let mut projects: Vec<ManifestProject> = Vec::new();
        let mut i: usize = 0;
        while i < works.len()
            invariant
                i <= works.len(),
                projects@.map_values(|p: ManifestProject| p@) == works@.take(i as int).map_values(|w: PaperId| ProjectEntryView {
                    identities: seq![canonical_text(paper_view(w))],
                    topic: topic_of(topic),
                }),
            decreases works.len() - i,
        {
            let text = match &works[i] {
                PaperId::Doi(d) => concat2("doi:", d.as_str()),
                PaperId::Pmid(p) => concat2("pmid:", p.as_str()),
            };
            let mut ids: Vec<String> = Vec::new();
            ids.push(text);
            assert(ids@.map_values(|s: String| s@) =~= seq![canonical_text(paper_view(works@[i as int]))]);
            let ghost before = projects@;
            projects.push(ManifestProject { identities: ids, topic: topic_copy(topic) });
            proof {
                lemma_map_push(before, projects@[i as int], |p: ManifestProject| p@);
                lemma_take_push(works@, i as int);
                lemma_map_push(works@.take(i as int), works@[i as int], |w: PaperId| ProjectEntryView {
                    identities: seq![canonical_text(paper_view(w))],
                    topic: topic_of(topic),
                });
            }
            i = i + 1;
        }
        assert(works@.take(works.len() as int) =~= works@);
        Manifest { projects }
    }
}

impl ManifestProject {
    /// Parses this entry's identity strings into a Project. `index` is the
    /// entry's 0-based position, named in the error so that a bad identity in
    /// a large Manifest is easy to find.
    pub fn to_project(&self, index: usize) -> (r: Result<Project, ManifestError>)
        ensures
            match (r, parse_all(self@.identities)) {
                (Ok(p), Ok(ids)) => identity_views(p.identities@) == ids,
                (Err(e), Err(ev)) => e@ == ManifestErrorView::Identity(index as nat, ev),
                _ => false,
            },
    {
        let mut ids: Vec<Identity> = Vec::new();
        let mut i: usize = 0;
        assert(identity_views(ids@) =~= seq![]);
        assert(self@.identities.take(0) =~= seq![]);
        while i < self.identities.len()
            invariant
                i <= self.identities.len(),
                parse_all(self@.identities.take(i as int)) == Ok::<Seq<IdentityView>, ErrorView>(identity_views(ids@)),
            decreases self.identities.len() - i,
        {
            assert(self@.identities.take(i + 1).drop_last() =~= self@.identities.take(i as int));
            assert(self@.identities.take(i + 1).last() == self.identities@[i as int]@);
            match Identity::parse(self.identities[i].as_str()) {
                Ok(id) => {
                    let ghost before = ids@;
                    ids.push(id);
                    assert(identity_views(ids@) =~= identity_views(before).push(id@));
                },
                Err(e) => {
                    let ghost k = i as int + 1;
                    proof {
                        lemma_parse_all_error_sticks(self@.identities, k);
                    }
                    return Err(ManifestError::Identity { index, source: e });
                },
            }
            i = i + 1;
        }
        assert(self@.identities.take(self.identities.len() as int) =~= self@.identities);
        Ok(Project::new(ids))
    }
}

/// Once a prefix fails to parse, every longer prefix fails the same way.
proof fn lemma_parse_all_error_sticks(ss: Seq<Seq<char>>, k: int)
    requires
        0 <= k <= ss.len(),
        parse_all(ss.take(k)) is Err,
    ensures
        parse_all(ss) == parse_all(ss.take(k)),
    decreases ss.len() - k,
{
    if k < ss.len() {
        assert(ss.take(k + 1).drop_last() =~= ss.take(k));
        lemma_parse_all_error_sticks(ss, k + 1);
    } else {
        assert(ss.take(k) =~= ss);
    }
}

} // verus!

verus! {

/// The canonical texts of some Identities.
pub open spec fn canonical_texts(ids: Seq<IdentityView>) -> Seq<Seq<char>> {
    ids.map_values(|i: IdentityView| canonical_text(i))
}

/// A Manifest written from a run's Identities (their canonical texts) reads
/// back as the same Identities, whatever identifier forms the run was given;
/// a repository whose canonical text is ambiguous is the one exception.
pub proof fn law_manifest_reads_back(texts: Seq<Seq<char>>)
    requires
        parse_all(texts) is Ok,
        forall|k: int| 0 <= k < texts.len() ==> !crate::identity::canonical_text_ambiguous(
            #[trigger] identity_parse(texts[k])->Ok_0,
        ),
    ensures
        parse_all(canonical_texts(parse_all(texts)->Ok_0)) == parse_all(texts),
    decreases texts.len(),
{
    if texts.len() > 0 {
        let pre = texts.drop_last();
        let t = texts.last();
        assert forall|k: int| 0 <= k < pre.len() implies !crate::identity::canonical_text_ambiguous(
            #[trigger] identity_parse(pre[k])->Ok_0,
        ) by {
            assert(pre[k] == texts[k]);
        }
        law_manifest_reads_back(pre);
        let ids = parse_all(pre)->Ok_0;
        let id = identity_parse(t)->Ok_0;
        assert(!crate::identity::canonical_text_ambiguous(identity_parse(texts[texts.len() - 1])->Ok_0));
        crate::identity::law_canonical_text_reads_back(t);
        let cs = canonical_texts(ids.push(id));
        assert(cs.drop_last() =~= canonical_texts(ids));
        assert(cs.last() == canonical_text(id));
    }
}

} // verus!
