//! Identities: the external handles a Project links to (a paper, a code
//! repository, a distribution package), their canonical text forms, and the
//! parsers for user-supplied identifiers. An ORCID iD names a researcher, not a
//! piece of work, so it is recognised only to be refused with a pointer to
//! `init --orcid`.

use vstd::prelude::*;

use crate::text::{
    chars_of, concat2, contains, contains_exec, find, find_exec, has_char, has_char_exec,
    is_digit, is_whitespace, is_ws, lower, lower_chars, owned, push_chars, push_str,
    slice_chars, starts_with, starts_with_exec, string_of, strip_prefix_or,
    strip_prefix_or_exec, strip_suffix_or, strip_suffix_or_exec, trim, trim_chars,
    trim_end_char, trim_end_char_exec,
};

verus! {

#[derive(Debug, Clone, PartialEq, Eq)]
pub enum PaperId {
    Doi(String),
    Pmid(String),
}

#[derive(Debug, Clone, Copy, PartialEq, Eq, Structural)]
pub enum RepoHost {
    GitHub,
}

/// A code repository on a known host.
#[derive(Debug, Clone, PartialEq, Eq)]
pub struct RepoId {
    pub host: RepoHost,
    pub owner: String,
    pub name: String,
}

/// A package registry `boast` knows how to query.
#[derive(Debug, Clone, Copy, PartialEq, Eq, Structural)]
pub enum Registry {
    Crates,
    Bioconda,
    Conda,
    Pypi,
    Homebrew,
    Docker,
    Quay,
}

/// A distribution package on a known registry.
#[derive(Debug, Clone, PartialEq, Eq)]
pub struct PackageId {
    pub registry: Registry,
    pub name: String,
}

/// One external handle a Project links to.
#[derive(Debug, Clone, PartialEq, Eq)]
pub enum Identity {
    Paper(PaperId),
    Repo(RepoId),
    Package(PackageId),
}

#[derive(Debug, Clone, PartialEq, Eq)]
pub enum IdentityError {
    Unrecognised(String),
    UnknownRegistry(String),
    Empty,
    IsOrcid(String),
}

/// A researcher's ORCID iD, held as its 19-character core
/// (`dddd-dddd-dddd-dddX`).
#[derive(Debug, Clone, PartialEq, Eq)]
pub struct OrcidId {
    id: String,
}

pub enum IdentityView {
    Doi(Seq<char>),
    Pmid(Seq<char>),
    Repo(RepoHost, Seq<char>, Seq<char>),
    Package(Registry, Seq<char>),
}

pub enum ErrorView {
    Unrecognised(Seq<char>),
    UnknownRegistry(Seq<char>),
    Empty,
    IsOrcid(Seq<char>),
}

impl View for Identity {
    type V = IdentityView;

    open spec fn view(&self) -> IdentityView {
        match self {
            Identity::Paper(PaperId::Doi(d)) => IdentityView::Doi(d@),
            Identity::Paper(PaperId::Pmid(p)) => IdentityView::Pmid(p@),
            Identity::Repo(r) => IdentityView::Repo(r.host, r.owner@, r.name@),
            Identity::Package(p) => IdentityView::Package(p.registry, p.name@),
        }
    }
}

impl View for IdentityError {
    type V = ErrorView;

    open spec fn view(&self) -> ErrorView {
        match self {
            IdentityError::Unrecognised(s) => ErrorView::Unrecognised(s@),
            IdentityError::UnknownRegistry(s) => ErrorView::UnknownRegistry(s@),
            IdentityError::Empty => ErrorView::Empty,
            IdentityError::IsOrcid(s) => ErrorView::IsOrcid(s@),
        }
    }
}

impl View for OrcidId {
    type V = Seq<char>;

    closed spec fn view(&self) -> Seq<char> {
        self.id@
    }
}

pub open spec fn result_view<T: View>(r: Result<T, IdentityError>) -> Result<T::V, ErrorView> {
    match r {
        Ok(x) => Ok(x@),
        Err(e) => Err(e@),
    }
}

pub open spec fn host_prefix(h: RepoHost) -> Seq<char> {
    match h {
        RepoHost::GitHub => "github"@,
    }
}

pub open spec fn registry_prefix(r: Registry) -> Seq<char> {
    match r {
        Registry::Crates => "crates"@,
        Registry::Bioconda => "bioconda"@,
        Registry::Conda => "conda"@,
        Registry::Pypi => "pypi"@,
        Registry::Homebrew => "homebrew"@,
        Registry::Docker => "docker"@,
        Registry::Quay => "quay"@,
    }
}

/// Canonical text of an Identity, e.g. `doi:10.x`, `github:owner/name`,
/// `crates:name`.
pub open spec fn canonical_text(id: IdentityView) -> Seq<char> {
    match id {
        IdentityView::Doi(d) => "doi:"@ + d,
        IdentityView::Pmid(p) => "pmid:"@ + p,
        IdentityView::Repo(h, owner, name) => host_prefix(h) + ":"@ + owner + "/"@ + name,
        IdentityView::Package(r, name) => registry_prefix(r) + ":"@ + name,
    }
}

impl RepoHost {
    pub fn prefix(self) -> (r: &'static str)
        ensures
            r@ == host_prefix(self),
    {
        match self {
            RepoHost::GitHub => "github",
        }
    }
}

impl Registry {
    pub fn prefix(self) -> (r: &'static str)
        ensures
            r@ == registry_prefix(self),
    {
        match self {
            Registry::Crates => "crates",
            Registry::Bioconda => "bioconda",
            Registry::Conda => "conda",
            Registry::Pypi => "pypi",
            Registry::Homebrew => "homebrew",
            Registry::Docker => "docker",
            Registry::Quay => "quay",
        }
    }

    /// The registry named by `s` (ASCII case-insensitively) among those
    /// accepted in a `registry:name` identifier: only `crates`.
    pub fn parse(s: &str) -> (r: Option<Registry>)
        ensures
            r == registry_named(s@),
    {
        let v = lower_chars(&chars_of(s));
        let crates = chars_of("crates");
        if crate::text::chars_eq(&v, &crates) {
            Some(Registry::Crates)
        } else {
            None
        }
    }

    /// The registries accepted in a `registry:name` identifier, comma-separated.
    pub fn supported() -> (r: String)
        ensures
            r@ == "crates"@,
    {
        owned(Registry::Crates.prefix())
    }
}

pub open spec fn registry_named(s: Seq<char>) -> Option<Registry> {
    if lower(s) == "crates"@ {
        Some(Registry::Crates)
    } else {
        None
    }
}

impl Identity {
    /// Canonical string form used in Snapshots and Reports.
    pub fn canonical(&self) -> (r: String)
        ensures
            r@ == canonical_text(self@),
    {
        match self {
            Identity::Paper(PaperId::Doi(d)) => concat2("doi:", d.as_str()),
            Identity::Paper(PaperId::Pmid(p)) => concat2("pmid:", p.as_str()),
            Identity::Repo(r) => {
                let mut s = owned(r.host.prefix());
                push_str(&mut s, ":");
                push_str(&mut s, r.owner.as_str());
                push_str(&mut s, "/");
                push_str(&mut s, r.name.as_str());
                s
            },
            Identity::Package(p) => {
                let mut s = owned(p.registry.prefix());
                push_str(&mut s, ":");
                push_str(&mut s, p.name.as_str());
                s
            },
        }
    }

    pub fn duplicate(&self) -> (r: Identity)
        ensures
            r@ == self@,
    {
        match self {
            Identity::Paper(PaperId::Doi(d)) => Identity::Paper(PaperId::Doi(d.clone())),
            Identity::Paper(PaperId::Pmid(p)) => Identity::Paper(PaperId::Pmid(p.clone())),
            Identity::Repo(r) => Identity::Repo(
                RepoId { host: r.host, owner: r.owner.clone(), name: r.name.clone() },
            ),
            Identity::Package(p) => Identity::Package(
                PackageId { registry: p.registry, name: p.name.clone() },
            ),
        }
    }
}

// ---------------------------------------------------------------------------
// Repository identifiers

/// Splitting on `/`, resumed with the segment in progress `cur` and the
/// non-empty segments found so far `acc`.
pub open spec fn seg_scan(s: Seq<char>, cur: Seq<char>, acc: Seq<Seq<char>>) -> Seq<Seq<char>>
    decreases s.len(),
{
    if s.len() == 0 {
        if cur.len() > 0 {
            acc.push(cur)
        } else {
            acc
        }
    } else if s[0] == '/' {
        seg_scan(
            s.drop_first(),
            seq![],
            if cur.len() > 0 {
                acc.push(cur)
            } else {
                acc
            },
        )
    } else {
        seg_scan(s.drop_first(), cur.push(s[0]), acc)
    }
}

/// The non-empty `/`-separated pieces of `s`, in order.
pub open spec fn segments(s: Seq<char>) -> Seq<Seq<char>> {
    seg_scan(s, seq![], seq![])
}

pub open spec fn has_ws(s: Seq<char>) -> bool {
    exists|i: int| 0 <= i < s.len() && is_ws(s[i])
}

/// What remains of a repository reference once scheme, `www.`, SSH/host
/// prefixes, and a `.git` suffix are taken off.
pub open spec fn repo_path(s: Seq<char>) -> Seq<char> {
    let r1 = strip_prefix_or(s, "https://"@);
    let r2 = strip_prefix_or(r1, "http://"@);
    let r3 = strip_prefix_or(r2, "www."@);
    let r4 = strip_prefix_or(r3, "git@github.com:"@);
    let r5 = strip_prefix_or(r4, "github.com/"@);
    let r6 = strip_prefix_or(r5, "github:"@);
    strip_suffix_or(r6, ".git"@)
}

/// `RepoId::parse` as a function of the input text: the owner and name.
pub open spec fn repo_parse(input: Seq<char>) -> Result<(Seq<char>, Seq<char>), ErrorView> {
    let s = trim_end_char(trim(input), '/');
    if s.len() == 0 {
        Err(ErrorView::Empty)
    } else {
        let parts = segments(repo_path(s));
        if parts.len() < 2 || has_ws(parts[0]) || has_ws(parts[1]) {
            Err(ErrorView::Unrecognised(input))
        } else {
            Ok((parts[0], parts[1]))
        }
    }
}

pub open spec fn repo_result(r: Result<RepoId, IdentityError>) -> Result<(Seq<char>, Seq<char>), ErrorView> {
    match r {
        Ok(id) => Ok((id.owner@, id.name@)),
        Err(e) => Err(e@),
    }
}

fn segments_exec(s: &Vec<char>) -> (r: Vec<Vec<char>>)
    ensures
        r@.map_values(|v: Vec<char>| v@) == segments(s@),
{
    let mut cur: Vec<char> = Vec::new();
    let mut acc: Vec<Vec<char>> = Vec::new();
    let mut i: usize = 0;
    assert(s@.subrange(0, s@.len() as int) =~= s@);
    assert(acc@.map_values(|v: Vec<char>| v@) =~= seq![]);
    assert(cur@ =~= seq![]);
    while i < s.len()
        invariant
            i <= s.len(),
            segments(s@) == seg_scan(
                s@.subrange(i as int, s@.len() as int),
                cur@,
                acc@.map_values(|v: Vec<char>| v@),
            ),
        decreases s.len() - i,
    {
        let ghost rest = s@.subrange(i as int, s@.len() as int);
        assert(rest.drop_first() =~= s@.subrange(i + 1, s@.len() as int));
        let c = s[i];
        if c == '/' {
            if cur.len() > 0 {
                let ghost prev = acc@.map_values(|v: Vec<char>| v@);
                acc.push(cur);
                assert(acc@.map_values(|v: Vec<char>| v@) =~= prev.push(cur@));
            }
            cur = Vec::new();
            assert(cur@ =~= seq![]);
        } else {
            cur.push(c);
        }
        i = i + 1;
    }
    if cur.len() > 0 {
        let ghost prev = acc@.map_values(|v: Vec<char>| v@);
        acc.push(cur);
        assert(acc@.map_values(|v: Vec<char>| v@) =~= prev.push(cur@));
    }
    acc
}

fn has_ws_exec(s: &Vec<char>) -> (r: bool)
    ensures
        r == has_ws(s@),
{
    let mut i: usize = 0;
    while i < s.len()
        invariant
            i <= s.len(),
            forall|k: int| 0 <= k < i ==> !is_ws(s@[k]),
        decreases s.len() - i,
    {
        if is_whitespace(s[i]) {
            return true;
        }
        i = i + 1;
    }
    false
}

fn strip_lit(v: &Vec<char>, p: &str) -> (r: Vec<char>)
    ensures
        r@ == strip_prefix_or(v@, p@),
{
    strip_prefix_or_exec(v, &chars_of(p))
}

impl RepoId {
    /// Parse `owner/name`, a `github.com/owner/name` URL (with optional scheme,
    /// `.git`, or extra path), or an `git@github.com:owner/name` SSH form.
    pub fn parse(input: &str) -> (r: Result<RepoId, IdentityError>)
        ensures
            repo_result(r) == repo_parse(input@),
            r matches Ok(id) ==> id.host == RepoHost::GitHub,
    {
        let v = chars_of(input);
        let t = trim_chars(&v);
        let s = trim_end_char_exec(&t, '/');
        if s.len() == 0 {
            return Err(IdentityError::Empty);
        }
        let r1 = strip_lit(&s, "https://");
        let r2 = strip_lit(&r1, "http://");
        let r3 = strip_lit(&r2, "www.");
        let r4 = strip_lit(&r3, "git@github.com:");
        let r5 = strip_lit(&r4, "github.com/");
        let r6 = strip_lit(&r5, "github:");
        let r7 = strip_suffix_or_exec(&r6, &chars_of(".git"));
        let parts = segments_exec(&r7);
        if parts.len() < 2 || has_ws_exec(&parts[0]) || has_ws_exec(&parts[1]) {
            return Err(IdentityError::Unrecognised(owned(input)));
        }
        Ok(RepoId { host: RepoHost::GitHub, owner: string_of(&parts[0]), name: string_of(&parts[1]) })
    }
}

// ---------------------------------------------------------------------------
// Package identifiers

/// `str::split_once(c)`: the text before and after the first `c`.
pub open spec fn split_once(s: Seq<char>, c: char) -> Option<(Seq<char>, Seq<char>)> {
    match find(s, seq![c]) {
        Some(i) => Some((s.subrange(0, i), s.subrange(i + 1, s.len() as int))),
        None => None,
    }
}

/// `PackageId::parse` as a function of the input text.
pub open spec fn package_parse(input: Seq<char>) -> Result<(Registry, Seq<char>), ErrorView> {
    let s = trim(input);
    if s.len() == 0 {
        Err(ErrorView::Empty)
    } else {
        match split_once(s, ':') {
            None => Err(ErrorView::Unrecognised(input)),
            Some((reg, rest)) => {
                let name = trim(rest);
                if name.len() == 0 {
                    Err(ErrorView::Unrecognised(input))
                } else {
                    match registry_named(reg) {
                        Some(r) => Ok((r, name)),
                        None => Err(ErrorView::UnknownRegistry(reg)),
                    }
                }
            },
        }
    }
}

pub open spec fn package_result(r: Result<PackageId, IdentityError>) -> Result<(Registry, Seq<char>), ErrorView> {
    match r {
        Ok(id) => Ok((id.registry, id.name@)),
        Err(e) => Err(e@),
    }
}

/// The text before and after the first `c` in `s`.
fn split_once_exec(s: &Vec<char>, c: char) -> (r: Option<(Vec<char>, Vec<char>)>)
    ensures
        match r {
            Some((a, b)) => split_once(s@, c) == Some((a@, b@)),
            None => split_once(s@, c) is None,
        },
{
    let mut pat = Vec::new();
    pat.push(c);
    assert(pat@ =~= seq![c]);
    match find_exec(s, &pat) {
        Some(i) => {
            proof {
                assert(find(s@, pat@) == Some(i as int));
                crate::text::lemma_find_bounds(s@, pat@);
                assert(crate::text::occurs_at(s@, pat@, i as int));
                assert(pat@.len() == 1);
                assert(i + 1 <= s@.len());
            }
            let n = s.len();
            let j: usize = i + 1;
            let before = slice_chars(s, 0, i);
            let after = slice_chars(s, j, n);
            Some((before, after))
        },
        None => None,
    }
}

impl PackageId {
    /// Parse `registry:name`, e.g. `crates:boast`.
    pub fn parse(input: &str) -> (r: Result<PackageId, IdentityError>)
        ensures
            package_result(r) == package_parse(input@),
    {
        let s = trim_chars(&chars_of(input));
        if s.len() == 0 {
            return Err(IdentityError::Empty);
        }
        match split_once_exec(&s, ':') {
            None => Err(IdentityError::Unrecognised(owned(input))),
            Some((reg, rest)) => {
                let name = trim_chars(&rest);
                if name.len() == 0 {
                    return Err(IdentityError::Unrecognised(owned(input)));
                }
                let reg_text = string_of(&reg);
                match Registry::parse(reg_text.as_str()) {
                    Some(r) => Ok(PackageId { registry: r, name: string_of(&name) }),
                    None => Err(IdentityError::UnknownRegistry(reg_text)),
                }
            },
        }
    }
}


// ---------------------------------------------------------------------------
// ORCID iDs

pub open spec fn orcid_char_ok(c: Seq<char>, i: int) -> bool {
    if i == 4 || i == 9 || i == 14 {
        c[i] == '-'
    } else if i == 18 {
        is_digit(c[i]) || c[i] == 'X'
    } else {
        is_digit(c[i])
    }
}

/// Four dash-separated groups of four digits, the last of which may end in `X`.
pub open spec fn is_orcid_core(c: Seq<char>) -> bool {
    c.len() == 19 && forall|i: int| 0 <= i < 19 ==> orcid_char_ok(c, i)
}

/// Drops `p` from the front of `t` when `t` starts with it, ignoring ASCII case.
pub open spec fn strip_prefix_nocase(t: Seq<char>, p: Seq<char>) -> Option<Seq<char>> {
    if starts_with(lower(t), p) {
        Some(t.subrange(p.len() as int, t.len() as int))
    } else {
        None
    }
}

/// The text that should be an ORCID core: the trimmed input without an
/// `orcid.org` URL or `orcid:` prefix.
pub open spec fn orcid_candidate(s: Seq<char>) -> Seq<char> {
    let t = trim(s);
    if strip_prefix_nocase(t, "https://orcid.org/"@) is Some {
        strip_prefix_nocase(t, "https://orcid.org/"@).unwrap()
    } else if strip_prefix_nocase(t, "http://orcid.org/"@) is Some {
        strip_prefix_nocase(t, "http://orcid.org/"@).unwrap()
    } else if strip_prefix_nocase(t, "orcid.org/"@) is Some {
        strip_prefix_nocase(t, "orcid.org/"@).unwrap()
    } else if strip_prefix_nocase(t, "orcid:"@) is Some {
        strip_prefix_nocase(t, "orcid:"@).unwrap()
    } else {
        t
    }
}

/// The ORCID core named by `s`, if it names one.
pub open spec fn orcid_parse(s: Seq<char>) -> Option<Seq<char>> {
    let c = orcid_candidate(s);
    if is_orcid_core(c) {
        Some(c)
    } else {
        None
    }
}

fn strip_prefix_nocase_exec(t: &Vec<char>, lowered: &Vec<char>, p: &str) -> (r: Option<Vec<char>>)
    requires
        lowered@ == lower(t@),
    ensures
        match r {
            Some(v) => strip_prefix_nocase(t@, p@) == Some(v@),
            None => strip_prefix_nocase(t@, p@) is None,
        },
{
    let pv = chars_of(p);
    if starts_with_exec(lowered, &pv) {
        let n = t.len();
        Some(slice_chars(t, pv.len(), n))
    } else {
        None
    }
}

fn is_orcid_core_exec(c: &Vec<char>) -> (r: bool)
    ensures
        r == is_orcid_core(c@),
{
    if c.len() != 19 {
        return false;
    }
    let mut i: usize = 0;
    while i < 19
        invariant
            c@.len() == 19,
            i <= 19,
            forall|k: int| 0 <= k < i ==> orcid_char_ok(c@, k),
        decreases 19 - i,
    {
        let ch = c[i];
        let ok = if i == 4 || i == 9 || i == 14 {
            ch == '-'
        } else if i == 18 {
            ('0' <= ch && ch <= '9') || ch == 'X'
        } else {
            '0' <= ch && ch <= '9'
        };
        if !ok {
            assert(!orcid_char_ok(c@, i as int));
            return false;
        }
        i = i + 1;
    }
    true
}

fn orcid_parse_exec(s: &Vec<char>) -> (r: Option<Vec<char>>)
    ensures
        match r {
            Some(v) => orcid_parse(s@) == Some(v@),
            None => orcid_parse(s@) is None,
        },
{
    let t = trim_chars(s);
    let l = lower_chars(&t);
    let cand = match strip_prefix_nocase_exec(&t, &l, "https://orcid.org/") {
        Some(v) => v,
        None => match strip_prefix_nocase_exec(&t, &l, "http://orcid.org/") {
            Some(v) => v,
            None => match strip_prefix_nocase_exec(&t, &l, "orcid.org/") {
                Some(v) => v,
                None => match strip_prefix_nocase_exec(&t, &l, "orcid:") {
                    Some(v) => v,
                    None => t,
                },
            },
        },
    };
    assert(cand@ == orcid_candidate(s@));
    if is_orcid_core_exec(&cand) {
        Some(cand)
    } else {
        None
    }
}

impl OrcidId {
    /// Parse a bare, `orcid:`-prefixed, or `orcid.org` URL ORCID iD.
    pub fn parse(input: &str) -> (r: Result<OrcidId, IdentityError>)
        ensures
            match r {
                Ok(id) => orcid_parse(input@) == Some(id@),
                Err(e) => orcid_parse(input@) is None && e@ == ErrorView::Unrecognised(input@),
            },
    {
        match orcid_parse_exec(&chars_of(input)) {
            Some(v) => Ok(OrcidId { id: string_of(&v) }),
            None => Err(IdentityError::Unrecognised(owned(input))),
        }
    }

    pub fn duplicate(&self) -> (r: OrcidId)
        ensures
            r@ == self@,
    {
        OrcidId { id: self.id.clone() }
    }

    /// The iD's 19-character core, e.g. `0000-0002-1825-0097`.
    pub fn as_str(&self) -> (r: &str)
        ensures
            r@ == self@,
    {
        self.id.as_str()
    }
}

// ---------------------------------------------------------------------------
// Free-form identifiers

pub open spec fn all_digits(s: Seq<char>) -> bool {
    forall|i: int| 0 <= i < s.len() ==> is_digit(s[i])
}

/// The DOI after a `doi.org/` host, when it starts with `10.`.
pub open spec fn doi_after_host(s: Seq<char>) -> Option<Seq<char>> {
    match find(lower(s), "doi.org/"@) {
        Some(idx) => {
            let d = s.subrange(idx + "doi.org/"@.len(), s.len() as int);
            if starts_with(d, "10."@) {
                Some(d)
            } else {
                None
            }
        },
        None => None,
    }
}

/// A `registry:name` shape: a non-empty prefix before the first `:` and no
/// `/` after it.
pub open spec fn package_shaped(s: Seq<char>) -> bool {
    match split_once(s, ':') {
        Some((prefix, rest)) => prefix.len() > 0 && !has_char(rest, '/'),
        None => false,
    }
}

pub open spec fn repo_identity(r: Result<(Seq<char>, Seq<char>), ErrorView>) -> Result<IdentityView, ErrorView> {
    match r {
        Ok((owner, name)) => Ok(IdentityView::Repo(RepoHost::GitHub, owner, name)),
        Err(e) => Err(e),
    }
}

pub open spec fn package_identity(r: Result<(Registry, Seq<char>), ErrorView>) -> Result<IdentityView, ErrorView> {
    match r {
        Ok((reg, name)) => Ok(IdentityView::Package(reg, name)),
        Err(e) => Err(e),
    }
}

/// `Identity::parse` as a function of the input text.
pub open spec fn identity_parse(input: Seq<char>) -> Result<IdentityView, ErrorView> {
    let s = trim(input);
    let l = lower(s);
    if s.len() == 0 {
        Err(ErrorView::Empty)
    } else if orcid_parse(s) is Some {
        Err(ErrorView::IsOrcid(input))
    } else if starts_with(l, "pmid:"@) {
        let id = trim(l.subrange("pmid:"@.len() as int, l.len() as int));
        if id.len() > 0 && all_digits(id) {
            Ok(IdentityView::Pmid(id))
        } else {
            Err(ErrorView::Unrecognised(input))
        }
    } else if starts_with(s, "doi:"@) {
        Ok(IdentityView::Doi(trim(s.subrange("doi:"@.len() as int, s.len() as int))))
    } else if starts_with(s, "DOI:"@) {
        Ok(IdentityView::Doi(trim(s.subrange("DOI:"@.len() as int, s.len() as int))))
    } else if doi_after_host(s) is Some {
        Ok(IdentityView::Doi(trim(doi_after_host(s).unwrap())))
    } else if contains(l, "github.com/"@) || starts_with(l, "git@github.com:"@) {
        repo_identity(repo_parse(s))
    } else if package_shaped(s) {
        package_identity(package_parse(s))
    } else if starts_with(s, "10."@) && has_char(s, '/') {
        Ok(IdentityView::Doi(s))
    } else if has_char(s, '/') {
        repo_identity(repo_parse(s))
    } else {
        Err(ErrorView::Unrecognised(input))
    }
}

fn all_digits_exec(s: &Vec<char>) -> (r: bool)
    ensures
        r == all_digits(s@),
{
    let mut i: usize = 0;
    while i < s.len()
        invariant
            i <= s.len(),
            forall|k: int| 0 <= k < i ==> is_digit(s@[k]),
        decreases s.len() - i,
    {
        if !('0' <= s[i] && s[i] <= '9') {
            return false;
        }
        i = i + 1;
    }
    true
}

fn doi_after_host_exec(s: &Vec<char>, l: &Vec<char>) -> (r: Option<Vec<char>>)
    requires
        l@ == lower(s@),
    ensures
        match r {
            Some(v) => doi_after_host(s@) == Some(v@),
            None => doi_after_host(s@) is None,
        },
{
    let host = chars_of("doi.org/");
    match find_exec(l, &host) {
        Some(idx) => {
            proof {
                crate::text::lemma_find_bounds(l@, host@);
            }
            let n = s.len();
            let d = slice_chars(s, idx + host.len(), n);
            if starts_with_exec(&d, &chars_of("10.")) {
                Some(d)
            } else {
                None
            }
        },
        None => None,
    }
}

fn package_shaped_exec(s: &Vec<char>) -> (r: bool)
    ensures
        r == package_shaped(s@),
{
    match split_once_exec(s, ':') {
        Some((prefix, rest)) => prefix.len() > 0 && !has_char_exec(&rest, '/'),
        None => false,
    }
}

fn repo_as_identity(r: Result<RepoId, IdentityError>) -> (out: Result<Identity, IdentityError>)
    requires
        r matches Ok(id) ==> id.host == RepoHost::GitHub,
    ensures
        result_view(out) == repo_identity(repo_result(r)),
{
    match r {
        Ok(id) => Ok(Identity::Repo(id)),
        Err(e) => Err(e),
    }
}

fn package_as_identity(r: Result<PackageId, IdentityError>) -> (out: Result<Identity, IdentityError>)
    ensures
        result_view(out) == package_identity(package_result(r)),
{
    match r {
        Ok(id) => Ok(Identity::Package(id)),
        Err(e) => Err(e),
    }
}

impl Identity {
    /// Parse a user-supplied identifier: `doi:...`, a bare `10.x/...` DOI, a
    /// `https://doi.org/...` URL, `pmid:12345678`, a `github.com/...` URL, a
    /// bare `owner/name` repository, or a `registry:name` package. An ORCID iD
    /// is refused with its own error.
    pub fn parse(input: &str) -> (r: Result<Identity, IdentityError>)
        ensures
            result_view(r) == identity_parse(input@),
    {
        let s = trim_chars(&chars_of(input));
        if s.len() == 0 {
            return Err(IdentityError::Empty);
        }
        if orcid_parse_exec(&s).is_some() {
            assert(trim(s@) == s@) by {
                crate::text::lemma_trim_idempotent(input@);
            }
            return Err(IdentityError::IsOrcid(owned(input)));
        }
        let l = lower_chars(&s);
        let n = s.len();
        let pmid = chars_of("pmid:");
        if starts_with_exec(&l, &pmid) {
            let ln = l.len();
            let id = trim_chars(&slice_chars(&l, pmid.len(), ln));
            if id.len() > 0 && all_digits_exec(&id) {
                return Ok(Identity::Paper(PaperId::Pmid(string_of(&id))));
            }
            return Err(IdentityError::Unrecognised(owned(input)));
        }
        let doi_lower = chars_of("doi:");
        if starts_with_exec(&s, &doi_lower) {
            let d = trim_chars(&slice_chars(&s, doi_lower.len(), n));
            return Ok(Identity::Paper(PaperId::Doi(string_of(&d))));
        }
        let doi_upper = chars_of("DOI:");
        if starts_with_exec(&s, &doi_upper) {
            let d = trim_chars(&slice_chars(&s, doi_upper.len(), n));
            return Ok(Identity::Paper(PaperId::Doi(string_of(&d))));
        }
        if let Some(d) = doi_after_host_exec(&s, &l) {
            return Ok(Identity::Paper(PaperId::Doi(string_of(&trim_chars(&d)))));
        }
        let st = string_of(&s);
        if contains_exec(&l, &chars_of("github.com/")) || starts_with_exec(
            &l,
            &chars_of("git@github.com:"),
        ) {
            return repo_as_identity(RepoId::parse(st.as_str()));
        }
        if package_shaped_exec(&s) {
            return package_as_identity(PackageId::parse(st.as_str()));
        }
        if starts_with_exec(&s, &chars_of("10.")) && has_char_exec(&s, '/') {
            return Ok(Identity::Paper(PaperId::Doi(st)));
        }
        if has_char_exec(&s, '/') {
            return repo_as_identity(RepoId::parse(st.as_str()));
        }
        Err(IdentityError::Unrecognised(owned(input)))
    }
}

/// What an `IdentityError` says to the user.
pub open spec fn error_message(e: ErrorView) -> Seq<char> {
    match e {
        ErrorView::Unrecognised(s) => "could not recognise '"@ + s
            + "' as a DOI, PubMed ID, GitHub repo, or package (registry:name)"@,
        ErrorView::UnknownRegistry(s) => "unknown package registry '"@ + s + "' (supported: "@
            + "crates"@ + ")"@,
        ErrorView::Empty => "empty identifier"@,
        ErrorView::IsOrcid(s) => "'"@ + s
            + "' is an ORCID iD, which names a researcher rather than a piece of work; use `boast init --orcid "@
            + s + "` to expand it into a Manifest of their works"@,
    }
}

impl IdentityError {
    pub fn message(&self) -> (r: String)
        ensures
            r@ == error_message(self@),
    {
        match self {
            IdentityError::Unrecognised(s) => {
                let mut r = owned("could not recognise '");
                push_str(&mut r, s.as_str());
                push_str(&mut r, "' as a DOI, PubMed ID, GitHub repo, or package (registry:name)");
                r
            },
            IdentityError::UnknownRegistry(s) => {
                let mut r = owned("unknown package registry '");
                push_str(&mut r, s.as_str());
                push_str(&mut r, "' (supported: ");
                let sup = Registry::supported();
                push_str(&mut r, sup.as_str());
                push_str(&mut r, ")");
                r
            },
            IdentityError::Empty => owned("empty identifier"),
            IdentityError::IsOrcid(s) => {
                let mut r = owned("'");
                push_str(&mut r, s.as_str());
                push_str(
                    &mut r,
                    "' is an ORCID iD, which names a researcher rather than a piece of work; use `boast init --orcid ",
                );
                push_str(&mut r, s.as_str());
                push_str(&mut r, "` to expand it into a Manifest of their works");
                r
            },
        }
    }
}

/// The central entity: a piece of research work linking one or more Identities.
#[derive(Debug, Clone, PartialEq, Eq)]
pub struct Project {
    pub identities: Vec<Identity>,
}

impl Project {
    pub fn new(identities: Vec<Identity>) -> (r: Project)
        ensures
            r.identities == identities,
    {
        Project { identities }
    }
}

} // verus!

verus! {

// ---------------------------------------------------------------------------
// Canonical text reads back

proof fn lemma_no_slash_push(cur: Seq<char>, c: char)
    requires
        !has_char(cur, '/'),
        c != '/',
    ensures
        !has_char(cur.push(c), '/'),
{
    if has_char(cur.push(c), '/') {
        let i = choose|i: int| 0 <= i < cur.push(c).len() && cur.push(c)[i] == '/';
        if i < cur.len() {
            assert(cur[i] == '/');
        }
    }
}

/// Every piece `seg_scan` yields is non-empty and free of `/`.
proof fn lemma_seg_scan_parts(s: Seq<char>, cur: Seq<char>, acc: Seq<Seq<char>>)
    requires
        !has_char(cur, '/'),
        forall|k: int| 0 <= k < acc.len() ==> (#[trigger] acc[k]).len() > 0 && !has_char(acc[k], '/'),
    ensures
        forall|k: int|
            0 <= k < seg_scan(s, cur, acc).len() ==> (#[trigger] seg_scan(s, cur, acc)[k]).len() > 0
                && !has_char(seg_scan(s, cur, acc)[k], '/'),
    decreases s.len(),
{
    if s.len() == 0 {
        if cur.len() > 0 {
            assert(seg_scan(s, cur, acc) == acc.push(cur));
            assert forall|k: int| 0 <= k < acc.push(cur).len() implies (#[trigger] acc.push(cur)[k]).len() > 0
                && !has_char(acc.push(cur)[k], '/') by {
                if k < acc.len() {
                    assert(acc.push(cur)[k] == acc[k]);
                }
            }
        }
    } else if s[0] == '/' {
        let acc2 = if cur.len() > 0 {
            acc.push(cur)
        } else {
            acc
        };
        assert forall|k: int| 0 <= k < acc2.len() implies (#[trigger] acc2[k]).len() > 0 && !has_char(acc2[k], '/') by {
            if k < acc.len() {
                assert(acc2[k] == acc[k]);
            }
        }
        lemma_seg_scan_parts(s.drop_first(), Seq::<char>::empty(), acc2);
        assert(seg_scan(s, cur, acc) == seg_scan(s.drop_first(), Seq::<char>::empty(), acc2));
    } else {
        lemma_no_slash_push(cur, s[0]);
        lemma_seg_scan_parts(s.drop_first(), cur.push(s[0]), acc);
        assert(seg_scan(s, cur, acc) == seg_scan(s.drop_first(), cur.push(s[0]), acc));
    }
}

/// A run free of `/` only extends the segment in progress.
proof fn lemma_seg_scan_plain(s: Seq<char>, t: Seq<char>, cur: Seq<char>, acc: Seq<Seq<char>>)
    requires
        !has_char(s, '/'),
    ensures
        seg_scan(s + t, cur, acc) == seg_scan(t, cur + s, acc),
    decreases s.len(),
{
    if s.len() == 0 {
        assert(s + t =~= t);
        assert(cur + s =~= cur);
    } else {
        assert((s + t)[0] == s[0]);
        assert(s[0] != '/');
        assert((s + t).drop_first() =~= s.drop_first() + t);
        assert(!has_char(s.drop_first(), '/')) by {
            if has_char(s.drop_first(), '/') {
                let i = choose|i: int| 0 <= i < s.drop_first().len() && s.drop_first()[i] == '/';
                assert(s[i + 1] == '/');
            }
        }
        lemma_seg_scan_plain(s.drop_first(), t, cur.push(s[0]), acc);
        assert(cur.push(s[0]) + s.drop_first() =~= cur + s);
    }
}

/// `owner/name` splits back into its two pieces.
proof fn lemma_segments_pair(o: Seq<char>, n: Seq<char>)
    requires
        o.len() > 0,
        n.len() > 0,
        !has_char(o, '/'),
        !has_char(n, '/'),
    ensures
        segments(o + "/"@ + n) == seq![o, n],
{
    reveal_strlit("/");
    let e = Seq::<char>::empty();
    let slash_n = seq!['/'] + n;
    assert(o + "/"@ + n =~= o + slash_n);
    lemma_seg_scan_plain(o, slash_n, e, Seq::<Seq<char>>::empty());
    assert(e + o =~= o);
    assert(slash_n.drop_first() =~= n);
    assert(seg_scan(slash_n, o, Seq::<Seq<char>>::empty()) == seg_scan(n, e, seq![o]));
    lemma_seg_scan_plain(n, e, e, seq![o]);
    assert(n + e =~= n);
    assert(e + n =~= n);
    assert(seq![o].push(n) =~= seq![o, n]);
}

/// No text starting with a lower-case letter other than `h` or `o` is read
/// as an ORCID iD.
proof fn lemma_not_orcid(c: Seq<char>)
    requires
        c.len() > 0,
        trim(c) == c,
        'a' <= c[0] && c[0] <= 'z',
        c[0] != 'h',
        c[0] != 'o',
    ensures
        orcid_parse(c) is None,
{
    reveal_strlit("https://orcid.org/");
    reveal_strlit("http://orcid.org/");
    reveal_strlit("orcid.org/");
    reveal_strlit("orcid:");
    assert(lower(c)[0] == c[0]);
    crate::text::lemma_not_prefix_at(lower(c), "https://orcid.org/"@, 0);
    crate::text::lemma_not_prefix_at(lower(c), "http://orcid.org/"@, 0);
    crate::text::lemma_not_prefix_at(lower(c), "orcid.org/"@, 0);
    crate::text::lemma_not_prefix_at(lower(c), "orcid:"@, 0);
    assert(orcid_candidate(c) == c);
    assert(!orcid_char_ok(c, 0));
}

/// What every Identity that `Identity::parse` yields satisfies.
spec fn well_formed_identity(id: IdentityView) -> bool {
    match id {
        IdentityView::Doi(d) => trim(d) == d,
        IdentityView::Pmid(p) => p.len() > 0 && all_digits(p),
        IdentityView::Repo(h, o, n) => h == RepoHost::GitHub && o.len() > 0 && n.len() > 0
            && !has_char(o, '/') && !has_char(n, '/') && !has_ws(o) && !has_ws(n),
        IdentityView::Package(r, name) => r == Registry::Crates && name.len() > 0 && trim(name) == name
            && !has_char(name, '/'),
    }
}

proof fn lemma_repo_parse_parts(input: Seq<char>)
    ensures
        repo_parse(input) matches Ok((o, n)) ==> o.len() > 0 && n.len() > 0 && !has_char(o, '/')
            && !has_char(n, '/') && !has_ws(o) && !has_ws(n),
{
    let s = trim_end_char(trim(input), '/');
    if s.len() > 0 {
        let p = repo_path(s);
        lemma_seg_scan_parts(p, Seq::<char>::empty(), Seq::<Seq<char>>::empty());
        let parts = segments(p);
        if parts.len() >= 2 {
            assert(parts[0].len() > 0 && !has_char(parts[0], '/'));
            assert(parts[1].len() > 0 && !has_char(parts[1], '/'));
        }
    }
}

proof fn lemma_package_parse_parts(s: Seq<char>)
    requires
        package_shaped(s),
        trim(s) == s,
    ensures
        package_parse(s) matches Ok((r, name)) ==> r == Registry::Crates && name.len() > 0
            && trim(name) == name && !has_char(name, '/'),
{
    match split_once(s, ':') {
        Some((reg, rest)) => {
            crate::text::lemma_trim_idempotent(rest);
            crate::text::lemma_trim_keeps_absent(rest, '/');
        },
        None => {},
    }
}

proof fn lemma_parsed_well_formed(input: Seq<char>)
    requires
        identity_parse(input) is Ok,
    ensures
        well_formed_identity(identity_parse(input)->Ok_0),
{
    reveal_strlit("doi:");
    reveal_strlit("DOI:");
    let s = trim(input);
    let l = lower(s);
    crate::text::lemma_trim_idempotent(input);
    if s.len() == 0 {
    } else if orcid_parse(s) is Some {
    } else if starts_with(l, "pmid:"@) {
    } else if starts_with(s, "doi:"@) {
        crate::text::lemma_trim_idempotent(s.subrange(4, s.len() as int));
    } else if starts_with(s, "DOI:"@) {
        crate::text::lemma_trim_idempotent(s.subrange(4, s.len() as int));
    } else if doi_after_host(s) is Some {
        crate::text::lemma_trim_idempotent(doi_after_host(s).unwrap());
    } else if contains(l, "github.com/"@) || starts_with(l, "git@github.com:"@) {
        lemma_repo_parse_parts(s);
    } else if package_shaped(s) {
        lemma_package_parse_parts(s);
    } else if starts_with(s, "10."@) && has_char(s, '/') {
    } else if has_char(s, '/') {
        lemma_repo_parse_parts(s);
    }
}

proof fn lemma_doi_reads_back(d: Seq<char>)
    requires
        trim(d) == d,
    ensures
        identity_parse("doi:"@ + d) == Ok::<IdentityView, ErrorView>(IdentityView::Doi(d)),
{
    reveal_strlit("doi:");
    reveal_strlit("pmid:");
    let c = "doi:"@ + d;
    crate::text::lemma_trim_ends(d);
    assert(c[0] == 'd');
    if d.len() > 0 {
        assert(c.last() == d.last());
    } else {
        assert(c.last() == ':');
    }
    crate::text::lemma_trim_fixed(c);
    lemma_not_orcid(c);
    assert(lower(c)[0] == 'd');
    crate::text::lemma_not_prefix_at(lower(c), "pmid:"@, 0);
    assert(c.subrange(0, 4) =~= "doi:"@);
    assert(c.subrange(4, c.len() as int) =~= d);
}

proof fn lemma_pmid_reads_back(p: Seq<char>)
    requires
        p.len() > 0,
        all_digits(p),
    ensures
        identity_parse("pmid:"@ + p) == Ok::<IdentityView, ErrorView>(IdentityView::Pmid(p)),
{
    reveal_strlit("pmid:");
    let c = "pmid:"@ + p;
    assert(is_digit(p[p.len() - 1]));
    assert(is_digit(p[0]));
    assert(c.last() == p.last());
    crate::text::lemma_trim_fixed(c);
    crate::text::lemma_trim_fixed(p);
    lemma_not_orcid(c);
    assert forall|i: int| 0 <= i < c.len() implies lower(c)[i] == c[i] by {
        if i >= 5 {
            assert(c[i] == p[i - 5]);
            assert(is_digit(p[i - 5]));
        }
    }
    assert(lower(c) =~= c);
    assert(c.subrange(0, 5) =~= "pmid:"@);
    assert(c.subrange(5, c.len() as int) =~= p);
}

proof fn lemma_no_git_suffix(o: Seq<char>, n: Seq<char>)
    requires
        n.len() > 0,
        !crate::text::ends_with(n, ".git"@),
    ensures
        !crate::text::ends_with(o + "/"@ + n, ".git"@),
{
    reveal_strlit(".git");
    reveal_strlit("/");
    let w = o + "/"@ + n;
    let len = w.len() as int;
    if crate::text::ends_with(w, ".git"@) {
        if n.len() >= 4 {
            assert(n.subrange(n.len() - 4, n.len() as int) =~= w.subrange(len - 4, len));
        } else {
            let j = o.len() as int;
            assert(w[j] == '/');
            assert(w.subrange(len - 4, len)[j - (len - 4)] == w[j]);
        }
    }
}

proof fn lemma_repo_reads_back(o: Seq<char>, n: Seq<char>)
    requires
        o.len() > 0,
        n.len() > 0,
        !has_char(o, '/'),
        !has_char(n, '/'),
        !has_ws(o),
        !has_ws(n),
        !crate::text::ends_with(n, ".git"@),
        doi_after_host(canonical_text(IdentityView::Repo(RepoHost::GitHub, o, n))) is None,
    ensures
        identity_parse(canonical_text(IdentityView::Repo(RepoHost::GitHub, o, n)))
            == Ok::<IdentityView, ErrorView>(IdentityView::Repo(RepoHost::GitHub, o, n)),
{
    reveal_strlit("github");
    reveal_strlit(":");
    reveal_strlit("/");
    reveal_strlit("pmid:");
    reveal_strlit("doi:");
    reveal_strlit("DOI:");
    reveal_strlit("10.");
    reveal_strlit("https://");
    reveal_strlit("http://");
    reveal_strlit("www.");
    reveal_strlit("git@github.com:");
    reveal_strlit("github.com/");
    reveal_strlit("github:");
    let w = o + "/"@ + n;
    let c = canonical_text(IdentityView::Repo(RepoHost::GitHub, o, n));
    assert(c =~= "github:"@ + w);
    assert(c[0] == 'g');
    assert(c.last() == n.last());
    assert(!is_ws(n[n.len() - 1]));
    assert(n[n.len() - 1] != '/');
    crate::text::lemma_trim_fixed(c);
    lemma_not_orcid(c);
    let l = lower(c);
    assert(l[0] == 'g');
    crate::text::lemma_not_prefix_at(l, "pmid:"@, 0);
    crate::text::lemma_not_prefix_at(c, "doi:"@, 0);
    crate::text::lemma_not_prefix_at(c, "DOI:"@, 0);
    assert forall|k: int| 0 <= k < 6 implies c[k] != ':' by {
        assert(c[k] == "github:"@[k]);
    }
    crate::text::lemma_find_first_char(c, ':', 6);
    assert(c.subrange(7, c.len() as int) =~= w);
    assert(w[o.len() as int] == '/');
    assert(!package_shaped(c));
    crate::text::lemma_not_prefix_at(c, "10."@, 0);
    assert(c[7 + o.len() as int] == '/');
    assert(has_char(c, '/'));
    assert(trim_end_char(c, '/') == c);
    crate::text::lemma_not_prefix_at(c, "https://"@, 0);
    crate::text::lemma_not_prefix_at(c, "http://"@, 0);
    crate::text::lemma_not_prefix_at(c, "www."@, 0);
    crate::text::lemma_not_prefix_at(c, "git@github.com:"@, 3);
    crate::text::lemma_not_prefix_at(c, "github.com/"@, 6);
    assert(c.subrange(0, 7) =~= "github:"@);
    lemma_no_git_suffix(o, n);
    assert(repo_path(c) == w);
    lemma_segments_pair(o, n);
}

proof fn lemma_package_reads_back(name: Seq<char>)
    requires
        name.len() > 0,
        trim(name) == name,
        !has_char(name, '/'),
    ensures
        identity_parse(canonical_text(IdentityView::Package(Registry::Crates, name)))
            == Ok::<IdentityView, ErrorView>(IdentityView::Package(Registry::Crates, name)),
{
    reveal_strlit("crates");
    reveal_strlit(":");
    reveal_strlit("pmid:");
    reveal_strlit("doi:");
    reveal_strlit("DOI:");
    reveal_strlit("doi.org/");
    reveal_strlit("github.com/");
    reveal_strlit("git@github.com:");
    let c = canonical_text(IdentityView::Package(Registry::Crates, name));
    assert(c =~= "crates:"@ + name) by {
        reveal_strlit("crates:");
    }
    crate::text::lemma_trim_ends(name);
    assert(c[0] == 'c');
    assert(c.last() == name.last());
    crate::text::lemma_trim_fixed(c);
    lemma_not_orcid(c);
    let l = lower(c);
    assert(l[0] == 'c');
    crate::text::lemma_not_prefix_at(l, "pmid:"@, 0);
    crate::text::lemma_not_prefix_at(c, "doi:"@, 0);
    crate::text::lemma_not_prefix_at(c, "DOI:"@, 0);
    assert(!has_char(c, '/')) by {
        if has_char(c, '/') {
            let i = choose|i: int| 0 <= i < c.len() && c[i] == '/';
            if i >= 7 {
                assert(name[i - 7] == '/');
            }
        }
    }
    assert(!has_char(l, '/')) by {
        if has_char(l, '/') {
            let i = choose|i: int| 0 <= i < l.len() && l[i] == '/';
            crate::text::lemma_lower_char_fixed(c[i]);
        }
    }
    crate::text::lemma_find_absent(l, "doi.org/"@, 7);
    crate::text::lemma_find_absent(l, "github.com/"@, 10);
    crate::text::lemma_not_prefix_at(l, "git@github.com:"@, 0);
    assert forall|k: int| 0 <= k < 6 implies c[k] != ':' by {
        assert(c[k] == "crates"@[k]);
    }
    crate::text::lemma_find_first_char(c, ':', 6);
    assert(c.subrange(0, 6) =~= "crates"@);
    assert(c.subrange(7, c.len() as int) =~= name);
    assert(lower("crates"@) =~= "crates"@);
}

/// A repository whose canonical text would read back as something else: its
/// name ends in `.git` (taken off on reading), or the text holds a
/// `doi.org/10.` link (read as a DOI).
pub open spec fn canonical_text_ambiguous(id: IdentityView) -> bool {
    match id {
        IdentityView::Repo(_, _, n) => crate::text::ends_with(n, ".git"@) || doi_after_host(canonical_text(id)) is Some,
        _ => false,
    }
}

/// What `canonical` writes, `parse` reads back as the same Identity, so a
/// Manifest written from a run names the same Identities when read again.
/// The one exception is a repository whose canonical text is ambiguous.
pub proof fn law_canonical_text_reads_back(input: Seq<char>)
    requires
        identity_parse(input) is Ok,
        !canonical_text_ambiguous(identity_parse(input)->Ok_0),
    ensures
        identity_parse(canonical_text(identity_parse(input)->Ok_0)) == identity_parse(input),
{
    lemma_parsed_well_formed(input);
    match identity_parse(input)->Ok_0 {
        IdentityView::Doi(d) => lemma_doi_reads_back(d),
        IdentityView::Pmid(p) => lemma_pmid_reads_back(p),
        IdentityView::Repo(_, o, n) => lemma_repo_reads_back(o, n),
        IdentityView::Package(_, name) => lemma_package_reads_back(name),
    }
}

} // verus!

verus! {

/// A GitHub account name: non-empty, with no `/`, `:`, `.` or whitespace
/// (GitHub allows only letters, digits and hyphens).
pub open spec fn owner_shaped(o: Seq<char>) -> bool {
    o.len() > 0 && forall|i: int| 0 <= i < o.len() ==> o[i] != '/' && o[i] != ':' && o[i] != '.' && !is_ws(#[trigger] o[i])
}

/// A repository name: non-empty, with no `/` or whitespace.
pub open spec fn name_shaped(n: Seq<char>) -> bool {
    n.len() > 0 && forall|i: int| 0 <= i < n.len() ==> n[i] != '/' && !is_ws(#[trigger] n[i])
}

/// `owner/name` cannot start with `lit` when `lit` holds, at `j`, a
/// character no owner has, and no `/` before it.
proof fn lemma_not_prefixed(o: Seq<char>, n: Seq<char>, lit: Seq<char>, j: int)
    requires
        owner_shaped(o),
        name_shaped(n),
        0 <= j < lit.len(),
        lit[j] == ':' || lit[j] == '.',
        forall|i: int| 0 <= i <= j ==> lit[i] != '/',
    ensures
        !starts_with(o + "/"@ + n, lit),
{
    reveal_strlit("/");
    let p = o + "/"@ + n;
    if starts_with(p, lit) {
        assert(p.subrange(0, lit.len() as int) == lit);
        if o.len() > j {
            assert(p[j] == o[j]);
            assert(p[j] == lit[j]);
        } else {
            assert(p[o.len() as int] == '/');
            assert(p[o.len() as int] == lit[o.len() as int]);
        }
    }
}

proof fn lemma_repo_text_fixed(s: Seq<char>)
    requires
        s.len() > 0,
        !is_ws(s[0]),
        !is_ws(s.last()),
        s.last() != '/',
    ensures
        crate::text::trim_end_char(trim(s), '/') == s,
{
    crate::text::lemma_trim_fixed(s);
}

/// After `https://www.github.com/` or `https://github.com/`, only a
/// `github:` prefix and a `.git` suffix of the path are taken off.
proof fn lemma_host_path(p: Seq<char>)
    ensures
        repo_path("https://www.github.com/"@ + p) == strip_suffix_or(strip_prefix_or(p, "github:"@), ".git"@),
        repo_path("https://github.com/"@ + p) == strip_suffix_or(strip_prefix_or(p, "github:"@), ".git"@),
{
    reveal_strlit("https://www.github.com/");
    reveal_strlit("https://github.com/");
    reveal_strlit("www.github.com/");
    reveal_strlit("https://");
    reveal_strlit("http://");
    reveal_strlit("www.");
    reveal_strlit("git@github.com:");
    reveal_strlit("github.com/");
    let u = "https://www.github.com/"@ + p;
    let u1 = "www.github.com/"@ + p;
    let u3 = "github.com/"@ + p;
    assert(u.subrange(0, 8) =~= "https://"@);
    assert(u.subrange(8, u.len() as int) =~= u1);
    assert(!starts_with(u1, "http://"@)) by {
        if starts_with(u1, "http://"@) {
            assert(u1.subrange(0, 7)[0] == u1[0]);
        }
    }
    assert(u1.subrange(0, 4) =~= "www."@);
    assert(u1.subrange(4, u1.len() as int) =~= u3);
    assert(!starts_with(u3, "git@github.com:"@)) by {
        if starts_with(u3, "git@github.com:"@) {
            assert(u3.subrange(0, 15)[3] == u3[3]);
        }
    }
    assert(u3.subrange(0, 11) =~= "github.com/"@);
    assert(u3.subrange(11, u3.len() as int) =~= p);
    let v = "https://github.com/"@ + p;
    assert(v.subrange(0, 8) =~= "https://"@);
    assert(v.subrange(8, v.len() as int) =~= u3);
    assert(!starts_with(u3, "http://"@)) by {
        if starts_with(u3, "http://"@) {
            assert(u3.subrange(0, 7)[1] == u3[1]);
        }
    }
    assert(!starts_with(u3, "www."@)) by {
        if starts_with(u3, "www."@) {
            assert(u3.subrange(0, 4)[0] == u3[0]);
        }
    }
}

/// On `<owner>/<name>` only a `github:` prefix and a `.git` suffix are
/// taken off.
proof fn lemma_bare_path(o: Seq<char>, n: Seq<char>)
    requires
        owner_shaped(o),
        name_shaped(n),
    ensures
        repo_path(o + "/"@ + n) == strip_suffix_or(strip_prefix_or(o + "/"@ + n, "github:"@), ".git"@),
{
    reveal_strlit("https://");
    reveal_strlit("http://");
    reveal_strlit("www.");
    reveal_strlit("git@github.com:");
    reveal_strlit("github.com/");
    lemma_not_prefixed(o, n, "https://"@, 5);
    lemma_not_prefixed(o, n, "http://"@, 4);
    lemma_not_prefixed(o, n, "www."@, 3);
    lemma_not_prefixed(o, n, "git@github.com:"@, 10);
    lemma_not_prefixed(o, n, "github.com/"@, 6);
}

/// Two repository texts that are already trimmed and reduce to one path
/// read as the same owner and name.
proof fn lemma_same_path_same_repo(a: Seq<char>, b: Seq<char>)
    requires
        a.len() > 0,
        b.len() > 0,
        crate::text::trim_end_char(trim(a), '/') == a,
        crate::text::trim_end_char(trim(b), '/') == b,
        repo_path(a) == repo_path(b),
    ensures
        repo_parse(a) is Ok <==> repo_parse(b) is Ok,
        repo_parse(a) is Ok ==> repo_parse(a) == repo_parse(b),
{
}

proof fn lemma_prefixed_form(pre: Seq<char>, o: Seq<char>, n: Seq<char>)
    requires
        owner_shaped(o),
        name_shaped(n),
        pre.len() > 0,
        !is_ws(pre[0]),
        repo_path(pre + (o + "/"@ + n)) == repo_path(o + "/"@ + n),
        crate::text::trim_end_char(trim(o + "/"@ + n), '/') == o + "/"@ + n,
    ensures
        repo_parse(pre + o + "/"@ + n) is Ok <==> repo_parse(o + "/"@ + n) is Ok,
        repo_parse(pre + o + "/"@ + n) is Ok ==> repo_parse(pre + o + "/"@ + n) == repo_parse(o + "/"@ + n),
{
    let p = o + "/"@ + n;
    let u = pre + p;
    assert(u =~= pre + o + "/"@ + n);
    assert(u.last() == p.last());
    assert(p.last() == n.last());
    assert(!is_ws(n[n.len() - 1]));
    assert(u[0] == pre[0]);
    lemma_repo_text_fixed(u);
    lemma_same_path_same_repo(u, p);
}

/// A GitHub URL names the repository its path names: for any account name
/// and repository name, `https://www.github.com/<owner>/<name>` and
/// `https://github.com/<owner>/<name>` are read exactly when
/// `<owner>/<name>` is, and as the same owner and name.
#[verifier::spinoff_prover]
pub proof fn law_github_url_names_its_repo(o: Seq<char>, n: Seq<char>)
    requires
        owner_shaped(o),
        name_shaped(n),
    ensures
        repo_parse("https://www.github.com/"@ + o + "/"@ + n) is Ok <==> repo_parse(o + "/"@ + n) is Ok,
        repo_parse("https://www.github.com/"@ + o + "/"@ + n) is Ok ==> repo_parse("https://www.github.com/"@ + o + "/"@
            + n) == repo_parse(o + "/"@ + n),
        repo_parse("https://github.com/"@ + o + "/"@ + n) is Ok <==> repo_parse(o + "/"@ + n) is Ok,
        repo_parse("https://github.com/"@ + o + "/"@ + n) is Ok ==> repo_parse("https://github.com/"@ + o + "/"@ + n)
            == repo_parse(o + "/"@ + n),
{
    reveal_strlit("https://www.github.com/");
    reveal_strlit("https://github.com/");
    reveal_strlit("/");
    let p = o + "/"@ + n;
    assert(p[0] == o[0]);
    assert(p.last() == n.last());
    assert(!is_ws(o[0]) && !is_ws(n[n.len() - 1]));
    lemma_repo_text_fixed(p);
    lemma_bare_path(o, n);
    lemma_host_path(p);
    lemma_prefixed_form("https://www.github.com/"@, o, n);
    lemma_prefixed_form("https://github.com/"@, o, n);
}

} // verus!
