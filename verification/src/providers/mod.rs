//! The curated default set of Providers, and what every fetch shares: the
//! percent-encoding of query text and the first decision on a transport's
//! reply.

pub mod altmetric;
pub mod bioconda;
pub mod crates_io;
pub mod crossref;
pub mod dimensions;
pub mod europe_pmc;
pub mod docker_hub;
pub mod github;
pub mod homebrew;
pub mod openalex;
pub mod pypi;
pub mod quay;
pub mod wikipedia;

use vstd::prelude::*;

use crate::identity::{Identity, IdentityView};
use crate::model::{category_label, Category, Outcome, OutcomeView};
use crate::provider::{classify_status, status_outcome, KeyRequirement, Provider};
use crate::text::push_char;
use crate::transport::{fetched_view, transport_error_text, HttpResponse, TransportError};

use self::altmetric::Altmetric;
use self::bioconda::Bioconda;
use self::crates_io::CratesIo;
use self::crossref::Crossref;
use self::dimensions::Dimensions;
use self::docker_hub::DockerHub;
use self::europe_pmc::EuropePmc;
use self::github::GitHub;
use self::homebrew::Homebrew;
use self::openalex::OpenAlex;
use self::pypi::Pypi;
use self::quay::Quay;
use self::wikipedia::Wikipedia;


verus! {

/// RFC 3986 unreserved characters, which percent-encoding leaves as they are.
pub open spec fn unreserved(c: char) -> bool {
    ||| ('A' <= c && c <= 'Z')
    ||| ('a' <= c && c <= 'z')
    ||| ('0' <= c && c <= '9')
    ||| c == '-' || c == '_' || c == '.' || c == '~'
}

/// The UTF-8 bytes of `c`.
pub open spec fn utf8_bytes(c: char) -> Seq<nat> {
    let u = c as nat;
    if u < 0x80 {
        seq![u]
    } else if u < 0x800 {
        seq![0xC0 + u / 64, 0x80 + u % 64]
    } else if u < 0x10000 {
        seq![0xE0 + u / 4096, 0x80 + (u / 64) % 64, 0x80 + u % 64]
    } else {
        seq![0xF0 + u / 262144, 0x80 + (u / 4096) % 64, 0x80 + (u / 64) % 64, 0x80 + u % 64]
    }
}

pub open spec fn hex_digit(d: nat) -> char {
    if d < 10 {
        ((d + 48) as u32) as char
    } else {
        ((d + 55) as u32) as char
    }
}

/// `%HH`, upper-case hex, for each byte.
pub open spec fn escape_bytes(bs: Seq<nat>) -> Seq<char>
    decreases bs.len(),
{
    if bs.len() == 0 {
        seq![]
    } else {
        seq!['%', hex_digit(bs[0] / 16), hex_digit(bs[0] % 16)] + escape_bytes(bs.drop_first())
    }
}

pub open spec fn encode_char(c: char) -> Seq<char> {
    if unreserved(c) {
        seq![c]
    } else {
        escape_bytes(utf8_bytes(c))
    }
}

/// Percent-encoding of a query value: unreserved characters kept, every other
/// UTF-8 byte written `%HH`.
pub open spec fn percent_encoded(s: Seq<char>) -> Seq<char>
    decreases s.len(),
{
    if s.len() == 0 {
        seq![]
    } else {
        percent_encoded(s.drop_last()) + encode_char(s.last())
    }
}

fn hex_char(d: u32) -> (c: char)
    requires
        d < 16,
    ensures
        c == hex_digit(d as nat),
{
    let b: u8 = if d < 10 { (d + 48) as u8 } else { (d + 55) as u8 };
    b as char
}

fn push_escaped(out: &mut String, b: u32)
    requires
        b < 256,
    ensures
        final(out)@ == old(out)@ + seq!['%', hex_digit(b as nat / 16), hex_digit(b as nat % 16)],
{
    push_char(out, '%');
    push_char(out, hex_char(b / 16));
    push_char(out, hex_char(b % 16));
}

fn push_encoded_char(out: &mut String, c: char)
    ensures
        final(out)@ == old(out)@ + encode_char(c),
{
    let ghost start = out@;
    if ('A' <= c && c <= 'Z') || ('a' <= c && c <= 'z') || ('0' <= c && c <= '9') || c == '-'
        || c == '_' || c == '.' || c == '~' {
        push_char(out, c);
        return;
    }
    let u = c as u32;
    let ghost bs = utf8_bytes(c);
    if u < 0x80 {
        push_escaped(out, u);
        assert(escape_bytes(bs.drop_first()) =~= seq![]);
    } else if u < 0x800 {
        push_escaped(out, 0xC0 + u / 64);
        push_escaped(out, 0x80 + u % 64);
        assert(bs.drop_first().drop_first() =~= seq![]);
        assert(escape_bytes(bs.drop_first()) == seq!['%', hex_digit(bs[1] / 16), hex_digit(bs[1] % 16)] + escape_bytes(bs.drop_first().drop_first()));
    } else if u < 0x10000 {
        push_escaped(out, 0xE0 + u / 4096);
        push_escaped(out, 0x80 + (u / 64) % 64);
        push_escaped(out, 0x80 + u % 64);
        let ghost b1 = bs.drop_first();
        let ghost b2 = b1.drop_first();
        assert(b2.drop_first() =~= seq![]);
        assert(escape_bytes(b2) == seq!['%', hex_digit(b2[0] / 16), hex_digit(b2[0] % 16)] + escape_bytes(b2.drop_first()));
        assert(escape_bytes(b1) == seq!['%', hex_digit(b1[0] / 16), hex_digit(b1[0] % 16)] + escape_bytes(b2));
    } else {
        push_escaped(out, 0xF0 + u / 262144);
        push_escaped(out, 0x80 + (u / 4096) % 64);
        push_escaped(out, 0x80 + (u / 64) % 64);
        push_escaped(out, 0x80 + u % 64);
        let ghost b1 = bs.drop_first();
        let ghost b2 = b1.drop_first();
        let ghost b3 = b2.drop_first();
        assert(b3.drop_first() =~= seq![]);
        assert(escape_bytes(b3) == seq!['%', hex_digit(b3[0] / 16), hex_digit(b3[0] % 16)] + escape_bytes(b3.drop_first()));
        assert(escape_bytes(b2) == seq!['%', hex_digit(b2[0] / 16), hex_digit(b2[0] % 16)] + escape_bytes(b3));
        assert(escape_bytes(b1) == seq!['%', hex_digit(b1[0] / 16), hex_digit(b1[0] % 16)] + escape_bytes(b2));
    }
    assert(out@ =~= start + encode_char(c));
}

/// Percent-encodes `s` for use as a URL query value.
pub fn percent_encode(s: &str) -> (r: String)
    ensures
        r@ == percent_encoded(s@),
{
    let v = crate::text::chars_of(s);
    let mut out = String::new();
    let mut i: usize = 0;
    while i < v.len()
        invariant
            i <= v.len(),
            v@ == s@,
            out@ == percent_encoded(v@.take(i as int)),
        decreases v.len() - i,
    {
        let ghost pre = v@.take(i as int + 1);
        assert(pre.drop_last() =~= v@.take(i as int));
        push_encoded_char(&mut out, v[i]);
        i = i + 1;
    }
    assert(v@.take(v.len() as int) =~= v@);
    out
}

pub open spec fn settled(
    fetched: Result<crate::transport::HttpResponseView, crate::transport::TransportErrorView>,
    provider_name: Seq<char>,
    not_found: Seq<char>,
) -> Result<crate::transport::HttpResponseView, OutcomeView> {
    match fetched {
        Err(e) => Err(OutcomeView::Failed(transport_error_text(e))),
        Ok(resp) => match status_outcome(resp.status, provider_name, not_found) {
            Some(o) => Err(o),
            None => Ok(resp),
        },
    }
}

/// A request's result as plain values: the URL and the reply, or the Outcome.
pub open spec fn request_view(r: Result<(String, HttpResponse), Outcome>) -> Result<(Seq<char>, crate::transport::HttpResponseView), OutcomeView> {
    match r {
        Ok((u, resp)) => Ok((u@, resp@)),
        Err(o) => Err(o@),
    }
}

/// What a request of URL `u` gives once its reply is settled as `s`: the URL
/// with the 200 reply to read, or the Outcome settling decided.
pub open spec fn requested(s: Result<crate::transport::HttpResponseView, OutcomeView>, u: Seq<char>) -> Result<(Seq<char>, crate::transport::HttpResponseView), OutcomeView> {
    match s {
        Ok(v) => Ok((u, v)),
        Err(o) => Err(o),
    }
}

/// The first decision on every fetch: a transport failure is `Failed` with
/// its own text, a status other than 200 is classified, and a 200 hands the
/// response back for the Provider to read.
pub fn settle(fetched: Result<HttpResponse, TransportError>, provider_name: &str, not_found: &str) -> (r: Result<HttpResponse, Outcome>)
    ensures
        match (r, settled(fetched_view(fetched), provider_name@, not_found@)) {
            (Ok(resp), Ok(v)) => resp@ == v,
            (Err(o), Err(v)) => o@ == v,
            _ => false,
        },
{
    match fetched {
        Err(e) => Err(Outcome::Failed { error: e.message() }),
        Ok(resp) => match classify_status(resp.status, provider_name, not_found) {
            Some(o) => Err(o),
            None => Ok(resp),
        },
    }
}

/// One Provider of the default set.
pub enum AnyProvider {
    OpenAlex(OpenAlex),
    Crossref(Crossref),
    Dimensions(Dimensions),
    EuropePmc(EuropePmc),
    Wikipedia(Wikipedia),
    Altmetric(Altmetric),
    GitHub(GitHub),
    CratesIo(CratesIo),
    Bioconda(Bioconda),
    Pypi(Pypi),
    Homebrew(Homebrew),
    DockerHub(DockerHub),
    Quay(Quay),
}

/// Which Identities each Provider of the default set understands.
pub open spec fn any_supports(p: AnyProvider, id: IdentityView) -> bool {
    match p {
        AnyProvider::OpenAlex(_) => openalex::supports_spec(id),
        AnyProvider::Crossref(_) => crossref::supports_spec(id),
        AnyProvider::Dimensions(_) => dimensions::supports_spec(id),
        AnyProvider::EuropePmc(_) => europe_pmc::supports_spec(id),
        AnyProvider::Wikipedia(_) => wikipedia::supports_spec(id),
        AnyProvider::Altmetric(_) => altmetric::supports_spec(id),
        AnyProvider::GitHub(_) => github::supports_spec(id),
        AnyProvider::CratesIo(_) => crates_io::supports_spec(id),
        AnyProvider::Bioconda(_) => bioconda::supports_spec(id),
        AnyProvider::Pypi(_) => pypi::supports_spec(id),
        AnyProvider::Homebrew(_) => homebrew::supports_spec(id),
        AnyProvider::DockerHub(_) => docker_hub::supports_spec(id),
        AnyProvider::Quay(_) => quay::supports_spec(id),
    }
}

pub open spec fn any_name(p: AnyProvider) -> Seq<char> {
    match p {
        AnyProvider::OpenAlex(_) => "openalex"@,
        AnyProvider::Crossref(_) => "crossref"@,
        AnyProvider::Dimensions(_) => "dimensions"@,
        AnyProvider::EuropePmc(_) => "europe_pmc"@,
        AnyProvider::Wikipedia(_) => "wikipedia"@,
        AnyProvider::Altmetric(_) => "altmetric"@,
        AnyProvider::GitHub(_) => "github"@,
        AnyProvider::CratesIo(_) => "crates.io"@,
        AnyProvider::Bioconda(_) => "bioconda"@,
        AnyProvider::Pypi(_) => "pypi"@,
        AnyProvider::Homebrew(_) => "homebrew"@,
        AnyProvider::DockerHub(_) => "dockerhub"@,
        AnyProvider::Quay(_) => "quay"@,
    }
}

/// A Provider's place in the default display order.
pub open spec fn rank(p: AnyProvider) -> int {
    match p {
        AnyProvider::OpenAlex(_) => 0,
        AnyProvider::Crossref(_) => 1,
        AnyProvider::Dimensions(_) => 2,
        AnyProvider::EuropePmc(_) => 3,
        AnyProvider::Wikipedia(_) => 4,
        AnyProvider::Altmetric(_) => 5,
        AnyProvider::GitHub(_) => 6,
        AnyProvider::CratesIo(_) => 7,
        AnyProvider::Bioconda(_) => 8,
        AnyProvider::Pypi(_) => 9,
        AnyProvider::Homebrew(_) => 10,
        AnyProvider::DockerHub(_) => 11,
        AnyProvider::Quay(_) => 12,
    }
}

pub open spec fn any_category(p: AnyProvider) -> Category {
    match p {
        AnyProvider::OpenAlex(_) | AnyProvider::Crossref(_) | AnyProvider::Dimensions(_) | AnyProvider::EuropePmc(_) => Category::Citations,
        AnyProvider::Wikipedia(_) | AnyProvider::Altmetric(_) => Category::Attention,
        AnyProvider::GitHub(_) => Category::Code,
        _ => Category::Downloads,
    }
}

/// The environment variable a Provider's key is read from, and whether the
/// key is required; `None` for a keyless Provider.
pub open spec fn any_key(p: AnyProvider) -> Option<(Seq<char>, bool)> {
    match p {
        AnyProvider::Altmetric(_) => Some(("ALTMETRIC_KEY"@, true)),
        AnyProvider::GitHub(_) => Some(("GITHUB_TOKEN"@, false)),
        _ => None,
    }
}

pub open spec fn key_view(k: KeyRequirement) -> Option<(Seq<char>, bool)> {
    match k {
        KeyRequirement::Keyless => None,
        KeyRequirement::Optional { env_var } => Some((env_var@, false)),
        KeyRequirement::Required { env_var } => Some((env_var@, true)),
    }
}

impl Provider for AnyProvider {
    fn name(&self) -> (r: &'static str)
        ensures
            r@ == any_name(*self),
    {
        match self {
            AnyProvider::OpenAlex(p) => p.name(),
            AnyProvider::Crossref(p) => p.name(),
            AnyProvider::Dimensions(p) => p.name(),
            AnyProvider::EuropePmc(p) => p.name(),
            AnyProvider::Wikipedia(p) => p.name(),
            AnyProvider::Altmetric(p) => p.name(),
            AnyProvider::GitHub(p) => p.name(),
            AnyProvider::CratesIo(p) => p.name(),
            AnyProvider::Bioconda(p) => p.name(),
            AnyProvider::Pypi(p) => p.name(),
            AnyProvider::Homebrew(p) => p.name(),
            AnyProvider::DockerHub(p) => p.name(),
            AnyProvider::Quay(p) => p.name(),
        }
    }

    fn category(&self) -> (r: Category)
        ensures
            r == any_category(*self),
    {
        match self {
            AnyProvider::OpenAlex(p) => p.category(),
            AnyProvider::Crossref(p) => p.category(),
            AnyProvider::Dimensions(p) => p.category(),
            AnyProvider::EuropePmc(p) => p.category(),
            AnyProvider::Wikipedia(p) => p.category(),
            AnyProvider::Altmetric(p) => p.category(),
            AnyProvider::GitHub(p) => p.category(),
            AnyProvider::CratesIo(p) => p.category(),
            AnyProvider::Bioconda(p) => p.category(),
            AnyProvider::Pypi(p) => p.category(),
            AnyProvider::Homebrew(p) => p.category(),
            AnyProvider::DockerHub(p) => p.category(),
            AnyProvider::Quay(p) => p.category(),
        }
    }

    fn supports(&self, identity: &Identity) -> (r: bool)
        ensures
            r == any_supports(*self, identity@),
    {
        match self {
            AnyProvider::OpenAlex(p) => p.supports(identity),
            AnyProvider::Crossref(p) => p.supports(identity),
            AnyProvider::Dimensions(p) => p.supports(identity),
            AnyProvider::EuropePmc(p) => p.supports(identity),
            AnyProvider::Wikipedia(p) => p.supports(identity),
            AnyProvider::Altmetric(p) => p.supports(identity),
            AnyProvider::GitHub(p) => p.supports(identity),
            AnyProvider::CratesIo(p) => p.supports(identity),
            AnyProvider::Bioconda(p) => p.supports(identity),
            AnyProvider::Pypi(p) => p.supports(identity),
            AnyProvider::Homebrew(p) => p.supports(identity),
            AnyProvider::DockerHub(p) => p.supports(identity),
            AnyProvider::Quay(p) => p.supports(identity),
        }
    }

    fn key_requirement(&self) -> (r: KeyRequirement)
        ensures
            key_view(r) == any_key(*self),
    {
        match self {
            AnyProvider::Altmetric(p) => p.key_requirement(),
            AnyProvider::GitHub(p) => p.key_requirement(),
            _ => KeyRequirement::Keyless,
        }
    }
}

/// The display order of the default set.
pub open spec fn default_names() -> Seq<Seq<char>> {
    seq![
        "openalex"@, "crossref"@, "dimensions"@, "europe_pmc"@, "wikipedia"@, "altmetric"@, "github"@,
        "crates.io"@, "bioconda"@, "pypi"@, "homebrew"@, "dockerhub"@, "quay"@,
    ]
}

pub open spec fn names_of(ps: Seq<AnyProvider>) -> Seq<Seq<char>> {
    ps.map_values(|p: AnyProvider| any_name(p))
}

/// A secret as a Provider holds it: an empty one counts as none.
pub open spec fn secret_view(o: Option<String>) -> Option<Seq<char>> {
    match o {
        Some(k) => if k@.len() == 0 { None } else { Some(k@) },
        None => None,
    }
}

/// The Providers enabled by default, in display order. The Altmetric key and
/// the GitHub token are handed in; an empty one counts as none.
pub fn default_providers(altmetric_key: Option<String>, github_token: Option<String>) -> (r: Vec<AnyProvider>)
    ensures
        names_of(r@) == default_names(),
        r.len() == 13,
        forall|k: int| 0 <= k < 13 ==> rank(#[trigger] r@[k]) == k,
        r@[5] matches AnyProvider::Altmetric(a) && a@ == secret_view(altmetric_key),
        r@[6] matches AnyProvider::GitHub(g) && g@ == secret_view(github_token),
{
    let mut r: Vec<AnyProvider> = Vec::new();
    r.push(AnyProvider::OpenAlex(OpenAlex));
    r.push(AnyProvider::Crossref(Crossref));
    r.push(AnyProvider::Dimensions(Dimensions));
    r.push(AnyProvider::EuropePmc(EuropePmc));
    r.push(AnyProvider::Wikipedia(Wikipedia));
    r.push(AnyProvider::Altmetric(Altmetric::with_key(altmetric_key)));
    r.push(AnyProvider::GitHub(GitHub::with_token(github_token)));
    r.push(AnyProvider::CratesIo(CratesIo));
    r.push(AnyProvider::Bioconda(Bioconda));
    r.push(AnyProvider::Pypi(Pypi));
    r.push(AnyProvider::Homebrew(Homebrew));
    r.push(AnyProvider::DockerHub(DockerHub));
    r.push(AnyProvider::Quay(Quay));
    assert(names_of(r@) =~= default_names());
    r
}

/// How many of `ps` understand `id`.
pub open spec fn count_supporting(ps: Seq<AnyProvider>, id: IdentityView) -> nat
    decreases ps.len(),
{
    if ps.len() == 0 {
        0
    } else {
        count_supporting(ps.drop_last(), id) + if any_supports(ps.last(), id) { 1nat } else { 0nat }
    }
}

/// How many default Providers fetch metrics for a paper: the per-work request
/// cost `init --orcid` warns about. Counted from the registry itself, never
/// written down separately.
pub fn paper_provider_count() -> (r: usize)
    ensures
        exists|ps: Seq<AnyProvider>| names_of(ps) == default_names()
            && r == count_supporting(ps, IdentityView::Doi("10.0/0"@)),
        r == 6,
{
    let sample = Identity::Paper(crate::identity::PaperId::Doi(crate::text::owned("10.0/0")));
    let providers = default_providers(None, None);
    proof {
        reveal_strlit("10.0/0");
    }
    let mut n: usize = 0;
    let mut i: usize = 0;
    while i < providers.len()
        invariant
            i <= providers.len(),
            providers.len() == 13,
            n <= i,
            n == count_supporting(providers@.take(i as int), sample@),
            sample@ == IdentityView::Doi("10.0/0"@),
        decreases providers.len() - i,
    {
        assert(providers@.take(i + 1).drop_last() =~= providers@.take(i as int));
        if providers[i].supports(&sample) {
            n = n + 1;
        }
        i = i + 1;
    }
    assert(providers@.take(13) =~= providers@);
    proof {
        lemma_paper_support(providers@);
    }
    n
}

proof fn lemma_count_prefix(ps: Seq<AnyProvider>, id: IdentityView, j: int)
    requires
        0 <= j <= ps.len(),
        ps.len() == 13,
        forall|k: int| 0 <= k < 13 ==> (any_supports(#[trigger] ps[k], id) <==> k < 6),
    ensures
        count_supporting(ps.take(j), id) == if j < 6 { j as nat } else { 6nat },
    decreases j,
{
    if j > 0 {
        lemma_count_prefix(ps, id, j - 1);
        assert(ps.take(j).drop_last() =~= ps.take(j - 1));
        assert(ps.take(j).last() == ps[j - 1]);
    }
}

/// Among the default Providers, exactly the six paper Providers (OpenAlex,
/// Crossref, Dimensions, Europe PMC, Wikipedia, Altmetric) understand a DOI.
proof fn lemma_paper_support(ps: Seq<AnyProvider>)
    requires
        ps.len() == 13,
        forall|k: int| 0 <= k < 13 ==> rank(#[trigger] ps[k]) == k,
    ensures
        count_supporting(ps, IdentityView::Doi("10.0/0"@)) == 6,
{
    let id = IdentityView::Doi("10.0/0"@);
    assert forall|k: int| 0 <= k < 13 implies (any_supports(#[trigger] ps[k], id) <==> k < 6) by {
        assert(rank(ps[k]) == k);
    }
    lemma_count_prefix(ps, id, 13);
    assert(ps.take(13) =~= ps);
}

/// The KEY column of `boast providers`: `none` for a keyless Provider,
/// else whether the key is optional or required, its variable, and whether
/// that variable is set.
pub open spec fn key_text(k: Option<(Seq<char>, bool)>, set_vars: Seq<Seq<char>>) -> Seq<char> {
    match k {
        None => "none"@,
        Some((var, required)) => (if required { "required"@ } else { "optional"@ }) + ": "@ + var + " ("@
            + (if set_vars.contains(var) { "set"@ } else { "not set"@ }) + ")"@,
    }
}

fn is_listed(vars: &Vec<String>, var: &str) -> (r: bool)
    ensures
        r == crate::model::seq_views(vars@).contains(var@),
{
    let mut i: usize = 0;
    while i < vars.len()
        invariant
            i <= vars.len(),
            forall|k: int| 0 <= k < i ==> vars@[k]@ != var@,
        decreases vars.len() - i,
    {
        if crate::text::str_eq(vars[i].as_str(), var) {
            assert(crate::model::seq_views(vars@)[i as int] == var@);
            return true;
        }
        i = i + 1;
    }
    assert(!crate::model::seq_views(vars@).contains(var@)) by {
        if crate::model::seq_views(vars@).contains(var@) {
            let k = choose|k: int| 0 <= k < vars@.len() && crate::model::seq_views(vars@)[k] == var@;
            assert(vars@[k]@ == var@);
        }
    }
    false
}

/// The KEY column's text for one Provider. `set_vars` names the environment
/// variables that currently hold a non-empty value; a keyless Provider's row
/// never depends on them.
pub fn describe_key(requirement: KeyRequirement, set_vars: &Vec<String>) -> (r: String)
    ensures
        r@ == key_text(key_view(requirement), crate::model::seq_views(set_vars@)),
{
    let (label, var) = match requirement {
        KeyRequirement::Keyless => {
            return crate::text::owned("none");
        },
        KeyRequirement::Optional { env_var } => ("optional", env_var),
        KeyRequirement::Required { env_var } => ("required", env_var),
    };
    let mut t = crate::text::owned(label);
    crate::text::push_str(&mut t, ": ");
    crate::text::push_str(&mut t, var);
    crate::text::push_str(&mut t, " (");
    crate::text::push_str(&mut t, if is_listed(set_vars, var) { "set" } else { "not set" });
    crate::text::push_str(&mut t, ")");
    t
}

/// The Providers of Category `c`, in order.
pub open spec fn of_category(ps: Seq<AnyProvider>, c: Category) -> Seq<AnyProvider>
    decreases ps.len(),
{
    if ps.len() == 0 {
        seq![]
    } else {
        of_category(ps.drop_last(), c) + if any_category(ps.last()) == c { seq![ps.last()] } else { seq![] }
    }
}

/// The Providers grouped in the shared Category display order, keeping
/// their own order within a Category.
pub open spec fn grouped(ps: Seq<AnyProvider>, cs: Seq<Category>) -> Seq<AnyProvider>
    decreases cs.len(),
{
    if cs.len() == 0 {
        seq![]
    } else {
        grouped(ps, cs.drop_last()) + of_category(ps, cs.last())
    }
}

pub open spec fn widest(ps: Seq<AnyProvider>, col: int) -> nat
    decreases ps.len(),
{
    if ps.len() == 0 {
        0
    } else {
        let w = widest(ps.drop_last(), col);
        let b = (if col == 0 { any_name(ps.last()) } else { category_label(any_category(ps.last())) }).len();
        if b > w { b } else { w }
    }
}

pub open spec fn provider_line(p: AnyProvider, wn: nat, wc: nat, set_vars: Seq<Seq<char>>) -> Seq<char> {
    crate::report::pad_right(any_name(p), wn) + "  "@ + crate::report::pad_right(category_label(any_category(p)), wc) + "  "@
        + crate::report::pad_right("yes"@, 7) + "  "@ + key_text(any_key(p), set_vars) + "\n"@
}

pub open spec fn provider_lines(ps: Seq<AnyProvider>, wn: nat, wc: nat, set_vars: Seq<Seq<char>>) -> Seq<char>
    decreases ps.len(),
{
    if ps.len() == 0 {
        seq![]
    } else {
        provider_lines(ps.drop_last(), wn, wc, set_vars) + provider_line(ps.last(), wn, wc, set_vars)
    }
}

/// The `boast providers` table: a header, then one row per Provider grouped
/// in the shared Category order, each with its name, Category, default
/// status (every listed Provider is on by default) and key requirement.
pub open spec fn providers_text(ps: Seq<AnyProvider>, set_vars: Seq<Seq<char>>) -> Seq<char> {
    let wn: nat = if widest(ps, 0) > 8 { widest(ps, 0) } else { 8 };
    let wc: nat = if widest(ps, 1) > 8 { widest(ps, 1) } else { 8 };
    crate::report::pad_right("PROVIDER"@, wn) + "  "@ + crate::report::pad_right("CATEGORY"@, wc) + "  "@
        + crate::report::pad_right("DEFAULT"@, 7) + "  KEY\n"@
        + provider_lines(grouped(ps, crate::report::category_order()), wn, wc, set_vars)
}

fn push_provider_line(out: &mut String, p: &AnyProvider, wn: usize, wc: usize, set_vars: &Vec<String>)
    ensures
        final(out)@ == old(out)@ + provider_line(*p, wn as nat, wc as nat, crate::model::seq_views(set_vars@)),
{
    crate::report::push_pad_right(out, p.name(), wn);
    crate::text::push_str(out, "  ");
    crate::report::push_pad_right(out, p.category().label(), wc);
    crate::text::push_str(out, "  ");
    crate::report::push_pad_right(out, "yes", 7);
    crate::text::push_str(out, "  ");
    let key = describe_key(p.key_requirement(), set_vars);
    crate::text::push_str(out, key.as_str());
    crate::text::push_str(out, "\n");
}

/// Renders the registry as the `boast providers` table.
pub fn render_providers(providers: &Vec<AnyProvider>, set_vars: &Vec<String>) -> (r: String)
    ensures
        r@ == providers_text(providers@, crate::model::seq_views(set_vars@)),
{
    let ghost ps = providers@;
    let mut wn: usize = 8;
    let mut wc: usize = 8;
    let mut i: usize = 0;
    while i < providers.len()
        invariant
            i <= providers.len(),
            ps == providers@,
            wn as nat == (if widest(ps.take(i as int), 0) > 8 { widest(ps.take(i as int), 0) } else { 8 }),
            wc as nat == (if widest(ps.take(i as int), 1) > 8 { widest(ps.take(i as int), 1) } else { 8 }),
            wn <= 10,
            wc <= 9,
        decreases providers.len() - i,
    {
        assert(ps.take(i + 1).drop_last() =~= ps.take(i as int));
        assert(ps.take(i + 1).last() == ps[i as int]);
        let n = providers[i].name();
        let l = providers[i].category().label();
        proof {
            reveal_strlit("openalex");
            reveal_strlit("crossref");
            reveal_strlit("dimensions");
            reveal_strlit("europe_pmc");
            reveal_strlit("wikipedia");
            reveal_strlit("altmetric");
            reveal_strlit("github");
            reveal_strlit("crates.io");
            reveal_strlit("bioconda");
            reveal_strlit("pypi");
            reveal_strlit("homebrew");
            reveal_strlit("dockerhub");
            reveal_strlit("quay");
            reveal_strlit("Code");
            reveal_strlit("Downloads");
            reveal_strlit("Citations");
            reveal_strlit("Attention");
        }
        let nl = n.unicode_len();
        let ll = l.unicode_len();
        if nl > wn {
            wn = nl;
        }
        if ll > wc {
            wc = ll;
        }
        i = i + 1;
    }
    assert(ps.take(providers.len() as int) =~= ps);
    let mut out = String::new();
    crate::report::push_pad_right(&mut out, "PROVIDER", wn);
    crate::text::push_str(&mut out, "  ");
    crate::report::push_pad_right(&mut out, "CATEGORY", wc);
    crate::text::push_str(&mut out, "  ");
    crate::report::push_pad_right(&mut out, "DEFAULT", 7);
    crate::text::push_str(&mut out, "  KEY\n");
    let ghost head = out@;
    let order = crate::report::category_order_exec();
    let mut k: usize = 0;
    assert(head + provider_lines(grouped(ps, order@.take(0)), wn as nat, wc as nat, crate::model::seq_views(set_vars@)) =~= head);
    while k < order.len()
        invariant
            k <= order.len(),
            ps == providers@,
            order@ == crate::report::category_order(),
            out@ == head + provider_lines(grouped(ps, order@.take(k as int)), wn as nat, wc as nat, crate::model::seq_views(set_vars@)),
        decreases order.len() - k,
    {
        assert(order@.take(k + 1).drop_last() =~= order@.take(k as int));
        let c = order[k];
        let ghost before_k = grouped(ps, order@.take(k as int));
        let mut j: usize = 0;
        assert(of_category(ps.take(0), c) =~= seq![]);
        assert(before_k + of_category(ps.take(0), c) =~= before_k);
        while j < providers.len()
            invariant
                j <= providers.len(),
                ps == providers@,
                out@ == head + provider_lines(before_k + of_category(ps.take(j as int), c), wn as nat, wc as nat, crate::model::seq_views(set_vars@)),
            decreases providers.len() - j,
        {
            assert(ps.take(j + 1).drop_last() =~= ps.take(j as int));
            assert(ps.take(j + 1).last() == ps[j as int]);
            let p = &providers[j];
            if p.category() == c {
                let ghost prev = before_k + of_category(ps.take(j as int), c);
                push_provider_line(&mut out, p, wn, wc, set_vars);
                assert(prev.push(ps[j as int]) =~= before_k + of_category(ps.take(j + 1), c));
                assert(prev.push(ps[j as int]).drop_last() =~= prev);
            } else {
                assert(before_k + of_category(ps.take(j as int), c) =~= before_k + of_category(ps.take(j + 1), c));
            }
            j = j + 1;
        }
        assert(ps.take(providers.len() as int) =~= ps);
        k = k + 1;
    }
    assert(order@.take(4) =~= order@);
    out
}

} // verus!

verus! {

/// A Category's place in the shared display order.
pub open spec fn category_rank(c: Category) -> int {
    match c {
        Category::Code => 0,
        Category::Downloads => 1,
        Category::Citations => 2,
        Category::Attention => 3,
    }
}

proof fn lemma_of_category_all(ps: Seq<AnyProvider>, c: Category)
    ensures
        forall|t: int| 0 <= t < of_category(ps, c).len() ==> any_category(#[trigger] of_category(ps, c)[t]) == c,
        of_category(ps, c).len() <= ps.len(),
    decreases ps.len(),
{
    if ps.len() > 0 {
        lemma_of_category_all(ps.drop_last(), c);
        let a = of_category(ps.drop_last(), c);
        let s = of_category(ps, c);
        assert forall|t: int| 0 <= t < s.len() implies any_category(#[trigger] s[t]) == c by {
            if t < a.len() {
                assert(s[t] == a[t]);
            }
        }
    }
}

proof fn lemma_of_category_counts(ps: Seq<AnyProvider>)
    ensures
        of_category(ps, Category::Code).len() + of_category(ps, Category::Downloads).len()
            + of_category(ps, Category::Citations).len() + of_category(ps, Category::Attention).len() == ps.len(),
    decreases ps.len(),
{
    if ps.len() > 0 {
        lemma_of_category_counts(ps.drop_last());
    }
}

proof fn lemma_grouped_sorted(ps: Seq<AnyProvider>, cs: Seq<Category>)
    requires
        forall|i: int, j: int| 0 <= i < j < cs.len() ==> category_rank(#[trigger] cs[i]) < category_rank(#[trigger] cs[j]),
    ensures
        forall|j: int, k: int| 0 <= j < k < grouped(ps, cs).len() ==> category_rank(any_category(#[trigger] grouped(ps, cs)[j]))
            <= category_rank(any_category(#[trigger] grouped(ps, cs)[k])),
        cs.len() > 0 ==> forall|t: int| 0 <= t < grouped(ps, cs).len() ==> category_rank(any_category(#[trigger] grouped(ps, cs)[t]))
            <= category_rank(cs.last()),
    decreases cs.len(),
{
    if cs.len() > 0 {
        let pre = cs.drop_last();
        assert forall|i: int, j: int| 0 <= i < j < pre.len() implies category_rank(#[trigger] pre[i]) < category_rank(#[trigger] pre[j]) by {
            assert(pre[i] == cs[i] && pre[j] == cs[j]);
        }
        lemma_grouped_sorted(ps, pre);
        lemma_of_category_all(ps, cs.last());
        let a = grouped(ps, pre);
        let b = of_category(ps, cs.last());
        let g = grouped(ps, cs);
        assert(g == a + b);
        if pre.len() > 0 {
            assert(category_rank(pre.last()) < category_rank(cs.last())) by {
                assert(pre.last() == cs[cs.len() - 2]);
            }
        }
        assert forall|t: int| 0 <= t < g.len() implies category_rank(any_category(#[trigger] g[t])) <= category_rank(cs.last()) by {
            if t < a.len() {
                assert(g[t] == a[t]);
            } else {
                assert(g[t] == b[t - a.len()]);
            }
        }
        assert forall|j: int, k: int| 0 <= j < k < g.len() implies category_rank(any_category(#[trigger] g[j]))
            <= category_rank(any_category(#[trigger] g[k])) by {
            if k < a.len() {
                assert(g[j] == a[j] && g[k] == a[k]);
            } else if j < a.len() {
                assert(g[j] == a[j]);
                assert(g[k] == b[k - a.len()]);
            } else {
                assert(g[j] == b[j - a.len()] && g[k] == b[k - a.len()]);
            }
        }
    }
}

/// The `boast providers` table has one row per registered Provider, and its
/// rows come grouped in the shared Category order (Code, Downloads,
/// Citations, Attention), each Category's Providers in registry order.
pub proof fn law_providers_table_rows(ps: Seq<AnyProvider>)
    ensures
        grouped(ps, crate::report::category_order()).len() == ps.len(),
        forall|j: int, k: int| 0 <= j < k < ps.len() ==> category_rank(
            any_category(#[trigger] grouped(ps, crate::report::category_order())[j]),
        ) <= category_rank(any_category(#[trigger] grouped(ps, crate::report::category_order())[k])),
        grouped(ps, crate::report::category_order()) == of_category(ps, Category::Code) + of_category(ps, Category::Downloads)
            + of_category(ps, Category::Citations) + of_category(ps, Category::Attention),
{
    let cs = crate::report::category_order();
    lemma_of_category_counts(ps);
    let c0: Seq<Category> = seq![];
    let c1 = c0.push(Category::Code);
    let c2 = c1.push(Category::Downloads);
    let c3 = c2.push(Category::Citations);
    let c4 = c3.push(Category::Attention);
    assert(c4 =~= cs);
    assert(c1.drop_last() =~= c0);
    assert(c2.drop_last() =~= c1);
    assert(c3.drop_last() =~= c2);
    assert(c4.drop_last() =~= c3);
    assert(grouped(ps, c0) =~= seq![]);
    assert(grouped(ps, c1) =~= of_category(ps, Category::Code));
    assert(grouped(ps, c2) == grouped(ps, c1) + of_category(ps, Category::Downloads));
    assert(grouped(ps, c3) == grouped(ps, c2) + of_category(ps, Category::Citations));
    assert(grouped(ps, c4) == grouped(ps, c3) + of_category(ps, Category::Attention));
    lemma_grouped_sorted(ps, cs);
}

} // verus!

verus! {

/// The number of line breaks in `s`.
pub open spec fn newlines(s: Seq<char>) -> nat
    decreases s.len(),
{
    if s.len() == 0 {
        0
    } else {
        newlines(s.drop_last()) + if s.last() == '\n' { 1nat } else { 0nat }
    }
}

/// No line break occurs in `s`.
pub open spec fn single_line(s: Seq<char>) -> bool {
    forall|i: int| 0 <= i < s.len() ==> s[i] != '\n'
}

proof fn lemma_newlines_add(a: Seq<char>, b: Seq<char>)
    ensures
        newlines(a + b) == newlines(a) + newlines(b),
    decreases b.len(),
{
    if b.len() > 0 {
        lemma_newlines_add(a, b.drop_last());
        assert((a + b).drop_last() =~= a + b.drop_last());
    } else {
        assert(a + b =~= a);
    }
}

proof fn lemma_single_line(s: Seq<char>)
    requires
        single_line(s),
    ensures
        newlines(s) == 0,
    decreases s.len(),
{
    if s.len() > 0 {
        lemma_single_line(s.drop_last());
    }
}

proof fn lemma_single_line_add(a: Seq<char>, b: Seq<char>)
    requires
        single_line(a),
        single_line(b),
    ensures
        single_line(a + b),
{
    assert forall|i: int| 0 <= i < (a + b).len() implies (a + b)[i] != '\n' by {
        if i < a.len() {
            assert((a + b)[i] == a[i]);
        } else {
            assert((a + b)[i] == b[i - a.len()]);
        }
    }
}

proof fn lemma_pad_single_line(s: Seq<char>, w: nat)
    requires
        single_line(s),
    ensures
        single_line(crate::report::pad_right(s, w)),
{
    if s.len() < w {
        lemma_single_line_add(s, crate::report::spaces((w - s.len()) as nat));
    }
}

proof fn lemma_provider_words_single_line(p: AnyProvider, set_vars: Seq<Seq<char>>)
    ensures
        single_line(any_name(p)),
        single_line(category_label(any_category(p))),
        single_line(key_text(any_key(p), set_vars)),
{
    reveal_strlit("openalex");
    reveal_strlit("crossref");
    reveal_strlit("dimensions");
    reveal_strlit("europe_pmc");
    reveal_strlit("wikipedia");
    reveal_strlit("altmetric");
    reveal_strlit("github");
    reveal_strlit("crates.io");
    reveal_strlit("bioconda");
    reveal_strlit("pypi");
    reveal_strlit("homebrew");
    reveal_strlit("dockerhub");
    reveal_strlit("quay");
    reveal_strlit("Code");
    reveal_strlit("Downloads");
    reveal_strlit("Citations");
    reveal_strlit("Attention");
    reveal_strlit("none");
    reveal_strlit("required");
    reveal_strlit("optional");
    reveal_strlit(": ");
    reveal_strlit(" (");
    reveal_strlit("set");
    reveal_strlit("not set");
    reveal_strlit(")");
    reveal_strlit("ALTMETRIC_KEY");
    reveal_strlit("GITHUB_TOKEN");
    match any_key(p) {
        None => {},
        Some((var, required)) => {
            let a = if required { "required"@ } else { "optional"@ };
            let st = if set_vars.contains(var) { "set"@ } else { "not set"@ };
            lemma_single_line_add(a, ": "@);
            lemma_single_line_add(a + ": "@, var);
            lemma_single_line_add(a + ": "@ + var, " ("@);
            lemma_single_line_add(a + ": "@ + var + " ("@, st);
            lemma_single_line_add(a + ": "@ + var + " ("@ + st, ")"@);
        },
    }
}

proof fn lemma_provider_line_breaks(p: AnyProvider, wn: nat, wc: nat, set_vars: Seq<Seq<char>>)
    ensures
        newlines(provider_line(p, wn, wc, set_vars)) == 1,
{
    reveal_strlit("  ");
    reveal_strlit("yes");
    reveal_strlit("\n");
    lemma_provider_words_single_line(p, set_vars);
    let a = crate::report::pad_right(any_name(p), wn);
    let b = crate::report::pad_right(category_label(any_category(p)), wc);
    let c = crate::report::pad_right("yes"@, 7);
    let k = key_text(any_key(p), set_vars);
    lemma_pad_single_line(any_name(p), wn);
    lemma_pad_single_line(category_label(any_category(p)), wc);
    lemma_pad_single_line("yes"@, 7);
    lemma_single_line_add(a, "  "@);
    lemma_single_line_add(a + "  "@, b);
    lemma_single_line_add(a + "  "@ + b, "  "@);
    lemma_single_line_add(a + "  "@ + b + "  "@, c);
    lemma_single_line_add(a + "  "@ + b + "  "@ + c, "  "@);
    lemma_single_line_add(a + "  "@ + b + "  "@ + c + "  "@, k);
    let body = a + "  "@ + b + "  "@ + c + "  "@ + k;
    lemma_single_line(body);
    lemma_newlines_add(body, "\n"@);
    assert(newlines("\n"@) == 1) by {
        reveal_strlit("\n");
        assert("\n"@.drop_last() =~= Seq::<char>::empty());
        assert(newlines(Seq::<char>::empty()) == 0);
    }
}

proof fn lemma_provider_lines_breaks(ps: Seq<AnyProvider>, wn: nat, wc: nat, set_vars: Seq<Seq<char>>)
    ensures
        newlines(provider_lines(ps, wn, wc, set_vars)) == ps.len(),
    decreases ps.len(),
{
    if ps.len() > 0 {
        lemma_provider_lines_breaks(ps.drop_last(), wn, wc, set_vars);
        lemma_provider_line_breaks(ps.last(), wn, wc, set_vars);
        lemma_newlines_add(provider_lines(ps.drop_last(), wn, wc, set_vars), provider_line(ps.last(), wn, wc, set_vars));
    }
}

/// The `boast providers` table is one header line and then one line per
/// registered Provider: it holds exactly `ps.len() + 1` line breaks and ends
/// with one.
pub proof fn law_providers_table_lines(ps: Seq<AnyProvider>, set_vars: Seq<Seq<char>>)
    ensures
        newlines(providers_text(ps, set_vars)) == ps.len() + 1,
        providers_text(ps, set_vars).last() == '\n',
{
    reveal_strlit("PROVIDER");
    reveal_strlit("CATEGORY");
    reveal_strlit("DEFAULT");
    reveal_strlit("  ");
    reveal_strlit("  KEY\n");
    let wn: nat = if widest(ps, 0) > 8 { widest(ps, 0) } else { 8 };
    let wc: nat = if widest(ps, 1) > 8 { widest(ps, 1) } else { 8 };
    let g = grouped(ps, crate::report::category_order());
    law_providers_table_rows(ps);
    lemma_provider_lines_breaks(g, wn, wc, set_vars);
    let h1 = crate::report::pad_right("PROVIDER"@, wn);
    let h2 = crate::report::pad_right("CATEGORY"@, wc);
    let h3 = crate::report::pad_right("DEFAULT"@, 7);
    lemma_pad_single_line("PROVIDER"@, wn);
    lemma_pad_single_line("CATEGORY"@, wc);
    lemma_pad_single_line("DEFAULT"@, 7);
    lemma_single_line_add(h1, "  "@);
    lemma_single_line_add(h1 + "  "@, h2);
    lemma_single_line_add(h1 + "  "@ + h2, "  "@);
    lemma_single_line_add(h1 + "  "@ + h2 + "  "@, h3);
    let head = h1 + "  "@ + h2 + "  "@ + h3;
    lemma_single_line(head);
    lemma_newlines_add(head, "  KEY\n"@);
    assert(newlines("  KEY\n"@) == 1) by {
        let k = "  KEY\n"@;
        assert(k.drop_last() =~= seq![' ', ' ', 'K', 'E', 'Y']);
        lemma_single_line(k.drop_last());
    }
    let lines = provider_lines(g, wn, wc, set_vars);
    lemma_newlines_add(head + "  KEY\n"@, lines);
    assert(providers_text(ps, set_vars) == head + "  KEY\n"@ + lines);
    if lines.len() == 0 {
        assert(providers_text(ps, set_vars) =~= head + "  KEY\n"@);
    } else {
        assert(g.len() > 0);
        assert(lines == provider_lines(g.drop_last(), wn, wc, set_vars) + provider_line(g.last(), wn, wc, set_vars));
        reveal_strlit("\n");
    }
}

} // verus!
