//! The command-line surface's decisions: the bare-identifier shortcut
//! (`boast 10.1234/x` means `boast about 10.1234/x`), the arguments of each
//! subcommand, how identifiers are read from arguments and files, and the
//! checks and messages of `about` and `init`. Reading arguments, files and
//! the network, and printing, live with the program.

use vstd::prelude::*;

use crate::identity::{
    error_message, identity_parse, result_view, ErrorView, Identity, IdentityError, IdentityView, OrcidId,
    PackageId, RepoId,
};
use crate::manifest::{identity_views, parse_all};
use crate::orcid::{plural, OrcidExpansion, OrcidWork};
use crate::text::{
    chars_of, concat2, concat3, dec, digits_value, ends_with, is_ascii_alnum, is_digit, leading_digits, lower,
    lower_chars, owned, parse_digit_run, push_char, push_chars, push_str, push_u64, slice_chars, starts_with, str_eq, string_of, trim,
    trim_chars,
};

verus! {

/// The subcommand of a parsed command line.
pub enum Command {
    About(AboutArgs),
    Render(RenderArgs),
    Diff(DiffArgs),
    Providers,
    Init(InitArgs),
}

/// A parsed command line.
pub struct Cli {
    pub command: Command,
    /// Logging verbosity (`-v` info, `-vv` debug, `-vvv` trace).
    pub verbose: u8,
    /// Silence all logging except errors.
    pub quiet: bool,
}

/// `diff`'s two Snapshot files.
pub struct DiffArgs {
    pub old: String,
    pub new: String,
}

/// `render`'s output formats.
#[derive(Debug, Clone, Copy, PartialEq, Eq, Structural)]
pub enum Format {
    /// Category-grouped Markdown Report.
    Markdown,
    /// A single grant-ready sentence of the headline Metrics.
    Prose,
}

pub struct RenderArgs {
    pub snapshot: String,
    pub format: Format,
}

/// Identifier sources shared by `about` and `init`: positionals plus the
/// `--repo`, `--package` and `--from-file` alternatives.
pub struct IdentitySourceArgs {
    pub targets: Vec<String>,
    pub repos: Vec<String>,
    pub packages: Vec<String>,
    pub from_file: Vec<String>,
}

impl IdentitySourceArgs {
    /// Whether `--repo`, `--package` or `--from-file` was given (positionals
    /// excluded).
    pub fn has_flag_sources(&self) -> (r: bool)
        ensures
            r == (self.repos.len() > 0 || self.packages.len() > 0 || self.from_file.len() > 0),
    {
        self.repos.len() > 0 || self.packages.len() > 0 || self.from_file.len() > 0
    }
}

pub struct AboutArgs {
    pub sources: IdentitySourceArgs,
    pub topic: Option<String>,
    pub snapshot_dir: String,
    pub no_save: bool,
    pub save: Option<String>,
    pub threads: usize,
}

pub struct InitArgs {
    pub sources: IdentitySourceArgs,
    pub topic: Option<String>,
    pub output: String,
    pub orcid: Vec<String>,
    pub include_unidentified: bool,
}

pub open spec fn is_global_flag_spec(t: Seq<char>) -> bool {
    ||| t == "-q"@ || t == "--quiet"@ || t == "-h"@ || t == "--help"@
    ||| t == "-V"@ || t == "--version"@ || t == "--verbose"@
    ||| (starts_with(t, "-v"@) && forall|k: int| 1 <= k < t.len() ==> #[trigger] t[k] == 'v')
}

pub open spec fn is_subcommand(t: Seq<char>) -> bool {
    t == "about"@ || t == "render"@ || t == "diff"@ || t == "providers"@ || t == "init"@ || t == "help"@
}

/// Recognised global flags, all valueless: skipped when locating the
/// subcommand so that they can precede an implicit `about`.
pub fn is_global_flag(token: &str) -> (r: bool)
    ensures
        r == is_global_flag_spec(token@),
{
    if str_eq(token, "-q") || str_eq(token, "--quiet") || str_eq(token, "-h") || str_eq(token, "--help")
        || str_eq(token, "-V") || str_eq(token, "--version") || str_eq(token, "--verbose") {
        return true;
    }
    let v = chars_of(token);
    proof {
        reveal_strlit("-v");
    }
    if v.len() < 2 || v[0] != '-' || v[1] != 'v' {
        assert(!starts_with(token@, "-v"@)) by {
            if starts_with(token@, "-v"@) {
                assert(token@.subrange(0, 2)[0] == '-');
                assert(token@.subrange(0, 2)[1] == 'v');
            }
        }
        return false;
    }
    assert(token@.subrange(0, 2) =~= "-v"@);
    let mut k: usize = 1;
    while k < v.len()
        invariant
            1 <= k <= v.len(),
            v@ == token@,
            forall|j: int| 1 <= j < k ==> v@[j] == 'v',
            !(token@ == "-q"@ || token@ == "--quiet"@ || token@ == "-h"@ || token@ == "--help"@ || token@ == "-V"@
                || token@ == "--version"@ || token@ == "--verbose"@),
        decreases v.len() - k,
    {
        if v[k] != 'v' {
            assert(token@[k as int] != 'v');
            return false;
        }
        k = k + 1;
    }
    true
}

fn is_subcommand_exec(t: &str) -> (r: bool)
    ensures
        r == is_subcommand(t@),
{
    str_eq(t, "about") || str_eq(t, "render") || str_eq(t, "diff") || str_eq(t, "providers") || str_eq(t, "init")
        || str_eq(t, "help")
}

/// The first argument at or after `i` that is not a global flag.
pub open spec fn first_non_global(args: Seq<Seq<char>>, i: int) -> Option<int>
    decreases args.len() - i,
{
    if i < 0 || i >= args.len() {
        None
    } else if !is_global_flag_spec(args[i]) {
        Some(i)
    } else {
        first_non_global(args, i + 1)
    }
}

pub open spec fn normalized(args: Seq<Seq<char>>) -> Seq<Seq<char>> {
    match first_non_global(args, 1) {
        Some(i) => if is_subcommand(args[i]) { args } else { args.insert(i, "about"@) },
        None => args,
    }
}

pub open spec fn string_views(v: Seq<String>) -> Seq<Seq<char>> {
    v.map_values(|s: String| s@)
}

/// Inserts an implicit `about` subcommand when the first argument after
/// leading global flags is not a subcommand (a bare identifier, or an
/// `about` flag such as `--repo`). `args[0]` is the program name.
pub fn normalize_args(args: Vec<String>) -> (r: Vec<String>)
    ensures
        string_views(r@) == normalized(string_views(args@)),
{
    let ghost a = string_views(args@);
    let mut out = args;
    let mut i: usize = 1;
    while i < out.len()
        invariant
            1 <= i,
            a == string_views(out@),
            a == string_views(args@),
            first_non_global(a, 1) == first_non_global(a, i as int),
        decreases out.len() - i,
    {
        if is_global_flag(out[i].as_str()) {
            i = i + 1;
            continue;
        }
        assert(a[i as int] == out@[i as int]@);
        assert(first_non_global(a, i as int) == Some(i as int));
        if !is_subcommand_exec(out[i].as_str()) {
            let ghost before = out@;
            out.insert(i, owned("about"));
            assert(string_views(out@) =~= a.insert(i as int, "about"@));
            assert(!is_subcommand(a[i as int]));
            assert(string_views(out@) == normalized(a));
        } else {
            assert(is_subcommand(a[i as int]));
            assert(string_views(out@) == normalized(a));
        }
        return out;
    }
    out
}

/// The digits of an unsigned number: the text without a leading `+`.
pub open spec fn unsigned_body(s: Seq<char>) -> Seq<char> {
    if s.len() > 0 && s[0] == '+' { s.drop_first() } else { s }
}

pub open spec fn parse_usize_spec(s: Seq<char>) -> Option<usize> {
    let body = unsigned_body(s);
    if body.len() == 0 || !crate::identity::all_digits(body) || digits_value(body) > usize::MAX {
        None
    } else {
        Some(digits_value(body) as usize)
    }
}

/// A run of digits is its own leading run of digits.
proof fn lemma_digits_lead(s: Seq<char>)
    requires
        forall|k: int| 0 <= k < s.len() ==> is_digit(#[trigger] s[k]),
    ensures
        leading_digits(s) == s,
    decreases s.len(),
{
    if s.len() > 0 {
        assert(is_digit(s[0]));
        let t = s.drop_first();
        assert forall|k: int| 0 <= k < t.len() implies is_digit(#[trigger] t[k]) by {
            assert(t[k] == s[k + 1]);
        }
        lemma_digits_lead(t);
        assert(seq![s[0]] + t =~= s);
    } else {
        assert(s =~= seq![]);
    }
}

/// `str::parse::<usize>`: an optional `+`, then at least one digit, in range.
pub fn parse_usize(s: &str) -> (r: Option<usize>)
    ensures
        r == parse_usize_spec(s@),
{
    let v = chars_of(s);
    let start: usize = if v.len() > 0 && v[0] == '+' { 1 } else { 0 };
    let ghost body = if s@.len() > 0 && s@[0] == '+' { s@.drop_first() } else { s@ };
    assert(body =~= v@.subrange(start as int, v@.len() as int));
    let mut i: usize = start;
    while i < v.len()
        invariant
            start <= i <= v.len(),
            v@ == s@,
            body == v@.subrange(start as int, v@.len() as int),
            body == unsigned_body(s@),
            forall|k: int| 0 <= k < i - start ==> is_digit(#[trigger] body[k]),
        decreases v.len() - i,
    {
        if !('0' <= v[i] && v[i] <= '9') {
            assert(!is_digit(body[i - start]));
            assert(!crate::identity::all_digits(body));
            return None;
        }
        assert(is_digit(body[i - start]));
        i = i + 1;
    }
    proof {
        lemma_digits_lead(body);
    }
    match parse_digit_run(&v, start) {
        Some(n) => if n > usize::MAX as u64 { None } else { Some(n as usize) },
        None => None,
    }
}

pub open spec fn at_least_one_spec(s: Seq<char>) -> Result<usize, Seq<char>> {
    match parse_usize_spec(s) {
        Some(n) => if n == 0 { Err("must be at least 1"@) } else { Ok(n) },
        None => Err("'"@ + s + "' is not a valid number"@),
    }
}

/// `--threads`' value: a count of at least 1 (0 would leave every fetch
/// queued with no worker to run it).
pub fn parse_at_least_one(s: &str) -> (r: Result<usize, String>)
    ensures
        match (r, at_least_one_spec(s@)) {
            (Ok(n), Ok(m)) => n == m,
            (Err(e), Err(m)) => e@ == m,
            _ => false,
        },
{
    match parse_usize(s) {
        Some(n) => if n == 0 { Err(owned("must be at least 1")) } else { Ok(n) },
        None => Err(concat3("'", s, "' is not a valid number")),
    }
}

pub open spec fn safe_file_char(c: char) -> bool {
    is_ascii_alnum(c) || c == '.' || c == '-' || c == '_'
}

pub open spec fn sanitized(s: Seq<char>) -> Seq<char> {
    s.map_values(|c: char| if safe_file_char(c) { c } else { '-' })
}

/// A filesystem-safe filename component from an Identity's canonical form,
/// e.g. `doi:10.1/x` becomes `doi-10.1-x`.
pub fn sanitize_filename(s: &str) -> (r: String)
    ensures
        r@ == sanitized(s@),
{
    let v = chars_of(s);
    let mut out = String::new();
    let mut i: usize = 0;
    while i < v.len()
        invariant
            i <= v.len(),
            v@ == s@,
            out@ == sanitized(v@.take(i as int)),
        decreases v.len() - i,
    {
        let c = v[i];
        let keep = ('0' <= c && c <= '9') || ('a' <= c && c <= 'z') || ('A' <= c && c <= 'Z') || c == '.'
            || c == '-' || c == '_';
        push_char(&mut out, if keep { c } else { '-' });
        i = i + 1;
        assert(out@ =~= sanitized(v@.take(i as int)));
    }
    assert(v@.take(v.len() as int) =~= v@);
    out
}

/// The lines of `s` as `str::lines` gives them: split at `\n`, a trailing
/// `\r` dropped from each, and no empty line after a final `\n`.
pub open spec fn lines_from(s: Seq<char>, start: int) -> Seq<Seq<char>>
    decreases s.len() + 1 - start,
{
    if start < 0 || start >= s.len() {
        seq![]
    } else {
        let end = line_end(s, start);
        if end < start || end > s.len() {
            seq![]
        } else {
            let raw = s.subrange(start, end);
            let line = if raw.len() > 0 && raw.last() == '\r' { raw.drop_last() } else { raw };
            seq![line] + lines_from(s, end + 1)
        }
    }
}

/// The position of the first `\n` at or after `i` (the length when none).
pub open spec fn line_end(s: Seq<char>, i: int) -> int
    decreases s.len() - i,
{
    if i >= s.len() {
        s.len() as int
    } else if s[i] == '\n' {
        i
    } else {
        line_end(s, i + 1)
    }
}

pub proof fn lemma_line_end_bounds(s: Seq<char>, i: int)
    requires
        0 <= i <= s.len(),
    ensures
        i <= line_end(s, i) <= s.len(),
    decreases s.len() - i,
{
    if i < s.len() && s[i] != '\n' {
        lemma_line_end_bounds(s, i + 1);
    }
}

/// A line that holds an identifier: not blank and not a `#` comment.
pub open spec fn is_listed(line: Seq<char>) -> bool {
    trim(line).len() > 0 && trim(line)[0] != '#'
}

/// The identifiers of `lines` (numbered from `first`), parsed in order; the
/// first bad one is an error naming its 1-based line number.
pub open spec fn parse_lines(lines: Seq<Seq<char>>, first: nat) -> Result<Seq<IdentityView>, Seq<char>>
    decreases lines.len(),
{
    if lines.len() == 0 {
        Ok(seq![])
    } else if !is_listed(lines[0]) {
        parse_lines(lines.drop_first(), first + 1)
    } else {
        match identity_parse(trim(lines[0])) {
            Err(e) => Err("line "@ + dec(first) + ": "@ + error_message(e)),
            Ok(id) => match parse_lines(lines.drop_first(), first + 1) {
                Ok(rest) => Ok(seq![id] + rest),
                Err(m) => Err(m),
            },
        }
    }
}

pub open spec fn prepend(ids: Seq<IdentityView>, r: Result<Seq<IdentityView>, Seq<char>>) -> Result<Seq<IdentityView>, Seq<char>> {
    match r {
        Ok(rest) => Ok(ids + rest),
        Err(m) => Err(m),
    }
}

/// Parses one identifier per line, ignoring blank lines and `#` comments; a
/// bad line is an error naming its 1-based line number.
pub fn parse_identifier_lines(content: &str) -> (r: Result<Vec<Identity>, String>)
    ensures
        match (r, parse_lines(lines_from(content@, 0), 1)) {
            (Ok(ids), Ok(vs)) => identity_views(ids@) == vs,
            (Err(e), Err(m)) => e@ == m,
            _ => false,
        },
{
    let v = chars_of(content);
    let mut ids: Vec<Identity> = Vec::new();
    let mut start: usize = 0;
    let mut processed: u64 = 0;
    assert(identity_views(ids@) =~= seq![]);
    assert(prepend(seq![], parse_lines(lines_from(content@, 0), 1)) =~= parse_lines(lines_from(content@, 0), 1)) by {
        match parse_lines(lines_from(content@, 0), 1) {
            Ok(rest) => assert(seq![] + rest =~= rest),
            Err(_) => {},
        }
    }
    while start < v.len()
        invariant
            v@ == content@,
            start <= v.len(),
            processed <= start,
            parse_lines(lines_from(content@, 0), 1) == prepend(identity_views(ids@), parse_lines(lines_from(content@, start as int), (processed + 1) as nat)),
        decreases v.len() - start,
    {
        let mut end = start;
        while end < v.len() && v[end] != '\n'
            invariant
                start <= end <= v.len(),
                line_end(v@, start as int) == line_end(v@, end as int),
            decreases v.len() - end,
        {
            end = end + 1;
        }
        let raw = slice_chars(&v, start, end);
        let line = if raw.len() > 0 && raw[raw.len() - 1] == '\r' { slice_chars(&raw, 0, raw.len() - 1) } else { raw };
        assert(raw.len() > 0 && raw[raw.len() - 1] == '\r' ==> raw@.subrange(0, raw.len() - 1) =~= raw@.drop_last());
        let trimmed = trim_chars(&line);
        let ghost n = (processed + 1) as nat;
        let ghost rest_lines = lines_from(content@, end + 1);
        assert(lines_from(content@, start as int) == seq![line@] + rest_lines);
        assert((seq![line@] + rest_lines)[0] == line@);
        assert((seq![line@] + rest_lines).drop_first() =~= rest_lines);
        if trimmed.len() > 0 && trimmed[0] != '#' {
            let text = string_of(&trimmed);
            match Identity::parse(text.as_str()) {
                Ok(id) => {
                    let ghost before = identity_views(ids@);
                    ids.push(id);
                    assert(identity_views(ids@) =~= before.push(id@));
                    proof {
                        match parse_lines(rest_lines, (n + 1) as nat) {
                            Ok(rest) => {
                                assert(before + (seq![id@] + rest) =~= before.push(id@) + rest);
                            },
                            Err(_) => {},
                        }
                    }
                },
                Err(e) => {
                    let mut m = owned("line ");
                    push_u64(&mut m, processed + 1);
                    push_str(&mut m, ": ");
                    let t = e.message();
                    push_str(&mut m, t.as_str());
                    return Err(m);
                },
            }
        }
        if end >= v.len() {
            assert(lines_from(content@, end + 1) =~= seq![]);
            assert(lines_from(content@, v.len() as int) =~= seq![]);
            start = v.len();
        } else {
            start = end + 1;
        }
        processed = processed + 1;
    }
    assert(lines_from(content@, start as int) =~= seq![]);
    assert(identity_views(ids@) + seq![] =~= identity_views(ids@));
    Ok(ids)
}

/// How each kind of identifier source is parsed.
#[derive(Clone, Copy, PartialEq, Eq, Structural)]
pub enum SourceKind {
    /// A positional: any identifier form.
    Any,
    /// `--repo owner/name`.
    Repo,
    /// `--package registry:name`.
    Package,
}

pub open spec fn parse_one(kind: SourceKind, s: Seq<char>) -> Result<IdentityView, ErrorView> {
    match kind {
        SourceKind::Any => identity_parse(s),
        SourceKind::Repo => match crate::identity::repo_parse(s) {
            Ok((o, n)) => Ok(IdentityView::Repo(crate::identity::RepoHost::GitHub, o, n)),
            Err(e) => Err(e),
        },
        SourceKind::Package => match crate::identity::package_parse(s) {
            Ok((r, n)) => Ok(IdentityView::Package(r, n)),
            Err(e) => Err(e),
        },
    }
}

/// Every value parsed in order, or the first error.
pub open spec fn parse_each_spec(kind: SourceKind, ss: Seq<Seq<char>>) -> Result<Seq<IdentityView>, ErrorView>
    decreases ss.len(),
{
    if ss.len() == 0 {
        Ok(seq![])
    } else {
        match parse_each_spec(kind, ss.drop_last()) {
            Err(e) => Err(e),
            Ok(ids) => match parse_one(kind, ss.last()) {
                Ok(id) => Ok(ids.push(id)),
                Err(e) => Err(e),
            },
        }
    }
}

proof fn lemma_parse_each_error_sticks(kind: SourceKind, ss: Seq<Seq<char>>, k: int)
    requires
        0 <= k <= ss.len(),
        parse_each_spec(kind, ss.take(k)) is Err,
    ensures
        parse_each_spec(kind, ss) == parse_each_spec(kind, ss.take(k)),
    decreases ss.len() - k,
{
    if k < ss.len() {
        assert(ss.take(k + 1).drop_last() =~= ss.take(k));
        lemma_parse_each_error_sticks(kind, ss, k + 1);
    } else {
        assert(ss.take(k) =~= ss);
    }
}

fn parse_one_exec(kind: SourceKind, s: &str) -> (r: Result<Identity, IdentityError>)
    ensures
        match (r, parse_one(kind, s@)) {
            (Ok(id), Ok(v)) => id@ == v,
            (Err(e), Err(v)) => e@ == v,
            _ => false,
        },
{
    match kind {
        SourceKind::Any => Identity::parse(s),
        SourceKind::Repo => match RepoId::parse(s) {
            Ok(r) => Ok(Identity::Repo(r)),
            Err(e) => Err(e),
        },
        SourceKind::Package => match PackageId::parse(s) {
            Ok(p) => Ok(Identity::Package(p)),
            Err(e) => Err(e),
        },
    }
}

/// Parses each of `values` as `kind` onto the end of `out`; the first bad
/// value is the error.
pub fn extend_identities(out: &mut Vec<Identity>, values: &Vec<String>, kind: SourceKind) -> (r: Result<(), IdentityError>)
    ensures
        match (r, parse_each_spec(kind, string_views(values@))) {
            (Ok(()), Ok(vs)) => identity_views(final(out)@) == identity_views(old(out)@) + vs,
            (Err(e), Err(v)) => e@ == v,
            _ => false,
        },
{
    let ghost start = identity_views(out@);
    let ghost ss = string_views(values@);
    let mut i: usize = 0;
    assert(ss.take(0) =~= seq![]);
    assert(start + seq![] =~= start);
    while i < values.len()
        invariant
            i <= values.len(),
            ss == string_views(values@),
            parse_each_spec(kind, ss.take(i as int)) matches Ok(vs) && identity_views(out@) == start + vs,
        decreases values.len() - i,
    {
        assert(ss.take(i + 1).drop_last() =~= ss.take(i as int));
        assert(ss.take(i + 1).last() == values@[i as int]@);
        match parse_one_exec(kind, values[i].as_str()) {
            Ok(id) => {
                let ghost before = identity_views(out@);
                let ghost vs = parse_each_spec(kind, ss.take(i as int))->Ok_0;
                out.push(id);
                assert(identity_views(out@) =~= before.push(id@));
                assert(start + vs.push(id@) =~= (start + vs).push(id@));
            },
            Err(e) => {
                proof {
                    lemma_parse_each_error_sticks(kind, ss, i + 1);
                }
                return Err(e);
            },
        }
        i = i + 1;
    }
    assert(ss.take(values.len() as int) =~= ss);
    Ok(())
}

pub open spec fn listed_spec(src: IdentitySourceArgs) -> Result<Seq<IdentityView>, ErrorView> {
    match parse_each_spec(SourceKind::Any, string_views(src.targets@)) {
        Err(e) => Err(e),
        Ok(a) => match parse_each_spec(SourceKind::Repo, string_views(src.repos@)) {
            Err(e) => Err(e),
            Ok(b) => match parse_each_spec(SourceKind::Package, string_views(src.packages@)) {
                Err(e) => Err(e),
                Ok(c) => Ok(a + b + c),
            },
        },
    }
}

/// The identities given as positionals, `--repo` and `--package`, in that
/// order; the first bad identifier is the error. (`--from-file` sources are
/// read by the program and parsed with [`parse_identifier_lines`].)
pub fn listed_identities(sources: &IdentitySourceArgs) -> (r: Result<Vec<Identity>, IdentityError>)
    ensures
        match (r, listed_spec(*sources)) {
            (Ok(ids), Ok(vs)) => identity_views(ids@) == vs,
            (Err(e), Err(v)) => e@ == v,
            _ => false,
        },
{
    let mut ids: Vec<Identity> = Vec::new();
    assert(identity_views(ids@) =~= seq![]);
    extend_identities(&mut ids, &sources.targets, SourceKind::Any)?;
    extend_identities(&mut ids, &sources.repos, SourceKind::Repo)?;
    extend_identities(&mut ids, &sources.packages, SourceKind::Package)?;
    proof {
        let a = parse_each_spec(SourceKind::Any, string_views(sources.targets@))->Ok_0;
        let b = parse_each_spec(SourceKind::Repo, string_views(sources.repos@))->Ok_0;
        let c = parse_each_spec(SourceKind::Package, string_views(sources.packages@))->Ok_0;
        assert(seq![] + a + b + c =~= a + b + c);
    }
    Ok(ids)
}

/// Whether any identity is a repository (whose GitHub metrics want a token).
pub fn wants_github_token(identities: &[Identity]) -> (r: bool)
    ensures
        r == exists|k: int| 0 <= k < identities@.len() && (#[trigger] identities@[k]) is Repo,
{
    let mut i: usize = 0;
    while i < identities.len()
        invariant
            i <= identities.len(),
            forall|k: int| 0 <= k < i ==> !(#[trigger] identities@[k] is Repo),
        decreases identities.len() - i,
    {
        if let Identity::Repo(_) = &identities[i] {
            return true;
        }
        i = i + 1;
    }
    false
}

/// The log levels for `boast` itself and for its dependencies, from `-v`
/// and `-q`: quiet means errors only; otherwise warn, info, debug, trace by
/// verbosity, with dependencies capped at warn.
pub fn log_levels(verbose: u8, quiet: bool) -> (r: (&'static str, &'static str))
    ensures
        r.0@ == (if quiet { "error"@ } else if verbose == 0 { "warn"@ } else if verbose == 1 { "info"@ } else if verbose == 2 { "debug"@ } else { "trace"@ }),
        r.1@ == (if quiet { "error"@ } else { "warn"@ }),
{
    if quiet {
        ("error", "error")
    } else if verbose == 0 {
        ("warn", "warn")
    } else if verbose == 1 {
        ("info", "warn")
    } else if verbose == 2 {
        ("debug", "warn")
    } else {
        ("trace", "warn")
    }
}

/// The name of a `.toml` file: everything after the last `/` (ignoring
/// trailing ones).
pub open spec fn file_name(path: Seq<char>) -> Seq<char> {
    let p = crate::text::trim_end_char(path, '/');
    match last_slash(p, p.len() as int) {
        Some(i) => p.subrange(i + 1, p.len() as int),
        None => p,
    }
}

/// The position of the last `/` before `end`.
pub open spec fn last_slash(s: Seq<char>, end: int) -> Option<int>
    decreases end,
{
    if end <= 0 || end > s.len() {
        None
    } else if s[end - 1] == '/' {
        Some(end - 1)
    } else {
        last_slash(s, end - 1)
    }
}

/// The position of the last `.` before `end`.
pub open spec fn last_dot(s: Seq<char>, end: int) -> Option<int>
    decreases end,
{
    if end <= 0 || end > s.len() {
        None
    } else if s[end - 1] == '.' {
        Some(end - 1)
    } else {
        last_dot(s, end - 1)
    }
}

/// `Path::extension`: the text after the last `.` of the file name, unless
/// that `.` starts the name (`.toml` has none) or the name is `..`.
pub open spec fn extension(path: Seq<char>) -> Option<Seq<char>> {
    let name = file_name(path);
    if name == ".."@ {
        None
    } else {
        match last_dot(name, name.len() as int) {
            Some(i) => if i == 0 { None } else { Some(name.subrange(i + 1, name.len() as int)) },
            None => None,
        }
    }
}

fn last_index_of(v: &Vec<char>, c: char, end: usize) -> (r: Option<usize>)
    requires
        end <= v.len(),
    ensures
        match r {
            Some(i) => (c == '/' ==> last_slash(v@, end as int) == Some(i as int)) && (c == '.' ==> last_dot(v@, end as int) == Some(i as int)) && i < end,
            None => (c == '/' ==> last_slash(v@, end as int) is None) && (c == '.' ==> last_dot(v@, end as int) is None),
        },
{
    let mut e = end;
    while e > 0
        invariant
            e <= end <= v.len(),
            c == '/' ==> last_slash(v@, end as int) == last_slash(v@, e as int),
            c == '.' ==> last_dot(v@, end as int) == last_dot(v@, e as int),
        decreases e,
    {
        if v[e - 1] == c {
            return Some(e - 1);
        }
        e = e - 1;
    }
    None
}

/// Whether `path` names a `.toml` file (extension compared
/// ASCII-case-insensitively).
pub fn is_toml_path(path: &str) -> (r: bool)
    ensures
        r == (extension(path@) matches Some(e) && lower(e) == "toml"@),
{
    let p = crate::text::trim_end_char_exec(&chars_of(path), '/');
    let name = match last_index_of(&p, '/', p.len()) {
        Some(i) => slice_chars(&p, i + 1, p.len()),
        None => p,
    };
    assert(name@ == file_name(path@));
    let dotdot = chars_of("..");
    if crate::text::chars_eq(&name, &dotdot) {
        return false;
    }
    match last_index_of(&name, '.', name.len()) {
        Some(i) => {
            if i == 0 {
                false
            } else {
                let ext = slice_chars(&name, i + 1, name.len());
                let toml = chars_of("toml");
                crate::text::chars_eq(&lower_chars(&ext), &toml)
            }
        },
        None => false,
    }
}

/// The Manifest path `about` reads, when its one positional names a `.toml`
/// file and no other identity source is given.
pub open spec fn manifest_positional_spec(args: AboutArgs) -> Option<Seq<char>> {
    if args.sources.targets@.len() == 1 && !(args.sources.repos.len() > 0 || args.sources.packages.len() > 0
        || args.sources.from_file.len() > 0) && (extension(args.sources.targets@[0]@) matches Some(e) && lower(e) == "toml"@) {
        Some(args.sources.targets@[0]@)
    } else {
        None
    }
}

/// `about <file>.toml`: a single positional ending in `.toml`, with no other
/// identity source, is a Manifest to load instead of an identifier. Mixed
/// with other sources it stays an identifier (and fails as one), since a
/// Manifest mixed with ad-hoc identities is ambiguous.
pub fn manifest_positional(args: &AboutArgs) -> (r: Option<&str>)
    ensures
        match r {
            Some(p) => args.sources.targets@.len() == 1 && !(args.sources.repos.len() > 0 || args.sources.packages.len() > 0 || args.sources.from_file.len() > 0)
                && p@ == args.sources.targets@[0]@ && (extension(p@) matches Some(e) && lower(e) == "toml"@),
            None => !(args.sources.targets@.len() == 1 && !(args.sources.repos.len() > 0 || args.sources.packages.len() > 0 || args.sources.from_file.len() > 0)
                && (extension(args.sources.targets@[0]@) matches Some(e) && lower(e) == "toml"@)),
        },
{
    let sources = &args.sources;
    if sources.targets.len() != 1 || sources.has_flag_sources() {
        return None;
    }
    let t = sources.targets[0].as_str();
    if is_toml_path(t) {
        Some(t)
    } else {
        None
    }
}

pub open spec fn save_conflict_text(save: Seq<char>, manifest: Seq<char>) -> Seq<char> {
    "--save "@ + save + " cannot be combined with a Manifest input ("@ + manifest + "); it already is one"@
}

/// `about <file>.toml --save <path>` is refused: the input already is a
/// Manifest. The message when both are given, else `None`.
pub fn save_conflict(args: &AboutArgs) -> (r: Option<String>)
    ensures
        match (manifest_positional_spec(*args), args.save) {
            (Some(m), Some(sv)) => r is Some && r->0@ == save_conflict_text(sv@, m),
            _ => r is None,
        },
{
    match manifest_positional(args) {
        Some(m) => match &args.save {
            Some(sv) => {
                let mut msg = concat2("--save ", sv.as_str());
                push_str(&mut msg, " cannot be combined with a Manifest input (");
                push_str(&mut msg, m);
                push_str(&mut msg, "); it already is one");
                Some(msg)
            },
            None => None,
        },
        None => None,
    }
}

pub open spec fn no_works_text(records: nat) -> Seq<char> {
    "no works with a DOI or PMID found across "@ + dec(records) + " ORCID record(s)"@
}

/// `init --orcid` with no measurable work across its records writes no
/// Manifest: the message then, else `None`.
pub fn nothing_identified(identified: usize, records: usize) -> (r: Option<String>)
    ensures
        identified == 0 ==> r is Some && r->0@ == no_works_text(records as nat),
        identified != 0 ==> r is None,
{
    if identified == 0 {
        let mut msg = owned("no works with a DOI or PMID found across ");
        push_u64(&mut msg, records as u64);
        push_str(&mut msg, " ORCID record(s)");
        Some(msg)
    } else {
        None
    }
}

/// `--orcid` takes no other identity source: an ORCID expansion cannot say
/// which of its works another identifier belongs with.
pub fn orcid_conflicts(sources: &IdentitySourceArgs) -> (r: bool)
    ensures
        r == (sources.targets.len() > 0 || sources.repos.len() > 0 || sources.packages.len() > 0 || sources.from_file.len() > 0),
{
    sources.targets.len() > 0 || sources.has_flag_sources()
}

pub open spec fn bad_orcid_text(v: Seq<char>) -> Seq<char> {
    "'"@ + v + "' is not a valid ORCID iD (expected e.g. 0000-0002-1825-0097)"@
}

/// Every `--orcid` value parsed, or the message for the first bad one.
pub fn parse_orcids(values: &Vec<String>) -> (r: Result<Vec<OrcidId>, String>)
    ensures
        match r {
            Ok(ids) => ids@.len() == values@.len() && forall|k: int| 0 <= k < values@.len() ==>
                crate::identity::orcid_parse(values@[k]@) == Some(#[trigger] ids@[k]@),
            Err(m) => exists|k: int| 0 <= k < values@.len() && crate::identity::orcid_parse(values@[k]@) is None
                && (forall|j: int| 0 <= j < k ==> crate::identity::orcid_parse(#[trigger] values@[j]@) is Some)
                && m@ == bad_orcid_text(values@[k]@),
        },
{
    let mut ids: Vec<OrcidId> = Vec::new();
    let mut i: usize = 0;
    while i < values.len()
        invariant
            i <= values.len(),
            ids@.len() == i,
            forall|k: int| 0 <= k < i ==> crate::identity::orcid_parse(values@[k]@) == Some(#[trigger] ids@[k]@),
        decreases values.len() - i,
    {
        match OrcidId::parse(values[i].as_str()) {
            Ok(id) => ids.push(id),
            Err(_) => {
                assert(forall|j: int| 0 <= j < i ==> crate::identity::orcid_parse(#[trigger] values@[j]@) is Some) by {
                    assert forall|j: int| 0 <= j < i implies crate::identity::orcid_parse(#[trigger] values@[j]@) is Some by {
                        assert(crate::identity::orcid_parse(values@[j]@) == Some(ids@[j]@));
                    }
                }
                return Err(concat3("'", values[i].as_str(), "' is not a valid ORCID iD (expected e.g. 0000-0002-1825-0097)"));
            },
        }
        i = i + 1;
    }
    Ok(ids)
}

pub open spec fn record_summary_text(orcid: Seq<char>, total: nat, identified: nat, output: Seq<char>) -> Seq<char> {
    "orcid:"@ + orcid + ": "@ + dec(total) + " work"@ + plural(total) + " in record; "@ + dec(identified)
        + " have a DOI/PMID and will be written to "@ + output + ", "@ + dec((total - identified) as nat)
        + " were skipped (no DOI or PMID — not measurable)."@
}

/// The note on one expanded record: its works, how many carry a DOI/PMID
/// and go into the Manifest, and how many were skipped.
pub fn record_summary(orcid: &OrcidId, total: usize, identified: usize, output: &str) -> (r: String)
    requires
        identified <= total,
    ensures
        r@ == record_summary_text(orcid@, total as nat, identified as nat, output@),
{
    let mut m = concat2("orcid:", orcid.as_str());
    push_str(&mut m, ": ");
    push_u64(&mut m, total as u64);
    push_str(&mut m, " work");
    push_str(&mut m, if total == 1 { "" } else { "s" });
    proof {
        reveal_strlit("");
    }
    push_str(&mut m, " in record; ");
    push_u64(&mut m, identified as u64);
    push_str(&mut m, " have a DOI/PMID and will be written to ");
    push_str(&mut m, output);
    push_str(&mut m, ", ");
    push_u64(&mut m, (total - identified) as u64);
    push_str(&mut m, " were skipped (no DOI or PMID — not measurable).");
    m
}

pub open spec fn cost_text(works: nat, provider_count: nat) -> Seq<char> {
    "running `boast about` over "@ + dec(works) + " work"@ + plural(works) + " ≈ "@ + dec(works * provider_count)
        + " requests across "@ + dec(provider_count) + " Providers"@
}

/// The note on what running `about` over the generated Manifest will cost.
pub fn cost_summary(works: usize, provider_count: usize) -> (r: String)
    requires
        works * provider_count <= u64::MAX,
    ensures
        r@ == cost_text(works as nat, provider_count as nat),
{
    let mut m = owned("running `boast about` over ");
    push_u64(&mut m, works as u64);
    push_str(&mut m, " work");
    push_str(&mut m, if works == 1 { "" } else { "s" });
    proof {
        reveal_strlit("");
    }
    push_str(&mut m, " ≈ ");
    let cost: u64 = (works as u64) * (provider_count as u64);
    push_u64(&mut m, cost);
    push_str(&mut m, " requests across ");
    push_u64(&mut m, provider_count as u64);
    push_str(&mut m, " Providers");
    m
}

/// The works of every expansion, in order.
pub open spec fn all_works(es: Seq<OrcidExpansion>) -> Seq<OrcidWork>
    decreases es.len(),
{
    if es.len() == 0 {
        seq![]
    } else {
        es[0].works@ + all_works(es.drop_first())
    }
}

/// Every work of every expansion, split into the identified Paper
/// Identities and the unidentified works, each in order, with the number of
/// works in all.
pub fn partition_works(expansions: Vec<OrcidExpansion>) -> (r: (Vec<crate::identity::PaperId>, Vec<OrcidWork>, usize))
    requires
        all_works(expansions@).len() <= usize::MAX,
    ensures
        r.0@ == crate::orcid::identified_of(all_works(expansions@)),
        r.1@ == crate::orcid::unidentified_of(all_works(expansions@)),
        r.2 == all_works(expansions@).len(),
{
    let ghost all = all_works(expansions@);
    let ghost mut done: Seq<OrcidWork> = seq![];
    let mut identified: Vec<crate::identity::PaperId> = Vec::new();
    let mut unidentified: Vec<OrcidWork> = Vec::new();
    let mut total: usize = 0;
    let mut expansions = expansions;
    assert(seq![] + all =~= all);
    while expansions.len() > 0
        invariant
            all == done + all_works(expansions@),
            all.len() <= usize::MAX,
            identified@ == crate::orcid::identified_of(done),
            unidentified@ == crate::orcid::unidentified_of(done),
            total == done.len(),
        decreases expansions.len(),
    {
        let ghost rest = expansions@.drop_first();
        let e = expansions.remove(0);
        assert(expansions@ =~= rest);
        let mut works = e.works;
        assert(all == done + works@ + all_works(expansions@));
        while works.len() > 0
            invariant
                all == done + works@ + all_works(expansions@),
                all.len() <= usize::MAX,
                identified@ == crate::orcid::identified_of(done),
                unidentified@ == crate::orcid::unidentified_of(done),
                total == done.len(),
            decreases works.len(),
        {
            let ghost ws = works@;
            let w = works.remove(0);
            proof {
                assert(done.push(w).drop_last() =~= done);
                assert(done + ws =~= done.push(w) + works@);
                done = done.push(w);
            }
            match w {
                OrcidWork::Identified { id } => identified.push(id),
                other => unidentified.push(other),
            }
            total = total + 1;
        }
        assert(done + works@ =~= done);
    }
    assert(done + all_works(expansions@) =~= done);
    (identified, unidentified, total)
}

pub open spec fn snapshot_name(stamp: Seq<char>, suffix: Option<Seq<char>>) -> Seq<char> {
    match suffix {
        Some(s) => stamp + "-"@ + s + ".json"@,
        None => stamp + ".json"@,
    }
}

/// A Snapshot's file name: its timestamp, then the Project's suffix when a
/// Manifest run writes several Snapshots at once.
pub fn snapshot_file_name(stamp: &str, suffix: Option<&str>) -> (r: String)
    ensures
        r@ == snapshot_name(stamp@, crate::model::str_opt(suffix)),
{
    match suffix {
        Some(s) => {
            let mut n = concat3(stamp, "-", s);
            push_str(&mut n, ".json");
            n
        },
        None => concat2(stamp, ".json"),
    }
}

} // verus!

verus! {

proof fn lemma_first_non_global_insert(args: Seq<Seq<char>>, i: int, x: Seq<char>, j: int)
    requires
        1 <= j <= i < args.len(),
        first_non_global(args, j) == Some(i),
        !is_global_flag_spec(x),
    ensures
        first_non_global(args.insert(i, x), j) == Some(i),
    decreases i - j,
{
    if j < i {
        assert(args.insert(i, x)[j] == args[j]);
        lemma_first_non_global_insert(args, i, x, j + 1);
    } else {
        assert(args.insert(i, x)[i] == x);
    }
}

/// Normalising is idempotent: arguments that already name their subcommand,
/// explicitly or by an inserted `about`, are left as they are.
pub proof fn law_normalize_is_idempotent(args: Seq<Seq<char>>)
    ensures
        normalized(normalized(args)) == normalized(args),
{
    reveal_strlit("about");
    match first_non_global(args, 1) {
        Some(i) => {
            if !is_subcommand(args[i]) {
                let about = "about"@;
                assert(!is_global_flag_spec(about)) by {
                    reveal_strlit("-v");
                    reveal_strlit("-q");
                    reveal_strlit("--quiet");
                    reveal_strlit("-h");
                    reveal_strlit("--help");
                    reveal_strlit("-V");
                    reveal_strlit("--version");
                    reveal_strlit("--verbose");
                    assert(about[0] != '-');
                    if starts_with(about, "-v"@) {
                        assert(about.subrange(0, 2)[0] == about[0]);
                    }
                }
                lemma_first_non_global_bounds(args, 1);
                lemma_first_non_global_insert(args, i, about, 1);
                assert(args.insert(i, about)[i] == about);
            }
        },
        None => {},
    }
}

proof fn lemma_first_non_global_bounds(args: Seq<Seq<char>>, j: int)
    ensures
        first_non_global(args, j) matches Some(i) ==> j <= i < args.len() && !is_global_flag_spec(args[i]),
    decreases args.len() - j,
{
    if 0 <= j < args.len() && is_global_flag_spec(args[j]) {
        lemma_first_non_global_bounds(args, j + 1);
    }
}

} // verus!
