//! PR mode: readiness to open a pull request, the branch plan, the manual
//! fallback recipe and the PR body, as pure functions over plain data.
//!
//! The probes themselves (`git`, `gh`, the file system) are outside work: the
//! functions here take what they printed and decide from it.
use vstd::prelude::*;
use crate::text::{
    ascii_lower, ascii_lowercase, chars_of, contains_str, decimal, has_prefix, has_substr,
    is_alnum, is_ascii_alnum, lemma_lex_lt_irreflexive, lemma_lex_lt_transitive,
    lemma_skip_leading, lemma_skip_trailing, lemma_trim_clean, lex_lt, lower_seq, opt_view,
    pieces, push_char, push_decimal, push_range, skip_leading, split_pieces, starts_with_str,
    str_eq, str_lt, string_of, to_lower, trim, trim_seq, views, Delim,
};

verus! {

broadcast use vstd::string::group_string_axioms;

/// One readiness precondition for opening a PR automatically, and whether it
/// holds.
#[derive(Debug, Clone, PartialEq, Eq)]
pub struct ReadinessCheck {
    /// Short machine-ish id (e.g. `git-repo`, `gh-cli`).
    pub id: String,
    /// Human one-liner shown to the user.
    pub label: String,
    /// `true` iff the precondition is satisfied.
    pub ok: bool,
    /// What to do by hand when this check fails (empty when `ok`).
    pub remedy: String,
}

/// The full readiness picture: every precondition and the branch facts.
#[derive(Debug, Clone, PartialEq, Eq)]
pub struct PrReadiness {
    /// Ordered preconditions.
    pub checks: Vec<ReadinessCheck>,
    /// The repo's default branch (e.g. `main`); empty if unknown.
    pub default_branch: String,
    /// The branch currently checked out; empty if unknown.
    pub current_branch: String,
    /// `true` when the working tree has uncommitted changes.
    pub has_changes: bool,
}

/// Every check passed.
pub open spec fn all_ok(checks: Seq<ReadinessCheck>) -> bool {
    forall|i: int| 0 <= i < checks.len() ==> #[trigger] checks[i].ok
}

impl PrReadiness {
    /// `true` iff every check passed.
    pub fn ready(&self) -> (b: bool)
        ensures
            b == all_ok(self.checks@),
    {
        let mut i: usize = 0;
        while i < self.checks.len()
            invariant
                i <= self.checks@.len(),
                forall|j: int| 0 <= j < i ==> #[trigger] self.checks@[j].ok,
            decreases self.checks@.len() - i,
        {
            if !self.checks[i].ok {
                return false;
            }
            i += 1;
        }
        true
    }

    /// The first failing check, if any.
    pub fn first_blocker(&self) -> (r: Option<&ReadinessCheck>)
        ensures
            r is None <==> all_ok(self.checks@),
            r matches Some(c) ==> exists|i: int|
                0 <= i < self.checks@.len() && *c == self.checks@[i] && !self.checks@[i].ok && (
                forall|j: int| 0 <= j < i ==> #[trigger] self.checks@[j].ok),
    {
        let mut i: usize = 0;
        while i < self.checks.len()
            invariant
                i <= self.checks@.len(),
                forall|j: int| 0 <= j < i ==> #[trigger] self.checks@[j].ok,
            decreases self.checks@.len() - i,
        {
            if !self.checks[i].ok {
                return Some(&self.checks[i]);
            }
            i += 1;
        }
        None
    }
}

/// The branch plan for opening the PR.
#[derive(Debug, Clone, PartialEq, Eq)]
pub struct PrPlan {
    /// `true` when a feature branch must be created first because HEAD is on
    /// the default branch (or the current branch is unknown).
    pub needs_new_branch: bool,
    /// The branch to commit and push to.
    pub head_branch: String,
    /// The base branch the PR targets.
    pub base_branch: String,
}

// ---------------------------------------------------------------------------
// Branch names and the plan
// ---------------------------------------------------------------------------

/// A slug character kept (lowercased) when ASCII alphanumeric, else `-`.
pub open spec fn sanitize_char(c: char) -> char {
    if is_ascii_alnum(c) {
        ascii_lower(c)
    } else {
        '-'
    }
}

/// The feature-branch name for a slug: `umadev/` and the slug sanitised to
/// lowercase ASCII alphanumerics and `-`, trimmed of `-` at both ends, or
/// `change` when nothing is left.
pub open spec fn feature_branch_spec(slug: Seq<char>) -> Seq<char> {
    let stem = trim_seq(slug.map_values(|c: char| sanitize_char(c)), Delim::Char('-'));
    "umadev/"@ + (if stem.len() == 0 {
        "change"@
    } else {
        stem
    })
}

/// A safe, deterministic feature-branch name for a slug.
#[verifier::rlimit(40)]
pub fn feature_branch_name(slug: &str) -> (r: String)
    ensures
        r@ == feature_branch_spec(slug@),
{
    let v = chars_of(slug);
    let mut cleaned = String::new();
    let mut i: usize = 0;
    while i < v.len()
        invariant
            i <= v@.len(),
            v@ == slug@,
            cleaned@ == v@.take(i as int).map_values(|c: char| sanitize_char(c)),
        decreases v@.len() - i,
    {
        let c = v[i];
        let mapped = if is_alnum(c) {
            to_lower(c)
        } else {
            '-'
        };
        push_char(&mut cleaned, mapped);
        assert(v@.take(i + 1).map_values(|c: char| sanitize_char(c)) =~= v@.take(i as int).map_values(
            |c: char| sanitize_char(c),
        ).push(sanitize_char(c)));
        i += 1;
    }
    assert(v@.take(v@.len() as int) =~= v@);
    let stem = trim(cleaned.as_str(), Delim::Char('-'));
    let mut out = String::from_str("umadev/");
    if stem.as_str().is_empty() {
        out.append("change");
    } else {
        out.append(stem.as_str());
    }
    out
}

/// The base branch: the default branch, or `main` when it is unknown.
pub open spec fn plan_base(default_branch: Seq<char>) -> Seq<char> {
    if default_branch.len() == 0 {
        "main"@
    } else {
        default_branch
    }
}

/// HEAD counts as on the default branch when the current branch is the base
/// or is unknown.
pub open spec fn plan_needs_new_branch(default_branch: Seq<char>, current: Seq<char>) -> bool {
    current == plan_base(default_branch) || current.len() == 0
}

/// The fresh branch to create: the slug's feature branch, or, when that is
/// the base branch itself, the same name with `-2` appended.
pub open spec fn plan_new_branch(base: Seq<char>, slug: Seq<char>) -> Seq<char> {
    if feature_branch_spec(slug) == base {
        feature_branch_spec(slug) + "-2"@
    } else {
        feature_branch_spec(slug)
    }
}

/// The head branch: a fresh feature branch when on the default branch, else
/// the current branch.
pub open spec fn plan_head(default_branch: Seq<char>, current: Seq<char>, slug: Seq<char>) -> Seq<
    char,
> {
    if plan_needs_new_branch(default_branch, current) {
        plan_new_branch(plan_base(default_branch), slug)
    } else {
        current
    }
}

/// Decides the branch plan from readiness: on the default branch (or with
/// the current branch unknown) create a fresh feature branch from `slug`;
/// otherwise keep the checked-out branch as the PR head. The head is never
/// the base branch.
pub fn plan_branches(readiness: &PrReadiness, slug: &str) -> (p: PrPlan)
    ensures
        p.head_branch@ != p.base_branch@,
        p.base_branch@ == plan_base(readiness.default_branch@),
        p.needs_new_branch == plan_needs_new_branch(
            readiness.default_branch@,
            readiness.current_branch@,
        ),
        p.head_branch@ == plan_head(
            readiness.default_branch@,
            readiness.current_branch@,
            slug@,
        ),
{
    let base = if readiness.default_branch.as_str().is_empty() {
        String::from_str("main")
    } else {
        readiness.default_branch.clone()
    };
    let on_default = readiness.current_branch == base || readiness.current_branch.as_str().is_empty();
    if on_default {
        let mut head = feature_branch_name(slug);
        if head == base {
            head.append("-2");
        }
        proof {
            reveal_strlit("-2");
            if feature_branch_spec(slug@) == base@ {
                assert(head@.len() == base@.len() + 2);
            }
        }
        PrPlan { needs_new_branch: true, head_branch: head, base_branch: base }
    } else {
        PrPlan {
            needs_new_branch: false,
            head_branch: readiness.current_branch.clone(),
            base_branch: base,
        }
    }
}

/// A PR is ready exactly when there is no blocker: every check passes iff no
/// check fails (what `ready` and `first_blocker` decide).
pub proof fn law_ready_iff_no_blocker(checks: Seq<ReadinessCheck>)
    ensures
        all_ok(checks) <==> !(exists|i: int| 0 <= i < checks.len() && !(#[trigger] checks[i].ok)),
{
}

/// The plan never commits onto the default branch: a reused head branch is
/// the checked-out one, known and not the base; a new head branch is a
/// `umadev/` feature branch.
pub proof fn law_plan_never_commits_on_base(
    default_branch: Seq<char>,
    current: Seq<char>,
    slug: Seq<char>,
)
    ensures
        !plan_needs_new_branch(default_branch, current) ==> {
            &&& plan_head(default_branch, current, slug) == current
            &&& current.len() > 0
            &&& current != plan_base(default_branch)
        },
        plan_needs_new_branch(default_branch, current) ==> has_prefix(
            plan_head(default_branch, current, slug),
            "umadev/"@,
        ),
{
    let f = feature_branch_spec(slug);
    assert(f.take("umadev/"@.len() as int) =~= "umadev/"@);
    assert((f + "-2"@).take("umadev/"@.len() as int) =~= "umadev/"@);
}

/// The head branch is never the base branch.
pub proof fn law_head_is_not_base(default_branch: Seq<char>, current: Seq<char>, slug: Seq<char>)
    ensures
        plan_head(default_branch, current, slug) != plan_base(default_branch),
{
    reveal_strlit("-2");
    let base = plan_base(default_branch);
    if plan_needs_new_branch(default_branch, current) && feature_branch_spec(slug) == base {
        assert(plan_head(default_branch, current, slug).len() == base.len() + 2);
    }
}

/// A feature-branch name is `umadev/` followed by a non-empty stem of
/// lowercase ASCII letters, digits and `-`, neither starting nor ending
/// with `-`.
#[verifier::rlimit(40)]
pub proof fn law_feature_branch_shape(slug: Seq<char>)
    ensures
        has_prefix(feature_branch_spec(slug), "umadev/"@),
        ({
            let stem = feature_branch_spec(slug).skip(7);
            &&& stem.len() > 0
            &&& stem[0] != '-'
            &&& stem.last() != '-'
            &&& forall|i: int|
                0 <= i < stem.len() ==> is_branch_char(#[trigger] stem[i])
        }),
{
    reveal_strlit("umadev/");
    reveal_strlit("change");
    let cleaned = slug.map_values(|c: char| sanitize_char(c));
    let d = Delim::Char('-');
    let k1 = lemma_skip_leading(cleaned, d);
    let lead = skip_leading(cleaned, d);
    let k2 = lemma_skip_trailing(lead, d);
    let stem = trim_seq(cleaned, d);
    let f = feature_branch_spec(slug);
    assert(f.take(7) =~= "umadev/"@);
    let tail = if stem.len() == 0 {
        "change"@
    } else {
        stem
    };
    assert(f.skip(7) =~= tail);
    if stem.len() > 0 {
        assert(stem =~= lead.take(k2));
        assert(stem[0] == lead[0]);
        assert forall|i: int| 0 <= i < stem.len() implies is_branch_char(#[trigger] stem[i]) by {
            assert(stem[i] == cleaned[k1 + i]);
            let c = slug[k1 + i];
            assert(cleaned[k1 + i] == sanitize_char(c));
            if 'A' <= c && c <= 'Z' {
                assert((c as u32) + 32 <= ('z' as u32));
            }
        }
    }
}

/// Lowercase ASCII letters, digits and `-`: what a sanitised branch stem holds.
pub open spec fn is_branch_char(c: char) -> bool {
    ('a' <= c && c <= 'z') || ('0' <= c && c <= '9') || c == '-'
}

/// A slug that is already clean (non-empty, lowercase ASCII alphanumerics
/// and `-`, no `-` at either end) names its branch unchanged.
pub proof fn law_clean_slug_kept(slug: Seq<char>)
    requires
        slug.len() > 0,
        slug[0] != '-',
        slug.last() != '-',
        forall|i: int| 0 <= i < slug.len() ==> is_branch_char(#[trigger] slug[i]),
    ensures
        feature_branch_spec(slug) == "umadev/"@ + slug,
{
    let cleaned = slug.map_values(|c: char| sanitize_char(c));
    assert(cleaned =~= slug);
    lemma_trim_clean(slug, Delim::Char('-'));
}

// ---------------------------------------------------------------------------
// Reading the git / gh probes
// ---------------------------------------------------------------------------

/// The view of an optional string slice.
pub open spec fn opt_str_view(o: Option<&str>) -> Option<Seq<char>> {
    match o {
        Some(s) => Some(s@),
        None => None,
    }
}

/// `git rev-parse --is-inside-work-tree` printed `true`.
pub open spec fn git_is_repo_spec(out: Option<Seq<char>>) -> bool {
    out matches Some(o) && trim_seq(o, Delim::Whitespace) == "true"@
}

/// Whether `project_root` is inside a git work tree, from the output of
/// `git rev-parse --is-inside-work-tree` (`None` when git failed).
pub fn git_is_repo(out: Option<&str>) -> (b: bool)
    ensures
        b == git_is_repo_spec(opt_str_view(out)),
{
    match out {
        Some(o) => {
            let t = trim(o, Delim::Whitespace);
            str_eq(t.as_str(), "true")
        },
        None => false,
    }
}

/// The last `/`-separated piece of the trimmed output of
/// `git symbolic-ref --short refs/remotes/origin/HEAD` (`origin/main` gives
/// `main`).
pub open spec fn symref_tail(out: Seq<char>) -> Seq<char> {
    pieces(trim_seq(out, Delim::Whitespace), '/').last()
}

/// The default branch from the remote HEAD symref, else the current branch,
/// else `main`.
pub open spec fn git_default_branch_spec(
    origin_head: Option<Seq<char>>,
    abbrev_head: Option<Seq<char>>,
) -> Seq<char> {
    if origin_head matches Some(o) && symref_tail(o).len() > 0 {
        symref_tail(origin_head->0)
    } else if git_current_branch_spec(abbrev_head).len() > 0 {
        git_current_branch_spec(abbrev_head)
    } else {
        "main"@
    }
}

/// The repo's default branch, from the outputs of
/// `git symbolic-ref --short refs/remotes/origin/HEAD` and
/// `git rev-parse --abbrev-ref HEAD` (`None` where git failed): the remote
/// HEAD's branch, else the branch checked out, else `main`.
#[verifier::rlimit(40)]
pub fn git_default_branch(origin_head: Option<&str>, abbrev_head: Option<&str>) -> (r: String)
    ensures
        r@ == git_default_branch_spec(opt_str_view(origin_head), opt_str_view(abbrev_head)),
{
    if let Some(o) = origin_head {
        let t = trim(o, Delim::Whitespace);
        let mut parts = split_pieces(t.as_str(), '/');
        let ghost pv = views(parts@);
        assert(pv.len() > 0) by {
            crate::text::lemma_pieces_nonempty(t@, '/');
        }
        let name = parts.pop().unwrap();
        assert(name@ == pv.last());
        if !name.as_str().is_empty() {
            return name;
        }
    }
    let current = git_current_branch(abbrev_head);
    if !current.as_str().is_empty() {
        return current;
    }
    String::from_str("main")
}

/// The current branch: the trimmed output of `git rev-parse --abbrev-ref
/// HEAD` unless it is empty or `HEAD` (detached); else empty.
pub open spec fn git_current_branch_spec(out: Option<Seq<char>>) -> Seq<char> {
    if out matches Some(o) && trim_seq(o, Delim::Whitespace).len() > 0 && trim_seq(
        o,
        Delim::Whitespace,
    ) != "HEAD"@ {
        trim_seq(out->0, Delim::Whitespace)
    } else {
        Seq::<char>::empty()
    }
}

/// The branch currently checked out, from `git rev-parse --abbrev-ref HEAD`.
pub fn git_current_branch(out: Option<&str>) -> (r: String)
    ensures
        r@ == git_current_branch_spec(opt_str_view(out)),
{
    if let Some(o) = out {
        let t = trim(o, Delim::Whitespace);
        if !t.as_str().is_empty() && !str_eq(t.as_str(), "HEAD") {
            return t;
        }
    }
    String::new()
}

/// `git status --porcelain` reported some change.
pub open spec fn git_has_changes_spec(out: Option<Seq<char>>) -> bool {
    out matches Some(o) && trim_seq(o, Delim::Whitespace).len() > 0
}

/// Whether there is something to commit, from `git status --porcelain`.
pub fn git_has_changes(out: Option<&str>) -> (b: bool)
    ensures
        b == git_has_changes_spec(opt_str_view(out)),
{
    match out {
        Some(o) => {
            let t = trim(o, Delim::Whitespace);
            !t.as_str().is_empty()
        },
        None => false,
    }
}

/// Some remote URL in `git remote -v` points at github.com (ASCII case
/// ignored).
pub open spec fn git_has_github_remote_spec(out: Option<Seq<char>>) -> bool {
    out matches Some(o) && has_substr(lower_seq(o), "github.com"@)
}

/// Whether a GitHub remote is configured, from `git remote -v`.
pub fn git_has_github_remote(out: Option<&str>) -> (b: bool)
    ensures
        b == git_has_github_remote_spec(opt_str_view(out)),
{
    match out {
        Some(o) => {
            let low = ascii_lowercase(o);
            contains_str(low.as_str(), "github.com")
        },
        None => false,
    }
}

// ---------------------------------------------------------------------------
// Readiness
// ---------------------------------------------------------------------------

/// What the readiness probes printed. Each git output is the standard output
/// of the command in the project root, or `None` when git could not be run
/// or exited non-zero.
pub struct ProbeOutputs {
    /// `git rev-parse --is-inside-work-tree`
    pub inside_work_tree: Option<String>,
    /// `git symbolic-ref --short refs/remotes/origin/HEAD`
    pub origin_head: Option<String>,
    /// `git rev-parse --abbrev-ref HEAD`
    pub abbrev_head: Option<String>,
    /// `git status --porcelain`
    pub status_porcelain: Option<String>,
    /// `git remote -v`
    pub remotes: Option<String>,
    /// `gh --version` ran and succeeded.
    pub gh_version_ok: bool,
    /// `gh auth status` ran and succeeded.
    pub gh_auth_ok: bool,
}

/// The check has this id, label and verdict, and its remedy is empty when
/// it passes and `remedy` when it fails.
pub open spec fn check_is(
    c: ReadinessCheck,
    id: Seq<char>,
    label: Seq<char>,
    ok: bool,
    remedy: Seq<char>,
) -> bool {
    &&& c.id@ == id
    &&& c.label@ == label
    &&& c.ok == ok
    &&& c.remedy@ == (if ok {
        Seq::<char>::empty()
    } else {
        remedy
    })
}

pub open spec fn probe_is_repo(p: ProbeOutputs) -> bool {
    git_is_repo_spec(opt_view(p.inside_work_tree))
}

pub open spec fn probe_has_changes(p: ProbeOutputs) -> bool {
    probe_is_repo(p) && git_has_changes_spec(opt_view(p.status_porcelain))
}

pub open spec fn probe_has_remote(p: ProbeOutputs) -> bool {
    probe_is_repo(p) && git_has_github_remote_spec(opt_view(p.remotes))
}

pub open spec fn probe_gh_authed(p: ProbeOutputs) -> bool {
    p.gh_version_ok && p.gh_auth_ok
}

/// The readiness picture for the given probe outputs.
pub open spec fn readiness_spec(p: ProbeOutputs, r: PrReadiness) -> bool {
    let is_repo = probe_is_repo(p);
    &&& r.default_branch@ == (if is_repo {
        git_default_branch_spec(
            opt_view(p.origin_head),
            opt_view(p.abbrev_head),
        )
    } else {
        Seq::<char>::empty()
    })
    &&& r.current_branch@ == (if is_repo {
        git_current_branch_spec(opt_view(p.abbrev_head))
    } else {
        Seq::<char>::empty()
    })
    &&& r.has_changes == probe_has_changes(p)
    &&& r.checks@.len() == 5
    &&& check_is(
        r.checks@[0],
        "git-repo"@,
        "Inside a git repository"@,
        is_repo,
        "Run `git init` (and commit a baseline) before opening a PR."@,
    )
    &&& check_is(
        r.checks@[1],
        "has-changes"@,
        "There are changes to put in the PR"@,
        probe_has_changes(p),
        "Nothing to commit — run the pipeline so it writes artifacts/code first."@,
    )
    &&& check_is(
        r.checks@[2],
        "github-remote"@,
        "A GitHub remote is configured"@,
        probe_has_remote(p),
        "Add a GitHub remote: `git remote add origin <github-url>`."@,
    )
    &&& check_is(
        r.checks@[3],
        "gh-cli"@,
        "GitHub CLI (`gh`) is installed"@,
        p.gh_version_ok,
        "Install GitHub CLI from https://cli.github.com/ to open the PR automatically."@,
    )
    &&& check_is(
        r.checks@[4],
        "gh-auth"@,
        "GitHub CLI is logged in"@,
        probe_gh_authed(p),
        "Authenticate once with `gh auth login`, then re-run `umadev pr`."@,
    )
}

/// A readiness picture is coherent: a check's remedy is empty exactly when it
/// passes; changes, a remote and the branch facts are only reported inside
/// a repository; `gh` is only logged in when installed; the current branch
/// is never the detached `HEAD`.
pub proof fn law_readiness_coherent(p: ProbeOutputs, r: PrReadiness)
    requires
        readiness_spec(p, r),
    ensures
        forall|i: int|
            0 <= i < r.checks@.len() ==> (#[trigger] r.checks@[i].ok <==> r.checks@[i].remedy@.len()
                == 0),
        r.checks@[1].ok ==> r.checks@[0].ok,
        r.checks@[2].ok ==> r.checks@[0].ok,
        r.checks@[4].ok ==> r.checks@[3].ok,
        r.has_changes == r.checks@[1].ok,
        !r.checks@[0].ok ==> r.default_branch@.len() == 0 && r.current_branch@.len() == 0,
        r.current_branch@ != "HEAD"@,
{
    reveal_strlit("Run `git init` (and commit a baseline) before opening a PR.");
    reveal_strlit("Nothing to commit — run the pipeline so it writes artifacts/code first.");
    reveal_strlit("Add a GitHub remote: `git remote add origin <github-url>`.");
    reveal_strlit("Install GitHub CLI from https://cli.github.com/ to open the PR automatically.");
    reveal_strlit("Authenticate once with `gh auth login`, then re-run `umadev pr`.");
    reveal_strlit("HEAD");
    assert forall|i: int| 0 <= i < r.checks@.len() implies (#[trigger] r.checks@[i].ok
        <==> r.checks@[i].remedy@.len() == 0) by {
        assert(0 <= i < 5);
    }
}

fn as_opt_str(o: &Option<String>) -> (r: Option<&str>)
    ensures
        opt_str_view(r) == opt_view(*o),
{
    match o {
        Some(s) => Some(s.as_str()),
        None => None,
    }
}

fn make_check(id: &str, label: &str, ok: bool, remedy: &str) -> (c: ReadinessCheck)
    ensures
        check_is(c, id@, label@, ok, remedy@),
{
    ReadinessCheck {
        id: string_of(id),
        label: string_of(label),
        ok,
        remedy: if ok {
            String::new()
        } else {
            string_of(remedy)
        },
    }
}

/// Builds the readiness picture from what the probes printed. Every probe is
/// fail-open: a failed command reads as "precondition not met". The branch
/// facts and the change/remote checks are only taken inside a repository;
/// `gh` counts as logged in only when it is installed.
#[verifier::rlimit(40)]
pub fn assess_readiness(probes: &ProbeOutputs) -> (r: PrReadiness)
    ensures
        readiness_spec(*probes, r),
{
    let is_repo = git_is_repo(as_opt_str(&probes.inside_work_tree));
    let default_branch = if is_repo {
        git_default_branch(
            as_opt_str(&probes.origin_head),
            as_opt_str(&probes.abbrev_head),
        )
    } else {
        String::new()
    };
    let current_branch = if is_repo {
        git_current_branch(as_opt_str(&probes.abbrev_head))
    } else {
        String::new()
    };
    let has_changes = is_repo && git_has_changes(as_opt_str(&probes.status_porcelain));
    let has_remote = is_repo && git_has_github_remote(as_opt_str(&probes.remotes));
    let gh_present = probes.gh_version_ok;
    let gh_authed = gh_present && probes.gh_auth_ok;
    let mut checks: Vec<ReadinessCheck> = Vec::new();
    checks.push(
        make_check(
            "git-repo",
            "Inside a git repository",
            is_repo,
            "Run `git init` (and commit a baseline) before opening a PR.",
        ),
    );
    checks.push(
        make_check(
            "has-changes",
            "There are changes to put in the PR",
            has_changes,
            "Nothing to commit — run the pipeline so it writes artifacts/code first.",
        ),
    );
    checks.push(
        make_check(
            "github-remote",
            "A GitHub remote is configured",
            has_remote,
            "Add a GitHub remote: `git remote add origin <github-url>`.",
        ),
    );
    checks.push(
        make_check(
            "gh-cli",
            "GitHub CLI (`gh`) is installed",
            gh_present,
            "Install GitHub CLI from https://cli.github.com/ to open the PR automatically.",
        ),
    );
    checks.push(
        make_check(
            "gh-auth",
            "GitHub CLI is logged in",
            gh_authed,
            "Authenticate once with `gh auth login`, then re-run `umadev pr`.",
        ),
    );
    PrReadiness { checks, default_branch, current_branch, has_changes }
}

// ---------------------------------------------------------------------------
// The manual fallback
// ---------------------------------------------------------------------------

/// One line per failing check, in order: label and remedy.
pub open spec fn blocker_lines(checks: Seq<ReadinessCheck>) -> Seq<char>
    decreases checks.len(),
{
    if checks.len() == 0 {
        Seq::<char>::empty()
    } else {
        blocker_lines(checks.drop_last()) + (if !checks.last().ok {
            "  - "@ + checks.last().label@ + " — "@ + checks.last().remedy@ + "\n"@
        } else {
            Seq::<char>::empty()
        })
    }
}

/// The manual steps list no blocker exactly when every check passes.
pub proof fn law_blockers_listed_iff_not_ready(checks: Seq<ReadinessCheck>)
    ensures
        blocker_lines(checks).len() == 0 <==> all_ok(checks),
    decreases checks.len(),
{
    reveal_strlit("  - ");
    if checks.len() > 0 {
        let init = checks.drop_last();
        law_blockers_listed_iff_not_ready(init);
        assert forall|i: int| 0 <= i < init.len() implies #[trigger] init[i].ok == checks[i].ok by {
            assert(init[i] == checks[i]);
        }
        assert(checks.last() == checks[checks.len() - 1]);
        if all_ok(checks) {
            assert(all_ok(init));
        }
        if all_ok(init) && checks.last().ok {
            assert forall|i: int| 0 <= i < checks.len() implies #[trigger] checks[i].ok by {
                if i < init.len() {
                    assert(init[i].ok);
                }
            }
        }
    }
}

/// The line that creates the feature branch, when one is needed.
pub open spec fn switch_line(needs: bool, head: Seq<char>, base: Seq<char>) -> Seq<char> {
    if needs {
        "  git switch -c "@ + head + "            # never commit on `"@ + base + "` directly\n"@
    } else {
        Seq::<char>::empty()
    }
}

/// The commit, push and `gh pr create` lines.
pub open spec fn recipe_lines(slug: Seq<char>, head: Seq<char>, base: Seq<char>, body: Seq<char>) -> Seq<
    char,
> {
    "  git add -A && git commit -m \""@ + slug + ": UmaDev pipeline output\"\n  git push -u origin "@
        + head + "\n  gh pr create --base "@ + base + " --head "@ + head + " --title \""@ + slug
        + "\" --body-file "@ + body + "\n"@
}

/// The manual steps: the failing checks with their remedies, then the
/// by-hand recipe on the planned branches, pointing at the body file.
pub open spec fn manual_steps_spec(r: PrReadiness, slug: Seq<char>, body: Seq<char>) -> Seq<char> {
    let needs = plan_needs_new_branch(r.default_branch@, r.current_branch@);
    let head = plan_head(r.default_branch@, r.current_branch@, slug);
    let base = plan_base(r.default_branch@);
    "Could not open the PR automatically. Resolve these, then retry:\n"@ + blocker_lines(r.checks@)
        + "\nOr open it by hand (UmaDev never force-pushes or rewrites your commits):\n"@
        + switch_line(needs, head, base) + recipe_lines(slug, head, base, body)
}

/// Appends one line per failing check.
#[verifier::rlimit(40)]
fn push_blocker_lines(out: &mut String, checks: &Vec<ReadinessCheck>)
    ensures
        final(out)@ == old(out)@ + blocker_lines(checks@),
{
    let ghost start = out@;
    let mut i: usize = 0;
    assert(checks@.take(0) =~= Seq::<ReadinessCheck>::empty());
    assert(start + blocker_lines(Seq::<ReadinessCheck>::empty()) =~= start);
    while i < checks.len()
        invariant
            i <= checks@.len(),
            out@ == start + blocker_lines(checks@.take(i as int)),
        decreases checks@.len() - i,
    {
        let c = &checks[i];
        let ghost cs = checks@.take(i + 1);
        assert(cs.drop_last() =~= checks@.take(i as int));
        assert(cs.last() == *c);
        if !c.ok {
            out.append("  - ");
            out.append(c.label.as_str());
            out.append(" — ");
            out.append(c.remedy.as_str());
            out.append("\n");
        }
        assert(out@ =~= start + blocker_lines(cs));
        i += 1;
    }
    assert(checks@.take(checks@.len() as int) =~= checks@);
}

/// Appends the branch line (when needed) and the commit, push and
/// `gh pr create` lines.
#[verifier::rlimit(40)]
fn push_recipe(out: &mut String, plan: &PrPlan, slug: &str, body_path_rel: &str)
    ensures
        final(out)@ == old(out)@ + switch_line(
            plan.needs_new_branch,
            plan.head_branch@,
            plan.base_branch@,
        ) + recipe_lines(slug@, plan.head_branch@, plan.base_branch@, body_path_rel@),
{
    let ghost start = out@;
    if plan.needs_new_branch {
        out.append("  git switch -c ");
        out.append(plan.head_branch.as_str());
        out.append("            # never commit on `");
        out.append(plan.base_branch.as_str());
        out.append("` directly\n");
    }
    assert(out@ =~= start + switch_line(plan.needs_new_branch, plan.head_branch@, plan.base_branch@));
    let ghost mid = out@;
    out.append("  git add -A && git commit -m \"");
    out.append(slug);
    out.append(": UmaDev pipeline output\"\n  git push -u origin ");
    out.append(plan.head_branch.as_str());
    out.append("\n  gh pr create --base ");
    out.append(plan.base_branch.as_str());
    out.append(" --head ");
    out.append(plan.head_branch.as_str());
    out.append(" --title \"");
    out.append(slug);
    out.append("\" --body-file ");
    out.append(body_path_rel);
    out.append("\n");
    assert(out@ =~= mid + recipe_lines(slug@, plan.head_branch@, plan.base_branch@, body_path_rel@));
}

/// The manual fallback steps for when automation isn't ready: exactly the
/// failing preconditions and their remedies, then the git/gh recipe, which
/// branches first when on the default branch and never force-pushes.
pub fn manual_steps(readiness: &PrReadiness, slug: &str, body_path_rel: &str) -> (s: String)
    ensures
        s@ == manual_steps_spec(*readiness, slug@, body_path_rel@),
{
    let plan = plan_branches(readiness, slug);
    let mut out = String::from_str("Could not open the PR automatically. Resolve these, then retry:\n");
    push_blocker_lines(&mut out, &readiness.checks);
    out.append("\nOr open it by hand (UmaDev never force-pushes or rewrites your commits):\n");
    push_recipe(&mut out, &plan, slug, body_path_rel);
    out
}

// ---------------------------------------------------------------------------
// The PR body
// ---------------------------------------------------------------------------

/// Workspace-relative path of the rendered PR body.
pub fn pr_body_rel_path(slug: &str) -> (p: String)
    ensures
        p@ == "output/"@ + slug@ + "-pr-body.md"@,
{
    let mut out = String::from_str("output/");
    out.append(slug);
    out.append("-pr-body.md");
    out
}

/// The closing note of every PR body.
pub open spec fn body_footer() -> Seq<char> {
    "\n_This PR body was generated by UmaDev from the run's own evidence. Every claim above cites the file or number it derives from._\n"@
}

/// The full PR body: the rendered review report, then the proof-pack
/// section, then the footer.
pub fn render_pr_body(review_md: &str, proof_pack_summary: &str) -> (b: String)
    ensures
        b@ == review_md@ + "\n---\n\n## Proof pack\n\n"@ + proof_pack_summary@ + body_footer(),
{
    let mut out = String::new();
    out.append(review_md);
    out.append("\n---\n\n## Proof pack\n\n");
    out.append(proof_pack_summary);
    out.append(
        "\n_This PR body was generated by UmaDev from the run's own evidence. Every claim above cites the file or number it derives from._\n",
    );
    out
}

/// The proof-pack section: the latest zip's name and size in KiB, or an
/// honest note when none exists yet.
pub open spec fn proof_pack_summary_spec(latest: Option<(Seq<char>, u64)>) -> Seq<char> {
    match latest {
        Some((name, size)) => "Full evidence bundle: `release/"@ + name + "` ("@ + decimal(
            (size / 1024) as nat,
        )
            + " KiB) — docs + quality gate + compliance mapping + a runnable scorecard, retained for post-merge audit.\n"@,
        None => "No proof-pack zip yet (it is produced at the `delivery` phase). The review checklist above still reflects the current evidence.\n"@,
    }
}

/// Summarises the latest proof-pack (its file name and size in bytes) for
/// the PR body.
pub fn proof_pack_summary(latest: Option<(String, u64)>) -> (s: String)
    ensures
        s@ == proof_pack_summary_spec(
            match latest {
                Some((n, z)) => Some((n@, z)),
                None => None,
            },
        ),
{
    match latest {
        Some((name, size_bytes)) => {
            let mut out = String::from_str("Full evidence bundle: `release/");
            out.append(name.as_str());
            out.append("` (");
            push_decimal(&mut out, size_bytes / 1024);
            out.append(
                " KiB) — docs + quality gate + compliance mapping + a runnable scorecard, retained for post-merge audit.\n",
            );
            out
        },
        None => String::from_str(
            "No proof-pack zip yet (it is produced at the `delivery` phase). The review checklist above still reflects the current evidence.\n",
        ),
    }
}

/// A proof-pack file name: `proof-pack-*` with the extension `zip` in any
/// ASCII case.
pub open spec fn is_proof_pack_name(name: Seq<char>) -> bool {
    &&& has_prefix(name, "proof-pack-"@)
    &&& name.len() >= 4
    &&& lower_seq(name.skip(name.len() - 4)) == ".zip"@
}

/// Whether `name` is a proof-pack file name.
pub fn is_proof_pack(name: &str) -> (b: bool)
    ensures
        b == is_proof_pack_name(name@),
{
    if !starts_with_str(name, "proof-pack-") {
        return false;
    }
    let v = chars_of(name);
    let n = v.len();
    if n < 4 {
        return false;
    }
    let mut tail = String::new();
    push_range(&mut tail, &v, n - 4, n);
    assert(v@.subrange(n - 4, n as int) =~= v@.skip(n - 4));
    let low = ascii_lowercase(tail.as_str());
    str_eq(low.as_str(), ".zip")
}

/// The latest proof-pack among the file names of `release/`: the greatest
/// proof-pack name in code-point order (the order of the sorted paths), or
/// `None` when there is none.
#[verifier::rlimit(40)]
pub fn latest_proof_pack(file_names: &Vec<String>) -> (r: Option<String>)
    ensures
        r is None <==> (forall|i: int|
            0 <= i < file_names@.len() ==> !is_proof_pack_name(#[trigger] file_names@[i]@)),
        r matches Some(n) ==> {
            &&& exists|i: int| 0 <= i < file_names@.len() && file_names@[i]@ == n@
            &&& is_proof_pack_name(n@)
            &&& forall|i: int|
                0 <= i < file_names@.len() && is_proof_pack_name(#[trigger] file_names@[i]@)
                    ==> !lex_lt(n@, file_names@[i]@)
        },
{
    let mut best: Option<String> = None;
    let mut i: usize = 0;
    while i < file_names.len()
        invariant
            i <= file_names@.len(),
            best is None <==> (forall|j: int|
                0 <= j < i ==> !is_proof_pack_name(#[trigger] file_names@[j]@)),
            best matches Some(n) ==> {
                &&& exists|j: int| 0 <= j < i && file_names@[j]@ == n@
                &&& is_proof_pack_name(n@)
                &&& forall|j: int|
                    0 <= j < i && is_proof_pack_name(#[trigger] file_names@[j]@) ==> !lex_lt(
                        n@,
                        file_names@[j]@,
                    )
            },
        decreases file_names@.len() - i,
    {
        let name = &file_names[i];
        if is_proof_pack(name.as_str()) {
            let replace = match &best {
                None => true,
                Some(b) => str_lt(b.as_str(), name.as_str()),
            };
            if replace {
                proof {
                    if best is Some {
                        let b = best->0@;
                        assert forall|j: int|
                            0 <= j < i && is_proof_pack_name(#[trigger] file_names@[j]@) implies !lex_lt(
                            name@,
                            file_names@[j]@,
                        ) by {
                            if lex_lt(name@, file_names@[j]@) {
                                lemma_lex_lt_transitive(b, name@, file_names@[j]@);
                            }
                        }
                    }
                }
                proof {
                    lemma_lex_lt_irreflexive(name@);
                }
                best = Some(name.clone());
                assert(file_names@[i as int]@ == best->0@);
            }
        }
        i += 1;
    }
    best
}

} // verus!
