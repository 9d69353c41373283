//! Runtime proof: the record of booting a project's dev server, waiting for it
//! to answer and probing its routes, and the decisions that drive that run.
//!
//! The run itself (spawning processes, polling with `curl`, sleeping) is
//! outside work; here it is a state machine ([`RuntimeRun`]) that is handed
//! the outcome of each step and answers with the next step to perform.
use vstd::prelude::*;
use crate::json::{json_member_keys, member_object_keys};
use crate::text::{
    ascii_lowercase, char_width, chars_of, contains_string, decimal, fields, has_substr, is_digit,
    is_ws,
    lemma_decimal_digits, lemma_fields_append, lemma_fields_clean, lemma_fields_of_run,
    lemma_fields_trailing_delim, lemma_skip_trailing, lemma_utf8_len_concat,
    lemma_utf8_len_encoding, lemma_utf8_len_prefix, lower_seq, occurs_at, opt_view, parse_u16,
    parse_u16_spec, pieces, push_char, push_decimal, push_range, skip_trailing, split_fields,
    split_pieces, starts_with_str, str_eq, string_of, trim, trim_end, trim_seq, utf8_len, views,
    Delim,
};

verus! {

broadcast use vstd::string::group_string_axioms;

/// Cap on captured e2e output, in bytes.
pub const CAPTURE_CAP: usize = 8192;

/// Seconds to wait for the dev server to answer its base URL.
pub const READY_TIMEOUT_SECS: u64 = 60;

/// Interval between readiness polls, milliseconds.
pub const READY_POLL_MS: u64 = 500;

/// Per-route `curl` timeout, seconds.
pub const PROBE_TIMEOUT_SECS: u64 = 10;

/// Budget for the optional e2e step, seconds.
pub const E2E_TIMEOUT_SECS: u64 = 600;

/// Whether the runtime check ran end-to-end or degraded, and why.
#[derive(Debug, Clone, PartialEq, Eq)]
pub enum RuntimeStatus {
    /// The dev server booted, answered its base URL, and routes were probed.
    Verified,
    /// The check could not complete; the payload is a short machine reason.
    NotVerified(String),
}

impl RuntimeStatus {
    /// `true` iff the runtime was exercised end-to-end.
    pub fn is_verified(&self) -> (b: bool)
        ensures
            b == (*self is Verified),
    {
        match self {
            RuntimeStatus::Verified => true,
            RuntimeStatus::NotVerified(_) => false,
        }
    }

    /// Stable label for audit rows / display switches.
    pub fn as_str(&self) -> (s: &'static str)
        ensures
            s@ == (if *self is Verified {
                "verified"@
            } else {
                "not_verified"@
            }),
    {
        match self {
            RuntimeStatus::Verified => "verified",
            RuntimeStatus::NotVerified(_) => "not_verified",
        }
    }
}

/// One route probe: the path hit, the HTTP status (`0` when no response at
/// all), the round-trip time, and whether the answer was a non-error.
#[derive(Debug, Clone, PartialEq, Eq)]
pub struct RouteProbe {
    pub path: String,
    pub status: u16,
    pub ms: u64,
    pub ok: bool,
}

/// The full runtime-proof record.
#[derive(Debug, Clone, PartialEq, Eq)]
pub struct RuntimeProof {
    /// ISO-8601 timestamp the check ran.
    pub timestamp: String,
    /// Top-level verdict.
    pub status: RuntimeStatus,
    /// Label of the detected dev server, if any.
    pub dev_server: Option<String>,
    /// The command spawned, if any.
    pub command: Option<String>,
    /// Base URL polled / probed.
    pub base_url: Option<String>,
    /// Milliseconds until the base URL first answered.
    pub ready_ms: Option<u64>,
    /// Per-route probe results.
    pub routes: Vec<RouteProbe>,
    /// Optional e2e outcome.
    pub e2e: Option<E2eResult>,
}

/// Outcome of the optional e2e suite.
#[derive(Debug, Clone, PartialEq, Eq)]
pub struct E2eResult {
    pub command: String,
    pub passed: bool,
    pub ms: u64,
    pub output: String,
}

/// Number of routes that answered with a non-error status.
pub open spec fn ok_count(routes: Seq<RouteProbe>) -> nat
    decreases routes.len(),
{
    if routes.len() == 0 {
        0
    } else {
        ok_count(routes.drop_last()) + (if routes.last().ok {
            1nat
        } else {
            0nat
        })
    }
}

/// The count of answering routes grows by one exactly for each route that
/// answered: none for no routes, and adding a route adds one when it is ok
/// and nothing otherwise; so it never exceeds the number of routes.
pub proof fn law_ok_count_counts_each_ok_route(routes: Seq<RouteProbe>, r: RouteProbe)
    ensures
        ok_count(Seq::<RouteProbe>::empty()) == 0,
        ok_count(routes.push(r)) == ok_count(routes) + (if r.ok {
            1int
        } else {
            0int
        }),
        ok_count(routes) <= routes.len(),
    decreases routes.len(),
{
    assert(routes.push(r).drop_last() =~= routes);
    if routes.len() > 0 {
        law_ok_count_counts_each_ok_route(routes.drop_last(), routes.last());
    }
}

/// The one-line summary of a proof.
pub open spec fn summary_spec(p: RuntimeProof) -> Seq<char> {
    match p.status {
        RuntimeStatus::Verified => {
            let base = match p.base_url {
                Some(b) => b@,
                None => "(unknown)"@,
            };
            "runtime verified: "@ + base + " ready, "@ + decimal(ok_count(p.routes@)) + "/"@
                + decimal(p.routes@.len()) + " route(s) answered"@
        },
        RuntimeStatus::NotVerified(reason) => "runtime not verified: "@ + reason@,
    }
}

/// The timestamp format of the record: ISO-8601 in UTC, second precision.
pub open spec fn timestamp_format() -> Seq<char> {
    "%Y-%m-%dT%H:%M:%SZ"@
}

/// The last second, counted from the Unix epoch, that chrono has a date
/// for: 23:59:59 on December 31 of the year 262142.
pub const MAX_TIMESTAMP_SECS: i64 = 8210266876799;

/// The last second of the year 9999, the last with a four-digit year.
pub const LAST_FOUR_DIGIT_YEAR_SECS: i64 = 253402300799;

/// Text in the shape [`timestamp_format`] prints for a time after the Unix
/// epoch: the year (four digits, or a `+` and at least five digits past
/// 9999), then `-MM-DDTHH:MM:SSZ`, each field two decimal digits.
pub open spec fn is_utc_timestamp(s: Seq<char>) -> bool {
    let n = s.len() as int;
    let y = n - 16;
    &&& y == 4 || (y >= 6 && s[0] == '+')
    &&& forall|i: int| 0 <= i < y && !(i == 0 && y >= 6) ==> is_digit(#[trigger] s[i])
    &&& s[y] == '-' && is_digit(s[y + 1]) && is_digit(s[y + 2])
    &&& s[y + 3] == '-' && is_digit(s[y + 4]) && is_digit(s[y + 5])
    &&& s[y + 6] == 'T' && is_digit(s[y + 7]) && is_digit(s[y + 8])
    &&& s[y + 9] == ':' && is_digit(s[y + 10]) && is_digit(s[y + 11])
    &&& s[y + 12] == ':' && is_digit(s[y + 13]) && is_digit(s[y + 14])
    &&& s[y + 15] == 'Z'
}

/// What chrono prints, in format `fmt`, for the UTC time `secs` seconds
/// after the Unix epoch (`None` where chrono has no date for it).
pub uninterp spec fn chrono_utc_text(secs: i64, fmt: Seq<char>) -> Option<Seq<char>>;

/// The record's timestamp for the UTC time `secs` seconds after the epoch.
pub open spec fn timestamp_text(secs: i64) -> Seq<char> {
    chrono_utc_text(secs, timestamp_format())->0
}

/// `chrono::DateTime::from_timestamp(secs, 0)`, formatted with `fmt`
/// (`format(fmt).to_string()`). `from_timestamp` gives `None` exactly past
/// chrono's last date (December 31, 262142), so for a second count from 0
/// the result is `Some` up to [`MAX_TIMESTAMP_SECS`]. `to_string` panics on
/// a format chrono rejects, so only the record's own format is admitted; for
/// it chrono writes `%Y` as four zero-padded digits up to year 9999 and as a
/// `+` and the digits after, and `%m`, `%d`, `%H`, `%M`, `%S` as two
/// zero-padded digits: the shape of [`is_utc_timestamp`]. Which date the
/// text names is left to the name [`chrono_utc_text`].
#[verifier::external_body]
fn format_utc_secs(secs: i64, fmt: &str) -> (r: Option<String>)
    requires
        0 <= secs,
        fmt@ == timestamp_format(),
    ensures
        opt_view(r) == chrono_utc_text(secs, fmt@),
        r is Some <==> secs <= MAX_TIMESTAMP_SECS,
        r matches Some(s) ==> is_utc_timestamp(s@),
        secs <= LAST_FOUR_DIGIT_YEAR_SECS ==> (r matches Some(s) ==> s@.len() == 20),
{
    match chrono::DateTime::from_timestamp(secs, 0) {
        Some(t) => Some(t.format(fmt).to_string()),
        None => None,
    }
}

/// The ISO-8601 UTC timestamp, second precision, of the time `secs` seconds
/// after the Unix epoch; `None` before the epoch or past
/// [`MAX_TIMESTAMP_SECS`].
pub fn utc_timestamp(secs: i64) -> (r: Option<String>)
    ensures
        opt_view(r) == (if 0 <= secs <= MAX_TIMESTAMP_SECS {
            Some(timestamp_text(secs))
        } else {
            None::<Seq<char>>
        }),
        r matches Some(s) ==> is_utc_timestamp(s@),
        secs <= LAST_FOUR_DIGIT_YEAR_SECS ==> (r matches Some(s) ==> s@.len() == 20),
{
    if secs < 0 {
        None
    } else {
        format_utc_secs(secs, "%Y-%m-%dT%H:%M:%SZ")
    }
}

/// Count of the routes whose probe answered.
fn count_ok(routes: &Vec<RouteProbe>) -> (c: usize)
    ensures
        c == ok_count(routes@),
{
    let mut c: usize = 0;
    let mut i: usize = 0;
    while i < routes.len()
        invariant
            i <= routes@.len(),
            c == ok_count(routes@.take(i as int)),
            c <= i,
        decreases routes@.len() - i,
    {
        assert(routes@.take(i + 1).drop_last() =~= routes@.take(i as int));
        if routes[i].ok {
            c += 1;
        }
        i += 1;
    }
    assert(routes@.take(routes@.len() as int) =~= routes@);
    c
}

impl RuntimeProof {
    /// A "not verified" record carrying only the reason and the time it was
    /// made.
    pub fn not_verified(reason: String, timestamp: String) -> (p: RuntimeProof)
        ensures
            p.timestamp == timestamp,
            p.status == RuntimeStatus::NotVerified(reason),
            p.dev_server is None,
            p.command is None,
            p.base_url is None,
            p.ready_ms is None,
            p.routes@.len() == 0,
            p.e2e is None,
    {
        RuntimeProof {
            timestamp,
            status: RuntimeStatus::NotVerified(reason),
            dev_server: None,
            command: None,
            base_url: None,
            ready_ms: None,
            routes: Vec::new(),
            e2e: None,
        }
    }

    /// A neutral one-line summary for logs and the proof-pack summary file.
    #[verifier::rlimit(40)]
    pub fn summary_line(&self) -> (s: String)
        ensures
            s@ == summary_spec(*self),
    {
        match &self.status {
            RuntimeStatus::Verified => {
                let ok = count_ok(&self.routes);
                let total = self.routes.len();
                let mut out = String::from_str("runtime verified: ");
                match &self.base_url {
                    Some(b) => out.append(b.as_str()),
                    None => out.append("(unknown)"),
                }
                out.append(" ready, ");
                push_decimal(&mut out, ok as u64);
                out.append("/");
                push_decimal(&mut out, total as u64);
                out.append(" route(s) answered");
                out
            },
            RuntimeStatus::NotVerified(reason) => {
                let mut out = String::from_str("runtime not verified: ");
                out.append(reason.as_str());
                out
            },
        }
    }
}

/// The status label tells a verified run apart: it is `verified` exactly for
/// `Verified`.
pub proof fn law_status_label(s: RuntimeStatus)
    ensures
        ((if s is Verified {
            "verified"@
        } else {
            "not_verified"@
        }) == "verified"@) <==> s is Verified,
{
    reveal_strlit("verified");
    reveal_strlit("not_verified");
    assert("verified"@.len() != "not_verified"@.len());
}

/// The summary of a record that is not verified names its reason.
pub proof fn law_summary_names_reason(p: RuntimeProof)
    requires
        p.status is NotVerified,
    ensures
        has_substr(summary_spec(p), p.status->NotVerified_0@),
{
    let reason = p.status->NotVerified_0@;
    let pre = "runtime not verified: "@;
    assert((pre + reason).subrange(pre.len() as int, (pre.len() + reason.len()) as int) =~= reason);
    assert(occurs_at(summary_spec(p), reason, pre.len() as int));
}

/// The canonical location of the runtime-proof artifact, relative to the
/// workspace root.
pub fn runtime_proof_rel_path() -> (p: &'static str)
    ensures
        p@ == ".umadev/audit/runtime-proof.json"@,
{
    ".umadev/audit/runtime-proof.json"
}

// ---------------------------------------------------------------------------
// Commands, URLs and route paths
// ---------------------------------------------------------------------------

/// The program and arguments of a command line split on whitespace runs
/// (`str::split_whitespace`); the program is empty when there are no words.
pub open spec fn split_command_spec(cmd: Seq<char>) -> (Seq<char>, Seq<Seq<char>>) {
    let w = fields(cmd, Delim::Whitespace);
    if w.len() == 0 {
        (Seq::<char>::empty(), Seq::<Seq<char>>::empty())
    } else {
        (w[0], w.drop_first())
    }
}

/// Splits a shell-ish command string ("npm run dev") into (program, args).
/// A plain whitespace split: no quoting, no shell operators.
pub fn split_command(cmd: &str) -> (r: (String, Vec<String>))
    ensures
        r.0@ == split_command_spec(cmd@).0,
        views(r.1@) == split_command_spec(cmd@).1,
{
    let mut words = split_fields(cmd, Delim::Whitespace);
    if words.len() == 0 {
        assert(views(words@) =~= Seq::<Seq<char>>::empty());
        (String::new(), words)
    } else {
        let ghost all = views(words@);
        let program = words.remove(0);
        assert(views(words@) =~= all.drop_first());
        (program, words)
    }
}

/// A command splits into its whitespace-separated words: the program is the
/// first, the arguments the rest, and none of them is empty or holds
/// whitespace.
pub proof fn law_split_command_words(cmd: Seq<char>)
    ensures
        ({
            let (program, args) = split_command_spec(cmd);
            &&& fields(cmd, Delim::Whitespace).len() > 0 ==> seq![program] + args == fields(
                cmd,
                Delim::Whitespace,
            )
            &&& fields(cmd, Delim::Whitespace).len() == 0 ==> program.len() == 0 && args.len() == 0
            &&& forall|i: int| 0 <= i < args.len() ==> (#[trigger] args[i]).len() > 0
            &&& forall|i: int, j: int|
                0 <= i < args.len() && 0 <= j < args[i].len() ==> !is_ws(#[trigger] args[i][j])
            &&& forall|j: int| 0 <= j < program.len() ==> !is_ws(#[trigger] program[j])
        }),
{
    let w = fields(cmd, Delim::Whitespace);
    lemma_fields_clean(cmd, Delim::Whitespace);
    if w.len() > 0 {
        assert(seq![w[0]] + w.drop_first() =~= w);
        assert forall|i: int| 0 <= i < w.drop_first().len() implies (#[trigger] w.drop_first()[i]).len()
            > 0 by {
            assert(w.drop_first()[i] == w[i + 1]);
        }
        assert forall|i: int, j: int|
            0 <= i < w.drop_first().len() && 0 <= j < w.drop_first()[i].len() implies !is_ws(
            #[trigger] w.drop_first()[i][j],
        ) by {
            assert(w.drop_first()[i] == w[i + 1]);
            assert(!Delim::Whitespace.has(w[i + 1][j]));
        }
        assert forall|j: int| 0 <= j < w[0].len() implies !is_ws(#[trigger] w[0][j]) by {
            assert(!Delim::Whitespace.has(w[0][j]));
        }
    }
}

/// curl's `%{http_code}`: `None` for no response (`000`, or not a number),
/// else the status.
pub open spec fn http_code_spec(s: Seq<char>) -> Option<u16> {
    match parse_u16_spec(s) {
        Some(c) => if c == 0 {
            None
        } else {
            Some(c)
        },
        None => None,
    }
}

/// Parses curl's `%{http_code}` output; `000` is curl's "no response"
/// sentinel and reads as `None`.
pub fn parse_http_code(s: &str) -> (r: Option<u16>)
    ensures
        r == http_code_spec(s@),
{
    match parse_u16(s) {
        Some(c) => if c == 0 {
            None
        } else {
            Some(c)
        },
        None => None,
    }
}

/// Every real status reads back from its decimal rendering, and `0` (curl's
/// "no response") never reads as a status.
pub proof fn law_http_code_round_trip(code: u16)
    ensures
        code != 0 ==> http_code_spec(decimal(code as nat)) == Some(code),
        http_code_spec(decimal(code as nat)) != Some(0u16),
{
    lemma_decimal_digits(code as nat);
    let d = decimal(code as nat);
    assert(!(d.len() > 0 && d[0] == '+'));
}

/// What a `curl -w "%{http_code}"` run reports: nothing when curl failed,
/// else its trimmed output read as an HTTP code.
pub open spec fn curl_status_spec(exited_ok: bool, stdout: Seq<char>) -> Option<u16> {
    if !exited_ok {
        None
    } else {
        http_code_spec(trim_seq(stdout, Delim::Whitespace))
    }
}

/// Interprets one `curl -s -o /dev/null -w "%{http_code}"` run from its exit
/// status and its standard output.
pub fn curl_status(exited_ok: bool, stdout: &str) -> (r: Option<u16>)
    ensures
        r == curl_status_spec(exited_ok, stdout@),
{
    if !exited_ok {
        return None;
    }
    let code = trim(stdout, Delim::Whitespace);
    parse_http_code(code.as_str())
}

/// `base` and `path` joined with exactly one `/` between them; an empty
/// path gives the base without trailing slashes.
pub open spec fn join_url_spec(base: Seq<char>, path: Seq<char>) -> Seq<char> {
    let b = skip_trailing(base, Delim::Char('/'));
    if path.len() == 0 {
        b
    } else if path[0] == '/' {
        b + path
    } else {
        b + "/"@ + path
    }
}

/// Joins a base URL and a path without doubling or dropping the `/`.
pub fn join_url(base: &str, path: &str) -> (r: String)
    ensures
        r@ == join_url_spec(base@, path@),
{
    let mut out = trim_end(base, Delim::Char('/'));
    if path.is_empty() {
        return out;
    }
    proof {
        reveal_strlit("/");
        if path@[0] == '/' {
            assert(path@.take(1) =~= "/"@);
        }
    }
    if starts_with_str(path, "/") {
        assert(path@.take(1)[0] == path@[0]);
        out.append(path);
    } else {
        out.append("/");
        out.append(path);
    }
    out
}

/// A joined URL never doubles nor drops the `/` at the junction: for a
/// non-empty path it is the base without trailing slashes, one `/`, and the
/// path without its own leading `/`.
pub proof fn law_join_url_single_slash(base: Seq<char>, path: Seq<char>)
    requires
        path.len() > 0,
    ensures
        ({
            let b = skip_trailing(base, Delim::Char('/'));
            &&& b.len() > 0 ==> b.last() != '/'
            &&& join_url_spec(base, path) == b + "/"@ + (if path[0] == '/' {
                path.drop_first()
            } else {
                path
            })
        }),
{
    lemma_skip_trailing(base, Delim::Char('/'));
    reveal_strlit("/");
    if path[0] == '/' {
        assert(path =~= "/"@ + path.drop_first());
        let b = skip_trailing(base, Delim::Char('/'));
        assert(b + path =~= b + "/"@ + path.drop_first());
    }
}

/// A templated path segment: `{name}` or `:name`.
pub open spec fn is_template(seg: Seq<char>) -> bool {
    (seg.len() > 0 && seg[0] == '{' && seg.last() == '}') || (seg.len() > 0 && seg[0] == ':')
}

/// A segment with a template replaced by the placeholder `1`.
pub open spec fn concrete_segment(seg: Seq<char>) -> Seq<char> {
    if is_template(seg) {
        "1"@
    } else {
        seg
    }
}

/// `/seg1/seg2/...` from the concrete form of each segment.
pub open spec fn join_segments(segs: Seq<Seq<char>>) -> Seq<char>
    decreases segs.len(),
{
    if segs.len() == 0 {
        Seq::<char>::empty()
    } else {
        join_segments(segs.drop_last()) + seq!['/'] + concrete_segment(segs.last())
    }
}

/// A route path with its templated segments replaced by `1`, empty segments
/// dropped, and `/` for a path without segments.
pub open spec fn concretize_spec(path: Seq<char>) -> Seq<char> {
    let out = join_segments(fields(path, Delim::Char('/')));
    if out.len() == 0 {
        "/"@
    } else {
        out
    }
}

/// Replaces templated path params (`{id}`, `:id`) with a concrete placeholder
/// so a probe lands on a real handler instead of a literal template.
#[verifier::rlimit(40)]
pub fn concretize_path(path: &str) -> (r: String)
    ensures
        r@ == concretize_spec(path@),
{
    let segs = split_fields(path, Delim::Char('/'));
    let ghost sv = views(segs@);
    let mut out = String::new();
    let mut i: usize = 0;
    while i < segs.len()
        invariant
            i <= segs@.len(),
            sv == views(segs@),
            sv == fields(path@, Delim::Char('/')),
            out@ == join_segments(sv.take(i as int)),
        decreases segs@.len() - i,
    {
        let seg = &segs[i];
        let sc = chars_of(seg.as_str());
        assert(sc@ == sv[i as int]);
        assert(sv.take(i + 1).drop_last() =~= sv.take(i as int));
        assert(sv.take(i + 1).last() == sv[i as int]);
        push_char(&mut out, '/');
        let n = sc.len();
        let templ = (n > 0 && sc[0] == '{' && sc[n - 1] == '}') || (n > 0 && sc[0] == ':');
        if templ {
            push_char(&mut out, '1');
            proof {
                reveal_strlit("1");
            }
            assert(out@ =~= join_segments(sv.take(i + 1)));
        } else {
            push_range(&mut out, &sc, 0, n);
            assert(sc@.subrange(0, n as int) =~= sc@);
            assert(out@ =~= join_segments(sv.take(i + 1)));
        }
        i += 1;
    }
    assert(sv.take(sv.len() as int) =~= sv);
    if out.as_str().is_empty() {
        push_char(&mut out, '/');
        proof {
            reveal_strlit("/");
        }
        assert(out@ =~= "/"@);
    }
    out
}

/// The placeholder is not a template, and a concrete segment stays as it is.
proof fn lemma_concrete_segment(seg: Seq<char>)
    ensures
        !is_template(concrete_segment(seg)),
        concrete_segment(concrete_segment(seg)) == concrete_segment(seg),
        seg.len() > 0 && !seg.contains('/') ==> concrete_segment(seg).len() > 0 && !concrete_segment(
            seg,
        ).contains('/'),
{
    reveal_strlit("1");
    assert("1"@[0] == '1');
    if is_template(seg) {
        assert(!"1"@.contains('/')) by {
            assert("1"@.len() == 1);
        }
    }
}

/// Concretizing every segment twice is concretizing once.
proof fn lemma_join_concrete(segs: Seq<Seq<char>>)
    ensures
        join_segments(segs.map_values(|x: Seq<char>| concrete_segment(x))) == join_segments(segs),
    decreases segs.len(),
{
    if segs.len() > 0 {
        let m = segs.map_values(|x: Seq<char>| concrete_segment(x));
        assert(m.drop_last() =~= segs.drop_last().map_values(|x: Seq<char>| concrete_segment(x)));
        lemma_join_concrete(segs.drop_last());
        lemma_concrete_segment(segs.last());
    }
}

/// Splitting a joined path on `/` gives back its concrete segments.
#[verifier::rlimit(40)]
proof fn lemma_fields_of_join(segs: Seq<Seq<char>>)
    requires
        forall|i: int| 0 <= i < segs.len() ==> (#[trigger] segs[i]).len() > 0 && !segs[i].contains('/'),
    ensures
        fields(join_segments(segs), Delim::Char('/')) == segs.map_values(
            |x: Seq<char>| concrete_segment(x),
        ),
    decreases segs.len(),
{
    let d = Delim::Char('/');
    if segs.len() == 0 {
        assert(fields(Seq::<char>::empty(), d) =~= Seq::<Seq<char>>::empty());
        assert(segs.map_values(|x: Seq<char>| concrete_segment(x)) =~= Seq::<Seq<char>>::empty());
    } else {
        let init = segs.drop_last();
        assert forall|i: int| 0 <= i < init.len() implies (#[trigger] init[i]).len() > 0
            && !init[i].contains('/') by {
            assert(init[i] == segs[i]);
        }
        lemma_fields_of_join(init);
        let j = join_segments(init);
        let last = segs.last();
        assert(last == segs[segs.len() - 1]);
        lemma_concrete_segment(last);
        let c = concrete_segment(last);
        assert(join_segments(segs) =~= j.push('/') + c);
        lemma_fields_append(j.push('/'), c, d, seq![]);
        lemma_fields_trailing_delim(j, '/', d, seq![]);
        assert forall|k: int| 0 <= k < c.len() implies !d.has(#[trigger] c[k]) by {
            if c[k] == '/' {
                assert(c.contains('/'));
            }
        }
        lemma_fields_of_run(c, d, seq![]);
        assert(Seq::<char>::empty() + c =~= c);
        assert(segs.map_values(|x: Seq<char>| concrete_segment(x)) =~= init.map_values(
            |x: Seq<char>| concrete_segment(x),
        ).push(c));
    }
}

/// A joined path with segments starts with `/`.
proof fn lemma_join_starts_with_slash(segs: Seq<Seq<char>>)
    ensures
        segs.len() > 0 ==> join_segments(segs).len() > 0 && join_segments(segs)[0] == '/',
    decreases segs.len(),
{
    if segs.len() > 0 {
        lemma_join_starts_with_slash(segs.drop_last());
        let j = join_segments(segs.drop_last());
        assert(join_segments(segs) == j + seq!['/'] + concrete_segment(segs.last()));
        assert((j + seq!['/'] + concrete_segment(segs.last()))[0] == (if j.len() > 0 {
            j[0]
        } else {
            '/'
        }));
    }
}

/// Concretizing a route path yields an absolute path (it starts with `/`)
/// none of whose segments is a template, so concretizing it again changes
/// nothing.
#[verifier::rlimit(40)]
pub proof fn law_concretize_is_concrete(path: Seq<char>)
    ensures
        concretize_spec(path).len() > 0 && concretize_spec(path)[0] == '/',
        forall|i: int|
            0 <= i < fields(concretize_spec(path), Delim::Char('/')).len() ==> !is_template(
                #[trigger] fields(concretize_spec(path), Delim::Char('/'))[i],
            ),
        concretize_spec(concretize_spec(path)) == concretize_spec(path),
{
    let d = Delim::Char('/');
    let segs = fields(path, d);
    lemma_fields_clean(path, d);
    assert forall|i: int| 0 <= i < segs.len() implies (#[trigger] segs[i]).len() > 0
        && !segs[i].contains('/') by {
        if segs[i].contains('/') {
            let k = choose|k: int| 0 <= k < segs[i].len() && segs[i][k] == '/';
            assert(!d.has(segs[i][k]));
        }
    }
    lemma_join_starts_with_slash(segs);
    reveal_strlit("/");
    if segs.len() == 0 {
        assert(join_segments(segs) =~= Seq::<char>::empty());
        assert("/"@ =~= Seq::<char>::empty().push('/'));
        lemma_fields_trailing_delim(Seq::<char>::empty(), '/', d, seq![]);
        assert(fields(Seq::<char>::empty(), d) =~= Seq::<Seq<char>>::empty());
        assert(fields("/"@, d) =~= Seq::<Seq<char>>::empty());
        assert(join_segments(Seq::<Seq<char>>::empty()) =~= Seq::<char>::empty());
    } else {
        lemma_fields_of_join(segs);
        lemma_join_concrete(segs);
        let m = segs.map_values(|x: Seq<char>| concrete_segment(x));
        assert forall|i: int| 0 <= i < m.len() implies !is_template(#[trigger] m[i]) by {
            lemma_concrete_segment(segs[i]);
        }
    }
}

/// `/seg1/seg2/...`, each segment as it is.
pub open spec fn slash_path(segs: Seq<Seq<char>>) -> Seq<char>
    decreases segs.len(),
{
    if segs.len() == 0 {
        Seq::<char>::empty()
    } else {
        slash_path(segs.drop_last()) + seq!['/'] + segs.last()
    }
}

/// Splitting `/seg1/seg2/...` on `/` gives back its segments.
proof fn lemma_fields_of_slash_path(segs: Seq<Seq<char>>)
    requires
        forall|i: int| 0 <= i < segs.len() ==> (#[trigger] segs[i]).len() > 0 && !segs[i].contains('/'),
    ensures
        fields(slash_path(segs), Delim::Char('/')) == segs,
    decreases segs.len(),
{
    let d = Delim::Char('/');
    if segs.len() == 0 {
        assert(fields(Seq::<char>::empty(), d) =~= Seq::<Seq<char>>::empty());
    } else {
        let init = segs.drop_last();
        assert forall|i: int| 0 <= i < init.len() implies (#[trigger] init[i]).len() > 0
            && !init[i].contains('/') by {
            assert(init[i] == segs[i]);
        }
        lemma_fields_of_slash_path(init);
        let j = slash_path(init);
        let c = segs.last();
        assert(c == segs[segs.len() - 1]);
        assert(slash_path(segs) =~= j.push('/') + c);
        lemma_fields_append(j.push('/'), c, d, seq![]);
        lemma_fields_trailing_delim(j, '/', d, seq![]);
        assert forall|k: int| 0 <= k < c.len() implies !d.has(#[trigger] c[k]) by {
            if c[k] == '/' {
                assert(c.contains('/'));
            }
        }
        lemma_fields_of_run(c, d, seq![]);
        assert(Seq::<char>::empty() + c =~= c);
        assert(segs =~= init.push(c));
    }
}

/// The segment a concretized path holds for `seg`: `1` for a template
/// (`{name}` or `:name`), the segment itself, character for character,
/// otherwise.
pub open spec fn placeholder_for(seg: Seq<char>) -> Seq<char> {
    if (seg.len() > 0 && seg[0] == '{' && seg[seg.len() - 1] == '}') || (seg.len() > 0 && seg[0]
        == ':') {
        seq!['1']
    } else {
        seg
    }
}

proof fn lemma_join_is_slash_path(segs: Seq<Seq<char>>)
    ensures
        join_segments(segs) == slash_path(segs.map_values(|x: Seq<char>| placeholder_for(x))),
    decreases segs.len(),
{
    reveal_strlit("1");
    if segs.len() > 0 {
        let m = segs.map_values(|x: Seq<char>| placeholder_for(x));
        assert(m.drop_last() =~= segs.drop_last().map_values(|x: Seq<char>| placeholder_for(x)));
        lemma_join_is_slash_path(segs.drop_last());
        let last = segs.last();
        assert(m.last() == placeholder_for(last));
        assert("1"@ =~= seq!['1']);
        if last.len() > 0 {
            assert(last.last() == last[last.len() - 1]);
        }
        assert(concrete_segment(last) == placeholder_for(last));
    }
}

/// Concretizing `/seg1/seg2/...` (segments non-empty, without `/`) keeps
/// every segment that is not a template exactly as it is, replaces each
/// template (`{name}` or `:name`) by `1`, and keeps the order; a path
/// without segments becomes `/`.
pub proof fn law_concretize_keeps_literal_segments(segs: Seq<Seq<char>>)
    requires
        forall|i: int| 0 <= i < segs.len() ==> (#[trigger] segs[i]).len() > 0 && !segs[i].contains('/'),
    ensures
        segs.len() > 0 ==> concretize_spec(slash_path(segs)) == slash_path(
            segs.map_values(|x: Seq<char>| placeholder_for(x)),
        ),
        segs.len() == 0 ==> concretize_spec(slash_path(segs)) == seq!['/'],
{
    reveal_strlit("/");
    lemma_fields_of_slash_path(segs);
    lemma_join_is_slash_path(segs);
    let m = segs.map_values(|x: Seq<char>| placeholder_for(x));
    if segs.len() > 0 {
        assert(slash_path(m).len() > 0);
    } else {
        assert(join_segments(segs) =~= Seq::<char>::empty());
        assert("/"@ =~= seq!['/']);
    }
}

/// No two `/` stand side by side in `s`.
pub open spec fn no_double_slash(s: Seq<char>) -> bool {
    forall|i: int| 0 <= i < s.len() - 1 ==> !(#[trigger] s[i] == '/' && s[i + 1] == '/')
}

/// Joining non-empty segments that hold no `/` gives a path without `//`
/// that does not end in `/`.
proof fn lemma_join_no_double_slash(segs: Seq<Seq<char>>)
    requires
        forall|i: int| 0 <= i < segs.len() ==> (#[trigger] segs[i]).len() > 0 && !segs[i].contains('/'),
    ensures
        no_double_slash(join_segments(segs)),
        join_segments(segs).len() > 0 ==> join_segments(segs).last() != '/',
    decreases segs.len(),
{
    if segs.len() > 0 {
        let init = segs.drop_last();
        assert forall|i: int| 0 <= i < init.len() implies (#[trigger] init[i]).len() > 0
            && !init[i].contains('/') by {
            assert(init[i] == segs[i]);
        }
        lemma_join_no_double_slash(init);
        let j = join_segments(init);
        let last = segs.last();
        assert(last == segs[segs.len() - 1]);
        lemma_concrete_segment(last);
        let c = concrete_segment(last);
        let out = j + seq!['/'] + c;
        assert(join_segments(segs) == out);
        assert forall|k: int| 0 <= k < c.len() implies c[k] != '/' by {
            if c[k] == '/' {
                assert(c.contains('/'));
            }
        }
        assert forall|i: int| 0 <= i < out.len() - 1 implies !(#[trigger] out[i] == '/' && out[i
            + 1] == '/') by {
            if i < j.len() - 1 {
                assert(out[i] == j[i] && out[i + 1] == j[i + 1]);
            } else if i == j.len() - 1 {
                assert(out[i] == j.last());
            } else if i == j.len() {
                assert(out[i + 1] == c[0]);
            } else {
                assert(out[i] == c[i - j.len() - 1]);
            }
        }
        assert(out.last() == c[c.len() - 1]);
    }
}

/// A concretized path never holds `//`.
pub proof fn law_concretize_no_double_slash(path: Seq<char>)
    ensures
        no_double_slash(concretize_spec(path)),
{
    let d = Delim::Char('/');
    let segs = fields(path, d);
    lemma_fields_clean(path, d);
    assert forall|i: int| 0 <= i < segs.len() implies (#[trigger] segs[i]).len() > 0
        && !segs[i].contains('/') by {
        if segs[i].contains('/') {
            let k = choose|k: int| 0 <= k < segs[i].len() && segs[i][k] == '/';
            assert(!d.has(segs[i][k]));
        }
    }
    lemma_join_no_double_slash(segs);
    reveal_strlit("/");
}

/// The probe record for `path` given what curl reported: status `0` when
/// there was no response; `ok` for a real status below 400.
pub fn route_probe(path: String, status: Option<u16>, ms: u64) -> (p: RouteProbe)
    ensures
        p.path == path,
        p.status == (match status {
            Some(c) => c,
            None => 0,
        }),
        p.ms == ms,
        p.ok == (p.status != 0 && p.status < 400),
{
    let code: u16 = match status {
        Some(c) => c,
        None => 0,
    };
    RouteProbe { path, status: code, ms, ok: code != 0 && code < 400 }
}

// ---------------------------------------------------------------------------
// Captured output
// ---------------------------------------------------------------------------

/// The number of leading characters of `s` kept under a byte cap: the
/// longest prefix whose UTF-8 encoding fits in `cap` bytes.
pub open spec fn kept_chars(s: Seq<char>, cap: nat) -> nat
    decreases s.len(),
{
    if utf8_len(s) <= cap {
        s.len()
    } else {
        kept_chars(s.drop_last(), cap)
    }
}

/// The marker appended to truncated output.
pub open spec fn truncation_marker() -> Seq<char> {
    "\n...[truncated]"@
}

/// `s` cut to `cap` bytes at a character boundary, with the marker appended,
/// when it is longer than `cap` bytes; otherwise `s` unchanged.
pub open spec fn truncate_spec(s: Seq<char>, cap: nat) -> Seq<char> {
    if utf8_len(s) <= cap {
        s
    } else {
        s.take(kept_chars(s, cap) as int) + truncation_marker()
    }
}

proof fn lemma_kept_chars(s: Seq<char>, cap: nat, i: int)
    requires
        0 <= i < s.len(),
        utf8_len(s.take(i)) <= cap,
        utf8_len(s.take(i + 1)) > cap,
    ensures
        kept_chars(s, cap) == i,
    decreases s.len(),
{
    lemma_utf8_len_prefix(s, i + 1);
    if i + 1 < s.len() {
        assert(s.drop_last().take(i) =~= s.take(i));
        assert(s.drop_last().take(i + 1) =~= s.take(i + 1));
        lemma_kept_chars(s.drop_last(), cap, i);
        assert(kept_chars(s, cap) == kept_chars(s.drop_last(), cap));
    } else {
        assert(s.take(i + 1) =~= s);
        assert(s.drop_last() =~= s.take(i));
        assert(s.take(i).take(i) =~= s.take(i));
        assert(kept_chars(s, cap) == kept_chars(s.drop_last(), cap));
        assert(kept_chars(s.drop_last(), cap) == s.drop_last().len());
    }
}

proof fn lemma_kept_chars_fits(s: Seq<char>, cap: nat)
    ensures
        kept_chars(s, cap) <= s.len(),
        utf8_len(s.take(kept_chars(s, cap) as int)) <= cap,
    decreases s.len(),
{
    if utf8_len(s) <= cap {
        assert(s.take(s.len() as int) =~= s);
    } else {
        assert(s.len() > 0);
        lemma_kept_chars_fits(s.drop_last(), cap);
        let k = kept_chars(s.drop_last(), cap);
        assert(s.drop_last().take(k as int) =~= s.take(k as int));
    }
}

/// Truncated output keeps a prefix of its input and never exceeds the
/// cap by more than the marker: its UTF-8 byte length (the length std
/// reports) is at most `cap` plus the marker's.
pub proof fn law_truncate_bounded(s: Seq<char>, cap: nat)
    ensures
        utf8_len(truncate_spec(s, cap)) <= cap + utf8_len(truncation_marker()),
        vstd::utf8::encode_utf8(truncate_spec(s, cap)).len() <= cap + utf8_len(truncation_marker()),
        utf8_len(s) > cap ==> exists|k: int|
            0 <= k <= s.len() && truncate_spec(s, cap) == s.take(k) + truncation_marker(),
        utf8_len(s) <= cap ==> truncate_spec(s, cap) == s,
{
    lemma_utf8_len_encoding(truncate_spec(s, cap));
    if utf8_len(s) > cap {
        lemma_kept_chars_fits(s, cap);
        let k = kept_chars(s, cap) as int;
        lemma_utf8_len_concat(s.take(k), truncation_marker());
    }
}

/// Truncates a captured buffer at a character boundary so that at most
/// `cap` bytes of it remain, appending a marker.
#[verifier::rlimit(40)]
pub fn truncate(s: &mut String, cap: usize)
    ensures
        final(s)@ == truncate_spec(old(s)@, cap as nat),
{
    let v = chars_of(s.as_str());
    let n = v.len();
    let mut i: usize = 0;
    let mut used: usize = 0;
    while i < n && char_width(v[i]) <= cap - used
        invariant
            i <= n == v@.len(),
            used <= cap,
            used == utf8_len(v@.take(i as int)),
        decreases n - i,
    {
        assert(v@.take(i + 1).drop_last() =~= v@.take(i as int));
        used = used + char_width(v[i]);
        i += 1;
    }
    if i == n {
        assert(v@.take(n as int) =~= v@);
        return;
    }
    proof {
        assert(v@.take(i + 1).drop_last() =~= v@.take(i as int));
        lemma_kept_chars(v@, cap as nat, i as int);
    }
    let mut out = String::new();
    push_range(&mut out, &v, 0, i);
    out.append("\n...[truncated]");
    assert(v@.subrange(0, i as int) =~= v@.take(i as int));
    *s = out;
}

// ---------------------------------------------------------------------------
// The contract's routes
// ---------------------------------------------------------------------------

/// The concrete form of each key, in order, each kept only at its first
/// occurrence.
pub open spec fn dedup_concrete(keys: Seq<Seq<char>>) -> Seq<Seq<char>>
    decreases keys.len(),
{
    if keys.len() == 0 {
        Seq::<Seq<char>>::empty()
    } else {
        let prev = dedup_concrete(keys.drop_last());
        let c = concretize_spec(keys.last());
        if prev.contains(c) {
            prev
        } else {
            prev.push(c)
        }
    }
}

/// The probe paths of an OpenAPI document: the concrete form of each key of
/// its `paths` object, de-duplicated in order; none when the document is not
/// JSON or has no `paths` object.
pub open spec fn openapi_paths_spec(body: Seq<char>) -> Seq<Seq<char>> {
    match json_member_keys(body, "paths"@) {
        Some(keys) => dedup_concrete(keys),
        None => Seq::<Seq<char>>::empty(),
    }
}

/// The probe paths for the keys of a contract's `paths` object: each key
/// concretized, each result kept at its first occurrence only.
#[verifier::rlimit(40)]
pub fn probe_paths_from_keys(keys: &Vec<String>) -> (r: Vec<String>)
    ensures
        views(r@) == dedup_concrete(views(keys@)),
{
    let ghost kv = views(keys@);
    let mut out: Vec<String> = Vec::new();
    let mut i: usize = 0;
    while i < keys.len()
        invariant
            i <= keys@.len(),
            kv == views(keys@),
            views(out@) == dedup_concrete(kv.take(i as int)),
        decreases keys@.len() - i,
    {
        let concrete = concretize_path(keys[i].as_str());
        assert(kv.take(i + 1).drop_last() =~= kv.take(i as int));
        assert(kv.take(i + 1).last() == keys@[i as int]@);
        if !contains_string(&out, concrete.as_str()) {
            let ghost before = views(out@);
            out.push(concrete);
            assert(views(out@) =~= before.push(views(out@).last()));
        }
        i += 1;
    }
    assert(kv.take(kv.len() as int) =~= kv);
    out
}

/// The route paths of an OpenAPI JSON document, concretized and
/// de-duplicated. A malformed document yields no paths.
pub fn parse_openapi_paths(body: &str) -> (r: Vec<String>)
    ensures
        views(r@) == openapi_paths_spec(body@),
{
    match member_object_keys(body, "paths") {
        Some(keys) => probe_paths_from_keys(&keys),
        None => {
            let empty: Vec<String> = Vec::new();
            assert(views(empty@) =~= Seq::<Seq<char>>::empty());
            empty
        },
    }
}

/// The probe paths of a contract hold the concrete form of every key, each
/// exactly once, and nothing else.
#[verifier::rlimit(40)]
pub proof fn law_openapi_paths_are_deduplicated(keys: Seq<Seq<char>>)
    ensures
        dedup_concrete(keys).no_duplicates(),
        forall|i: int|
            0 <= i < keys.len() ==> dedup_concrete(keys).contains(concretize_spec(#[trigger] keys[i])),
        forall|j: int|
            0 <= j < dedup_concrete(keys).len() ==> exists|i: int|
                0 <= i < keys.len() && #[trigger] dedup_concrete(keys)[j] == concretize_spec(keys[i]),
    decreases keys.len(),
{
    if keys.len() > 0 {
        let init = keys.drop_last();
        law_openapi_paths_are_deduplicated(init);
        let prev = dedup_concrete(init);
        let c = concretize_spec(keys.last());
        assert forall|i: int| 0 <= i < keys.len() implies dedup_concrete(keys).contains(
            concretize_spec(#[trigger] keys[i]),
        ) by {
            if i < keys.len() - 1 {
                assert(keys[i] == init[i]);
                let k = choose|k: int| 0 <= k < prev.len() && prev[k] == concretize_spec(init[i]);
                if !prev.contains(c) {
                    assert(prev.push(c)[k] == prev[k]);
                }
            } else {
                if !prev.contains(c) {
                    assert(prev.push(c)[prev.len() as int] == c);
                }
            }
        }
        assert forall|j: int| 0 <= j < dedup_concrete(keys).len() implies exists|i: int|
            0 <= i < keys.len() && #[trigger] dedup_concrete(keys)[j] == concretize_spec(keys[i]) by {
            if j < prev.len() {
                let i = choose|i: int| 0 <= i < init.len() && prev[j] == concretize_spec(init[i]);
                assert(init[i] == keys[i]);
                if !prev.contains(c) {
                    assert(prev.push(c)[j] == prev[j]);
                }
            } else {
                assert(keys[keys.len() - 1] == keys.last());
            }
        }
        if !prev.contains(c) {
            assert forall|a: int, b: int|
                0 <= a < prev.push(c).len() && 0 <= b < prev.push(c).len() && a != b implies prev.push(
                c,
            )[a] != prev.push(c)[b] by {
                if a < prev.len() && b < prev.len() {
                } else if a == prev.len() {
                    assert(prev.push(c)[b] == prev[b]);
                } else {
                    assert(prev.push(c)[a] == prev[a]);
                }
            }
        }
    }
}

/// Whether a `package.json` text declares the script `script`.
pub open spec fn has_script_spec(package_json: Seq<char>, script: Seq<char>) -> bool {
    match json_member_keys(package_json, "scripts"@) {
        Some(keys) => keys.contains(script),
        None => false,
    }
}

/// Whether the `package.json` text declares a given script.
pub fn package_json_has_script(package_json: &str, script: &str) -> (r: bool)
    ensures
        r == has_script_spec(package_json@, script@),
{
    match member_object_keys(package_json, "scripts") {
        Some(keys) => contains_string(&keys, script),
        None => false,
    }
}

/// The e2e command for a workspace, from its `package.json` text (if it
/// could be read) and the names of the files at its root: an explicit
/// `test:e2e` script first, then a Playwright config, then a Cypress config.
pub open spec fn e2e_command_spec(package_json: Option<Seq<char>>, files: Seq<Seq<char>>) -> Option<
    Seq<char>,
> {
    if package_json matches Some(pj) && has_script_spec(pj, "test:e2e"@) {
        Some("npm run test:e2e"@)
    } else if files.contains("playwright.config.ts"@) || files.contains("playwright.config.js"@)
        || files.contains("playwright.config.mjs"@) {
        Some("npx playwright test"@)
    } else if files.contains("cypress.config.ts"@) || files.contains("cypress.config.js"@) {
        Some("npx cypress run"@)
    } else {
        None
    }
}

/// How the e2e command is chosen: an explicit `test:e2e` script wins; else
/// any of `playwright.config.ts`, `playwright.config.js` or
/// `playwright.config.mjs` at the root runs Playwright; else
/// `cypress.config.ts` or `cypress.config.js` runs Cypress; else there is no
/// e2e suite.
pub proof fn law_e2e_command_choice(package_json: Option<Seq<char>>, files: Seq<Seq<char>>)
    ensures
        (package_json matches Some(pj) && has_script_spec(pj, "test:e2e"@)) ==> e2e_command_spec(
            package_json,
            files,
        ) == Some("npm run test:e2e"@),
        !(package_json matches Some(pj) && has_script_spec(pj, "test:e2e"@)) ==> {
            &&& files.contains("playwright.config.ts"@) ==> e2e_command_spec(package_json, files)
                == Some("npx playwright test"@)
            &&& files.contains("playwright.config.js"@) ==> e2e_command_spec(package_json, files)
                == Some("npx playwright test"@)
            &&& files.contains("playwright.config.mjs"@) ==> e2e_command_spec(package_json, files)
                == Some("npx playwright test"@)
            &&& !files.contains("playwright.config.ts"@) && !files.contains("playwright.config.js"@)
                && !files.contains("playwright.config.mjs"@) ==> {
                &&& files.contains("cypress.config.ts"@) ==> e2e_command_spec(package_json, files)
                    == Some("npx cypress run"@)
                &&& files.contains("cypress.config.js"@) ==> e2e_command_spec(package_json, files)
                    == Some("npx cypress run"@)
                &&& !files.contains("cypress.config.ts"@) && !files.contains("cypress.config.js"@)
                    ==> e2e_command_spec(package_json, files) is None
            }
        },
{
}

/// Decides the e2e command for a workspace, or `None` when no e2e setup is
/// found. `root_files` names the regular files at the workspace root.
pub fn detect_e2e_command(package_json: Option<&str>, root_files: &Vec<String>) -> (r: Option<
    String,
>)
    ensures
        opt_view(r) == e2e_command_spec(
            match package_json {
                Some(p) => Some(p@),
                None => None,
            },
            views(root_files@),
        ),
{
    if let Some(pj) = package_json {
        if package_json_has_script(pj, "test:e2e") {
            return Some(string_of("npm run test:e2e"));
        }
    }
    if contains_string(root_files, "playwright.config.ts") || contains_string(
        root_files,
        "playwright.config.js",
    ) || contains_string(root_files, "playwright.config.mjs") {
        return Some(string_of("npx playwright test"));
    }
    if contains_string(root_files, "cypress.config.ts") || contains_string(
        root_files,
        "cypress.config.js",
    ) {
        return Some(string_of("npx cypress run"));
    }
    None
}

/// How an e2e run ended: it finished (with its exit verdict and its combined
/// stdout + stderr), its runner could not be spawned (with the error text),
/// or it ran out of time.
pub enum E2eOutcome {
    Finished { passed: bool, output: String },
    SpawnFailed(String),
    TimedOut,
}

/// How the e2e step went: the command run, how it ended, and how long it
/// took in milliseconds.
pub struct E2eRun {
    pub command: String,
    pub outcome: E2eOutcome,
    pub ms: u64,
}

/// `r` is the e2e record for `command` that ran for `ms` milliseconds with
/// `outcome`.
pub open spec fn e2e_record(command: String, outcome: E2eOutcome, ms: u64, r: E2eResult) -> bool {
    &&& r.command == command
    &&& r.ms == ms
    &&& match outcome {
        E2eOutcome::Finished { passed, output } => r.passed == passed && r.output@
            == truncate_spec(output@, CAPTURE_CAP as nat),
        E2eOutcome::SpawnFailed(e) => !r.passed && r.output@ == "failed to spawn e2e runner: "@
            + e@,
        E2eOutcome::TimedOut => !r.passed && r.output@ == "e2e timed out after "@ + decimal(
            E2E_TIMEOUT_SECS as nat,
        ) + "s"@,
    }
}

/// The e2e record for `command` that ran for `ms` milliseconds with `outcome`:
/// captured output is capped at [`CAPTURE_CAP`] bytes; a spawn failure or a
/// timeout is a failed run with a one-line explanation.
pub fn e2e_result(command: String, outcome: E2eOutcome, ms: u64) -> (r: E2eResult)
    ensures
        e2e_record(command, outcome, ms, r),
{
    match outcome {
        E2eOutcome::Finished { passed, output } => {
            let mut out = output;
            truncate(&mut out, CAPTURE_CAP);
            E2eResult { command, passed, ms, output: out }
        },
        E2eOutcome::SpawnFailed(e) => {
            let mut out = String::from_str("failed to spawn e2e runner: ");
            out.append(e.as_str());
            E2eResult { command, passed: false, ms, output: out }
        },
        E2eOutcome::TimedOut => {
            let mut out = String::from_str("e2e timed out after ");
            push_decimal(&mut out, E2E_TIMEOUT_SECS);
            out.append("s");
            E2eResult { command, passed: false, ms, output: out }
        },
    }
}

/// Whether a readiness poll that started `elapsed_ms` milliseconds ago is
/// still inside a budget of `budget_secs` seconds.
pub fn within_budget(elapsed_ms: u64, budget_secs: u64) -> (b: bool)
    ensures
        b == (elapsed_ms < budget_secs * 1000),
{
    elapsed_ms / 1000 < budget_secs
}

// ---------------------------------------------------------------------------
// The run
// ---------------------------------------------------------------------------

/// A finished run holds an honest record: `Verified` only when the server
/// answered and at least one route was probed, and a "not verified" record
/// with no route or e2e results. Every [`RuntimeRun`] is consistent, so
/// this holds of every run that finished, whatever the outside work
/// reported.
pub proof fn law_finished_run_is_honest(run: RunState)
    requires
        run.wf(),
        run.phase == RunPhase::Done,
    ensures
        run.proof is Some,
        honest(run.proof->0),
        run.action_spec(RunAction::Finish),
{
}

/// A fresh "not verified" record is honest.
pub proof fn law_not_verified_is_honest(p: RuntimeProof, reason: Seq<char>, stamp: Seq<char>)
    requires
        is_fresh_not_verified(p, reason, stamp),
    ensures
        honest(p),
{
}

/// A dev server detected in a workspace: its label, the command that starts
/// it, and the URL it serves by default.
#[derive(Debug, Clone, PartialEq, Eq)]
pub struct DevServer {
    pub label: String,
    pub command: String,
    pub default_url: String,
}

/// Where a runtime-proof run stands.
#[derive(Debug, Clone, Copy, PartialEq, Eq)]
pub enum RunPhase {
    /// Asking whether `curl` is on PATH.
    CheckingCurl,
    /// Asking for the workspace's dev server.
    Detecting,
    /// Starting the dev server.
    Spawning,
    /// Polling the base URL until it answers.
    WaitingReady,
    /// Reading the contract's route paths.
    ReadingContract,
    /// Probing the routes one by one.
    Probing,
    /// Running the optional e2e suite.
    RunningE2e,
    /// Stopping the dev server.
    Stopping,
    /// Finished: the proof is final.
    Done,
}

/// What the outside work reported for the step the run asked for.
pub enum RunEvent {
    /// Whether `curl` is on PATH.
    CurlChecked(bool),
    /// The detected dev server, if any.
    DevServerDetected(Option<DevServer>),
    /// The dev server could not be started; the error text.
    SpawnFailed(String),
    /// The dev server process started.
    Spawned,
    /// Milliseconds until the base URL answered, or `None` on timeout.
    ReadyAfter(Option<u64>),
    /// The route paths of the workspace's contract (empty without one).
    ContractPaths(Vec<String>),
    /// What curl reported for the route probed, and how long it took.
    RouteAnswered { status: Option<u16>, ms: u64 },
    /// How the e2e suite ran, `None` when no suite was found.
    E2eFinished(Option<E2eRun>),
    /// The dev server was stopped.
    Stopped,
}

/// The step the run asks the outside world to perform next.
#[derive(Debug, PartialEq, Eq)]
pub enum RunAction {
    /// Report whether `curl` is on PATH.
    CheckCurl,
    /// Detect the workspace's dev server.
    DetectDevServer,
    /// Start `program` with `args` in the workspace.
    SpawnDevServer { program: String, args: Vec<String> },
    /// Poll `base_url` until it answers or `budget_secs` pass.
    WaitUntilReady { base_url: String, budget_secs: u64 },
    /// Read the contract's route paths.
    ReadContractPaths,
    /// Probe `path` under `base_url`.
    ProbeRoute { base_url: String, path: String },
    /// Detect and run the e2e suite, if any.
    RunE2e,
    /// Kill the dev server; with `wait`, also wait for it to exit.
    StopDevServer { wait: bool },
    /// Nothing more: the proof is final.
    Finish,
}

/// A runtime-proof run: the decisions of the runtime check as a state
/// machine. Start with [`RuntimeRun::new`], perform [`RuntimeRun::action`],
/// report its outcome to [`RuntimeRun::advance`], until the action is
/// `Finish`; [`RuntimeRun::into_proof`] then gives the record. A run is
/// always consistent ([`RunState::wf`]).
pub struct RuntimeRun {
    phase: RunPhase,
    dev: Option<DevServer>,
    proof: Option<RuntimeProof>,
    probe_paths: Vec<String>,
}

/// What a run holds: the phase it is in, the dev server it found, the record
/// built so far and the route paths it probes.
pub struct RunState {
    pub phase: RunPhase,
    pub dev: Option<DevServer>,
    pub proof: Option<RuntimeProof>,
    pub probe_paths: Vec<String>,
}

impl View for RuntimeRun {
    type V = RunState;

    closed spec fn view(&self) -> RunState {
        RunState {
            phase: self.phase,
            dev: self.dev,
            proof: self.proof,
            probe_paths: self.probe_paths,
        }
    }
}

/// The proof records the detected dev server.
pub open spec fn records_dev(p: RuntimeProof, d: DevServer) -> bool {
    &&& opt_view(p.dev_server) == Some(d.label@)
    &&& opt_view(p.command) == Some(d.command@)
    &&& opt_view(p.base_url) == Some(d.default_url@)
}

/// The proof is a fresh "not verified" record with this reason and time.
pub open spec fn is_fresh_not_verified(p: RuntimeProof, reason: Seq<char>, stamp: Seq<char>) -> bool {
    &&& p.timestamp@ == stamp
    &&& p.status matches RuntimeStatus::NotVerified(r) && r@ == reason
    &&& p.dev_server is None
    &&& p.command is None
    &&& p.base_url is None
    &&& p.ready_ms is None
    &&& p.routes@.len() == 0
    &&& p.e2e is None
}

/// A finished record is honest: `Verified` only after the base URL answered
/// and at least one route was probed; a "not verified" record carries no
/// probe or e2e results.
pub open spec fn honest(p: RuntimeProof) -> bool {
    &&& p.status is Verified ==> p.ready_ms is Some && p.base_url is Some && p.routes@.len() >= 1
    &&& p.status is NotVerified ==> p.routes@.len() == 0 && p.e2e is None
}

/// The record being built once the server answered.
pub open spec fn verified_so_far(run: RunState) -> bool {
    &&& run.dev is Some
    &&& run.proof is Some
    &&& run.proof->0.status is Verified
    &&& run.proof->0.ready_ms is Some
    &&& records_dev(run.proof->0, run.dev->0)
}

/// The order in which a run passes its phases.
pub open spec fn phase_rank(p: RunPhase) -> nat {
    match p {
        RunPhase::CheckingCurl => 0,
        RunPhase::Detecting => 1,
        RunPhase::Spawning => 2,
        RunPhase::WaitingReady => 3,
        RunPhase::ReadingContract => 4,
        RunPhase::Probing => 5,
        RunPhase::RunningE2e => 6,
        RunPhase::Stopping => 7,
        RunPhase::Done => 8,
    }
}

/// `event` is an outcome of the step that `phase` asks for.
pub open spec fn answers(phase: RunPhase, event: RunEvent) -> bool {
    match (phase, event) {
        (RunPhase::CheckingCurl, RunEvent::CurlChecked(_)) => true,
        (RunPhase::Detecting, RunEvent::DevServerDetected(_)) => true,
        (RunPhase::Spawning, RunEvent::SpawnFailed(_)) => true,
        (RunPhase::Spawning, RunEvent::Spawned) => true,
        (RunPhase::WaitingReady, RunEvent::ReadyAfter(_)) => true,
        (RunPhase::ReadingContract, RunEvent::ContractPaths(_)) => true,
        (RunPhase::Probing, RunEvent::RouteAnswered { .. }) => true,
        (RunPhase::RunningE2e, RunEvent::E2eFinished(_)) => true,
        (RunPhase::Stopping, RunEvent::Stopped) => true,
        _ => false,
    }
}

/// `t` is further along than `s`: a later phase, or one more route probed.
pub open spec fn progressed(s: RunState, t: RunState) -> bool {
    ||| phase_rank(t.phase) > phase_rank(s.phase)
    ||| s.phase == RunPhase::Probing && t.phase == RunPhase::Probing && t.proof->0.routes@.len()
        > s.proof->0.routes@.len()
}

impl RunState {
    /// The run is in a consistent state.
    pub open spec fn wf(self) -> bool {
        match self.phase {
            RunPhase::CheckingCurl | RunPhase::Detecting => self.dev is None && self.proof is None,
            RunPhase::Spawning | RunPhase::WaitingReady => self.dev is Some && self.proof is None,
            RunPhase::ReadingContract => verified_so_far(self) && self.proof->0.routes@.len() == 0
                && self.proof->0.e2e is None,
            RunPhase::Probing => verified_so_far(self) && self.proof->0.routes@.len()
                < self.probe_paths@.len() && self.proof->0.e2e is None,
            RunPhase::RunningE2e => verified_so_far(self) && self.proof->0.routes@.len()
                == self.probe_paths@.len() && self.probe_paths@.len() >= 1
                && self.proof->0.e2e is None,
            RunPhase::Stopping | RunPhase::Done => self.proof is Some && honest(self.proof->0),
        }
    }

    /// The step the run expects next, as a function of its state.
    pub open spec fn action_spec(self, a: RunAction) -> bool {
        match self.phase {
            RunPhase::CheckingCurl => a == RunAction::CheckCurl,
            RunPhase::Detecting => a == RunAction::DetectDevServer,
            RunPhase::Spawning => a matches RunAction::SpawnDevServer { program, args } && program@
                == split_command_spec(self.dev->0.command@).0 && views(args@)
                == split_command_spec(self.dev->0.command@).1,
            RunPhase::WaitingReady => a matches RunAction::WaitUntilReady { base_url, budget_secs }
                && base_url@ == self.dev->0.default_url@ && budget_secs == READY_TIMEOUT_SECS,
            RunPhase::ReadingContract => a == RunAction::ReadContractPaths,
            RunPhase::Probing => a matches RunAction::ProbeRoute { base_url, path } && base_url@
                == self.dev->0.default_url@ && path
                == self.probe_paths@[self.proof->0.routes@.len() as int],
            RunPhase::RunningE2e => a == RunAction::RunE2e,
            RunPhase::Stopping => a == RunAction::StopDevServer {
                wait: self.proof->0.status is Verified,
            },
            RunPhase::Done => a == RunAction::Finish,
        }
    }

    /// How `event` moves the run from `self` to `t`. An event that does not
    /// answer the pending step leaves the run unchanged.
    pub open spec fn advance_spec(self, event: RunEvent, stamp: Seq<char>, t: RunState) -> bool {
        match (self.phase, event) {
            (RunPhase::CheckingCurl, RunEvent::CurlChecked(found)) => if found {
                t.phase == RunPhase::Detecting && t.dev is None && t.proof is None
            } else {
                t.phase == RunPhase::Done && t.proof is Some && is_fresh_not_verified(
                    t.proof->0,
                    "curl not found on PATH"@,
                    stamp,
                )
            },
            (RunPhase::Detecting, RunEvent::DevServerDetected(found)) => match found {
                Some(d) => t.phase == RunPhase::Spawning && t.dev == Some(d) && t.proof is None,
                None => t.phase == RunPhase::Done && t.proof is Some && is_fresh_not_verified(
                    t.proof->0,
                    "no dev server detected"@,
                    stamp,
                ),
            },
            (RunPhase::Spawning, RunEvent::SpawnFailed(err)) => {
                &&& t.phase == RunPhase::Done
                &&& t.proof is Some
                &&& t.proof->0.status matches RuntimeStatus::NotVerified(r) && r@
                    == "failed to start dev server: "@ + err@
                &&& t.proof->0.timestamp@ == stamp
                &&& records_dev(t.proof->0, self.dev->0)
                &&& t.proof->0.ready_ms is None
                &&& t.proof->0.routes@.len() == 0
                &&& t.proof->0.e2e is None
            },
            (RunPhase::Spawning, RunEvent::Spawned) => t.phase == RunPhase::WaitingReady && t.dev
                == self.dev && t.proof is None,
            (RunPhase::WaitingReady, RunEvent::ReadyAfter(ready)) => {
                &&& t.proof is Some
                &&& t.proof->0.timestamp@ == stamp
                &&& records_dev(t.proof->0, self.dev->0)
                &&& t.proof->0.ready_ms == ready
                &&& t.proof->0.routes@.len() == 0
                &&& t.proof->0.e2e is None
                &&& match ready {
                    Some(_) => t.phase == RunPhase::ReadingContract && t.dev == self.dev
                        && t.proof->0.status is Verified,
                    None => {
                        &&& t.phase == RunPhase::Stopping
                        &&& t.proof->0.status matches RuntimeStatus::NotVerified(r) && r@
                            == "server did not become ready within "@ + decimal(
                            READY_TIMEOUT_SECS as nat,
                        ) + "s"@
                    },
                }
            },
            (RunPhase::ReadingContract, RunEvent::ContractPaths(paths)) => {
                &&& t.phase == RunPhase::Probing
                &&& t.dev == self.dev
                &&& t.proof == self.proof
                &&& views(t.probe_paths@) == (if paths@.len() == 0 {
                    seq!["/"@]
                } else {
                    views(paths@)
                })
            },
            (RunPhase::Probing, RunEvent::RouteAnswered { status, ms }) => {
                let p = self.proof->0;
                let q = t.proof->0;
                let k = p.routes@.len();
                let probe = q.routes@.last();
                &&& t.proof is Some
                &&& q.routes@.len() == k + 1
                &&& q.routes@.drop_last() == p.routes@
                &&& probe.path == self.probe_paths@[k as int]
                &&& probe.status == (match status {
                    Some(c) => c,
                    None => 0,
                })
                &&& probe.ms == ms
                &&& probe.ok == (probe.status != 0 && probe.status < 400)
                &&& q.timestamp == p.timestamp
                &&& q.status == p.status
                &&& q.dev_server == p.dev_server
                &&& q.command == p.command
                &&& q.base_url == p.base_url
                &&& q.ready_ms == p.ready_ms
                &&& q.e2e == p.e2e
                &&& t.dev == self.dev
                &&& t.probe_paths == self.probe_paths
                &&& t.phase == (if k + 1 < self.probe_paths@.len() {
                    RunPhase::Probing
                } else {
                    RunPhase::RunningE2e
                })
            },
            (RunPhase::RunningE2e, RunEvent::E2eFinished(e2e)) => {
                let p = self.proof->0;
                let q = t.proof->0;
                &&& t.phase == RunPhase::Stopping
                &&& t.proof is Some
                &&& match e2e {
                    Some(x) => q.e2e matches Some(r) && e2e_record(x.command, x.outcome, x.ms, r),
                    None => q.e2e is None,
                }
                &&& q.timestamp == p.timestamp
                &&& q.status == p.status
                &&& q.dev_server == p.dev_server
                &&& q.command == p.command
                &&& q.base_url == p.base_url
                &&& q.ready_ms == p.ready_ms
                &&& q.routes == p.routes
            },
            (RunPhase::Stopping, RunEvent::Stopped) => t.phase == RunPhase::Done && t.proof
                == self.proof,
            _ => t == self,
        }
    }
}

impl RuntimeRun {
    #[verifier::type_invariant]
    spec fn consistent(self) -> bool {
        self@.wf()
    }

    /// A run that has not started.
    pub fn new() -> (r: RuntimeRun)
        ensures
            r@.phase == RunPhase::CheckingCurl,
            r@.dev is None,
            r@.proof is None,
            r@.probe_paths@.len() == 0,
            r@.wf(),
    {
        RuntimeRun { phase: RunPhase::CheckingCurl, dev: None, proof: None, probe_paths: Vec::new() }
    }

    /// The step to perform next.
    pub fn action(&self) -> (a: RunAction)
        ensures
            self@.action_spec(a),
    {
        proof {
            use_type_invariant(self);
        }
        match self.phase {
            RunPhase::CheckingCurl => RunAction::CheckCurl,
            RunPhase::Detecting => RunAction::DetectDevServer,
            RunPhase::Spawning => {
                let d = self.dev.as_ref().unwrap();
                let (program, args) = split_command(d.command.as_str());
                RunAction::SpawnDevServer { program, args }
            },
            RunPhase::WaitingReady => {
                let d = self.dev.as_ref().unwrap();
                RunAction::WaitUntilReady {
                    base_url: d.default_url.clone(),
                    budget_secs: READY_TIMEOUT_SECS,
                }
            },
            RunPhase::ReadingContract => RunAction::ReadContractPaths,
            RunPhase::Probing => {
                let d = self.dev.as_ref().unwrap();
                let p = self.proof.as_ref().unwrap();
                let k = p.routes.len();
                RunAction::ProbeRoute {
                    base_url: d.default_url.clone(),
                    path: self.probe_paths[k].clone(),
                }
            },
            RunPhase::RunningE2e => RunAction::RunE2e,
            RunPhase::Stopping => {
                let p = self.proof.as_ref().unwrap();
                RunAction::StopDevServer { wait: p.status.is_verified() }
            },
            RunPhase::Done => RunAction::Finish,
        }
    }

    /// The phase the run is in.
    pub fn phase(&self) -> (p: RunPhase)
        ensures
            p == self@.phase,
    {
        self.phase
    }

    /// The record the run holds: final once the action is `Finish`.
    pub fn into_proof(self) -> (p: Option<RuntimeProof>)
        ensures
            p == self@.proof,
    {
        self.proof
    }

    /// The run after the outside work reported `event` for the pending step;
    /// a record this step makes carries `stamp` as the time it was made.
    #[verifier::rlimit(40)]
    pub fn advance(self, event: RunEvent, stamp: String) -> (t: RuntimeRun)
        ensures
            self@.advance_spec(event, stamp@, t@),
            t@.wf(),
            answers(self@.phase, event) ==> progressed(self@, t@),
    {
        proof {
            use_type_invariant(&self);
        }
        let RuntimeRun { phase, dev, proof, probe_paths } = self;
        match (phase, event) {
            (RunPhase::CheckingCurl, RunEvent::CurlChecked(found)) => {
                if found {
                    RuntimeRun { phase: RunPhase::Detecting, dev: None, proof: None, probe_paths }
                } else {
                    let p = RuntimeProof::not_verified(
                        String::from_str("curl not found on PATH"),
                        stamp,
                    );
                    RuntimeRun { phase: RunPhase::Done, dev, proof: Some(p), probe_paths }
                }
            },
            (RunPhase::Detecting, RunEvent::DevServerDetected(found)) => match found {
                Some(d) => RuntimeRun { phase: RunPhase::Spawning, dev: Some(d), proof: None, probe_paths },
                None => {
                    let p = RuntimeProof::not_verified(
                        String::from_str("no dev server detected"),
                        stamp,
                    );
                    RuntimeRun { phase: RunPhase::Done, dev, proof: Some(p), probe_paths }
                },
            },
            (RunPhase::Spawning, RunEvent::SpawnFailed(err)) => {
                let d = dev.unwrap();
                let mut reason = String::from_str("failed to start dev server: ");
                reason.append(err.as_str());
                let mut p = RuntimeProof::not_verified(reason, stamp);
                p.dev_server = Some(d.label);
                p.command = Some(d.command);
                p.base_url = Some(d.default_url);
                RuntimeRun { phase: RunPhase::Done, dev: None, proof: Some(p), probe_paths }
            },
            (RunPhase::Spawning, RunEvent::Spawned) => {
                RuntimeRun { phase: RunPhase::WaitingReady, dev, proof: None, probe_paths }
            },
            (RunPhase::WaitingReady, RunEvent::ReadyAfter(ready)) => {
                let d = dev.unwrap();
                let (status, next) = match ready {
                    Some(_) => (RuntimeStatus::Verified, RunPhase::ReadingContract),
                    None => {
                        let mut reason = String::from_str("server did not become ready within ");
                        push_decimal(&mut reason, READY_TIMEOUT_SECS);
                        reason.append("s");
                        (RuntimeStatus::NotVerified(reason), RunPhase::Stopping)
                    },
                };
                let p = RuntimeProof {
                    timestamp: stamp,
                    status,
                    dev_server: Some(d.label.clone()),
                    command: Some(d.command.clone()),
                    base_url: Some(d.default_url.clone()),
                    ready_ms: ready,
                    routes: Vec::new(),
                    e2e: None,
                };
                RuntimeRun { phase: next, dev: Some(d), proof: Some(p), probe_paths }
            },
            (RunPhase::ReadingContract, RunEvent::ContractPaths(paths)) => {
                let chosen = if paths.len() == 0 {
                    let mut root: Vec<String> = Vec::new();
                    root.push(String::from_str("/"));
                    assert(views(root@) =~= seq!["/"@]);
                    root
                } else {
                    paths
                };
                RuntimeRun { phase: RunPhase::Probing, dev, proof, probe_paths: chosen }
            },
            (RunPhase::Probing, RunEvent::RouteAnswered { status, ms }) => {
                let mut p = proof.unwrap();
                let k = p.routes.len();
                let total = probe_paths.len();
                assert(k < total);
                let ghost before = p.routes@;
                let probe = route_probe(probe_paths[k].clone(), status, ms);
                p.routes.push(probe);
                assert(p.routes@.drop_last() =~= before);
                let next = if k + 1 < total {
                    RunPhase::Probing
                } else {
                    RunPhase::RunningE2e
                };
                RuntimeRun { phase: next, dev, proof: Some(p), probe_paths }
            },
            (RunPhase::RunningE2e, RunEvent::E2eFinished(e2e)) => {
                let mut p = proof.unwrap();
                p.e2e = match e2e {
                    Some(x) => Some(e2e_result(x.command, x.outcome, x.ms)),
                    None => None,
                };
                RuntimeRun { phase: RunPhase::Stopping, dev, proof: Some(p), probe_paths }
            },
            (RunPhase::Stopping, RunEvent::Stopped) => {
                RuntimeRun { phase: RunPhase::Done, dev, proof, probe_paths }
            },
            (phase, _) => RuntimeRun { phase, dev, proof, probe_paths },
        }
    }
}

// ---------------------------------------------------------------------------
// Whole runs
// ---------------------------------------------------------------------------

/// Each route answer is recorded as one more route: the path asked for, the
/// status curl reported (`0` with no response), the time it took, and `ok`
/// exactly when curl got a non-zero status below 400; everything else in the
/// record stays as it was.
pub proof fn law_route_answer_recorded(
    s: RunState,
    status: Option<u16>,
    ms: u64,
    stamp: Seq<char>,
    t: RunState,
)
    requires
        s.wf(),
        s.phase == RunPhase::Probing,
        s.advance_spec(RunEvent::RouteAnswered { status, ms }, stamp, t),
    ensures
        ({
            let before = s.proof->0;
            let after = t.proof->0;
            let k = before.routes@.len();
            let code: int = match status {
                Some(c) => c as int,
                None => 0,
            };
            let r = after.routes@[k as int];
            &&& t.proof is Some
            &&& after.routes@.len() == k + 1
            &&& after.routes@.take(k as int) == before.routes@
            &&& r.path@ == s.probe_paths@[k as int]@
            &&& r.status as int == code
            &&& r.ms == ms
            &&& r.ok == (0 < code && code < 400)
            &&& after.status == before.status
            &&& after.ready_ms == before.ready_ms
            &&& after.timestamp == before.timestamp
        }),
{
    let before = s.proof->0;
    let after = t.proof->0;
    let k = before.routes@.len();
    assert(after.routes@.drop_last() =~= after.routes@.take(k as int));
    assert(after.routes@.last() == after.routes@[k as int]);
}

/// `runs` is a run from its start: it begins where [`RuntimeRun::new`]
/// leaves it, every state is consistent, and each next state is what
/// [`RuntimeRun::advance`] makes of the one before for `events[i]` and
/// `stamps[i]`.
pub open spec fn is_run_trace(
    runs: Seq<RunState>,
    events: Seq<RunEvent>,
    stamps: Seq<Seq<char>>,
) -> bool {
    &&& runs.len() == events.len() + 1
    &&& stamps.len() == events.len()
    &&& runs[0].phase == RunPhase::CheckingCurl
    &&& forall|i: int| 0 <= i < runs.len() ==> (#[trigger] runs[i]).wf()
    &&& forall|i: int|
        #![trigger events[i]]
        0 <= i < events.len() ==> runs[i].advance_spec(events[i], stamps[i], runs[i + 1])
}

/// The paths a run probes for the contract paths `ps`: `ps`, or `/` alone
/// when there are none.
pub open spec fn probe_targets(ps: Seq<Seq<char>>) -> Seq<Seq<char>> {
    if ps.len() == 0 {
        seq!["/"@]
    } else {
        ps
    }
}

/// The paths of the probed routes, in order.
pub open spec fn route_paths(routes: Seq<RouteProbe>) -> Seq<Seq<char>> {
    routes.map_values(|r: RouteProbe| r.path@)
}

/// At step `i` of the run the contract's route paths were read, as `ps`.
pub open spec fn contract_read_at(
    runs: Seq<RunState>,
    events: Seq<RunEvent>,
    i: int,
    ps: Seq<Seq<char>>,
) -> bool {
    &&& 0 <= i < events.len()
    &&& runs[i].phase == RunPhase::ReadingContract
    &&& events[i] matches RunEvent::ContractPaths(c) && views(c@) == ps
}

/// What holds at step `k` of a run: the record says "verified" exactly when
/// it has a ready time, and once the contract was read the routes probed so
/// far follow the paths read.
spec fn trace_inv(runs: Seq<RunState>, events: Seq<RunEvent>, k: int) -> bool {
    let r = runs[k];
    let p = r.proof->0;
    &&& r.proof is Some ==> (p.status is Verified <==> p.ready_ms is Some)
    &&& (r.phase == RunPhase::Probing || r.phase == RunPhase::RunningE2e) ==> {
        &&& exists|i: int, ps: Seq<Seq<char>>|
            #[trigger] contract_read_at(runs, events, i, ps) && i < k && views(r.probe_paths@)
                == probe_targets(ps)
        &&& route_paths(p.routes@) == views(r.probe_paths@).take(p.routes@.len() as int)
    }
    &&& ((r.phase == RunPhase::Stopping || r.phase == RunPhase::Done) && p.status is Verified)
        ==> exists|i: int, ps: Seq<Seq<char>>|
        #[trigger] contract_read_at(runs, events, i, ps) && i < k && route_paths(p.routes@)
            == probe_targets(ps)
}

#[verifier::rlimit(80)]
proof fn lemma_trace_inv(
    runs: Seq<RunState>,
    events: Seq<RunEvent>,
    stamps: Seq<Seq<char>>,
    k: int,
)
    requires
        is_run_trace(runs, events, stamps),
        0 <= k < runs.len(),
    ensures
        trace_inv(runs, events, k),
    decreases k,
{
    if k > 0 {
        lemma_trace_inv(runs, events, stamps, k - 1);
        let s = runs[k - 1];
        let t = runs[k];
        let e = events[k - 1];
        assert(s.advance_spec(e, stamps[k - 1], t));
        assert(s.wf());
        assert(t.wf());
        let p = s.proof->0;
        let q = t.proof->0;
        match (s.phase, e) {
            (RunPhase::ReadingContract, RunEvent::ContractPaths(c)) => {
                assert(contract_read_at(runs, events, k - 1, views(c@)));
                assert(views(c@).len() == c@.len());
                assert(route_paths(q.routes@) =~= views(t.probe_paths@).take(0));
            },
            (RunPhase::Probing, RunEvent::RouteAnswered { status, ms }) => {
                let (i, ps) = choose|i: int, ps: Seq<Seq<char>>|
                    #[trigger] contract_read_at(runs, events, i, ps) && i < k - 1 && views(
                        s.probe_paths@,
                    ) == probe_targets(ps);
                let n = p.routes@.len() as int;
                let v = views(s.probe_paths@);
                assert(q.routes@ =~= p.routes@.push(q.routes@.last()));
                assert(route_paths(q.routes@) =~= route_paths(p.routes@).push(
                    q.routes@.last().path@,
                ));
                assert(v.take(n + 1) =~= v.take(n).push(v[n]));
                assert(contract_read_at(runs, events, i, ps));
                if t.phase == RunPhase::RunningE2e {
                    assert(v.take(n + 1) =~= v);
                }
            },
            (RunPhase::RunningE2e, RunEvent::E2eFinished(x)) => {
                let (i, ps) = choose|i: int, ps: Seq<Seq<char>>|
                    #[trigger] contract_read_at(runs, events, i, ps) && i < k - 1 && views(
                        s.probe_paths@,
                    ) == probe_targets(ps);
                let v = views(s.probe_paths@);
                assert(v.take(p.routes@.len() as int) =~= v);
                assert(contract_read_at(runs, events, i, ps));
            },
            (RunPhase::Stopping, RunEvent::Stopped) => {
                if q.status is Verified {
                    let (i, ps) = choose|i: int, ps: Seq<Seq<char>>|
                        #[trigger] contract_read_at(runs, events, i, ps) && i < k - 1
                            && route_paths(p.routes@) == probe_targets(ps);
                    assert(contract_read_at(runs, events, i, ps));
                }
            },
            _ => {
                if t == s {
                    if (t.phase == RunPhase::Probing || t.phase == RunPhase::RunningE2e) {
                        let (i, ps) = choose|i: int, ps: Seq<Seq<char>>|
                            #[trigger] contract_read_at(runs, events, i, ps) && i < k - 1
                                && views(s.probe_paths@) == probe_targets(ps);
                        assert(contract_read_at(runs, events, i, ps));
                    }
                    if (t.phase == RunPhase::Stopping || t.phase == RunPhase::Done)
                        && q.status is Verified {
                        let (i, ps) = choose|i: int, ps: Seq<Seq<char>>|
                            #[trigger] contract_read_at(runs, events, i, ps) && i < k - 1
                                && route_paths(p.routes@) == probe_targets(ps);
                        assert(contract_read_at(runs, events, i, ps));
                    }
                }
            },
        }
    }
}

/// Over a whole run that finished: the record says "verified" exactly when
/// the dev server answered (it has a ready time); a "not verified" record
/// holds no route or e2e result; a "verified" one probed, in order, exactly
/// the contract's route paths read earlier in the run, or `/` alone when
/// the contract had none.
pub proof fn law_run_probes_contract_routes(
    runs: Seq<RunState>,
    events: Seq<RunEvent>,
    stamps: Seq<Seq<char>>,
)
    requires
        is_run_trace(runs, events, stamps),
        runs.last().phase == RunPhase::Done,
    ensures
        runs.last().proof is Some,
        runs.last().proof->0.status is Verified <==> runs.last().proof->0.ready_ms is Some,
        runs.last().proof->0.status is NotVerified ==> runs.last().proof->0.routes@.len() == 0
            && runs.last().proof->0.e2e is None,
        runs.last().proof->0.status is Verified ==> exists|i: int, ps: Seq<Seq<char>>|
            #[trigger] contract_read_at(runs, events, i, ps) && route_paths(
                runs.last().proof->0.routes@,
            ) == probe_targets(ps),
{
    let k = runs.len() - 1;
    lemma_trace_inv(runs, events, stamps, k);
    assert(runs[k].wf());
}

/// The dev server has been started and not yet stopped.
pub open spec fn server_live(p: RunPhase) -> bool {
    p == RunPhase::WaitingReady || p == RunPhase::ReadingContract || p == RunPhase::Probing || p
        == RunPhase::RunningE2e
}

proof fn lemma_live_until_stopping(
    runs: Seq<RunState>,
    events: Seq<RunEvent>,
    stamps: Seq<Seq<char>>,
    i: int,
    m: int,
)
    requires
        is_run_trace(runs, events, stamps),
        0 <= i <= m < runs.len(),
        server_live(runs[i].phase),
    ensures
        server_live(runs[m].phase) || exists|j: int|
            i < j <= m && (#[trigger] runs[j]).phase == RunPhase::Stopping,
    decreases m - i,
{
    if m > i {
        lemma_live_until_stopping(runs, events, stamps, i, m - 1);
        let s = runs[m - 1];
        let t = runs[m];
        assert(s.advance_spec(events[m - 1], stamps[m - 1], t));
        if server_live(s.phase) {
            if t.phase == RunPhase::Stopping {
                assert(runs[m].phase == RunPhase::Stopping);
            }
        }
    }
}

/// A run that started its dev server stops it before it finishes: after a
/// state with the server up, a later state is `Stopping`, whose step kills
/// the server.
pub proof fn law_started_server_is_stopped(
    runs: Seq<RunState>,
    events: Seq<RunEvent>,
    stamps: Seq<Seq<char>>,
    i: int,
)
    requires
        is_run_trace(runs, events, stamps),
        0 <= i < runs.len(),
        server_live(runs[i].phase),
        runs.last().phase == RunPhase::Done,
    ensures
        exists|j: int| i < j < runs.len() && (#[trigger] runs[j]).phase == RunPhase::Stopping,
{
    lemma_live_until_stopping(runs, events, stamps, i, runs.len() - 1);
}

/// How far a run has come: its phase, and past the contract the routes it
/// probed.
pub open spec fn run_progress(r: RunState) -> nat {
    phase_rank(r.phase) + (if phase_rank(r.phase) >= 5 && r.proof is Some {
        r.proof->0.routes@.len()
    } else {
        0nat
    })
}

proof fn lemma_progress_bounds_steps(
    runs: Seq<RunState>,
    events: Seq<RunEvent>,
    stamps: Seq<Seq<char>>,
    k: int,
)
    requires
        is_run_trace(runs, events, stamps),
        forall|i: int| 0 <= i < events.len() ==> answers(runs[i].phase, #[trigger] events[i]),
        0 <= k < runs.len(),
    ensures
        k <= run_progress(runs[k]),
    decreases k,
{
    if k > 0 {
        lemma_progress_bounds_steps(runs, events, stamps, k - 1);
        let s = runs[k - 1];
        let t = runs[k];
        assert(s.advance_spec(events[k - 1], stamps[k - 1], t));
        assert(answers(s.phase, events[k - 1]));
        assert(s.wf());
        assert(t.wf());
    }
}

/// A run answered at every step is short: it takes at most eight steps
/// besides one per route probed, and it probes no more routes than the
/// paths it set out to probe. So the run always comes to an end.
pub proof fn law_answered_run_is_bounded(
    runs: Seq<RunState>,
    events: Seq<RunEvent>,
    stamps: Seq<Seq<char>>,
)
    requires
        is_run_trace(runs, events, stamps),
        forall|i: int| 0 <= i < events.len() ==> answers(runs[i].phase, #[trigger] events[i]),
    ensures
        events.len() <= 8 + (if runs.last().proof is Some {
            runs.last().proof->0.routes@.len()
        } else {
            0nat
        }),
{
    let k = runs.len() - 1;
    lemma_progress_bounds_steps(runs, events, stamps, k);
}

// ---------------------------------------------------------------------------
// Finding programs on PATH
// ---------------------------------------------------------------------------

/// One place to look for a program: a PATH directory and a file name in it,
/// with the extension that the file name ends in.
#[derive(Debug, Clone, PartialEq, Eq)]
pub struct PathCandidate {
    pub dir: String,
    pub file_name: String,
    pub ext: String,
}

/// The views of a candidate.
pub open spec fn candidate_view(c: PathCandidate) -> (Seq<char>, Seq<char>, Seq<char>) {
    (c.dir@, c.file_name@, c.ext@)
}

/// The candidates for `name` in one directory, one per extension, in order.
pub open spec fn dir_candidates(dir: Seq<char>, name: Seq<char>, exts: Seq<Seq<char>>) -> Seq<
    (Seq<char>, Seq<char>, Seq<char>),
> {
    exts.map_values(|e: Seq<char>| (dir, name + e, e))
}

/// The candidates for `name`: every directory in order, every extension in
/// order within it.
pub open spec fn all_candidates(dirs: Seq<Seq<char>>, name: Seq<char>, exts: Seq<Seq<char>>) -> Seq<
    (Seq<char>, Seq<char>, Seq<char>),
>
    decreases dirs.len(),
{
    if dirs.len() == 0 {
        Seq::empty()
    } else {
        all_candidates(dirs.drop_last(), name, exts) + dir_candidates(dirs.last(), name, exts)
    }
}

/// The directories of a PATH value: split on `;` on Windows and `:`
/// elsewhere, empty entries skipped.
pub open spec fn path_dirs_spec(path_var: Seq<char>, windows: bool) -> Seq<Seq<char>> {
    fields(path_var, Delim::Char(if windows { ';' } else { ':' }))
}

/// The extensions `which` tries: on Windows each `;`-piece of PATHEXT (or
/// of `.EXE;.BAT;.CMD;.COM` without it), elsewhere only the bare name.
pub open spec fn which_exts_spec(windows: bool, pathext: Option<Seq<char>>) -> Seq<Seq<char>> {
    if windows {
        pieces(
            match pathext {
                Some(p) => p,
                None => ".EXE;.BAT;.CMD;.COM"@,
            },
            ';',
        )
    } else {
        seq![Seq::<char>::empty()]
    }
}

/// The extensions tried when resolving a program to spawn on Windows: the
/// bare name first, then each `;`-piece of PATHEXT (or of
/// `.COM;.EXE;.BAT;.CMD` without it).
pub open spec fn spawn_exts_spec(pathext: Option<Seq<char>>) -> Seq<Seq<char>> {
    seq![Seq::<char>::empty()] + pieces(
        match pathext {
            Some(p) => p,
            None => ".COM;.EXE;.BAT;.CMD"@,
        },
        ';',
    )
}

/// Every candidate for `name` over `dirs` and `exts`.
#[verifier::rlimit(40)]
fn candidates(dirs: &Vec<String>, name: &str, exts: &Vec<String>) -> (r: Vec<PathCandidate>)
    ensures
        r@.map_values(|c: PathCandidate| candidate_view(c)) == all_candidates(
            views(dirs@),
            name@,
            views(exts@),
        ),
{
    let ghost dv = views(dirs@);
    let ghost ev = views(exts@);
    let mut out: Vec<PathCandidate> = Vec::new();
    let mut i: usize = 0;
    while i < dirs.len()
        invariant
            i <= dirs@.len(),
            dv == views(dirs@),
            ev == views(exts@),
            out@.map_values(|c: PathCandidate| candidate_view(c)) == all_candidates(
                dv.take(i as int),
                name@,
                ev,
            ),
        decreases dirs@.len() - i,
    {
        let ghost before = out@.map_values(|c: PathCandidate| candidate_view(c));
        let mut k: usize = 0;
        while k < exts.len()
            invariant
                k <= exts@.len(),
                i < dirs@.len(),
                dv == views(dirs@),
                ev == views(exts@),
                out@.map_values(|c: PathCandidate| candidate_view(c)) == before
                    + dir_candidates(dv[i as int], name@, ev.take(k as int)),
            decreases exts@.len() - k,
        {
            let mut file_name = string_of(name);
            file_name.append(exts[k].as_str());
            let c = PathCandidate {
                dir: dirs[i].clone(),
                file_name,
                ext: exts[k].clone(),
            };
            let ghost prev = out@;
            out.push(c);
            assert(out@.map_values(|c: PathCandidate| candidate_view(c)) =~= prev.map_values(
                |c: PathCandidate| candidate_view(c),
            ).push(candidate_view(c)));
            assert(dir_candidates(dv[i as int], name@, ev.take(k + 1)) =~= dir_candidates(
                dv[i as int],
                name@,
                ev.take(k as int),
            ).push((dv[i as int], name@ + ev[k as int], ev[k as int])));
            k += 1;
        }
        assert(ev.take(ev.len() as int) =~= ev);
        assert(dv.take(i + 1).drop_last() =~= dv.take(i as int));
        assert(out@.map_values(|c: PathCandidate| candidate_view(c)) =~= all_candidates(
            dv.take(i + 1),
            name@,
            ev,
        ));
        i += 1;
    }
    assert(dv.take(dv.len() as int) =~= dv);
    out
}

/// The files to look for when asking whether `bin` is on PATH, in the order
/// they are tried: none without a PATH value.
#[verifier::rlimit(40)]
pub fn which_candidates(bin: &str, path_var: Option<&str>, windows: bool, pathext: Option<&str>) -> (r:
    Vec<PathCandidate>)
    ensures
        r@.map_values(|c: PathCandidate| candidate_view(c)) == (match path_var {
            Some(p) => all_candidates(
                path_dirs_spec(p@, windows),
                bin@,
                which_exts_spec(
                    windows,
                    match pathext {
                        Some(e) => Some(e@),
                        None => None,
                    },
                ),
            ),
            None => Seq::empty(),
        }),
{
    let p = match path_var {
        Some(p) => p,
        None => {
            let none: Vec<PathCandidate> = Vec::new();
            assert(none@.map_values(|c: PathCandidate| candidate_view(c)) =~= Seq::empty());
            return none;
        },
    };
    let dirs = split_fields(p, Delim::Char(if windows { ';' } else { ':' }));
    let exts = if windows {
        match pathext {
            Some(e) => split_pieces(e, ';'),
            None => split_pieces(".EXE;.BAT;.CMD;.COM", ';'),
        }
    } else {
        let mut bare: Vec<String> = Vec::new();
        bare.push(String::new());
        assert(views(bare@) =~= seq![Seq::<char>::empty()]);
        bare
    };
    candidates(&dirs, bin, &exts)
}

/// Whether a program must be looked up on PATH before it can be spawned:
/// only on Windows, and only for a bare name (no `/` or `\`).
pub open spec fn spawn_lookup_spec(program: Seq<char>, windows: bool) -> bool {
    windows && !program.contains('/') && !program.contains('\\')
}

/// Whether `program` must be resolved on PATH before spawning it.
pub fn spawn_lookup_needed(program: &str, windows: bool) -> (b: bool)
    ensures
        b == spawn_lookup_spec(program@, windows),
{
    if !windows {
        return false;
    }
    let v = chars_of(program);
    let mut i: usize = 0;
    while i < v.len()
        invariant
            i <= v@.len(),
            v@ == program@,
            forall|j: int| 0 <= j < i ==> v@[j] != '/' && v@[j] != '\\',
        decreases v@.len() - i,
    {
        if v[i] == '/' || v[i] == '\\' {
            assert(program@.contains(v@[i as int]));
            return false;
        }
        i += 1;
    }
    true
}

/// The files to look for when resolving `program` to spawn on Windows, in
/// the order they are tried: none without a PATH value.
#[verifier::rlimit(40)]
pub fn spawn_candidates(program: &str, path_var: Option<&str>, pathext: Option<&str>) -> (r: Vec<
    PathCandidate,
>)
    ensures
        r@.map_values(|c: PathCandidate| candidate_view(c)) == (match path_var {
            Some(p) => all_candidates(
                path_dirs_spec(p@, true),
                program@,
                spawn_exts_spec(
                    match pathext {
                        Some(e) => Some(e@),
                        None => None,
                    },
                ),
            ),
            None => Seq::empty(),
        }),
{
    let p = match path_var {
        Some(p) => p,
        None => {
            let none: Vec<PathCandidate> = Vec::new();
            assert(none@.map_values(|c: PathCandidate| candidate_view(c)) =~= Seq::empty());
            return none;
        },
    };
    let dirs = split_fields(p, Delim::Char(';'));
    let listed = match pathext {
        Some(e) => split_pieces(e, ';'),
        None => split_pieces(".COM;.EXE;.BAT;.CMD", ';'),
    };
    let mut exts: Vec<String> = Vec::new();
    exts.push(String::new());
    let mut k: usize = 0;
    while k < listed.len()
        invariant
            k <= listed@.len(),
            views(exts@) == seq![Seq::<char>::empty()] + views(listed@).take(k as int),
        decreases listed@.len() - k,
    {
        let ghost prev = views(exts@);
        exts.push(listed[k].clone());
        assert(views(exts@) =~= prev.push(listed@[k as int]@));
        assert(views(listed@).take(k + 1) =~= views(listed@).take(k as int).push(listed@[k as int]@));
        k += 1;
    }
    assert(views(listed@).take(listed@.len() as int) =~= views(listed@));
    candidates(&dirs, program, &exts)
}

/// How to spawn a program found at `resolved` with extension `ext`: batch
/// files (`.cmd`, `.bat`, any ASCII case) run through `cmd /c`; anything
/// else runs directly.
pub open spec fn spawn_via_spec(resolved: Seq<char>, ext: Seq<char>) -> (Seq<char>, Seq<Seq<char>>) {
    if lower_seq(ext) == ".cmd"@ || lower_seq(ext) == ".bat"@ {
        ("cmd"@, seq!["/c"@, resolved])
    } else {
        (resolved, Seq::empty())
    }
}

/// The program and leading arguments that spawn a program found at
/// `resolved` with extension `ext`.
pub fn spawn_via(resolved: String, ext: &str) -> (r: (String, Vec<String>))
    ensures
        r.0@ == spawn_via_spec(resolved@, ext@).0,
        views(r.1@) == spawn_via_spec(resolved@, ext@).1,
{
    let low = ascii_lowercase(ext);
    if str_eq(low.as_str(), ".cmd") || str_eq(low.as_str(), ".bat") {
        let mut lead: Vec<String> = Vec::new();
        lead.push(String::from_str("/c"));
        let ghost rv = resolved@;
        lead.push(resolved);
        assert(views(lead@) =~= seq!["/c"@, rv]);
        (String::from_str("cmd"), lead)
    } else {
        let none: Vec<String> = Vec::new();
        assert(views(none@) =~= Seq::<Seq<char>>::empty());
        (resolved, none)
    }
}

} // verus!
