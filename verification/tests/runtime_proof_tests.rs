use umadev_agent::runtime_proof::{
    concretize_path, curl_status, detect_e2e_command, e2e_result, join_url,
    package_json_has_script, parse_http_code, parse_openapi_paths, route_probe,
    runtime_proof_rel_path, spawn_candidates, spawn_lookup_needed, spawn_via, split_command,
    truncate, which_candidates, within_budget, utc_timestamp, DevServer, E2eOutcome, E2eRun, RouteProbe, RunAction,
    RunEvent, RunPhase, RuntimeProof, RuntimeRun, RuntimeStatus, LAST_FOUR_DIGIT_YEAR_SECS,
    MAX_TIMESTAMP_SECS,
};

#[test]
fn parse_http_code_treats_000_as_no_response() {
    assert_eq!(parse_http_code("000"), None);
    assert_eq!(parse_http_code("0"), None);
    assert_eq!(parse_http_code("200"), Some(200));
    assert_eq!(parse_http_code("404"), Some(404));
    assert_eq!(parse_http_code("503"), Some(503));
    assert_eq!(parse_http_code(""), None);
    assert_eq!(parse_http_code("not-a-number"), None);
}

#[test]
fn join_url_handles_slashes() {
    assert_eq!(join_url("http://x:3000", "/"), "http://x:3000/");
    assert_eq!(join_url("http://x:3000/", "/api"), "http://x:3000/api");
    assert_eq!(join_url("http://x:3000", "api"), "http://x:3000/api");
    assert_eq!(join_url("http://x:3000/", ""), "http://x:3000");
    assert_eq!(
        join_url("http://x:3000", "/api/users"),
        "http://x:3000/api/users"
    );
}

#[test]
fn split_command_splits_program_and_args() {
    assert_eq!(
        split_command("npm run dev"),
        (
            "npm".to_string(),
            vec!["run".to_string(), "dev".to_string()]
        )
    );
    assert_eq!(
        split_command("python3 -m http.server 8000"),
        (
            "python3".to_string(),
            vec!["-m".into(), "http.server".into(), "8000".into()]
        )
    );
    assert_eq!(split_command(""), (String::new(), Vec::new()));
}

#[test]
fn concretize_path_substitutes_templates() {
    assert_eq!(concretize_path("/"), "/");
    assert_eq!(concretize_path("/api/users"), "/api/users");
    assert_eq!(concretize_path("/api/users/{id}"), "/api/users/1");
    assert_eq!(concretize_path("/api/users/:id"), "/api/users/1");
    assert_eq!(concretize_path("/api/{org}/repos/:repo"), "/api/1/repos/1");
}

#[test]
fn parse_openapi_paths_extracts_and_dedups() {
    let doc = r#"{
        "openapi": "3.1.0",
        "paths": {
            "/api/users": { "get": {} },
            "/api/users/{id}": { "get": {} },
            "/health": { "get": {} }
        }
    }"#;
    let paths = parse_openapi_paths(doc);
    assert!(paths.contains(&"/api/users".to_string()));
    assert!(paths.contains(&"/api/users/1".to_string()));
    assert!(paths.contains(&"/health".to_string()));
    assert_eq!(paths.len(), 3);
}

#[test]
fn parse_openapi_paths_handles_garbage_and_missing() {
    assert!(parse_openapi_paths("not json").is_empty());
    assert!(parse_openapi_paths("{}").is_empty());
    assert!(parse_openapi_paths(r#"{"paths": "not-an-object"}"#).is_empty());
    assert!(parse_openapi_paths(r#"{"paths": {}}"#).is_empty());
}

#[test]
fn detect_e2e_prefers_test_e2e_script() {
    let package_json = r#"{"scripts":{"test:e2e":"playwright test"}}"#;
    let files = vec!["package.json".to_string()];
    assert_eq!(
        detect_e2e_command(Some(package_json), &files),
        Some("npm run test:e2e".to_string())
    );
}

#[test]
fn detect_e2e_finds_playwright_config() {
    let files = vec!["playwright.config.ts".to_string()];
    assert_eq!(
        detect_e2e_command(None, &files),
        Some("npx playwright test".to_string())
    );
}

#[test]
fn detect_e2e_finds_cypress_config() {
    let files = vec!["cypress.config.js".to_string()];
    assert_eq!(
        detect_e2e_command(None, &files),
        Some("npx cypress run".to_string())
    );
}

#[test]
fn detect_e2e_none_when_absent() {
    assert!(detect_e2e_command(None, &Vec::new()).is_none());
}

#[test]
fn status_helpers() {
    assert!(RuntimeStatus::Verified.is_verified());
    assert!(!RuntimeStatus::NotVerified("x".into()).is_verified());
    assert_eq!(RuntimeStatus::Verified.as_str(), "verified");
    assert_eq!(
        RuntimeStatus::NotVerified("x".into()).as_str(),
        "not_verified"
    );
}

#[test]
fn not_verified_summary_includes_reason() {
    let p = RuntimeProof::not_verified("no dev server detected".to_string(), stamp());
    assert!(p.summary_line().contains("no dev server detected"));
    assert!(!p.status.is_verified());
    assert!(p.routes.is_empty());
    assert!(p.ready_ms.is_none());
}

#[test]
fn verified_summary_counts_ok_routes() {
    let proof = RuntimeProof {
        timestamp: "2026-06-22T00:00:00Z".into(),
        status: RuntimeStatus::Verified,
        dev_server: Some("Vite dev server".into()),
        command: Some("npm run dev".into()),
        base_url: Some("http://localhost:5173".into()),
        ready_ms: Some(1200),
        routes: vec![
            RouteProbe {
                path: "/".into(),
                status: 200,
                ms: 12,
                ok: true,
            },
            RouteProbe {
                path: "/api/users".into(),
                status: 500,
                ms: 30,
                ok: false,
            },
        ],
        e2e: None,
    };
    let line = proof.summary_line();
    assert!(line.contains("1/2 route(s) answered"), "line was: {line}");
    assert!(line.contains("http://localhost:5173"));
}

#[test]
fn run_runtime_proof_no_dev_server_is_not_verified() {
    // An empty workspace has no dev server: the run ends "not verified".
    let run = RuntimeRun::new();
    assert_eq!(run.action(), RunAction::CheckCurl);
    let run = run.advance(RunEvent::CurlChecked(true), stamp());
    assert_eq!(run.action(), RunAction::DetectDevServer);
    let run = run.advance(RunEvent::DevServerDetected(None), stamp());
    assert_eq!(run.action(), RunAction::Finish);
    let proof = run.into_proof().unwrap();
    assert!(!proof.status.is_verified());
    assert!(proof.routes.is_empty());
}

#[test]
fn probe_route_unreachable_is_status_zero() {
    // curl got no response at all: status 0, not ok.
    let probe = route_probe("/".to_string(), curl_status(false, ""), 7);
    assert_eq!(probe.status, 0);
    assert!(!probe.ok);
    assert_eq!(probe.path, "/");
}

#[test]
fn truncate_keeps_char_boundary() {
    let mut s = "做做做做做".to_string();
    truncate(&mut s, 7);
    assert!(s.ends_with("[truncated]"));
    let _ = s.as_bytes();
}

// ---------------------------------------------------------------------------

fn vite() -> DevServer {
    DevServer {
        label: "Vite dev server".to_string(),
        command: "npm run dev".to_string(),
        default_url: "http://localhost:5173".to_string(),
    }
}

#[test]
fn full_run_is_verified_and_probes_contract_routes() {
    let mut run = RuntimeRun::new();
    run = run.advance(RunEvent::CurlChecked(true), stamp());
    run = run.advance(RunEvent::DevServerDetected(Some(vite())), stamp());
    assert_eq!(
        run.action(),
        RunAction::SpawnDevServer {
            program: "npm".to_string(),
            args: vec!["run".to_string(), "dev".to_string()]
        }
    );
    run = run.advance(RunEvent::Spawned, stamp());
    assert_eq!(
        run.action(),
        RunAction::WaitUntilReady {
            base_url: "http://localhost:5173".to_string(),
            budget_secs: 60
        }
    );
    run = run.advance(RunEvent::ReadyAfter(Some(900)), stamp());
    assert_eq!(run.action(), RunAction::ReadContractPaths);
    run = run.advance(RunEvent::ContractPaths(vec![
        "/api/users".to_string(),
        "/health".to_string(),
    ]), stamp());
    assert_eq!(
        run.action(),
        RunAction::ProbeRoute {
            base_url: "http://localhost:5173".to_string(),
            path: "/api/users".to_string()
        }
    );
    run = run.advance(RunEvent::RouteAnswered { status: Some(200), ms: 5 }, stamp());
    assert_eq!(run.phase(), RunPhase::Probing);
    run = run.advance(RunEvent::RouteAnswered { status: Some(503), ms: 6 }, stamp());
    assert_eq!(run.action(), RunAction::RunE2e);
    run = run.advance(RunEvent::E2eFinished(None), stamp());
    assert_eq!(run.action(), RunAction::StopDevServer { wait: true });
    run = run.advance(RunEvent::Stopped, stamp());
    assert_eq!(run.action(), RunAction::Finish);
    let proof = run.into_proof().unwrap();
    assert!(proof.status.is_verified());
    assert_eq!(proof.ready_ms, Some(900));
    assert_eq!(proof.routes.len(), 2);
    let paths: Vec<&str> = proof.routes.iter().map(|r| r.path.as_str()).collect();
    assert_eq!(paths, vec!["/api/users", "/health"]);
    assert!(proof.routes[0].ok);
    assert!(!proof.routes[1].ok);
    assert_eq!(
        proof.summary_line(),
        "runtime verified: http://localhost:5173 ready, 1/2 route(s) answered"
    );
}

#[test]
fn run_without_contract_probes_root() {
    let mut run = RuntimeRun::new();
    run = run.advance(RunEvent::CurlChecked(true), stamp());
    run = run.advance(RunEvent::DevServerDetected(Some(vite())), stamp());
    run = run.advance(RunEvent::Spawned, stamp());
    run = run.advance(RunEvent::ReadyAfter(Some(10)), stamp());
    run = run.advance(RunEvent::ContractPaths(Vec::new()), stamp());
    assert_eq!(
        run.action(),
        RunAction::ProbeRoute {
            base_url: "http://localhost:5173".to_string(),
            path: "/".to_string()
        }
    );
}

#[test]
fn run_failure_reasons() {
    let run = RuntimeRun::new().advance(RunEvent::CurlChecked(false), stamp());
    let proof = run.into_proof().unwrap();
    assert_eq!(
        proof.status,
        RuntimeStatus::NotVerified("curl not found on PATH".to_string())
    );

    let run = RuntimeRun::new()
        .advance(RunEvent::CurlChecked(true), stamp())
        .advance(RunEvent::DevServerDetected(Some(vite())), stamp())
        .advance(RunEvent::SpawnFailed("No such file".to_string()), stamp());
    assert_eq!(run.action(), RunAction::Finish);
    let proof = run.into_proof().unwrap();
    assert_eq!(
        proof.status,
        RuntimeStatus::NotVerified("failed to start dev server: No such file".to_string())
    );
    assert_eq!(proof.dev_server, Some("Vite dev server".to_string()));
    assert_eq!(proof.command, Some("npm run dev".to_string()));
    assert_eq!(proof.base_url, Some("http://localhost:5173".to_string()));

    let run = RuntimeRun::new()
        .advance(RunEvent::CurlChecked(true), stamp())
        .advance(RunEvent::DevServerDetected(Some(vite())), stamp())
        .advance(RunEvent::Spawned, stamp())
        .advance(RunEvent::ReadyAfter(None), stamp());
    assert_eq!(run.action(), RunAction::StopDevServer { wait: false });
    let run = run.advance(RunEvent::Stopped, stamp());
    let proof = run.into_proof().unwrap();
    assert_eq!(
        proof.summary_line(),
        "runtime not verified: server did not become ready within 60s"
    );
    assert!(proof.routes.is_empty());
}

#[test]
fn unexpected_event_leaves_run_unchanged() {
    let run = RuntimeRun::new().advance(RunEvent::Stopped, stamp());
    assert_eq!(run.phase(), RunPhase::CheckingCurl);
    assert_eq!(run.action(), RunAction::CheckCurl);
}

#[test]
fn http_code_edges() {
    assert_eq!(parse_http_code("+200"), Some(200));
    assert_eq!(parse_http_code("65535"), Some(65535));
    assert_eq!(parse_http_code("65536"), None);
    assert_eq!(parse_http_code("-1"), None);
    assert_eq!(parse_http_code(" 200"), None);
    assert_eq!(curl_status(true, "404\n"), Some(404));
    assert_eq!(curl_status(true, "000"), None);
    assert_eq!(curl_status(false, "200"), None);
}

#[test]
fn concretize_path_normalises_and_is_idempotent() {
    assert_eq!(concretize_path(""), "/");
    assert_eq!(concretize_path("//a//{b}/"), "/a/1");
    assert_eq!(concretize_path("api/:v"), "/api/1");
    let once = concretize_path("/x/{y}/:z");
    assert_eq!(concretize_path(&once), once);
}

#[test]
fn openapi_paths_dedup_after_concretizing() {
    let doc = r#"{"paths":{"/u/{id}":{},"/u/:uid":{},"/u/1":{}}}"#;
    assert_eq!(parse_openapi_paths(doc), vec!["/u/1".to_string()]);
}

#[test]
fn package_json_scripts() {
    assert!(package_json_has_script(r#"{"scripts":{"dev":"vite"}}"#, "dev"));
    assert!(!package_json_has_script(r#"{"scripts":{"dev":"vite"}}"#, "test:e2e"));
    assert!(!package_json_has_script(r#"{"scripts":["dev"]}"#, "dev"));
    assert!(!package_json_has_script("nope", "dev"));
    // The script wins over a config file.
    let files = vec!["cypress.config.ts".to_string(), "playwright.config.mjs".to_string()];
    assert_eq!(
        detect_e2e_command(Some(r#"{"scripts":{"dev":"x"}}"#), &files),
        Some("npx playwright test".to_string())
    );
}

#[test]
fn truncate_exact_results() {
    let mut short = "abc".to_string();
    truncate(&mut short, 3);
    assert_eq!(short, "abc");
    let mut long = "abcd".to_string();
    truncate(&mut long, 3);
    assert_eq!(long, "abc\n...[truncated]");
    let mut cjk = "做做做做做".to_string();
    truncate(&mut cjk, 7);
    assert_eq!(cjk, "做做\n...[truncated]");
    assert!(cjk.len() <= 7 + "\n...[truncated]".len());
}

#[test]
fn e2e_outcomes() {
    let r = e2e_result(
        "npx cypress run".to_string(),
        E2eOutcome::Finished { passed: true, output: "ok".to_string() },
        12,
    );
    assert!(r.passed);
    assert_eq!(r.output, "ok");
    let big = "x".repeat(9000);
    let r = e2e_result("c".to_string(), E2eOutcome::Finished { passed: false, output: big }, 1);
    assert_eq!(r.output.len(), 8192 + "\n...[truncated]".len());
    let r = e2e_result("c".to_string(), E2eOutcome::SpawnFailed("not found".to_string()), 1);
    assert!(!r.passed);
    assert_eq!(r.output, "failed to spawn e2e runner: not found");
    let r = e2e_result("c".to_string(), E2eOutcome::TimedOut, 1);
    assert!(!r.passed);
    assert_eq!(r.output, "e2e timed out after 600s");
}

#[test]
fn path_lookup_candidates() {
    let c = which_candidates("curl", Some("/usr/bin::/bin"), false, None);
    let got: Vec<(String, String)> = c.into_iter().map(|c| (c.dir, c.file_name)).collect();
    assert_eq!(
        got,
        vec![
            ("/usr/bin".to_string(), "curl".to_string()),
            ("/bin".to_string(), "curl".to_string())
        ]
    );
    assert!(which_candidates("curl", None, false, None).is_empty());
    let w = which_candidates("curl", Some("C:\\bin"), true, None);
    let names: Vec<String> = w.into_iter().map(|c| c.file_name).collect();
    assert_eq!(names, vec!["curl.EXE", "curl.BAT", "curl.CMD", "curl.COM"]);
    let s = spawn_candidates("npm", Some("C:\\a;C:\\b"), Some(".CMD"));
    let got: Vec<(String, String)> = s.into_iter().map(|c| (c.dir, c.file_name)).collect();
    assert_eq!(got[0], ("C:\\a".to_string(), "npm".to_string()));
    assert_eq!(got[1], ("C:\\a".to_string(), "npm.CMD".to_string()));
    assert_eq!(got.len(), 4);
    assert!(spawn_lookup_needed("npm", true));
    assert!(!spawn_lookup_needed("npm", false));
    assert!(!spawn_lookup_needed("bin\\npm", true));
    assert_eq!(
        spawn_via("C:\\a\\npm.cmd".to_string(), ".CMD"),
        ("cmd".to_string(), vec!["/c".to_string(), "C:\\a\\npm.cmd".to_string()])
    );
    assert_eq!(
        spawn_via("C:\\a\\node.exe".to_string(), ".exe"),
        ("C:\\a\\node.exe".to_string(), Vec::new())
    );
}

#[test]
fn readiness_budget_and_rel_path() {
    assert!(within_budget(59_999, 60));
    assert!(!within_budget(60_000, 60));
    assert_eq!(runtime_proof_rel_path(), ".umadev/audit/runtime-proof.json");
}

#[test]
fn timestamps_are_utc_second_precision() {
    assert_eq!(utc_timestamp(0).as_deref(), Some("1970-01-01T00:00:00Z"));
    assert_eq!(utc_timestamp(1_431_648_000).as_deref(), Some("2015-05-15T00:00:00Z"));
    assert_eq!(utc_timestamp(1_782_086_399).as_deref(), Some("2026-06-21T23:59:59Z"));
    assert_eq!(
        utc_timestamp(LAST_FOUR_DIGIT_YEAR_SECS).as_deref(),
        Some("9999-12-31T23:59:59Z")
    );
    assert_eq!(
        utc_timestamp(LAST_FOUR_DIGIT_YEAR_SECS + 1).as_deref(),
        Some("+10000-01-01T00:00:00Z")
    );
    assert_eq!(
        utc_timestamp(MAX_TIMESTAMP_SECS).as_deref(),
        Some("+262142-12-31T23:59:59Z")
    );
    assert_eq!(utc_timestamp(MAX_TIMESTAMP_SECS + 1), None);
    assert_eq!(utc_timestamp(-1), None);
}

#[test]
fn records_carry_the_stamp_they_are_given() {
    let p = RuntimeProof::not_verified("x".to_string(), "2015-05-15T00:00:00Z".to_string());
    assert_eq!(p.timestamp, "2015-05-15T00:00:00Z");
    let run = RuntimeRun::new()
        .advance(RunEvent::CurlChecked(true), "a".to_string())
        .advance(RunEvent::DevServerDetected(Some(vite())), "b".to_string())
        .advance(RunEvent::Spawned, "c".to_string())
        .advance(RunEvent::ReadyAfter(Some(3)), "2015-05-15T00:00:00Z".to_string())
        .advance(RunEvent::ContractPaths(Vec::new()), "e".to_string())
        .advance(RunEvent::RouteAnswered { status: Some(200), ms: 1 }, "f".to_string());
    assert_eq!(run.into_proof().unwrap().timestamp, "2015-05-15T00:00:00Z");
}

#[test]
fn e2e_outcome_reaches_the_record() {
    let mut run = RuntimeRun::new();
    for e in [
        RunEvent::CurlChecked(true),
        RunEvent::DevServerDetected(Some(vite())),
        RunEvent::Spawned,
        RunEvent::ReadyAfter(Some(3)),
        RunEvent::ContractPaths(Vec::new()),
        RunEvent::RouteAnswered { status: Some(200), ms: 1 },
    ] {
        run = run.advance(e, stamp());
    }
    assert_eq!(run.action(), RunAction::RunE2e);
    let run = run.advance(
        RunEvent::E2eFinished(Some(E2eRun {
            command: "npx playwright test".to_string(),
            outcome: E2eOutcome::TimedOut,
            ms: 600_000,
        })),
        stamp(),
    );
    let e2e = run.into_proof().unwrap().e2e.unwrap();
    assert_eq!(e2e.command, "npx playwright test");
    assert!(!e2e.passed);
    assert_eq!(e2e.ms, 600_000);
    assert_eq!(e2e.output, "e2e timed out after 600s");
}

fn stamp() -> String {
    "2026-06-22T00:00:00Z".to_string()
}

#[test]
fn concretized_paths_hold_no_double_slash() {
    for p in ["//a//{id}///", "", "/", "a/:x//b", "{x}//{y}"] {
        let c = concretize_path(p);
        assert!(!c.contains("//"), "{p} gave {c}");
        assert!(c.starts_with('/'));
    }
    assert_eq!(concretize_path("//a//{id}///"), "/a/1");
}
