use umadev_agent::pr::{
    assess_readiness, feature_branch_name, git_current_branch, git_default_branch,
    git_has_changes, git_has_github_remote, git_is_repo, is_proof_pack, latest_proof_pack,
    manual_steps, plan_branches, pr_body_rel_path, proof_pack_summary, render_pr_body,
    PrReadiness, ProbeOutputs, ReadinessCheck,
};

fn readiness(default: &str, current: &str, all_ok: bool) -> PrReadiness {
    let mk = |id: &str| ReadinessCheck {
        id: id.to_string(),
        label: id.to_string(),
        ok: all_ok,
        remedy: if all_ok {
            String::new()
        } else {
            format!("fix {id}")
        },
    };
    PrReadiness {
        checks: vec![
            mk("git-repo"),
            mk("has-changes"),
            mk("github-remote"),
            mk("gh-cli"),
            mk("gh-auth"),
        ],
        default_branch: default.to_string(),
        current_branch: current.to_string(),
        has_changes: all_ok,
    }
}

fn no_probes() -> ProbeOutputs {
    ProbeOutputs {
        inside_work_tree: None,
        origin_head: None,
        abbrev_head: None,
        status_porcelain: None,
        remotes: None,
        gh_version_ok: false,
        gh_auth_ok: false,
    }
}

#[test]
fn ready_only_when_every_check_passes() {
    assert!(readiness("main", "feature/x", true).ready());
    let mut r = readiness("main", "feature/x", true);
    r.checks[2].ok = false;
    assert!(!r.ready());
    assert_eq!(r.first_blocker().unwrap().id, "github-remote");
}

#[test]
fn on_default_branch_forces_a_new_feature_branch() {
    let r = readiness("main", "main", true);
    let plan = plan_branches(&r, "my-app");
    assert!(plan.needs_new_branch);
    assert_eq!(plan.head_branch, "umadev/my-app");
    assert_eq!(plan.base_branch, "main");
}

#[test]
fn unknown_current_branch_also_forces_a_new_branch() {
    let r = readiness("main", "", true);
    let plan = plan_branches(&r, "app");
    assert!(plan.needs_new_branch);
    assert_eq!(plan.head_branch, "umadev/app");
}

#[test]
fn existing_feature_branch_is_reused_as_head() {
    let r = readiness("main", "feat/login", true);
    let plan = plan_branches(&r, "app");
    assert!(!plan.needs_new_branch);
    assert_eq!(plan.head_branch, "feat/login");
    assert_eq!(plan.base_branch, "main");
}

#[test]
fn unknown_default_branch_defaults_base_to_main() {
    let r = readiness("", "", true);
    let plan = plan_branches(&r, "x");
    assert_eq!(plan.base_branch, "main");
    assert!(plan.needs_new_branch);
}

#[test]
fn feature_branch_name_is_sanitised() {
    assert_eq!(feature_branch_name("My App!"), "umadev/my-app");
    assert_eq!(feature_branch_name("  ---  "), "umadev/change");
    assert_eq!(feature_branch_name(""), "umadev/change");
    assert_eq!(feature_branch_name("clean-slug-1"), "umadev/clean-slug-1");
}

#[test]
fn manual_steps_list_failing_checks_and_safe_recipe() {
    let r = readiness("main", "main", false);
    let steps = manual_steps(&r, "demo", "output/demo-pr-body.md");
    assert!(steps.contains("fix github-remote"));
    assert!(steps.contains("git switch -c umadev/demo"));
    assert!(steps.contains("never commit on `main` directly"));
    assert!(steps.contains("git push -u origin"));
    assert!(!steps.contains("--force"));
    assert!(!steps.contains("push -f"));
    assert!(steps.contains("--body-file output/demo-pr-body.md"));
}

#[test]
fn manual_steps_skip_branch_line_on_feature_branch() {
    let r = readiness("main", "feat/x", false);
    let steps = manual_steps(&r, "demo", "output/demo-pr-body.md");
    assert!(!steps.contains("git switch -c"));
    assert!(steps.contains("gh pr create --base main --head feat/x"));
}

#[test]
fn body_embeds_review_report_and_proof_pack_section() {
    // The review report is rendered elsewhere; the body embeds it verbatim.
    let review = "# Review report — demo\n\n- contract: not available\n";
    let body = render_pr_body(review, &proof_pack_summary(None));
    assert!(body.contains("# Review report — demo"));
    assert!(body.contains("## Proof pack"));
    assert!(body.contains("No proof-pack zip yet"));
    assert!(body.contains("generated by UmaDev"));
}

#[test]
fn proof_pack_summary_names_latest_zip() {
    let names = vec![
        "proof-pack-demo-001.zip".to_string(),
        "proof-pack-demo-002.zip".to_string(),
        "notes.txt".to_string(),
    ];
    let latest = latest_proof_pack(&names).unwrap();
    let summary = proof_pack_summary(Some((latest, 4096)));
    assert!(summary.contains("proof-pack-demo-002.zip"));
    assert!(summary.contains("4 KiB"));
}

#[test]
fn assess_on_non_repo_is_fail_open_not_ready() {
    let r = assess_readiness(&no_probes());
    assert_eq!(r.checks.len(), 5);
    assert!(!r.ready());
    assert_eq!(r.first_blocker().unwrap().id, "git-repo");
    let steps = manual_steps(&r, "demo", &pr_body_rel_path("demo"));
    assert!(steps.contains("git init"));
}

#[test]
fn body_rel_path_is_stable() {
    assert_eq!(pr_body_rel_path("app"), "output/app-pr-body.md");
}

// ---------------------------------------------------------------------------

#[test]
fn manual_steps_exact_text_on_default_branch() {
    let mut r = readiness("main", "main", true);
    r.checks[1].ok = false;
    r.checks[1].remedy = "commit something".to_string();
    let steps = manual_steps(&r, "demo", "output/demo-pr-body.md");
    let expected = "Could not open the PR automatically. Resolve these, then retry:\n\
                    \x20 - has-changes — commit something\n\
                    \nOr open it by hand (UmaDev never force-pushes or rewrites your commits):\n\
                    \x20 git switch -c umadev/demo            # never commit on `main` directly\n\
                    \x20 git add -A && git commit -m \"demo: UmaDev pipeline output\"\n\
                    \x20 git push -u origin umadev/demo\n\
                    \x20 gh pr create --base main --head umadev/demo --title \"demo\" --body-file output/demo-pr-body.md\n";
    assert_eq!(steps, expected);
}

#[test]
fn first_blocker_is_none_when_ready() {
    let r = readiness("main", "feat", true);
    assert!(r.ready());
    assert!(r.first_blocker().is_none());
    let mut r = readiness("main", "feat", true);
    r.checks[1].ok = false;
    r.checks[3].ok = false;
    assert_eq!(r.first_blocker().unwrap().id, "has-changes");
}

#[test]
fn feature_branch_name_lowercases_and_keeps_digits() {
    assert_eq!(feature_branch_name("Shop_2024 Release"), "umadev/shop-2024-release");
    assert_eq!(feature_branch_name("--Émoji✓x--"), "umadev/moji-x");
    assert!(feature_branch_name("ABC").starts_with("umadev/"));
}

#[test]
fn plan_head_never_equals_base() {
    // The default branch is the very feature branch the slug names: the plan
    // still branches off to a distinct name.
    let r = readiness("umadev/app", "", true);
    let plan = plan_branches(&r, "app");
    assert!(plan.needs_new_branch);
    assert_eq!(plan.head_branch, "umadev/app-2");
    assert_eq!(plan.base_branch, "umadev/app");
    let r = readiness("umadev/app", "umadev/app", true);
    let plan = plan_branches(&r, "app");
    assert!(plan.needs_new_branch);
    assert_eq!(plan.head_branch, "umadev/app-2");
    let r = readiness("main", "", true);
    let plan = plan_branches(&r, "app");
    assert_eq!(plan.head_branch, "umadev/app");
    let r = readiness("main", "feature/y", true);
    let plan = plan_branches(&r, "app");
    assert_ne!(plan.head_branch, plan.base_branch);
}

#[test]
fn git_probes_are_read_fail_open() {
    assert!(git_is_repo(Some("true\n")));
    assert!(!git_is_repo(Some("false\n")));
    assert!(!git_is_repo(None));
    assert_eq!(git_default_branch(Some("origin/main\n"), None), "main");
    assert_eq!(git_default_branch(Some("origin/release/v2\n"), None), "v2");
    // No remote HEAD: the checked-out branch, then `main`.
    assert_eq!(git_default_branch(None, Some("dev\n")), "dev");
    assert_eq!(git_default_branch(Some("origin/\n"), Some("trunk\n")), "trunk");
    assert_eq!(git_default_branch(Some("origin/main\n"), Some("dev\n")), "main");
    assert_eq!(git_default_branch(None, Some("HEAD\n")), "main");
    assert_eq!(git_default_branch(None, Some("  \n")), "main");
    assert_eq!(git_default_branch(None, None), "main");
    assert_eq!(git_current_branch(Some("feat/x\n")), "feat/x");
    assert_eq!(git_current_branch(Some("HEAD\n")), "");
    assert_eq!(git_current_branch(None), "");
    assert!(git_has_changes(Some(" M src/lib.rs\n")));
    assert!(!git_has_changes(Some("\n")));
    assert!(!git_has_changes(None));
    assert!(git_has_github_remote(Some("origin\tgit@GitHub.COM:me/x.git (fetch)\n")));
    assert!(!git_has_github_remote(Some("origin\thttps://gitlab.com/me/x (fetch)\n")));
    assert!(!git_has_github_remote(None));
}

#[test]
fn assess_readiness_in_a_ready_repo() {
    let probes = ProbeOutputs {
        inside_work_tree: Some("true\n".to_string()),
        origin_head: Some("origin/main\n".to_string()),
        abbrev_head: Some("feat/login\n".to_string()),
        status_porcelain: Some("?? new.txt\n".to_string()),
        remotes: Some("origin\thttps://github.com/me/x (fetch)\n".to_string()),
        gh_version_ok: true,
        gh_auth_ok: true,
    };
    let r = assess_readiness(&probes);
    assert!(r.ready());
    assert_eq!(r.default_branch, "main");
    assert_eq!(r.current_branch, "feat/login");
    assert!(r.has_changes);
    let ids: Vec<&str> = r.checks.iter().map(|c| c.id.as_str()).collect();
    assert_eq!(ids, vec!["git-repo", "has-changes", "github-remote", "gh-cli", "gh-auth"]);
    assert!(r.checks.iter().all(|c| c.remedy.is_empty()));
}

#[test]
fn assess_readiness_gh_auth_needs_gh() {
    let mut probes = no_probes();
    probes.gh_auth_ok = true;
    let r = assess_readiness(&probes);
    assert!(!r.checks[3].ok);
    assert!(!r.checks[4].ok);
    assert_eq!(r.checks[4].remedy, "Authenticate once with `gh auth login`, then re-run `umadev pr`.");
    // Outside a repository, git facts are not taken even if printed.
    let mut probes = no_probes();
    probes.status_porcelain = Some(" M x\n".to_string());
    probes.abbrev_head = Some("main\n".to_string());
    let r = assess_readiness(&probes);
    assert!(!r.has_changes);
    assert_eq!(r.current_branch, "");
}

#[test]
fn proof_pack_selection_and_summary() {
    let names = vec![
        "proof-pack-a.ZIP".to_string(),
        "proof-pack-b.zip".to_string(),
        "proof-pack-c.zip.bak".to_string(),
        "other-proof-pack-z.zip".to_string(),
    ];
    assert_eq!(latest_proof_pack(&names), Some("proof-pack-b.zip".to_string()));
    assert_eq!(latest_proof_pack(&vec!["notes.txt".to_string()]), None);
    assert!(is_proof_pack("proof-pack-x.Zip"));
    assert!(!is_proof_pack("proof-pack-x"));
    assert_eq!(
        proof_pack_summary(Some(("proof-pack-b.zip".to_string(), 5000))),
        "Full evidence bundle: `release/proof-pack-b.zip` (4 KiB) — docs + quality gate + compliance mapping + a runnable scorecard, retained for post-merge audit.\n"
    );
}

#[test]
fn pr_body_layout_is_exact() {
    let body = render_pr_body("R\n", "P\n");
    assert_eq!(
        body,
        "R\n\n---\n\n## Proof pack\n\nP\n\n_This PR body was generated by UmaDev from the run's own evidence. Every claim above cites the file or number it derives from._\n"
    );
}
