use hookman::apply::{check_in_git_repo, check_initialized, plan_hook_apply, plan_init};
use hookman::command::Command;
use hookman::error::HookmanError;
use hookman::generator::ScriptGenerator;
use hookman::hook::{Hook, HookType};

fn sample_hook() -> Hook {
    let mut hook = Hook::new(HookType::PreCommit);
    hook.add_command(Command::new(
        "format".to_string(),
        "cargo fmt -- --check".to_string(),
        None,
    ))
    .unwrap();
    hook.add_command(Command::new(
        "test".to_string(),
        "cargo test".to_string(),
        None,
    ))
    .unwrap();
    hook
}

#[test]
fn test_generated_script_contents() {
    let generator = ScriptGenerator::new();
    let script = generator.generate(&sample_hook()).unwrap();
    assert_eq!(
        script,
        "#!/bin/sh\nset -e\n\n# Generated by hookman\n\n# format\ncargo fmt -- --check\n\n# test\ncargo test\n"
    );
    let fail_fast = script.find("set -e").unwrap();
    let first = script.find("cargo fmt -- --check").unwrap();
    let second = script.find("cargo test").unwrap();
    assert!(script.contains("# Generated by hookman"));
    assert!(fail_fast < first);
    assert!(first < second);
}

#[test]
fn test_generated_script_with_description() {
    let generator = ScriptGenerator::new();
    let mut hook = Hook::new(HookType::CommitMsg);
    hook.add_command(Command::new(
        "jira".to_string(),
        "grep -qE '^[A-Z]+-[0-9]+' \"$1\"".to_string(),
        Some("Check ticket".to_string()),
    ))
    .unwrap();
    let script = generator.generate(&hook).unwrap();
    assert_eq!(
        script,
        "#!/bin/sh\nset -e\n\n# Generated by hookman\n\n# jira: Check ticket\ngrep -qE '^[A-Z]+-[0-9]+' \"$1\"\n"
    );
}

#[test]
fn test_plan_skips_empty_hook() {
    let hook = Hook::new(HookType::PreCommit);
    assert!(plan_hook_apply(&hook, ".git/hooks", true, false).is_none());
    assert!(plan_hook_apply(&hook, ".git/hooks", false, true).is_none());
}

#[test]
fn test_dry_run_plans_no_mutation() {
    let hook = sample_hook();
    let step = plan_hook_apply(&hook, ".git/hooks", true, true).unwrap();
    assert!(step.preview_only);
    assert_eq!(step.backup_path, None);
    let step = plan_hook_apply(&hook, ".git/hooks", false, true).unwrap();
    assert!(step.preview_only);
    assert_eq!(step.backup_path, None);
}

#[test]
fn test_existing_target_is_backed_up_then_overwritten() {
    let hook = sample_hook();
    let step = plan_hook_apply(&hook, ".git/hooks", true, false).unwrap();
    assert!(!step.preview_only);
    assert_eq!(step.target_path, ".git/hooks/pre-commit");
    assert_eq!(
        step.backup_path,
        Some(".git/hooks/pre-commit.backup".to_string())
    );
    assert_eq!(
        step.script,
        ScriptGenerator::new().generate(&hook).unwrap()
    );
}

#[test]
fn test_fresh_target_needs_no_backup() {
    let hook = sample_hook();
    let step = plan_hook_apply(&hook, ".git/hooks", false, false).unwrap();
    assert!(!step.preview_only);
    assert_eq!(step.backup_path, None);
    assert_eq!(step.target_path, ".git/hooks/pre-commit");
}

#[test]
fn test_init_outside_git_repo_fails() {
    let err = plan_init(false, false).unwrap_err();
    assert_eq!(err.message(), "Not in a Git repository");
    let err = check_in_git_repo(false).unwrap_err();
    assert!(matches!(err, HookmanError::NotInGitRepo));
}

#[test]
fn test_init_in_git_repo_plans_layout() {
    let plan = plan_init(true, false).unwrap().unwrap();
    assert_eq!(plan.root_dir, ".hookman");
    assert_eq!(plan.hooks_dir, ".hookman/hooks");
    assert_eq!(plan.config_file, "config.toml");
    assert_eq!(plan.config_contents, "version = \"0.1.0\"\n");
}

#[test]
fn test_init_twice_plans_nothing() {
    assert!(plan_init(true, true).unwrap().is_none());
}

#[test]
fn test_uninitialized_store_is_refused() {
    let err = check_initialized(false).unwrap_err();
    assert_eq!(
        err.message(),
        "Hookman not initialized. Run 'hookman init' first"
    );
    assert!(check_initialized(true).is_ok());
}

#[test]
fn test_render_specific_hook() {
    let hook = sample_hook();
    assert_eq!(
        hookman::listing::render_specific_hook(&hook),
        "Hook: pre-commit\n  [format] cargo fmt -- --check\n  [test] cargo test\n"
    );
    let empty = Hook::new(HookType::PrePush);
    assert_eq!(
        hookman::listing::render_specific_hook(&empty),
        "Hook: pre-push\n  No commands configured\n"
    );
}

#[test]
fn test_render_hook_summary_counts_commands() {
    let mut hook = Hook::new(HookType::PreCommit);
    for i in 0..12 {
        hook.add_command(Command::new(format!("id{}", i), format!("echo {}", i), None))
            .unwrap();
    }
    let text = hookman::listing::render_hook_summary(&hook);
    assert!(text.starts_with("\npre-commit (12 commands)\n"));
    assert!(text.contains("  [id0] echo 0\n"));
    assert!(text.contains("  [id11] echo 11\n"));
}

#[test]
fn test_render_command_with_description() {
    let mut hook = Hook::new(HookType::PreCommit);
    hook.add_command(Command::new(
        "format".to_string(),
        "cargo fmt".to_string(),
        Some("Format code".to_string()),
    ))
    .unwrap();
    assert_eq!(
        hookman::listing::render_hook_summary(&hook),
        "\npre-commit (1 commands)\n  [format] cargo fmt\n      Format code\n"
    );
}
