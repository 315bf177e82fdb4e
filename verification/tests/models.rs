use hookman::command::Command;
use hookman::hook::{Hook, HookType};
use std::str::FromStr;

#[test]
fn test_command_new() {
    let cmd = Command::new(
        "test".to_string(),
        "echo test".to_string(),
        Some("Test command".to_string()),
    );

    assert_eq!(cmd.id, "test");
    assert_eq!(cmd.command, "echo test");
    assert_eq!(cmd.description, Some("Test command".to_string()));
}

#[test]
fn test_command_new_without_description() {
    let cmd = Command::new("test".to_string(), "echo test".to_string(), None);

    assert_eq!(cmd.id, "test");
    assert_eq!(cmd.command, "echo test");
    assert_eq!(cmd.description, None);
}

#[test]
fn test_hook_type_as_str() {
    assert_eq!(HookType::PreCommit.as_str(), "pre-commit");
    assert_eq!(HookType::PrePush.as_str(), "pre-push");
    assert_eq!(HookType::CommitMsg.as_str(), "commit-msg");
}

#[test]
fn test_hook_type_from_str() {
    assert_eq!(
        <HookType as FromStr>::from_str("pre-commit").unwrap(),
        HookType::PreCommit
    );
    assert_eq!(
        <HookType as FromStr>::from_str("pre-push").unwrap(),
        HookType::PrePush
    );
    assert_eq!(
        <HookType as FromStr>::from_str("commit-msg").unwrap(),
        HookType::CommitMsg
    );
    assert!(<HookType as FromStr>::from_str("invalid-hook").is_err());
}

#[test]
fn test_hook_type_display() {
    assert_eq!(HookType::PreCommit.display_string(), "pre-commit");
    assert_eq!(HookType::PrePush.display_string(), "pre-push");
}

#[test]
fn test_hook_type_all() {
    let all_hooks = HookType::all();
    assert_eq!(all_hooks.len(), 16);
    assert!(all_hooks.contains(&HookType::PreCommit));
    assert!(all_hooks.contains(&HookType::PostRewrite));
}

#[test]
fn test_hook_new() {
    let hook = Hook::new(HookType::PreCommit);
    assert_eq!(hook.hook_type, HookType::PreCommit);
    assert!(hook.commands.is_empty());
}

#[test]
fn test_hook_name_round_trip_every_type() {
    for h in HookType::all() {
        let name = h.as_str();
        let parsed = HookType::parse_name(name).unwrap();
        assert_eq!(parsed.as_str(), name);
        assert_eq!(parsed, h);
    }
}

#[test]
fn test_parse_name_rejects_unknown() {
    assert_eq!(HookType::parse_name(""), None);
    assert_eq!(HookType::parse_name("pre-commit2"), None);
    assert_eq!(HookType::parse_name("Pre-Commit"), None);
}

#[test]
fn test_add_command_appends_in_order() {
    let mut hook = Hook::new(HookType::PreCommit);
    hook.add_command(Command::new("a".to_string(), "echo a".to_string(), None))
        .unwrap();
    hook.add_command(Command::new("b".to_string(), "echo b".to_string(), None))
        .unwrap();
    assert_eq!(hook.commands.len(), 2);
    assert_eq!(hook.commands[0].id, "a");
    assert_eq!(hook.commands[1].id, "b");
}

#[test]
fn test_add_duplicate_id_fails_and_keeps_list() {
    let mut hook = Hook::new(HookType::PreCommit);
    hook.add_command(Command::new(
        "format".to_string(),
        "cargo fmt".to_string(),
        None,
    ))
    .unwrap();
    let err = hook
        .add_command(Command::new(
            "format".to_string(),
            "other".to_string(),
            None,
        ))
        .unwrap_err();
    assert_eq!(
        err.message(),
        "Command with ID 'format' already exists in hook 'pre-commit'"
    );
    assert_eq!(hook.commands.len(), 1);
    assert_eq!(hook.commands[0].command, "cargo fmt");
}

#[test]
fn test_remove_missing_id_fails_and_keeps_list() {
    let mut hook = Hook::new(HookType::PrePush);
    hook.add_command(Command::new("a".to_string(), "echo a".to_string(), None))
        .unwrap();
    let err = hook.remove_command(&"zzz".to_string()).unwrap_err();
    assert_eq!(
        err.message(),
        "Command with ID 'zzz' not found in hook 'pre-push'"
    );
    assert_eq!(hook.commands.len(), 1);
    assert_eq!(hook.commands[0].id, "a");
}

#[test]
fn test_remove_command_keeps_order_of_rest() {
    let mut hook = Hook::new(HookType::PreCommit);
    for id in ["a", "b", "c"] {
        hook.add_command(Command::new(id.to_string(), format!("echo {}", id), None))
            .unwrap();
    }
    hook.remove_command(&"b".to_string()).unwrap();
    assert_eq!(hook.commands.len(), 2);
    assert_eq!(hook.commands[0].id, "a");
    assert_eq!(hook.commands[1].id, "c");
}
