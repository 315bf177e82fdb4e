use hookman::command::Command;
use hookman::config::Config;
use hookman::error::HookmanError;
use hookman::hook::{Hook, HookType};
use hookman::storage::{get_git_hooks_dir, get_hookman_dir, get_hooks_dir, Storage, TomlStorage};

fn hook_with(commands: Vec<(&str, &str, Option<&str>)>) -> Hook {
    let mut hook = Hook::new(HookType::PreCommit);
    for (id, command, desc) in commands {
        hook.add_command(Command::new(
            id.to_string(),
            command.to_string(),
            desc.map(|d| d.to_string()),
        ))
        .unwrap();
    }
    hook
}

#[test]
fn test_command_serialize_deserialize() {
    let cmd = Command::new(
        "format".to_string(),
        "cargo fmt".to_string(),
        Some("Format code".to_string()),
    );

    let storage = TomlStorage::new();
    let mut hook = Hook::new(HookType::PreCommit);
    hook.add_command(cmd.clone()).unwrap();
    let (_, serialized) = storage.save_hook(&hook);
    let deserialized = storage
        .load_hook(HookType::PreCommit, Some(&serialized))
        .unwrap();

    assert_eq!(cmd, deserialized.commands[0]);
}

#[test]
fn test_paths() {
    assert_eq!(get_hookman_dir(), ".hookman");
    assert_eq!(get_hooks_dir(), ".hookman/hooks");
    assert_eq!(get_git_hooks_dir(), ".git/hooks");
}

#[test]
fn test_save_hook_file_name_and_contents() {
    let storage = TomlStorage::new();
    let hook = hook_with(vec![("test", "echo 'test'", Some("Test hook"))]);
    let (name, contents) = storage.save_hook(&hook);
    assert_eq!(name, "pre-commit.toml");
    assert_eq!(
        contents,
        "[[commands]]\nid = \"test\"\ncommand = \"echo 'test'\"\ndescription = \"Test hook\"\n\n"
    );
    assert!(contents.contains("id = \"test\""));
    assert!(contents.contains("command = \"echo 'test'\""));
    assert!(contents.contains("description = \"Test hook\""));
}

#[test]
fn test_load_hook_without_file_is_empty() {
    let storage = TomlStorage::new();
    let hook = storage.load_hook(HookType::PrePush, None).unwrap();
    assert_eq!(hook.hook_type, HookType::PrePush);
    assert!(hook.commands.is_empty());
}

#[test]
fn test_hook_round_trip_many_commands() {
    let storage = TomlStorage::new();
    let hook = hook_with(vec![
        ("format", "cargo fmt -- --check", Some("Check formatting")),
        ("test", "cargo test", None),
        ("lint", "cargo clippy", Some("Lint")),
    ]);
    let (_, contents) = storage.save_hook(&hook);
    let loaded = storage
        .load_hook(HookType::PreCommit, Some(&contents))
        .unwrap();
    assert_eq!(loaded.hook_type, HookType::PreCommit);
    assert_eq!(loaded.commands, hook.commands);
}

#[test]
fn test_hook_round_trip_special_characters() {
    let storage = TomlStorage::new();
    let hook = hook_with(vec![(
        "tricky",
        "grep -q \"x\\\\y\" file && printf 'a\tb\nc'",
        Some("quotes \" and \\ and lines"),
    )]);
    let (_, contents) = storage.save_hook(&hook);
    let loaded = storage
        .load_hook(HookType::PreCommit, Some(&contents))
        .unwrap();
    assert_eq!(loaded.commands, hook.commands);
}

#[test]
fn test_load_hook_overrides_stored_type_field() {
    let storage = TomlStorage::new();
    let contents = "hook_type = \"pre-push\"\n\n[[commands]]\nid = \"a\"\ncommand = \"echo a\"\n";
    let loaded = storage
        .load_hook(HookType::CommitMsg, Some(contents))
        .unwrap();
    assert_eq!(loaded.hook_type, HookType::CommitMsg);
    assert_eq!(loaded.commands.len(), 1);
    assert_eq!(loaded.commands[0].id, "a");
}

#[test]
fn test_load_hook_ignores_unknown_keys() {
    let storage = TomlStorage::new();
    let contents = "[[commands]]\nid = \"a\"\ncommand = \"echo a\"\nextra = \"ignored\"\n";
    let loaded = storage.load_hook(HookType::PreCommit, Some(contents)).unwrap();
    assert_eq!(loaded.commands.len(), 1);
    assert_eq!(loaded.commands[0].description, None);
}

#[test]
fn test_load_hook_malformed_text_fails() {
    let storage = TomlStorage::new();
    let err = storage
        .load_hook(HookType::PreCommit, Some("not a record"))
        .unwrap_err();
    assert!(matches!(err, HookmanError::TomlError(_)));
}

#[test]
fn test_load_hook_block_missing_command_fails() {
    let storage = TomlStorage::new();
    let err = storage
        .load_hook(HookType::PreCommit, Some("[[commands]]\nid = \"a\"\n"))
        .unwrap_err();
    assert!(matches!(err, HookmanError::TomlError(_)));
}

#[test]
fn test_load_hook_repeated_key_fails() {
    let storage = TomlStorage::new();
    let contents = "[[commands]]\nid = \"a\"\nid = \"b\"\ncommand = \"echo\"\n";
    let err = storage
        .load_hook(HookType::PreCommit, Some(contents))
        .unwrap_err();
    assert!(matches!(err, HookmanError::TomlError(_)));
}

#[test]
fn test_load_hook_duplicate_ids_fail() {
    let storage = TomlStorage::new();
    let contents = "[[commands]]\nid = \"a\"\ncommand = \"one\"\n\n[[commands]]\nid = \"a\"\ncommand = \"two\"\n";
    let err = storage
        .load_hook(HookType::PreCommit, Some(contents))
        .unwrap_err();
    assert!(matches!(err, HookmanError::TomlError(_)));
}

#[test]
fn test_list_hooks_filters_and_keeps_order() {
    let storage = TomlStorage::new();
    let names = vec![
        "pre-push.toml".to_string(),
        "notes.txt".to_string(),
        "pre-commit.toml".to_string(),
        "unknown-hook.toml".to_string(),
        "commit-msg.toml".to_string(),
    ];
    let hooks = storage.list_hooks(&names);
    assert_eq!(
        hooks,
        vec![HookType::PrePush, HookType::PreCommit, HookType::CommitMsg]
    );
}

#[test]
fn test_list_hooks_empty() {
    let storage = TomlStorage::new();
    let hooks = storage.list_hooks(&Vec::new());
    assert!(hooks.is_empty());
}

#[test]
fn test_config_round_trip() {
    let storage = TomlStorage::new();
    let config = Config {
        version: "9.8.7".to_string(),
    };
    let (name, contents) = storage.save_config(&config);
    assert_eq!(name, "config.toml");
    assert_eq!(contents, "version = \"9.8.7\"\n");
    let loaded = storage.load_config(Some(&contents)).unwrap();
    assert_eq!(loaded.version, "9.8.7");
}

#[test]
fn test_load_config_without_file_is_default() {
    let storage = TomlStorage::new();
    let loaded = storage.load_config(None).unwrap();
    assert_eq!(loaded.version, "0.1.0");
}

#[test]
fn test_load_config_malformed_fails() {
    let storage = TomlStorage::new();
    let err = storage.load_config(Some("garbage")).unwrap_err();
    assert!(matches!(err, HookmanError::TomlError(_)));
    let err = storage.load_config(Some("other = \"x\"\n")).unwrap_err();
    assert!(matches!(err, HookmanError::TomlError(_)));
}
