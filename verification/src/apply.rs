//! The apply orchestrator's decisions: which preconditions gate a run,
//! what a fresh store looks like, and what installing one hook means —
//! where the script goes, when the previous file is backed up first, and
//! that a dry run never touches the filesystem. The caller performs the
//! planned actions and owns nothing but their execution.

use crate::error::HookmanError;
use crate::generator::{generate_script, spec_script};
use crate::hook::{spec_hook_name, Hook};
use crate::storage::{InitPlan, Storage, TomlStorage};
use vstd::prelude::*;
use vstd::string::*;

verus! {

/// Gate for every mutating run: the store must be initialized.
pub fn check_initialized(initialized: bool) -> (r: Result<(), HookmanError>)
    ensures
        match r {
            Ok(()) => initialized,
            Err(e) => !initialized && e matches HookmanError::NotInitialized,
        },
{
    if initialized {
        Ok(())
    } else {
        Err(HookmanError::NotInitialized)
    }
}

/// Gate for initialization: the working directory must hold a Git
/// repository.
pub fn check_in_git_repo(git_dir_exists: bool) -> (r: Result<(), HookmanError>)
    ensures
        match r {
            Ok(()) => git_dir_exists,
            Err(e) => !git_dir_exists && e matches HookmanError::NotInGitRepo,
        },
{
    if git_dir_exists {
        Ok(())
    } else {
        Err(HookmanError::NotInGitRepo)
    }
}

/// What initialization does: nothing when the repository is absent (an
/// error) or the store already exists (`None`), else the fresh-store plan.
pub fn plan_init(git_dir_exists: bool, already_initialized: bool) -> (r: Result<
    Option<InitPlan>,
    HookmanError,
>)
    ensures
        match r {
            Err(e) => !git_dir_exists && e matches HookmanError::NotInGitRepo,
            Ok(None) => git_dir_exists && already_initialized,
            Ok(Some(p)) => {
                &&& git_dir_exists
                &&& !already_initialized
                &&& p.root_dir@ == ".hookman"@
                &&& p.hooks_dir@ == ".hookman/hooks"@
                &&& p.config_file@ == "config.toml"@
                &&& p.config_contents@ == crate::codec::encode_config(
                    crate::config::spec_default_version(),
                )
            },
        },
{
    check_in_git_repo(git_dir_exists)?;
    if already_initialized {
        return Ok(None);
    }
    let storage = TomlStorage::new();
    Ok(Some(storage.init()))
}

/// Installing one hook: where the script goes and what surrounds the
/// write.
pub struct InstallStep {
    /// The file the script is written to: the hook's name inside the Git
    /// hooks directory.
    pub target_path: String,
    /// Where the pre-existing target is copied first: present exactly
    /// when a file already sits at the target and this is no dry run.
    pub backup_path: Option<String>,
    /// The generated script text.
    pub script: String,
    /// True on a dry run: show the path and script, change nothing.
    pub preview_only: bool,
}

/// What applying one hook means. A hook with no commands is skipped
/// entirely (`None`): no file, no backup, no preview. Otherwise the step
/// names the target, the script, whether this is only a preview, and —
/// only when a real write would overwrite an existing file — the backup
/// path holding the old content first. A dry run plans no backup and no
/// write: the filesystem is left untouched.
pub fn plan_hook_apply(hook: &Hook, git_hooks_dir: &str, target_exists: bool, dry_run: bool) -> (r:
    Option<InstallStep>)
    ensures
        match r {
            None => hook@.commands.len() == 0,
            Some(st) => {
                &&& hook@.commands.len() > 0
                &&& st.target_path@ == git_hooks_dir@ + "/"@ + spec_hook_name(hook@.hook_type)
                &&& st.script@ == spec_script(hook@)
                &&& st.preview_only == dry_run
                &&& match st.backup_path {
                    Some(b) => !dry_run && target_exists && b@ == st.target_path@ + ".backup"@,
                    None => dry_run || !target_exists,
                }
            },
        },
        dry_run ==> (match r {
            Some(st) => st.preview_only && st.backup_path is None,
            None => true,
        }),
{
    if hook.commands.len() == 0 {
        return None;
    }
    let target_path = git_hooks_dir.to_owned().concat("/").concat(hook.hook_type.as_str());
    let backup_path: Option<String> = if !dry_run && target_exists {
        Some(target_path.clone().concat(".backup"))
    } else {
        None
    };
    let script = generate_script(hook);
    Some(InstallStep { target_path, backup_path, script, preview_only: dry_run })
}

} // verus!
