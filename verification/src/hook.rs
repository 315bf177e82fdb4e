//! The closed set of Git hook types and the hook model: an ordered list of
//! commands, keyed by hook type, with command ids unique inside one hook.

use crate::command::{cmds_view, Command, CommandModel};
use crate::error::HookmanError;
use crate::text::str_eq;
use vstd::prelude::*;
use vstd::string::*;

verus! {

/// The Git hook kinds this tool manages. Each variant corresponds
/// bijectively to the lowercase-hyphenated name Git uses for the hook file.
#[derive(Debug, Clone, Copy, PartialEq, Eq, Structural)]
pub enum HookType {
    PreCommit,
    PrePush,
    CommitMsg,
    PostCommit,
    PreRebase,
    PostCheckout,
    PostMerge,
    PreReceive,
    Update,
    PostReceive,
    PrepareCommitMsg,
    PostUpdate,
    PreApplyPatch,
    PostApplyPatch,
    PreMerge,
    PostRewrite,
}

/// The canonical textual name of a hook type, as a sequence of characters.
pub open spec fn spec_hook_name(h: HookType) -> Seq<char> {
    match h {
        HookType::PreCommit => "pre-commit"@,
        HookType::PrePush => "pre-push"@,
        HookType::CommitMsg => "commit-msg"@,
        HookType::PostCommit => "post-commit"@,
        HookType::PreRebase => "pre-rebase"@,
        HookType::PostCheckout => "post-checkout"@,
        HookType::PostMerge => "post-merge"@,
        HookType::PreReceive => "pre-receive"@,
        HookType::Update => "update"@,
        HookType::PostReceive => "post-receive"@,
        HookType::PrepareCommitMsg => "prepare-commit-msg"@,
        HookType::PostUpdate => "post-update"@,
        HookType::PreApplyPatch => "pre-applypatch"@,
        HookType::PostApplyPatch => "post-applypatch"@,
        HookType::PreMerge => "pre-merge-commit"@,
        HookType::PostRewrite => "post-rewrite"@,
    }
}

/// Which hook type, if any, a textual name denotes. Inverse of
/// `spec_hook_name` on canonical names; `None` on every other string.
pub open spec fn spec_parse_hook_name(s: Seq<char>) -> Option<HookType> {
    if s == "pre-commit"@ { Some(HookType::PreCommit) }
    else if s == "pre-push"@ { Some(HookType::PrePush) }
    else if s == "commit-msg"@ { Some(HookType::CommitMsg) }
    else if s == "post-commit"@ { Some(HookType::PostCommit) }
    else if s == "pre-rebase"@ { Some(HookType::PreRebase) }
    else if s == "post-checkout"@ { Some(HookType::PostCheckout) }
    else if s == "post-merge"@ { Some(HookType::PostMerge) }
    else if s == "pre-receive"@ { Some(HookType::PreReceive) }
    else if s == "update"@ { Some(HookType::Update) }
    else if s == "post-receive"@ { Some(HookType::PostReceive) }
    else if s == "prepare-commit-msg"@ { Some(HookType::PrepareCommitMsg) }
    else if s == "post-update"@ { Some(HookType::PostUpdate) }
    else if s == "pre-applypatch"@ { Some(HookType::PreApplyPatch) }
    else if s == "post-applypatch"@ { Some(HookType::PostApplyPatch) }
    else if s == "pre-merge-commit"@ { Some(HookType::PreMerge) }
    else if s == "post-rewrite"@ { Some(HookType::PostRewrite) }
    else { None }
}

impl HookType {
    /// The canonical name, used both as the configuration file stem and as
    /// the installed hook's file name.
    pub fn as_str(&self) -> (r: &'static str)
        ensures
            r@ == spec_hook_name(*self),
    {
        match self {
            HookType::PreCommit => "pre-commit",
            HookType::PrePush => "pre-push",
            HookType::CommitMsg => "commit-msg",
            HookType::PostCommit => "post-commit",
            HookType::PreRebase => "pre-rebase",
            HookType::PostCheckout => "post-checkout",
            HookType::PostMerge => "post-merge",
            HookType::PreReceive => "pre-receive",
            HookType::Update => "update",
            HookType::PostReceive => "post-receive",
            HookType::PrepareCommitMsg => "prepare-commit-msg",
            HookType::PostUpdate => "post-update",
            HookType::PreApplyPatch => "pre-applypatch",
            HookType::PostApplyPatch => "post-applypatch",
            HookType::PreMerge => "pre-merge-commit",
            HookType::PostRewrite => "post-rewrite",
        }
    }

    /// Every hook type, in declaration order.
    pub fn all() -> (r: Vec<HookType>)
        ensures
            r@.len() == 16,
            forall|h: HookType| r@.contains(h),
            forall|i: int, j: int| 0 <= i < j < r@.len() ==> r@[i] != r@[j],
    {
        let v: Vec<HookType> = vec![
            HookType::PreCommit,
            HookType::PrePush,
            HookType::CommitMsg,
            HookType::PostCommit,
            HookType::PreRebase,
            HookType::PostCheckout,
            HookType::PostMerge,
            HookType::PreReceive,
            HookType::Update,
            HookType::PostReceive,
            HookType::PrepareCommitMsg,
            HookType::PostUpdate,
            HookType::PreApplyPatch,
            HookType::PostApplyPatch,
            HookType::PreMerge,
            HookType::PostRewrite,
        ];
        proof {
            assert forall|h: HookType| v@.contains(h) by {
                match h {
                    HookType::PreCommit => assert(v@[0] == h),
                    HookType::PrePush => assert(v@[1] == h),
                    HookType::CommitMsg => assert(v@[2] == h),
                    HookType::PostCommit => assert(v@[3] == h),
                    HookType::PreRebase => assert(v@[4] == h),
                    HookType::PostCheckout => assert(v@[5] == h),
                    HookType::PostMerge => assert(v@[6] == h),
                    HookType::PreReceive => assert(v@[7] == h),
                    HookType::Update => assert(v@[8] == h),
                    HookType::PostReceive => assert(v@[9] == h),
                    HookType::PrepareCommitMsg => assert(v@[10] == h),
                    HookType::PostUpdate => assert(v@[11] == h),
                    HookType::PreApplyPatch => assert(v@[12] == h),
                    HookType::PostApplyPatch => assert(v@[13] == h),
                    HookType::PreMerge => assert(v@[14] == h),
                    HookType::PostRewrite => assert(v@[15] == h),
                }
            }
        }
        v
    }

    /// Parses a canonical hook name; `None` when the name denotes no
    /// known hook type.
    pub fn parse_name(s: &str) -> (r: Option<HookType>)
        ensures
            r == spec_parse_hook_name(s@),
    {
        if str_eq(s, "pre-commit") { Some(HookType::PreCommit) }
        else if str_eq(s, "pre-push") { Some(HookType::PrePush) }
        else if str_eq(s, "commit-msg") { Some(HookType::CommitMsg) }
        else if str_eq(s, "post-commit") { Some(HookType::PostCommit) }
        else if str_eq(s, "pre-rebase") { Some(HookType::PreRebase) }
        else if str_eq(s, "post-checkout") { Some(HookType::PostCheckout) }
        else if str_eq(s, "post-merge") { Some(HookType::PostMerge) }
        else if str_eq(s, "pre-receive") { Some(HookType::PreReceive) }
        else if str_eq(s, "update") { Some(HookType::Update) }
        else if str_eq(s, "post-receive") { Some(HookType::PostReceive) }
        else if str_eq(s, "prepare-commit-msg") { Some(HookType::PrepareCommitMsg) }
        else if str_eq(s, "post-update") { Some(HookType::PostUpdate) }
        else if str_eq(s, "pre-applypatch") { Some(HookType::PreApplyPatch) }
        else if str_eq(s, "post-applypatch") { Some(HookType::PostApplyPatch) }
        else if str_eq(s, "pre-merge-commit") { Some(HookType::PreMerge) }
        else if str_eq(s, "post-rewrite") { Some(HookType::PostRewrite) }
        else { None }
    }

    /// The canonical name as an owned string, in place of `Display`.
    pub fn display_string(&self) -> (r: String)
        ensures
            r@ == spec_hook_name(*self),
    {
        self.as_str().to_owned()
    }
}

impl core::str::FromStr for HookType {
    type Err = String;

    fn from_str(s: &str) -> Result<HookType, String> {
        match HookType::parse_name(s) {
            Some(h) => Ok(h),
            None => Err("Unknown hook type: ".to_owned().concat(s)),
        }
    }
}

/// Parsing a hook type's canonical name yields that hook type back: the
/// textual form round-trips for every hook type.
pub proof fn lemma_hook_name_round_trip(h: HookType)
    ensures
        spec_parse_hook_name(spec_hook_name(h)) == Some(h),
{
    reveal_strlit("pre-commit");
    reveal_strlit("pre-push");
    reveal_strlit("commit-msg");
    reveal_strlit("post-commit");
    reveal_strlit("pre-rebase");
    reveal_strlit("post-checkout");
    reveal_strlit("post-merge");
    reveal_strlit("pre-receive");
    reveal_strlit("update");
    reveal_strlit("post-receive");
    reveal_strlit("prepare-commit-msg");
    reveal_strlit("post-update");
    reveal_strlit("pre-applypatch");
    reveal_strlit("post-applypatch");
    reveal_strlit("pre-merge-commit");
    reveal_strlit("post-rewrite");
    assert("pre-commit"@.len() == 10);
    assert("pre-push"@.len() == 8);
    assert("commit-msg"@.len() == 10);
    assert("post-commit"@.len() == 11);
    assert("pre-rebase"@.len() == 10);
    assert("post-checkout"@.len() == 13);
    assert("post-merge"@.len() == 10);
    assert("pre-receive"@.len() == 11);
    assert("update"@.len() == 6);
    assert("post-receive"@.len() == 12);
    assert("prepare-commit-msg"@.len() == 18);
    assert("post-update"@.len() == 11);
    assert("pre-applypatch"@.len() == 14);
    assert("post-applypatch"@.len() == 15);
    assert("pre-merge-commit"@.len() == 16);
    assert("post-rewrite"@.len() == 12);
    assert("pre-commit"@[0] == 'p' && "pre-commit"@[1] == 'r' && "pre-commit"@[4] == 'c');
    assert("commit-msg"@[0] == 'c' && "commit-msg"@[1] == 'o');
    assert("pre-rebase"@[1] == 'r' && "pre-rebase"@[4] == 'r');
    assert("post-merge"@[1] == 'o');
    assert("post-commit"@[1] == 'o' && "post-commit"@[5] == 'c');
    assert("pre-receive"@[1] == 'r');
    assert("post-update"@[1] == 'o' && "post-update"@[5] == 'u');
    assert("post-receive"@[7] == 'c');
    assert("post-rewrite"@[7] == 'w');
    match h {
        HookType::PreCommit => assert(spec_parse_hook_name(spec_hook_name(h)) == Some(h)),
        HookType::PrePush => assert(spec_parse_hook_name(spec_hook_name(h)) == Some(h)),
        HookType::CommitMsg => assert(spec_parse_hook_name(spec_hook_name(h)) == Some(h)),
        HookType::PostCommit => assert(spec_parse_hook_name(spec_hook_name(h)) == Some(h)),
        HookType::PreRebase => assert(spec_parse_hook_name(spec_hook_name(h)) == Some(h)),
        HookType::PostCheckout => assert(spec_parse_hook_name(spec_hook_name(h)) == Some(h)),
        HookType::PostMerge => assert(spec_parse_hook_name(spec_hook_name(h)) == Some(h)),
        HookType::PreReceive => assert(spec_parse_hook_name(spec_hook_name(h)) == Some(h)),
        HookType::Update => assert(spec_parse_hook_name(spec_hook_name(h)) == Some(h)),
        HookType::PostReceive => assert(spec_parse_hook_name(spec_hook_name(h)) == Some(h)),
        HookType::PrepareCommitMsg => assert(spec_parse_hook_name(spec_hook_name(h)) == Some(h)),
        HookType::PostUpdate => assert(spec_parse_hook_name(spec_hook_name(h)) == Some(h)),
        HookType::PreApplyPatch => assert(spec_parse_hook_name(spec_hook_name(h)) == Some(h)),
        HookType::PostApplyPatch => assert(spec_parse_hook_name(spec_hook_name(h)) == Some(h)),
        HookType::PreMerge => assert(spec_parse_hook_name(spec_hook_name(h)) == Some(h)),
        HookType::PostRewrite => assert(spec_parse_hook_name(spec_hook_name(h)) == Some(h)),
    }
}

/// Mathematical model of a [`Hook`]: its type and its command list in order.
pub struct HookModel {
    pub hook_type: HookType,
    pub commands: Seq<CommandModel>,
}

/// Holds when no two commands of the list share an id.
pub open spec fn ids_unique(s: Seq<CommandModel>) -> bool {
    forall|i: int, j: int| 0 <= i < j < s.len() ==> s[i].id != s[j].id
}

/// A hook: an ordered command list keyed by a hook type. Invariant: no two
/// commands share an id; commands run in list order at apply time.
#[derive(Debug, Clone)]
pub struct Hook {
    pub hook_type: HookType,
    pub commands: Vec<Command>,
}

impl View for Hook {
    type V = HookModel;

    open spec fn view(&self) -> HookModel {
        HookModel { hook_type: self.hook_type, commands: cmds_view(self.commands@) }
    }
}

impl Hook {
    /// Well-formedness: command ids are unique inside this hook.
    pub open spec fn wf(&self) -> bool {
        ids_unique(self@.commands)
    }

    /// An empty hook of the given type: the canonical state of a hook with
    /// no backing file.
    pub fn new(hook_type: HookType) -> (r: Hook)
        ensures
            r@.hook_type == hook_type,
            r@.commands.len() == 0,
            r.wf(),
    {
        let r = Hook { hook_type, commands: Vec::new() };
        proof {
            assert(r@.commands =~= Seq::<CommandModel>::empty());
        }
        r
    }

    /// Whether some command of this hook carries the given id.
    pub fn contains_id(&self, id: &String) -> (r: bool)
        ensures
            r == exists|k: int| 0 <= k < self@.commands.len() && self@.commands[k].id == id@,
    {
        let mut i: usize = 0;
        while i < self.commands.len()
            invariant
                i <= self.commands.len(),
                forall|k: int| 0 <= k < i ==> self@.commands[k].id != id@,
            decreases self.commands.len() - i,
        {
            if self.commands[i].id == *id {
                assert(self@.commands[i as int].id == id@);
                return true;
            }
            i += 1;
        }
        false
    }

    /// Appends a command, refusing an id already present: on success the
    /// new command stands last; on a duplicate id the list is unchanged
    /// and a duplicate-id error names the id and the hook.
    pub fn add_command(&mut self, command: Command) -> (r: Result<(), HookmanError>)
        requires
            old(self).wf(),
        ensures
            final(self).wf(),
            final(self)@.hook_type == old(self)@.hook_type,
            match r {
                Ok(()) => {
                    &&& !(exists|k: int|
                        0 <= k < old(self)@.commands.len()
                            && old(self)@.commands[k].id == command@.id)
                    &&& final(self)@.commands == old(self)@.commands.push(command@)
                },
                Err(e) => {
                    &&& exists|k: int|
                        0 <= k < old(self)@.commands.len()
                            && old(self)@.commands[k].id == command@.id
                    &&& final(self)@.commands == old(self)@.commands
                    &&& e matches HookmanError::CommandAlreadyExists(i, h)
                        && i@ == command@.id && h@ == spec_hook_name(old(self).hook_type)
                },
            },
    {
        if self.contains_id(&command.id) {
            return Err(HookmanError::CommandAlreadyExists(
                command.id.clone(),
                self.hook_type.display_string(),
            ));
        }
        let ghost prior = self@.commands;
        self.commands.push(command);
        proof {
            assert(self@.commands =~= prior.push(command@));
        }
        Ok(())
    }

    /// Removes the command with the given id: on success exactly that
    /// command leaves the list and the rest keep their order; on an unknown
    /// id the list is unchanged and a not-found error names the id and the
    /// hook.
    pub fn remove_command(&mut self, command_id: &String) -> (r: Result<(), HookmanError>)
        requires
            old(self).wf(),
        ensures
            final(self).wf(),
            final(self)@.hook_type == old(self)@.hook_type,
            match r {
                Ok(()) => exists|k: int|
                    {
                        &&& 0 <= k < old(self)@.commands.len()
                        &&& old(self)@.commands[k].id == command_id@
                        &&& forall|j: int| 0 <= j < k ==> old(self)@.commands[j].id != command_id@
                        &&& final(self)@.commands == old(self)@.commands.remove(k)
                    },
                Err(e) => {
                    &&& !(exists|k: int|
                        0 <= k < old(self)@.commands.len()
                            && old(self)@.commands[k].id == command_id@)
                    &&& final(self)@.commands == old(self)@.commands
                    &&& e matches HookmanError::CommandNotFound(i, h)
                        && i@ == command_id@ && h@ == spec_hook_name(old(self).hook_type)
                },
            },
    {
        let mut i: usize = 0;
        while i < self.commands.len()
            invariant
                i <= self.commands.len(),
                *self == *old(self),
                old(self).wf(),
                forall|k: int| 0 <= k < i ==> self@.commands[k].id != command_id@,
            decreases self.commands.len() - i,
        {
            if self.commands[i].id == *command_id {
                let ghost prior = self@.commands;
                let ghost idx = i as int;
                proof {
                    assert(prior[idx].id == command_id@);
                }
                self.commands.remove(i);
                proof {
                    assert(self@.commands =~= prior.remove(idx));
                    prior.remove_ensures(idx);
                    assert forall|a: int, b: int|
                        0 <= a < b < self@.commands.len() implies self@.commands[a].id
                        != self@.commands[b].id by {
                        if b < idx {
                            assert(prior.remove(idx)[a] == prior[a]);
                            assert(prior.remove(idx)[b] == prior[b]);
                        } else if a < idx {
                            assert(prior.remove(idx)[a] == prior[a]);
                            assert(prior.remove(idx)[b] == prior[b + 1]);
                        } else {
                            assert(prior.remove(idx)[a] == prior[a + 1]);
                            assert(prior.remove(idx)[b] == prior[b + 1]);
                        }
                    }
                    assert(0 <= idx < prior.len() && prior[idx].id == command_id@ && (forall|
                        j: int,
                    | 0 <= j < idx ==> prior[j].id != command_id@) && self@.commands
                        == prior.remove(idx));
                }
                return Ok(());
            }
            i += 1;
        }
        Err(HookmanError::CommandNotFound(
            command_id.clone(),
            self.hook_type.display_string(),
        ))
    }
}

} // verus!
