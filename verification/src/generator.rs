//! The script generator: renders a hook's command list into an executable
//! shell script, deterministically and order-sensitively. The script fails
//! fast, carries a provenance marker naming this tool, and emits every
//! command verbatim — no substitution, escaping or validation, by design.

use crate::command::CommandModel;
use crate::error::HookmanError;
use crate::hook::{Hook, HookModel};
use crate::text::{chars_to_string, push_str_chars};
use vstd::prelude::*;
use vstd::string::*;

verus! {

/// The script lines one command contributes: a comment naming its id (and
/// description, if present), then the command text itself, verbatim.
pub open spec fn spec_script_command(c: CommandModel) -> Seq<char> {
    "\n# "@ + c.id + (match c.description {
        Some(d) => ": "@ + d,
        None => Seq::empty(),
    }) + "\n"@ + c.command + "\n"@
}

/// The script lines of a whole command list, in list order.
pub open spec fn spec_script_commands(cs: Seq<CommandModel>) -> Seq<char>
    decreases cs.len(),
{
    if cs.len() == 0 {
        Seq::empty()
    } else {
        spec_script_command(cs[0]) + spec_script_commands(cs.skip(1))
    }
}

/// One more command appends that command's lines.
proof fn lemma_script_push(cs: Seq<CommandModel>, c: CommandModel)
    ensures
        spec_script_commands(cs.push(c)) == spec_script_commands(cs) + spec_script_command(c),
    decreases cs.len(),
{
    if cs.len() == 0 {
        assert(cs.push(c)[0] == c);
        assert(cs.push(c).skip(1) =~= Seq::<CommandModel>::empty());
        assert(spec_script_commands(cs.push(c)) == spec_script_command(c) + spec_script_commands(
            Seq::<CommandModel>::empty(),
        ));
        assert(spec_script_commands(Seq::<CommandModel>::empty()) == Seq::<char>::empty());
        assert(spec_script_command(c) + Seq::<char>::empty() =~= spec_script_command(c));
        assert(spec_script_commands(cs) + spec_script_command(c) =~= spec_script_command(c));
    } else {
        assert(cs.push(c)[0] == cs[0]);
        assert(cs.push(c).skip(1) =~= cs.skip(1).push(c));
        assert(spec_script_commands(cs.push(c)) == spec_script_command(cs[0])
            + spec_script_commands(cs.skip(1).push(c)));
        lemma_script_push(cs.skip(1), c);
        assert(spec_script_commands(cs) == spec_script_command(cs[0]) + spec_script_commands(
            cs.skip(1),
        ));
        assert(spec_script_command(cs[0]) + (spec_script_commands(cs.skip(1))
            + spec_script_command(c)) =~= (spec_script_command(cs[0]) + spec_script_commands(
            cs.skip(1),
        )) + spec_script_command(c));
    }
}

/// The whole script: shebang, fail-fast directive, provenance marker, then
/// every command's lines in order.
pub open spec fn spec_script(h: HookModel) -> Seq<char> {
    "#!/bin/sh\nset -e\n\n# Generated by hookman\n"@ + spec_script_commands(h.commands)
}

/// Renders the hook's script text.
pub fn generate_script(hook: &Hook) -> (r: String)
    ensures
        r@ == spec_script(hook@),
{
    let mut out: Vec<char> = Vec::new();
    push_str_chars(&mut out, "#!/bin/sh\nset -e\n\n# Generated by hookman\n");
    proof {
        assert(Seq::<char>::empty() + "#!/bin/sh\nset -e\n\n# Generated by hookman\n"@
            =~= "#!/bin/sh\nset -e\n\n# Generated by hookman\n"@);
        assert(hook@.commands.take(0) =~= Seq::<CommandModel>::empty());
        assert(out@ =~= "#!/bin/sh\nset -e\n\n# Generated by hookman\n"@ + spec_script_commands(
            hook@.commands.take(0),
        ));
    }
    let mut i: usize = 0;
    while i < hook.commands.len()
        invariant
            i <= hook@.commands.len(),
            out@ == "#!/bin/sh\nset -e\n\n# Generated by hookman\n"@ + spec_script_commands(
                hook@.commands.take(i as int),
            ),
        decreases hook@.commands.len() - i,
    {
        let ghost out_pre = out@;
        let ghost cv = hook@.commands[i as int];
        let c = &hook.commands[i];
        proof {
            assert(cv == c@);
        }
        push_str_chars(&mut out, "\n# ");
        push_str_chars(&mut out, c.id.as_str());
        match &c.description {
            Some(d) => {
                push_str_chars(&mut out, ": ");
                push_str_chars(&mut out, d.as_str());
            },
            None => {},
        }
        push_str_chars(&mut out, "\n");
        push_str_chars(&mut out, c.command.as_str());
        push_str_chars(&mut out, "\n");
        proof {
            assert(out@ =~= out_pre + spec_script_command(cv));
            lemma_script_push(hook@.commands.take(i as int), cv);
            assert(hook@.commands.take(i as int).push(cv) =~= hook@.commands.take(i as int + 1));
        }
        i += 1;
    }
    proof {
        assert(hook@.commands.take(hook@.commands.len() as int) =~= hook@.commands);
    }
    chars_to_string(&out)
}

/// The script generator. Rendering is total in practice; the `Result`
/// keeps a typed error path open for richer command kinds.
pub struct ScriptGenerator;

impl ScriptGenerator {
    /// Builds the generator.
    pub fn new() -> ScriptGenerator {
        ScriptGenerator
    }

    /// Renders the hook's script; never fails for the command kinds that
    /// exist today.
    pub fn generate(&self, hook: &Hook) -> (r: Result<String, HookmanError>)
        ensures
            r matches Ok(s) && s@ == spec_script(hook@),
    {
        Ok(generate_script(hook))
    }
}

} // verus!
