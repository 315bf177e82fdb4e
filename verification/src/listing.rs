//! Text the `list` operation shows: each hook's name and its commands,
//! one per line, with ids in brackets and descriptions indented beneath.
//! Rendering is exact, so the caller only prints.

use crate::command::CommandModel;
use crate::hook::{spec_hook_name, Hook, HookModel};
use crate::text::{chars_to_string, push_str_chars};
use vstd::prelude::*;
use vstd::string::*;

verus! {

/// The character of one decimal digit.
pub open spec fn spec_digit(d: nat) -> char {
    if d == 0 { '0' }
    else if d == 1 { '1' }
    else if d == 2 { '2' }
    else if d == 3 { '3' }
    else if d == 4 { '4' }
    else if d == 5 { '5' }
    else if d == 6 { '6' }
    else if d == 7 { '7' }
    else if d == 8 { '8' }
    else { '9' }
}

/// The decimal form of a number, most significant digit first.
pub open spec fn spec_dec(n: nat) -> Seq<char>
    decreases n,
{
    if n < 10 {
        seq![spec_digit(n)]
    } else {
        spec_dec(n / 10).push(spec_digit(n % 10))
    }
}

/// Appends the decimal form of `n`.
pub fn push_dec(out: &mut Vec<char>, n: usize)
    ensures
        final(out)@ == old(out)@ + spec_dec(n as nat),
    decreases n,
{
    if n < 10 {
        out.push(digit_char(n));
        proof {
            assert(old(out)@ + spec_dec(n as nat) =~= old(out)@.push(spec_digit(n as nat)));
        }
    } else {
        push_dec(out, n / 10);
        out.push(digit_char(n % 10));
        proof {
            assert(old(out)@ + spec_dec(n as nat) =~= (old(out)@ + spec_dec(
                n as nat / 10,
            )).push(spec_digit(n as nat % 10)));
        }
    }
}

/// The character of one digit value.
fn digit_char(d: usize) -> (r: char)
    requires
        d < 10,
    ensures
        r == spec_digit(d as nat),
{
    if d == 0 { '0' }
    else if d == 1 { '1' }
    else if d == 2 { '2' }
    else if d == 3 { '3' }
    else if d == 4 { '4' }
    else if d == 5 { '5' }
    else if d == 6 { '6' }
    else if d == 7 { '7' }
    else if d == 8 { '8' }
    else { '9' }
}

/// The listing lines of one command: its id in brackets and its text,
/// then its description indented beneath, if it has one.
pub open spec fn spec_command_listing(c: CommandModel) -> Seq<char> {
    "  ["@ + c.id + "] "@ + c.command + "\n"@ + (match c.description {
        Some(d) => "      "@ + d + "\n"@,
        None => Seq::empty(),
    })
}

/// The listing lines of a command list, in order.
pub open spec fn spec_commands_listing(cs: Seq<CommandModel>) -> Seq<char>
    decreases cs.len(),
{
    if cs.len() == 0 {
        Seq::empty()
    } else {
        spec_command_listing(cs[0]) + spec_commands_listing(cs.skip(1))
    }
}

/// One more command appends that command's lines.
proof fn lemma_commands_listing_push(cs: Seq<CommandModel>, c: CommandModel)
    ensures
        spec_commands_listing(cs.push(c)) == spec_commands_listing(cs) + spec_command_listing(c),
    decreases cs.len(),
{
    if cs.len() == 0 {
        assert(cs.push(c)[0] == c);
        assert(cs.push(c).skip(1) =~= Seq::<CommandModel>::empty());
        assert(spec_commands_listing(cs.push(c)) == spec_command_listing(c)
            + spec_commands_listing(Seq::<CommandModel>::empty()));
        assert(spec_commands_listing(Seq::<CommandModel>::empty()) == Seq::<char>::empty());
        assert(spec_command_listing(c) + Seq::<char>::empty() =~= spec_command_listing(c));
        assert(spec_commands_listing(cs) + spec_command_listing(c) =~= spec_command_listing(c));
    } else {
        assert(cs.push(c)[0] == cs[0]);
        assert(cs.push(c).skip(1) =~= cs.skip(1).push(c));
        assert(spec_commands_listing(cs.push(c)) == spec_command_listing(cs[0])
            + spec_commands_listing(cs.skip(1).push(c)));
        lemma_commands_listing_push(cs.skip(1), c);
        assert(spec_commands_listing(cs) == spec_command_listing(cs[0]) + spec_commands_listing(
            cs.skip(1),
        ));
        assert(spec_command_listing(cs[0]) + (spec_commands_listing(cs.skip(1))
            + spec_command_listing(c)) =~= (spec_command_listing(cs[0]) + spec_commands_listing(
            cs.skip(1),
        )) + spec_command_listing(c));
    }
}

/// The command lines of a hook, or a note that it has none.
pub open spec fn spec_hook_commands_listing(h: HookModel) -> Seq<char> {
    if h.commands.len() == 0 {
        "  No commands configured\n"@
    } else {
        spec_commands_listing(h.commands)
    }
}

/// Renders a hook's command lines, or the note that it has none.
pub fn render_hook_commands(hook: &Hook) -> (r: String)
    ensures
        r@ == spec_hook_commands_listing(hook@),
{
    if hook.commands.len() == 0 {
        return "  No commands configured\n".to_owned();
    }
    let mut out: Vec<char> = Vec::new();
    let mut i: usize = 0;
    proof {
        assert(hook@.commands.take(0) =~= Seq::<CommandModel>::empty());
        assert(out@ =~= spec_commands_listing(hook@.commands.take(0)));
    }
    while i < hook.commands.len()
        invariant
            i <= hook@.commands.len(),
            out@ == spec_commands_listing(hook@.commands.take(i as int)),
        decreases hook@.commands.len() - i,
    {
        let ghost out_pre = out@;
        let ghost cv = hook@.commands[i as int];
        let c = &hook.commands[i];
        proof {
            assert(cv == c@);
        }
        push_str_chars(&mut out, "  [");
        push_str_chars(&mut out, c.id.as_str());
        push_str_chars(&mut out, "] ");
        push_str_chars(&mut out, c.command.as_str());
        push_str_chars(&mut out, "\n");
        match &c.description {
            Some(d) => {
                push_str_chars(&mut out, "      ");
                push_str_chars(&mut out, d.as_str());
                push_str_chars(&mut out, "\n");
            },
            None => {},
        }
        proof {
            assert(out@ =~= out_pre + spec_command_listing(cv));
            lemma_commands_listing_push(hook@.commands.take(i as int), cv);
            assert(hook@.commands.take(i as int).push(cv) =~= hook@.commands.take(i as int + 1));
        }
        i += 1;
    }
    proof {
        assert(hook@.commands.take(hook@.commands.len() as int) =~= hook@.commands);
    }
    chars_to_string(&out)
}

/// The heading shown for one hook when listing a single hook type.
pub open spec fn spec_hook_heading(h: HookModel) -> Seq<char> {
    "Hook: "@ + spec_hook_name(h.hook_type) + "\n"@
}

/// Renders the listing of one requested hook: heading, then commands.
pub fn render_specific_hook(hook: &Hook) -> (r: String)
    ensures
        r@ == spec_hook_heading(hook@) + spec_hook_commands_listing(hook@),
{
    let mut out: Vec<char> = Vec::new();
    push_str_chars(&mut out, "Hook: ");
    push_str_chars(&mut out, hook.hook_type.as_str());
    push_str_chars(&mut out, "\n");
    let body = render_hook_commands(hook);
    push_str_chars(&mut out, body.as_str());
    proof {
        assert(out@ =~= spec_hook_heading(hook@) + spec_hook_commands_listing(hook@));
    }
    chars_to_string(&out)
}

/// The summary line shown for one hook when listing all hooks: its name
/// and how many commands it holds, then its command lines.
pub open spec fn spec_hook_summary(h: HookModel) -> Seq<char> {
    "\n"@ + spec_hook_name(h.hook_type) + " ("@ + spec_dec(h.commands.len()) + " commands)\n"@
        + spec_hook_commands_listing(h)
}

/// Renders one hook's part of the all-hooks listing.
pub fn render_hook_summary(hook: &Hook) -> (r: String)
    ensures
        r@ == spec_hook_summary(hook@),
{
    let mut out: Vec<char> = Vec::new();
    push_str_chars(&mut out, "\n");
    push_str_chars(&mut out, hook.hook_type.as_str());
    push_str_chars(&mut out, " (");
    push_dec(&mut out, hook.commands.len());
    push_str_chars(&mut out, " commands)\n");
    let body = render_hook_commands(hook);
    push_str_chars(&mut out, body.as_str());
    proof {
        assert(out@ =~= spec_hook_summary(hook@));
    }
    chars_to_string(&out)
}

} // verus!
