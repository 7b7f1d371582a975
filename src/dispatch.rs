//! The decisions of dispatching a prefix-command message: which command, if
//! any, runs, and with which argument text.
use vstd::prelude::*;
use crate::command::{find_at, find_spec, Command};
use crate::text::{chars_of, skip_ws, skip_whitespace, string_of_span};

verus! {

/// Settings of the prefix framework that dispatch consults.
pub struct PrefixFrameworkOptions {
    /// The fixed prefix.
    pub prefix: Option<String>,
    /// Whether a mention of the bot counts as a prefix.
    pub mention_as_prefix: bool,
    /// Whether command names match regardless of ASCII case.
    pub case_insensitive_commands: bool,
    /// Whether the bot runs commands from its own messages.
    pub execute_self_messages: bool,
    /// Whether an edit of a message that was not tracked runs its command.
    pub execute_untracked_edits: bool,
}

/// Framework settings: prefix settings and the registered commands.
pub struct FrameworkOptions {
    pub prefix_options: PrefixFrameworkOptions,
    pub commands: Vec<Command>,
}

/// A command invocation that is ready to run.
pub struct Invocation<'a> {
    pub command: &'a Command,
    /// The prefix the message was invoked with.
    pub prefix: String,
    /// The command name as written in the message.
    pub invoked_command_name: String,
    /// The argument text.
    pub args: String,
}

/// What dispatch decides for a message whose prefix split is `stripped`.
pub open spec fn resolve_spec(
    options: FrameworkOptions,
    stripped: Option<(Seq<char>, Seq<char>)>,
    author_id: u64,
    bot_id: u64,
    triggered_by_edit: bool,
    previously_tracked: bool,
) -> Option<(Command, Seq<char>, Seq<char>, Seq<char>)> {
    match stripped {
        None => None,
        Some((p, content)) => if author_id == bot_id && !options.prefix_options.execute_self_messages {
            None
        } else {
            match find_spec(options.commands@, content, skip_ws(content, 0), options.prefix_options.case_insensitive_commands) {
                None => None,
                Some((c, a, b, d)) => if !c.has_prefix_action {
                    None
                } else if triggered_by_edit && !(c.invoke_on_edit || (!previously_tracked
                    && options.prefix_options.execute_untracked_edits)) {
                    None
                } else {
                    Some((c, p, content.subrange(a, b), content.subrange(d, content.len() as int)))
                },
            }
        },
    }
}

/// Decides which command a message runs: `stripped` is the message split
/// into prefix and content (see `strip_prefix`); the content, after leading
/// whitespace, names the command. `None` when nothing is to run: no prefix,
/// the bot's own message where those are not executed, no such command, a
/// command without a prefix action, or an edit that is not to run again.
pub fn resolve_invocation<'a>(
    options: &'a FrameworkOptions,
    stripped: Option<(String, String)>,
    author_id: u64,
    bot_id: u64,
    triggered_by_edit: bool,
    previously_tracked: bool,
) -> (r: Option<Invocation<'a>>)
    ensures
        match r {
            Some(inv) => resolve_spec(*options, crate::prefix::pair_seq(stripped), author_id, bot_id,
                triggered_by_edit, previously_tracked) == Some((*inv.command, inv.prefix@, inv.invoked_command_name@, inv.args@)),
            None => resolve_spec(*options, crate::prefix::pair_seq(stripped), author_id, bot_id,
                triggered_by_edit, previously_tracked) is None,
        },
{
    let (prefix, content) = match stripped {
        Some(pair) => pair,
        None => return None,
    };
    if author_id == bot_id && !options.prefix_options.execute_self_messages {
        return None;
    }
    let s = chars_of(content.as_str());
    let start = skip_whitespace(&s, 0);
    let (command, a, b, d) = match find_at(&options.commands, &s, start, options.prefix_options.case_insensitive_commands) {
        Some(hit) => hit,
        None => return None,
    };
    if !command.has_prefix_action {
        return None;
    }
    if triggered_by_edit && !(command.invoke_on_edit || (!previously_tracked
        && options.prefix_options.execute_untracked_edits)) {
        return None;
    }
    let invoked_command_name = string_of_span(&s, a, b);
    let args = string_of_span(&s, d, s.len());
    Some(Invocation { command, prefix, invoked_command_name, args })
}

} // verus!
