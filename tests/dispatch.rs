use poise::command::Command;
use poise::dispatch::{resolve_invocation, FrameworkOptions, PrefixFrameworkOptions};

fn cmd(name: &str, prefix_action: bool, invoke_on_edit: bool) -> Command {
    Command {
        name: name.to_string(),
        aliases: vec![],
        subcommands: vec![],
        has_prefix_action: prefix_action,
        has_slash_action: false,
        invoke_on_edit,
        category: None,
        hide_in_help: false,
        inline_help: None,
        multiline_help: None,
        context_menu: None,
        context_menu_name: None,
    }
}

fn options() -> FrameworkOptions {
    FrameworkOptions {
        prefix_options: PrefixFrameworkOptions {
            prefix: Some("~".to_string()),
            mention_as_prefix: false,
            case_insensitive_commands: false,
            execute_self_messages: false,
            execute_untracked_edits: true,
        },
        commands: vec![cmd("ping", true, false), cmd("slashonly", false, false), cmd("edit", true, true)],
    }
}

fn split(a: &str, b: &str) -> Option<(String, String)> {
    Some((a.to_string(), b.to_string()))
}

#[test]
fn resolves_a_command() {
    let o = options();
    let inv = resolve_invocation(&o, split("~", "  ping a b"), 1, 2, false, false).unwrap();
    assert_eq!(inv.command.name, "ping");
    assert_eq!(inv.prefix, "~");
    assert_eq!(inv.invoked_command_name, "ping");
    assert_eq!(inv.args, "a b");
}

#[test]
fn nothing_without_prefix() {
    let o = options();
    assert!(resolve_invocation(&o, None, 1, 2, false, false).is_none());
}

#[test]
fn own_messages_are_skipped() {
    let o = options();
    assert!(resolve_invocation(&o, split("~", "ping"), 2, 2, false, false).is_none());
}

#[test]
fn command_without_prefix_action_is_skipped() {
    let o = options();
    assert!(resolve_invocation(&o, split("~", "slashonly"), 1, 2, false, false).is_none());
}

#[test]
fn edits() {
    let o = options();
    assert!(resolve_invocation(&o, split("~", "ping"), 1, 2, true, true).is_none());
    assert!(resolve_invocation(&o, split("~", "ping"), 1, 2, true, false).is_some());
    assert!(resolve_invocation(&o, split("~", "edit"), 1, 2, true, true).is_some());
}
