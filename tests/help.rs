use poise::command::{Command, ContextMenuKind};
use poise::help::{help_all_commands_text, help_command_prefix, help_single_command_text, HelpConfiguration};

fn cmd(name: &str) -> Command {
    Command {
        name: name.to_string(),
        aliases: vec![],
        subcommands: vec![],
        has_prefix_action: false,
        has_slash_action: false,
        invoke_on_edit: false,
        category: None,
        hide_in_help: false,
        inline_help: None,
        multiline_help: None,
        context_menu: None,
        context_menu_name: None,
    }
}

fn commands() -> Vec<Command> {
    let mut ping = cmd("ping");
    ping.has_prefix_action = true;
    ping.inline_help = Some("Ping".to_string());
    let mut about = cmd("about");
    about.has_slash_action = true;
    about.category = Some("Info".to_string());
    about.inline_help = Some("About".to_string());
    about.multiline_help = Some("About this bot, at length".to_string());
    let mut secret = cmd("secret");
    secret.has_prefix_action = true;
    secret.hide_in_help = true;
    let mut menu = cmd("menu");
    menu.context_menu = Some(ContextMenuKind::User);
    menu.context_menu_name = Some("Inspect".to_string());
    vec![ping, about, secret, menu]
}

#[test]
fn overview_groups_by_category() {
    let config = HelpConfiguration { extra_text_at_bottom: "Bye", ephemeral: true, show_context_menu_commands: true };
    let text = help_all_commands_text(&commands(), "~", &config);
    assert_eq!(
        text,
        "```\nCommands:\n  ~ping        Ping\nInfo:\n  /about       About\n\nContext menu commands:\n  Inspect (on user)\n\nBye\n```",
    );
}

#[test]
fn overview_without_context_menu() {
    let config = HelpConfiguration::default();
    let text = help_all_commands_text(&commands(), "", &config);
    assert_eq!(text, "```\nCommands:\n  ping         Ping\nInfo:\n  /about       About\n\n\n```");
}

#[test]
fn overview_pads_long_names_with_one_space() {
    let mut long = cmd("averyverylongname");
    long.has_prefix_action = true;
    let text = help_all_commands_text(&vec![long], "!", &HelpConfiguration::default());
    assert_eq!(text, "```\nCommands:\n  !averyverylongname \n\n\n```");
}

#[test]
fn single_command_help() {
    assert_eq!(help_single_command_text(&commands(), "PING"), "Ping");
    assert_eq!(help_single_command_text(&commands(), "about"), "About this bot, at length");
    assert_eq!(help_single_command_text(&commands(), "inspect"), "No help available");
    assert_eq!(help_single_command_text(&commands(), "nope"), "No such command `nope`");
}

#[test]
fn help_prefix_choice() {
    assert_eq!(help_command_prefix(&Some("~".to_string()), Some("!".to_string())), "~");
    assert_eq!(help_command_prefix(&None, Some("!".to_string())), "!");
    assert_eq!(help_command_prefix(&None, None), "");
}
