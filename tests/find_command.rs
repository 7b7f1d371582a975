use poise::command::{find_command, Command};

fn cmd(name: &str, aliases: &[&str], subcommands: Vec<Command>) -> Command {
    Command {
        name: name.to_string(),
        aliases: aliases.iter().map(|a| a.to_string()).collect(),
        subcommands,
        has_prefix_action: true,
        has_slash_action: false,
        invoke_on_edit: false,
        category: None,
        hide_in_help: false,
        inline_help: None,
        multiline_help: None,
        context_menu: None,
        context_menu_name: None,
    }
}

fn found(commands: &Vec<Command>, msg: &str, ci: bool) -> Option<(String, String, String)> {
    find_command(commands, msg, ci).map(|(c, n, a)| (c.name.clone(), n, a))
}

fn s(a: &str, b: &str, c: &str) -> Option<(String, String, String)> {
    Some((a.to_string(), b.to_string(), c.to_string()))
}

fn tree() -> Vec<Command> {
    vec![cmd("command1", &[], vec![]), cmd("command2", &["c2"], vec![cmd("command3", &[], vec![])])]
}

#[test]
fn top_level_command() {
    assert_eq!(found(&tree(), "command1 my arguments", false), s("command1", "command1", "my arguments"));
}

#[test]
fn subcommand_is_found() {
    assert_eq!(found(&tree(), "command2 command3 my arguments", false), s("command3", "command3", "my arguments"));
}

#[test]
fn unknown_subcommand_is_an_argument() {
    assert_eq!(
        found(&tree(), "CoMmAnD2 cOmMaNd99 my arguments", true),
        s("command2", "CoMmAnD2", "cOmMaNd99 my arguments"),
    );
}

#[test]
fn case_sensitive_by_default() {
    assert_eq!(found(&tree(), "COMMAND1 x", false), None);
}

#[test]
fn alias_matches() {
    assert_eq!(found(&tree(), "c2   x  y", false), s("command2", "c2", "x  y"));
}

#[test]
fn subcommand_takes_priority() {
    let commands = vec![cmd("p", &[], vec![cmd("c", &[], vec![])])];
    assert_eq!(found(&commands, "p c rest", false), s("c", "c", "rest"));
}

#[test]
fn no_command_matches() {
    assert_eq!(found(&tree(), "other", false), None);
    assert_eq!(found(&tree(), "", false), None);
}

#[test]
fn first_of_duplicates_wins() {
    let mut first = cmd("dup", &[], vec![]);
    first.inline_help = Some("first".to_string());
    let commands = vec![first, cmd("dup", &[], vec![])];
    let r = find_command(&commands, "dup", false).unwrap();
    assert_eq!(r.0.inline_help, Some("first".to_string()));
    assert_eq!(r.2, "");
}
