use poise::builder::FrameworkBuilder;
use poise::command::Command;
use poise::help::HelpConfiguration;

fn cmd(name: &str) -> Command {
    Command {
        name: name.to_string(),
        aliases: vec![],
        subcommands: vec![],
        has_prefix_action: true,
        has_slash_action: false,
        invoke_on_edit: false,
        category: None,
        hide_in_help: false,
        inline_help: None,
        multiline_help: None,
        context_menu: None,
        context_menu_name: None,
    }
}

type Builder = FrameworkBuilder<u8, u16, u32>;

#[test]
fn builder_collects_settings() {
    let b = Builder::default().token("abc".to_string()).user_data_setup(5).client_settings(7);
    assert_eq!(b.token, Some("abc".to_string()));
    assert_eq!(b.user_data_setup, Some(5));
    assert_eq!(b.client_settings, Some(7));
    assert!(b.options.is_none());
}

#[test]
fn builder_collects_commands_in_order() {
    let b = Builder::default().command(cmd("a"), 9).commands(vec![cmd("b"), cmd("c")]);
    let names: Vec<&str> = b.commands.iter().map(|(c, _)| c.name.as_str()).collect();
    assert_eq!(names, vec!["a", "b", "c"]);
    assert_eq!(b.commands[0].1, Some(9));
    assert_eq!(b.commands[2].1, None);
}

#[test]
fn help_configuration_defaults() {
    let c = HelpConfiguration::default();
    assert_eq!(c.extra_text_at_bottom, "");
    assert!(c.ephemeral);
    assert!(!c.show_context_menu_commands);
}
