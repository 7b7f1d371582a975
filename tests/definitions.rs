use poise::definitions::{command_definitions, ApplicationCommandKind, CommandDefinitionRef};

fn d(id: u64, prefix: Option<usize>, slash: Option<usize>, context_menu: Option<usize>) -> CommandDefinitionRef {
    CommandDefinitionRef { id, prefix, slash, context_menu }
}

use ApplicationCommandKind::{ContextMenu, Slash};

#[test]
fn facades_of_one_record_are_grouped() {
    let r = command_definitions(&vec![10, 20], &vec![(20, Slash), (30, Slash), (10, ContextMenu)]);
    assert_eq!(
        r,
        vec![d(10, Some(0), None, Some(2)), d(20, Some(1), Some(0), None), d(30, None, Some(1), None)],
    );
}

#[test]
fn application_commands_keep_their_order() {
    let r = command_definitions(&vec![], &vec![(5, ContextMenu), (6, Slash)]);
    assert_eq!(r, vec![d(5, None, None, Some(0)), d(6, None, Some(1), None)]);
}

#[test]
fn no_commands_no_definitions() {
    assert_eq!(command_definitions(&vec![], &vec![]), vec![]);
}

#[test]
fn later_duplicate_index_stands() {
    assert_eq!(command_definitions(&vec![5, 5], &vec![]), vec![d(5, Some(1), None, None)]);
}
