//! The commands of the palette.

use ocean_gui::shell::commands::{
    command_rank, commands, filtered_commands, order_matches, ShellCommand,
};

#[test]
fn empty_query_returns_all_commands() {
    assert_eq!(filtered_commands("").len(), commands().len());
}

#[test]
fn query_filters_by_subsequence() {
    let commands = filtered_commands("rn");

    assert_eq!(commands[0].kind, ShellCommand::RenameNote);
}

#[test]
fn query_ignores_whitespace_and_case() {
    let commands = filtered_commands("  SV  ");

    assert_eq!(commands[0].kind, ShellCommand::SaveNote);
}

fn letters(text: &str) -> Vec<char> {
    text.chars().collect()
}

#[test]
fn ranks_go_from_start_to_scattered() {
    let label = letters("renamenote");
    let initials = letters("rn");
    assert_eq!(command_rank(&label, &initials, &letters("ren")), Some((0, 0)));
    assert_eq!(command_rank(&label, &initials, &letters("rn")), Some((1, 0)));
    assert_eq!(command_rank(&label, &initials, &letters("note")), Some((2, 6)));
    assert_eq!(command_rank(&label, &initials, &letters("eao")), Some((3, 106)));
    assert_eq!(command_rank(&label, &initials, &letters("z")), None);
}

#[test]
fn best_ranks_come_first_and_ties_keep_their_order() {
    let ranks = vec![Some((2, 3)), None, Some((0, 0)), Some((2, 3)), Some((1, 9))];
    assert_eq!(order_matches(&ranks), vec![2, 4, 0, 3]);
}

#[test]
fn unknown_query_finds_nothing() {
    assert!(filtered_commands("zzz").is_empty());
    let found = filtered_commands("NOTE");
    assert_eq!(found.len(), 6);
    assert_eq!(found[0].kind, ShellCommand::NewNote);
    assert_eq!(found[0].label, "New note");
    assert_eq!(found[0].shortcut, "cmd n");
}
