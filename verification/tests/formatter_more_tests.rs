// The same template expansions, exercised through the command value rather
// than bare strings.
use television::channel::PreviewCommand;
use television::entry::Entry;
use television::formatter::format_command;

fn expand(command: &PreviewCommand, entry: &Entry) -> String {
    format_command(&command.command, &command.delimiter, entry).unwrap()
}

#[test]
fn previewers_test_format_command() {
    let command = PreviewCommand::new("something {} {2} {0}", ":");
    let entry = Entry::new("an:entry:to:preview".to_string());
    let formatted_command = expand(&command, &entry);

    assert_eq!(formatted_command, "something an:entry:to:preview to an");
}

#[test]
fn previewers_test_format_command_no_placeholders() {
    let command = PreviewCommand::new("something", ":");
    let entry = Entry::new("an:entry:to:preview".to_string());
    let formatted_command = expand(&command, &entry);

    assert_eq!(formatted_command, "something");
}

#[test]
fn previewers_test_format_command_with_global_placeholder_only() {
    let command = PreviewCommand::new("something {}", ":");
    let entry = Entry::new("an:entry:to:preview".to_string());
    let formatted_command = expand(&command, &entry);

    assert_eq!(formatted_command, "something an:entry:to:preview");
}

#[test]
fn previewers_test_format_command_with_positional_placeholders_only() {
    let command = PreviewCommand::new("something {0} -t {2}", ":");
    let entry = Entry::new("an:entry:to:preview".to_string());
    let formatted_command = expand(&command, &entry);

    assert_eq!(formatted_command, "something an -t to");
}

#[test]
fn test_previewer_test_format_command() {
    let command = PreviewCommand::new("something {} {2} {0}", ":");
    let entry = Entry::new("an:entry:to:preview".to_string());
    let formatted_command = expand(&command, &entry);

    assert_eq!(formatted_command, "something an:entry:to:preview to an");
}

#[test]
fn test_previewer_test_format_command_no_placeholders() {
    let command = PreviewCommand::new("something", ":");
    let entry = Entry::new("an:entry:to:preview".to_string());
    let formatted_command = expand(&command, &entry);

    assert_eq!(formatted_command, "something");
}

#[test]
fn test_previewer_test_format_command_with_global_placeholder_only() {
    let command = PreviewCommand::new("something {}", ":");
    let entry = Entry::new("an:entry:to:preview".to_string());
    let formatted_command = expand(&command, &entry);

    assert_eq!(formatted_command, "something an:entry:to:preview");
}

#[test]
fn test_previewer_test_format_command_with_positional_placeholders_only() {
    let command = PreviewCommand::new("something {0} -t {2}", ":");
    let entry = Entry::new("an:entry:to:preview".to_string());
    let formatted_command = expand(&command, &entry);

    assert_eq!(formatted_command, "something an -t to");
}
