use television::channel::PreviewCommand;
use television::entry::Entry;
use television::formatter::{command_matches_entry, format_command};

#[test]
fn test_format_command() {
    let delimiter = ":".to_string();
    let command = PreviewCommand::new("something {} {2} {0}", &delimiter);
    let entry = Entry::new("an:entry:to:preview".to_string());
    let formatted_command = format_command(&command.command, &delimiter, &entry).unwrap();

    assert_eq!(formatted_command, "something an:entry:to:preview to an");
}

#[test]
fn test_format_command_no_placeholders() {
    let delimiter = ":".to_string();
    let command = PreviewCommand::new("something", &delimiter);
    let entry = Entry::new("an:entry:to:preview".to_string());
    let formatted_command = format_command(&command.command, &delimiter, &entry).unwrap();

    assert_eq!(formatted_command, "something");
}

#[test]
fn test_format_command_with_global_placeholder_only() {
    let delimiter = ":".to_string();
    let command = PreviewCommand::new("something {}", &delimiter);
    let entry = Entry::new("an:entry:to:preview".to_string());
    let formatted_command = format_command(&command.command, &delimiter, &entry).unwrap();

    assert_eq!(formatted_command, "something an:entry:to:preview");
}

#[test]
fn test_format_command_with_positional_placeholders_only() {
    let delimiter = ":".to_string();
    let command = PreviewCommand::new("something {0} -t {2}", &delimiter);
    let entry = Entry::new("an:entry:to:preview".to_string());
    let formatted_command = format_command(&command.command, &delimiter, &entry).unwrap();

    assert_eq!(formatted_command, "something an -t to");
}

#[test]
fn format_command_blank_name_yields_nothing() {
    let delimiter = String::from(":");
    let command = String::from("something {}");
    let entry = Entry::new(String::from("  \t "));
    assert_eq!(format_command(&command, &delimiter, &entry), None);
}

#[test]
fn out_of_range_placeholder_is_a_configuration_error() {
    let delimiter = String::from(":");
    let fits = String::from("something {3}");
    let too_far = String::from("something {4}");
    let entry = Entry::new(String::from("an:entry:to:preview"));
    assert!(command_matches_entry(&fits, &delimiter, &entry));
    assert!(!command_matches_entry(&too_far, &delimiter, &entry));
    // a blank name has nothing to format, so any template matches it
    let blank = Entry::new(String::from(" "));
    assert!(command_matches_entry(&too_far, &delimiter, &blank));
}

#[test]
fn placeholders_inside_the_name_are_expanded_too() {
    // `{N}` is substituted wherever it stands after `{}` expansion, as the
    // original two-pass rewriting does
    let delimiter = String::from(":");
    let command = String::from("echo {}");
    let entry = Entry::new(String::from("a{0}b:c"));
    let formatted = format_command(&command, &delimiter, &entry).unwrap();
    assert_eq!(formatted, "echo aa{0}bb:c");
}
