use television::entry::{merge_ranges, Entry};

#[test]
fn test_empty_input() {
    let ranges: Vec<(u32, u32)> = vec![];
    assert_eq!(merge_ranges(&ranges), Vec::<(u32, u32)>::new());
}

#[test]
fn test_single_range() {
    let ranges = vec![(1, 3)];
    assert_eq!(merge_ranges(&ranges), vec![(1, 3)]);
}

#[test]
fn test_contiguous_ranges() {
    let ranges = vec![(1, 2), (2, 3), (3, 4), (4, 5)];
    assert_eq!(merge_ranges(&ranges), vec![(1, 5)]);
}

#[test]
fn test_non_contiguous_ranges() {
    let ranges = vec![(1, 2), (3, 4), (5, 6)];
    assert_eq!(merge_ranges(&ranges), vec![(1, 2), (3, 4), (5, 6)]);
}

#[test]
fn entry_builders_and_identity() {
    let e = Entry::new(String::from("src/main.rs"))
        .with_value(String::from("fn main() {}"))
        .with_name_match_ranges(&[(0, 2), (2, 3)])
        .with_line_number(42);
    assert_eq!(e.name, "src/main.rs");
    assert_eq!(e.value.as_deref(), Some("fn main() {}"));
    assert_eq!(e.name_match_ranges, Some(vec![(0, 3)]));
    assert_eq!(e.line_number, Some(42));

    // identity is the name and the line number, nothing else
    let twin = Entry::new(String::from("src/main.rs")).with_line_number(42);
    assert!(e == twin);
    let other_line = Entry::new(String::from("src/main.rs")).with_line_number(7);
    assert!(e != other_line);
    let no_line = Entry::new(String::from("src/main.rs"));
    assert!(e != no_line);

    let icon = devicons::FileIcon::from("main.rs");
    let with_icon = Entry::new(String::from("main.rs")).with_icon(icon);
    assert_eq!(with_icon.icon, Some(icon));

    let placeholder = Entry::placeholder();
    assert_eq!(placeholder.name, "");
    assert!(placeholder.line_number.is_none());
}

#[test]
fn stdout_repr_quotes_and_line_numbers() {
    let plain = Entry::new(String::from("src/main.rs")).with_line_number(42);
    assert_eq!(plain.stdout_repr(false), "src/main.rs:42");
    assert_eq!(plain.stdout_repr(true), "src/main.rs:42");
    let spaced = Entry::new(String::from("my file.txt"));
    assert_eq!(spaced.stdout_repr(true), "'my file.txt'");
    assert_eq!(spaced.stdout_repr(false), "my file.txt");
    let zero = Entry::new(String::from("x")).with_line_number(0);
    assert_eq!(zero.stdout_repr(false), "x:0");
    let big = Entry::new(String::from("x")).with_line_number(120);
    assert_eq!(big.stdout_repr(false), "x:120");
}
