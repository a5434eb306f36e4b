use television::action::Action;
use television::channel::{
    default_delimiter, is_cable_file_format, ChannelConfig, PreviewCommand, DEFAULT_DELIMITER,
};
use television::channels::{CliTvChannel, UnitChannel};
use television::config::AppConfig;
use television::event::Event;
use television::layout::Dimensions;
use television::logger::CircularBuffer;
use television::previewer::CommandPreviewerConfig;
use television::tui::RenderingTask;
use television::utils::{
    is_known_text_extension, sep_name_and_value_indices, AppMetadata, FileType, Shell,
};

#[test]
fn preview_command_defaults() {
    let files = PreviewCommand::defaults("files");
    assert_eq!(files.command, "bat {0}");
    assert_eq!(files.delimiter, DEFAULT_DELIMITER);
    let other = PreviewCommand::defaults("env");
    assert_eq!(other.command, "echo {}");
    assert_eq!(default_delimiter(), " ");
}

#[test]
fn channel_config_holds_its_commands() {
    let config = ChannelConfig {
        name: String::from("files"),
        source_command: String::from("find . -type f"),
        preview_command: vec![String::from("bat {0}")],
        delimiter: default_delimiter(),
        run_command: Vec::new(),
        transition_command: Vec::new(),
        refresh: false,
    };
    assert_eq!(config.preview_command.len(), 1);
    assert!(!config.refresh);
}

#[test]
fn command_previewer_config_delimiters() {
    let stock = CommandPreviewerConfig::default();
    assert_eq!(stock.delimiter, ":");
    let custom = CommandPreviewerConfig::new(";");
    assert_eq!(custom.delimiter, ";");
}

#[test]
fn circular_buffer_overwrites_the_oldest() {
    let mut buf: CircularBuffer<u64> = CircularBuffer::new(3);
    buf.push(1);
    buf.push(2);
    assert_eq!(buf.take(), vec![1, 2]);
    for x in 1..=5u64 {
        buf.push(x);
    }
    {
        let seen: Vec<&u64> = buf.iter();
        assert_eq!(seen, vec![&3, &4, &5]);
        let reversed: Vec<&u64> = buf.rev_iter();
        assert_eq!(reversed, vec![&5, &4, &3]);
    }
    assert_eq!(buf.take(), vec![3, 4, 5]);
    buf.push(9);
    assert_eq!(buf.take(), vec![9]);
}

#[test]
fn sep_indices_splits_sorts_and_dedups() {
    let mut indices: Vec<u32> = vec![9, 2, 7, 2, 12, 10, 12];
    let (name_indices, value_indices, has_name, has_value) =
        sep_name_and_value_indices(&mut indices, 10);
    assert_eq!(name_indices, vec![2, 7, 9]);
    assert_eq!(value_indices, vec![0, 2]);
    assert!(has_name);
    assert!(has_value);
    assert!(indices.is_empty());

    let mut only_name: Vec<u32> = vec![1];
    let (n, v, has_n, has_v) = sep_name_and_value_indices(&mut only_name, 10);
    assert_eq!(n, vec![1]);
    assert!(v.is_empty());
    assert!(has_n);
    assert!(!has_v);
}

#[test]
fn small_data_types_hold_their_values() {
    let meta = AppMetadata::new(String::from("1.0"), String::from("/tmp"));
    assert_eq!(meta.version, "1.0");
    assert_eq!(meta.current_directory, "/tmp");

    let d = Dimensions::new(40, 20);
    assert_eq!((d.x, d.y), (40, 20));
    assert_eq!(Dimensions::default(), Dimensions::new(95, 95));
    assert_eq!(Dimensions::from(30), Dimensions::new(30, 30));

    let cfg = AppConfig::default();
    assert_eq!(cfg.data_dir, "");

    assert_eq!(CliTvChannel::default(), CliTvChannel::Text);
    assert_eq!(UnitChannel::Cable, UnitChannel::Cable);
    assert_eq!(Shell::Zsh, Shell::Zsh);
    assert_eq!(FileType::Text, FileType::Text);
    assert_eq!(RenderingTask::Quit, RenderingTask::Quit);

    let action = Action::AddInputChar('x');
    assert!(matches!(action, Action::AddInputChar('x')));
    let event: Event<u8> = Event::Resize(80, 24);
    assert!(matches!(event, Event::Resize(80, 24)));
}

#[test]
fn cable_files_are_recognized_by_name() {
    assert!(is_cable_file_format("config/cable_channels.toml"));
    assert!(is_cable_file_format("my_channels.TOML"));
    assert!(is_cable_file_format("channels.toml"));
    assert!(!is_cable_file_format("cable.toml"));
    assert!(!is_cable_file_format("my_channels.yaml"));
    assert!(!is_cable_file_format("my_channels"));
    assert!(!is_cable_file_format("deep/path/channels/"));
}

#[test]
fn known_text_extensions_by_path() {
    assert!(is_known_text_extension("src/main.rs"));
    assert!(is_known_text_extension("notes.md"));
    assert!(is_known_text_extension("a/b/c.tmTheme"));
    assert!(!is_known_text_extension("photo.jpg"));
    assert!(!is_known_text_extension("archive.tar.gz"));
    assert!(!is_known_text_extension(".bashrc"));
    assert!(!is_known_text_extension("no_extension"));
}
