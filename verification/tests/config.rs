//! User configuration, the command line, and paths.

use tang::cli::{
    choose_task, config_path, default_session_path, is_quit_key, Cli, Command, EnumerateTarget, PlayArgs,
    SessionSource, Task,
};
use tang::config::{search_path, Config, ConfigCell, PluginPaths};
use tang::paths::{find_stem, is_absolute, join, System};
use tang::startup::{clock, config_dir, keyboard_name, session_file_name};

fn config_with(clap: &str) -> Config {
    Config {
        plugin_paths: PluginPaths {
            clap: vec![clap.to_string()],
            vst3: vec!["/v".to_string()],
            lv2: vec!["/l".to_string(), "/m".to_string()],
        },
    }
}

#[test]
fn the_first_configuration_stays() {
    let mut cell = ConfigCell::new();
    assert!(cell.extra_clap_paths().is_empty());
    cell.init(config_with("/a"));
    cell.init(config_with("/b"));
    assert_eq!(cell.extra_clap_paths(), ["/a".to_string()]);
    assert_eq!(cell.extra_vst3_paths(), ["/v".to_string()]);
    assert_eq!(cell.extra_lv2_paths().len(), 2);
}

#[test]
fn extra_directories_come_first() {
    let cell = {
        let mut cell = ConfigCell::new();
        cell.init(config_with("/a"));
        cell
    };
    assert_eq!(search_path(cell.extra_lv2_paths(), "").unwrap(), "/l:/m");
    assert_eq!(search_path(cell.extra_lv2_paths(), "/usr/lib/lv2").unwrap(), "/l:/m:/usr/lib/lv2");
    assert!(search_path(&[], "/usr/lib/lv2").is_none());
    assert!(Config::default().plugin_paths.clap.is_empty());
}

fn cli(session: Option<&str>, command: Option<Command>) -> Cli {
    Cli { session: session.map(|s| s.to_string()), command }
}

#[test]
fn without_a_subcommand_the_interface_runs() {
    match choose_task(cli(Some("a.toml"), None)) {
        Task::Run(run) => {
            assert!(matches!(run.source, SessionSource::File(s) if s == "a.toml"));
            assert!(run.view);
            assert_eq!((run.buffer_size, run.sample_rate), (512, 48000));
        }
        _ => panic!("not a run"),
    }
    match choose_task(cli(None, None)) {
        Task::Run(run) => assert!(matches!(run.source, SessionSource::Default)),
        _ => panic!("not a run"),
    }
}

#[test]
fn subcommands_are_told_apart() {
    let args = PlayArgs {
        session: None,
        audio_device: Some("usb".to_string()),
        midi_device: None,
        buffer_size: 128,
        sample_rate: 44100,
        view: false,
    };
    match choose_task(cli(Some("ignored"), Some(Command::Play(args)))) {
        Task::Run(run) => {
            assert!(matches!(run.source, SessionSource::New));
            assert_eq!(run.audio_device.as_deref(), Some("usb"));
            assert_eq!((run.buffer_size, run.sample_rate, run.view), (128, 44100, false));
        }
        _ => panic!("not a run"),
    }
    let describe = Command::Describe { plugin: "x".to_string() };
    assert!(matches!(choose_task(cli(None, Some(describe))), Task::Describe(p) if p == "x"));
    let list = Command::Enumerate(EnumerateTarget::Midi);
    assert!(matches!(choose_task(cli(None, Some(list))), Task::Enumerate(EnumerateTarget::Midi)));
}

#[test]
fn control_q_and_control_c_quit() {
    assert!(is_quit_key('q', true));
    assert!(is_quit_key('c', true));
    assert!(!is_quit_key('q', false));
    assert!(!is_quit_key('x', true));
}

#[test]
fn configuration_is_looked_up_where_it_belongs() {
    let linux = System::Linux;
    assert_eq!(config_dir(linux, Some("/etc/x"), Some("/home/me")).unwrap(), "/etc/x/tang");
    assert_eq!(config_dir(linux, None, Some("/home/me")).unwrap(), "/home/me/.config/tang");
    assert!(config_dir(linux, None, None).is_none());
    assert_eq!(config_dir(System::Mac, Some("/etc/x"), Some("/Users/me")).unwrap(), "/Users/me/.config/tang");
    assert!(config_dir(System::Mac, Some("/etc/x"), None).is_none());
    assert_eq!(config_dir(System::Windows, Some(r"C:\x"), None).unwrap(), r"C:\x\tang");
    assert_eq!(config_path(linux, "/c/tang"), "/c/tang/config.toml");
    assert_eq!(default_session_path(linux, "/c/tang/"), "/c/tang/default.toml");
    assert_eq!(join(linux, "", "a"), "a");
}

#[test]
fn sessions_are_named_after_the_time() {
    assert_eq!(session_file_name(255), "session-ff.toml");
    assert_eq!(session_file_name(0), "session-0.toml");
    assert_eq!(session_file_name(0x18f_a0b1_c2d3), "session-18fa0b1c2d3.toml");
    assert_eq!(clock(86400 + 3661, 7), "01:01:01.007");
    assert_eq!(clock(0, 0), "00:00:00.000");
}

#[test]
fn keyboards_without_a_name_are_numbered() {
    assert_eq!(keyboard_name(&None, 0), "Keyboard 1");
    assert_eq!(keyboard_name(&None, 11), "Keyboard 12");
    assert_eq!(keyboard_name(&Some("Main".to_string()), 3), "Main");
}

#[test]
fn paths_follow_the_system() {
    assert_eq!(join(System::Mac, "/a", "b"), "/a/b");
    assert_eq!(join(System::Windows, r"C:\a", "b"), r"C:\a\b");
    assert_eq!(join(System::Windows, r"C:\a\", "b"), r"C:\a\b");
    assert_eq!(join(System::Windows, "C:/a/", "b"), "C:/a/b");
    assert_eq!(join(System::Windows, "C:", "b"), "C:b");
    assert_eq!(join(System::Linux, r"a\", "b"), r"a\/b");
    let stem = |system: System, path: &str| {
        let chars: Vec<char> = path.chars().collect();
        find_stem(system, &chars).map(|(start, end)| chars[start..end].iter().collect::<String>())
    };
    assert_eq!(stem(System::Linux, "/v/Synth.vst3/").as_deref(), Some("Synth"));
    assert_eq!(stem(System::Linux, r"a\b.c").as_deref(), Some(r"a\b"));
    assert_eq!(stem(System::Windows, r"C:\v\Synth.vst3").as_deref(), Some("Synth"));
    assert_eq!(stem(System::Windows, "C:Synth.vst3").as_deref(), Some("Synth"));
    assert_eq!(stem(System::Windows, r"C:\"), None);
    assert_eq!(stem(System::Windows, r"\\server\share"), None);
    assert_eq!(stem(System::Windows, r"\\server\share\Synth.vst3").as_deref(), Some("Synth"));
    assert_eq!(join(System::Linux, "/a", "/b"), "/b");
    assert_eq!(join(System::Windows, r"C:\a", r"\b"), r"C:\b");
    assert_eq!(join(System::Windows, r"C:\a", "D:b"), "D:b");
    assert!(is_absolute(System::Windows, r"C:\a") && !is_absolute(System::Windows, "C:a"));
    assert!(!is_absolute(System::Windows, r"\a") && is_absolute(System::Linux, "/a"));
    assert_eq!(stem(System::Linux, "/v/.."), None);
}
