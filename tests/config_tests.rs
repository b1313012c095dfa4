use nebula::args::{Commands, NebulaArgs};
use nebula::config::{Config, LogLevel, NodeState};

#[test]
fn config_test_config_default() {
    let config = Config::default();
    assert_eq!(config.listen_port, 4001);
    assert_eq!(config.listen_address, "0.0.0.0");
    assert_eq!(config.log_level, LogLevel::Info);
    assert!(!config.daemon_mode);
}

#[test]
fn config_tests_test_config_default() {
    let config = Config::default();
    assert_eq!(config.listen_port, 4001);
    assert_eq!(config.listen_address, "0.0.0.0");
    assert_eq!(config.log_level, LogLevel::Info);
    assert!(!config.daemon_mode);
}

#[test]
fn test_log_level_parsing() {
    assert_eq!("debug".parse::<LogLevel>().unwrap(), LogLevel::Debug);
    assert_eq!("info".parse::<LogLevel>().unwrap(), LogLevel::Info);
    assert_eq!("error".parse::<LogLevel>().unwrap(), LogLevel::Error);

    assert_eq!("DEBUG".parse::<LogLevel>().unwrap(), LogLevel::Debug);

    assert!("invalid".parse::<LogLevel>().is_err());
}

#[test]
fn invalid_log_level_message_names_the_input() {
    assert_eq!(LogLevel::parse_level("Loud"), Err("Invalid log level: Loud".to_string()));
    assert_eq!(LogLevel::parse_level("WaRn"), Ok(LogLevel::Warn));
    assert_eq!(LogLevel::level_named("trace"), Some(LogLevel::Trace));
    assert_eq!(LogLevel::level_named("TRACE"), None);
    assert_eq!(LogLevel::Warn.to_string(), "warn");
}

#[test]
fn node_state_defaults_to_stopped() {
    assert_eq!(NodeState::default(), NodeState::Stopped);
    assert_eq!(NodeState::Running.as_str(), "running");
}

fn base() -> Config {
    Config {
        listen_port: 1,
        listen_address: "10.0.0.1".to_string(),
        storage_dir: "/data".to_string(),
        log_level: LogLevel::Warn,
        daemon_mode: false,
        verbose: false,
    }
}

#[test]
fn start_command_overrides_network_and_storage() {
    let args = NebulaArgs {
        config_file: None,
        log_level: Some("ERROR".to_string()),
        verbose: false,
        command: Commands::Start {
            port: 8080,
            storage: Some("/srv".to_string()),
            address: "127.0.0.1".to_string(),
            daemon: true,
        },
    };
    let c = base().merge_cli_args(&args);
    assert_eq!(c.listen_port, 8080);
    assert_eq!(c.listen_address, "127.0.0.1");
    assert_eq!(c.storage_dir, "/srv");
    assert!(c.daemon_mode);
    assert_eq!(c.log_level, LogLevel::Error);
    assert!(!c.verbose);
}

#[test]
fn verbose_wins_over_log_level() {
    let args = NebulaArgs {
        config_file: None,
        log_level: Some("error".to_string()),
        verbose: true,
        command: Commands::Stats { storage: None },
    };
    let c = base().merge_cli_args(&args);
    assert_eq!(c.log_level, LogLevel::Debug);
    assert!(c.verbose);
    assert_eq!(c.storage_dir, "/data");
    assert_eq!(c.listen_port, 1);
}

#[test]
fn unknown_log_level_keeps_the_current_one() {
    let args = NebulaArgs {
        config_file: None,
        log_level: Some("chatty".to_string()),
        verbose: false,
        command: Commands::Put {
            file: "a.txt".to_string(),
            storage: Some("/other".to_string()),
            format: "id".to_string(),
        },
    };
    let c = base().merge_cli_args(&args);
    assert_eq!(c.log_level, LogLevel::Warn);
    assert_eq!(c.storage_dir, "/other");
    assert_eq!(c.listen_address, "10.0.0.1");
}

#[test]
fn build_from_args_layers_file_config_under_command_line() {
    let args = NebulaArgs {
        config_file: Some("cfg.json".to_string()),
        log_level: None,
        verbose: false,
        command: Commands::Status { storage: None },
    };
    let c = Config::build_from_args(&args, Some(base()));
    assert_eq!(c.log_level, LogLevel::Warn);
    assert_eq!(c.storage_dir, "/data");
    let d = Config::build_from_args(&args, None);
    assert_eq!(d.listen_port, 4001);
    assert!(d.storage_dir.ends_with("nebula"));
}
