use schema_gateway::cli::Cli;

#[test]
fn test_default_arguments() {
    let cli = Cli {
        config: String::from("config.yml"),
        port: 8080,
        validate_config: false,
    };

    assert_eq!(cli.config, String::from("config.yml"));
    assert_eq!(cli.port, 8080);
    assert_eq!(cli.validate_config, false);
}

#[test]
fn test_custom_config_path() {
    let cli = Cli {
        config: String::from("custom.yml"),
        port: 8080,
        validate_config: false,
    };

    assert_eq!(cli.config, String::from("custom.yml"));
}

#[test]
fn test_custom_port() {
    let cli = Cli {
        config: String::from("config.yml"),
        port: 3000,
        validate_config: false,
    };

    assert_eq!(cli.port, 3000);
}

#[test]
fn test_validate_config_mode() {
    let cli = Cli {
        config: String::from("config.yml"),
        port: 8080,
        validate_config: true,
    };

    assert_eq!(cli.validate_config, true);
}

#[test]
fn test_default_values() {
    let cli = Cli::default_values();

    assert_eq!(cli.config, String::from("config.yml"));
    assert_eq!(cli.port, 8080);
    assert!(!cli.validate_config);
}
