use chronos::lite_config::{parse_chronos_lite_config, ChronosLiteConfig, ConfigError};

#[test]
fn parses_node_metadata() {
    let config = parse_chronos_lite_config(
        r#"
[node]
node_name = "node-a"
node_id_fp = "node-a.chr"
operating_role = "local-test"
jurisdiction = "local"
"#,
    )
    .expect("config");
    assert_eq!(config.node_name, "node-a");
    assert_eq!(config.operating_role, "local-test");
}

#[test]
fn rejects_unknown_and_malformed_settings() {
    assert_eq!(
        parse_chronos_lite_config("[network]\ntransport = \"udp\"").expect_err("unknown"),
        ConfigError::InvalidKey("network.transport".to_string())
    );
    assert!(matches!(
        parse_chronos_lite_config("[node]\nnode_name = unquoted"),
        Err(ConfigError::InvalidLine(_))
    ));
}

#[test]
fn defaults_comments_and_sections() {
    let empty = parse_chronos_lite_config("").unwrap();
    assert_eq!(empty, ChronosLiteConfig::default());
    assert_eq!(empty.node_name, "chronos-lite-local");
    let c = parse_chronos_lite_config(
        "# header\r\n[ node ]  \r\n jurisdiction = \"eu # not a comment\" # comment\n\n",
    )
    .unwrap();
    assert_eq!(c.jurisdiction, "eu # not a comment");
    assert_eq!(c.node_id_fp, "local-dev-node.chr");
}

#[test]
fn reports_offending_text() {
    assert_eq!(
        parse_chronos_lite_config("[node]\nno equals sign here").unwrap_err(),
        ConfigError::InvalidLine("no equals sign here".to_string())
    );
    assert_eq!(
        parse_chronos_lite_config("[node]\nnode_name = \"x").unwrap_err(),
        ConfigError::InvalidLine("\"x".to_string())
    );
    assert_eq!(
        parse_chronos_lite_config("node_name = \"x\"").unwrap_err(),
        ConfigError::InvalidKey(".node_name".to_string())
    );
}
