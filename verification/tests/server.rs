use support_portal::server::{
    builtin_permissions, server_settings, zendesk_subdomain, ApiPermissions, ApiSpecInfo,
    ServerCli, ServerCommand, DEFAULT_PORT, REQUEST_BODY_MAX_BYTES,
};

#[test]
fn server_listens_on_every_interface_at_the_configured_port() {
    let s = server_settings(Some(9000));
    assert_eq!(s.bind_ip, [0, 0, 0, 0]);
    assert_eq!(s.port, 9000);
    assert_eq!(s.request_body_max_bytes, 10 * 1024 * 1024);
}

#[test]
fn server_port_defaults_to_8080() {
    let s = server_settings(None);
    assert_eq!(s.port, 8080);
    assert_eq!(DEFAULT_PORT, 8080);
    assert_eq!(REQUEST_BODY_MAX_BYTES, 10_485_760);
}

#[test]
fn builtin_permissions_add_oauth_client_management() {
    assert_eq!(
        builtin_permissions(),
        vec![ApiPermissions::CreateOAuthClient, ApiPermissions::ManageOAuthClientsAll]
    );
}

#[test]
fn server_cli_config_sources() {
    let cli = ServerCli { config: Some("config.toml".to_string()), command: ServerCommand::Run };
    assert_eq!(cli.config_sources(), Some(vec!["config.toml".to_string()]));
    let cli = ServerCli { config: None, command: ServerCommand::Validate };
    assert_eq!(cli.config_sources(), None);
}

#[test]
fn api_spec_info_describes_the_support_api() {
    let info = ApiSpecInfo::support_api();
    assert_eq!(info.title, "Customer Support API");
    assert_eq!(info.description, "Programmatic access to the Oxide customer support API.");
    assert_eq!(info.contact_url, "https://oxide.computer");
    assert_eq!(info.contact_email, "corp-services@oxidecomputer.com");
    assert_eq!(info.output_path, "support-api-spec.json");
    assert_eq!(zendesk_subdomain(), "oxidecomputerhelp");
}
