use support_portal::login::{
    authorization_header, client_settings, AdapterToken, AuthorizationHeader, HeaderError,
    CONNECT_TIMEOUT_SECS, LONG_LIVED_TOKEN_DAYS, REQUEST_TIMEOUT_SECS, DeviceProviderInfo, LoginProvider, OAuthProvider,
    OAuthProviderInfo, OAuthProviderName, PkceProviderInfo,
};

#[test]
fn login_providers_map_to_api_provider_names() {
    assert_eq!(LoginProvider::Google.provider_name(), OAuthProviderName::Google);
    assert_eq!(LoginProvider::Zendesk.provider_name(), OAuthProviderName::Zendesk);
}

#[test]
fn adapter_token_gives_back_its_tokens() {
    let t = AdapterToken::new("access".to_string(), Some("idp".to_string()));
    assert_eq!(t.access_token(), "access");
    assert_eq!(t.idp_token(), Some("idp"));
    let t = AdapterToken::new("access".to_string(), None);
    assert_eq!(t.idp_token(), None);
    assert_eq!(LONG_LIVED_TOKEN_DAYS, 365);
    let t = AdapterToken::long_lived("key".to_string());
    assert_eq!(t.access_token(), "key");
    assert_eq!(t.idp_token(), None);
}

fn device() -> OAuthProvider {
    OAuthProvider::new(
        LoginProvider::Google,
        OAuthProviderInfo::Device(DeviceProviderInfo {
            client_id: 7,
            remote_client_id: "remote-d".to_string(),
            device_code_endpoint: "https://idp/device".to_string(),
            token_endpoint: "https://idp/token-d".to_string(),
        }),
    )
}

fn pkce() -> OAuthProvider {
    OAuthProvider::new(
        LoginProvider::Zendesk,
        OAuthProviderInfo::Pkce(PkceProviderInfo {
            client_id: 9,
            remote_client_id: "remote-p".to_string(),
            auth_url_endpoint: "https://idp/auth".to_string(),
            token_endpoint: "https://idp/token-p".to_string(),
            redirect_endpoint: "https://api/redirect".to_string(),
            proxy_port: 8700,
        }),
    )
}

#[test]
fn device_provider_settings() {
    let p = device();
    assert_eq!(p.provider(), LoginProvider::Google);
    assert_eq!(p.remote_client_id(), "remote-d");
    assert_eq!(p.public_pkce_port(), None);
    assert!(!p.supports_pkce_only());
    assert_eq!(p.device_code_endpoint(), Some("https://idp/device"));
    assert_eq!(p.auth_url_endpoint(), None);
    assert_eq!(p.token_endpoint(), "https://idp/token-d");
    assert_eq!(p.redirect_endpoint(), None);
    assert_eq!(p.client_id(), 7);
    assert!(p.scopes().is_empty());
}

#[test]
fn pkce_provider_settings() {
    let p = pkce();
    assert_eq!(p.provider(), LoginProvider::Zendesk);
    assert_eq!(p.remote_client_id(), "remote-p");
    assert_eq!(p.public_pkce_port(), Some(8700));
    assert!(p.supports_pkce_only());
    assert_eq!(p.device_code_endpoint(), None);
    assert_eq!(p.auth_url_endpoint(), Some("https://idp/auth"));
    assert_eq!(p.token_endpoint(), "https://idp/token-p");
    assert_eq!(p.redirect_endpoint(), Some("https://api/redirect"));
    assert_eq!(p.client_id(), 9);
    assert!(p.scopes().is_empty());
}

#[test]
fn authorization_header_carries_the_bearer_token() {
    let h = authorization_header("abc.def").unwrap();
    assert_eq!(h.text, "Bearer abc.def");
    assert!(h.sensitive);
    let v = h.to_header_value().unwrap();
    assert_eq!(v.as_bytes(), b"Bearer abc.def");
    assert!(v.is_sensitive());
    let h = authorization_header("tab\there").unwrap();
    assert_eq!(h.to_header_value().unwrap().as_bytes(), b"Bearer tab\there");
    assert!(authorization_header("caf\u{e9}").is_ok());
    assert_eq!(authorization_header("").unwrap().text, "Bearer ");
}

#[test]
fn authorization_header_refuses_control_characters() {
    assert!(matches!(authorization_header("a\nb"), Err(HeaderError::InvalidHeaderValue)));
    assert!(authorization_header("a\rb").is_err());
    assert!(authorization_header("a\u{7f}").is_err());
    assert!(authorization_header("\u{0}").is_err());
}

#[test]
fn header_values_keep_their_text_and_mark() {
    let plain = AuthorizationHeader { text: "x y".to_string(), sensitive: false };
    let v = plain.to_header_value().unwrap();
    assert_eq!(v.as_bytes(), b"x y");
    assert!(!v.is_sensitive());
    let marked = AuthorizationHeader { text: "Bearer \u{e9}t".to_string(), sensitive: true };
    let v = marked.to_header_value().unwrap();
    assert_eq!(v.as_bytes(), "Bearer \u{e9}t".as_bytes());
    assert!(v.is_sensitive());
    let bad = AuthorizationHeader { text: "x\u{1}".to_string(), sensitive: true };
    assert_eq!(bad.to_header_value(), Err(HeaderError::InvalidHeaderValue));
}

#[test]
fn client_settings_with_and_without_token() {
    let s = client_settings(None).unwrap();
    assert!(s.authorization.is_none());
    assert_eq!(s.connect_timeout_secs, 5);
    assert_eq!(s.request_timeout_secs, 10);
    assert_eq!(CONNECT_TIMEOUT_SECS, 5);
    assert_eq!(REQUEST_TIMEOUT_SECS, 10);
    let s = client_settings(Some("tok")).unwrap();
    let h = s.authorization.unwrap();
    assert_eq!(h.text, "Bearer tok");
    assert!(h.sensitive);
    assert!(matches!(client_settings(Some("t\nk")), Err(HeaderError::InvalidHeaderValue)));
}
