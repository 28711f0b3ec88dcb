//! What the support CLI's login flow decides: which provider the API is asked
//! for, what the provider offers the flow, the tokens it keeps, and the
//! authorization header its API client sends.

use vstd::prelude::*;
use vstd::string::*;
use vstd::utf8::*;

use crate::outside::{
    header_value_bytes, header_value_from_str, header_value_sensitive, mark_sensitive,
    valid_header_byte,
};

verus! {

/// The identity providers offered by `support-cli auth login`.
#[derive(Clone, Copy, Debug, PartialEq, Eq, Structural)]
pub enum LoginProvider {
    /// Google identity provider
    Google,
    /// Zendesk identity provider
    Zendesk,
}

/// The provider names under which the support API knows its OAuth providers.
#[derive(Clone, Copy, Debug, PartialEq, Eq, Structural)]
pub enum OAuthProviderName {
    Google,
    Zendesk,
}

pub open spec fn spec_provider_name(p: LoginProvider) -> OAuthProviderName {
    match p {
        LoginProvider::Google => OAuthProviderName::Google,
        LoginProvider::Zendesk => OAuthProviderName::Zendesk,
    }
}

impl LoginProvider {
    /// The name under which the API is asked for this provider, both for its
    /// PKCE settings and for the authorization code exchange.
    pub fn provider_name(&self) -> (res: OAuthProviderName)
        ensures
            res == spec_provider_name(*self),
    {
        match self {
            LoginProvider::Google => OAuthProviderName::Google,
            LoginProvider::Zendesk => OAuthProviderName::Zendesk,
        }
    }
}

/// How long a long-lived API token lasts from the moment it is made, in days.
pub const LONG_LIVED_TOKEN_DAYS: i64 = 365;

/// A token that a login gives back: the API's access token and, where it was
/// asked for, the identity provider's own token.
pub struct AdapterToken {
    token: String,
    idp_token: Option<String>,
}

pub open spec fn opt_view(o: Option<String>) -> Option<Seq<char>> {
    match o {
        Some(s) => Some(s@),
        None => None,
    }
}

impl AdapterToken {
    pub closed spec fn token_view(&self) -> Seq<char> {
        self.token@
    }

    pub closed spec fn idp_token_view(&self) -> Option<Seq<char>> {
        opt_view(self.idp_token)
    }

    /// The token that an authorization code exchange answers with.
    pub fn new(token: String, idp_token: Option<String>) -> (res: AdapterToken)
        ensures
            res.token_view() == token@,
            res.idp_token_view() == opt_view(idp_token),
    {
        AdapterToken { token, idp_token }
    }

    /// A long-lived API token, which carries no identity provider token.
    pub fn long_lived(token: String) -> (res: AdapterToken)
        ensures
            res.token_view() == token@,
            res.idp_token_view() is None,
    {
        AdapterToken { token, idp_token: None }
    }

    /// The API access token.
    pub fn access_token(&self) -> (res: &str)
        ensures
            res@ == self.token_view(),
    {
        self.token.as_str()
    }

    /// The identity provider's token, where there is one.
    pub fn idp_token(&self) -> (res: Option<&str>)
        ensures
            res is Some <==> self.idp_token_view() is Some,
            res matches Some(t) ==> self.idp_token_view() == Some(t@),
    {
        match &self.idp_token {
            Some(t) => Some(t.as_str()),
            None => None,
        }
    }
}

/// The magic link login, which this CLI does not offer.
pub struct MagicLinkAdapter {}

/// What the API tells of a provider that signs in with a device code.
pub struct DeviceProviderInfo {
    pub client_id: u128,
    pub remote_client_id: String,
    pub device_code_endpoint: String,
    pub token_endpoint: String,
}

/// What the API tells of a provider that signs in through its web page with
/// PKCE, by way of a local proxy port.
pub struct PkceProviderInfo {
    pub client_id: u128,
    pub remote_client_id: String,
    pub auth_url_endpoint: String,
    pub token_endpoint: String,
    pub redirect_endpoint: String,
    pub proxy_port: u16,
}

/// The settings of a provider, by the way it signs in.
pub enum OAuthProviderInfo {
    Device(DeviceProviderInfo),
    Pkce(PkceProviderInfo),
}

/// A provider as the login flow sees it.
pub struct OAuthProvider {
    provider: LoginProvider,
    info: OAuthProviderInfo,
}

impl OAuthProvider {
    pub closed spec fn spec_provider(&self) -> LoginProvider {
        self.provider
    }

    pub closed spec fn spec_info(&self) -> OAuthProviderInfo {
        self.info
    }

    /// The provider for `provider`, with the settings that the API gave.
    pub fn new(provider: LoginProvider, info: OAuthProviderInfo) -> (res: OAuthProvider)
        ensures
            res.spec_provider() == provider,
            res.spec_info() == info,
    {
        OAuthProvider { provider, info }
    }

    /// The provider that was asked for.
    pub fn provider(&self) -> (res: LoginProvider)
        ensures
            res == self.spec_provider(),
    {
        self.provider
    }

    /// The client id that the identity provider knows the API by.
    pub fn remote_client_id(&self) -> (res: &str)
        ensures
            res@ == match self.spec_info() {
                OAuthProviderInfo::Device(d) => d.remote_client_id@,
                OAuthProviderInfo::Pkce(p) => p.remote_client_id@,
            },
    {
        match &self.info {
            OAuthProviderInfo::Device(inner) => inner.remote_client_id.as_str(),
            OAuthProviderInfo::Pkce(inner) => inner.remote_client_id.as_str(),
        }
    }

    /// The local port of the PKCE proxy; a device provider has none.
    pub fn public_pkce_port(&self) -> (res: Option<u16>)
        ensures
            res == match self.spec_info() {
                OAuthProviderInfo::Device(_) => None,
                OAuthProviderInfo::Pkce(p) => Some(p.proxy_port),
            },
    {
        match &self.info {
            OAuthProviderInfo::Device(_) => None,
            OAuthProviderInfo::Pkce(inner) => Some(inner.proxy_port),
        }
    }

    /// Whether the provider signs in by PKCE alone.
    pub fn supports_pkce_only(&self) -> (res: bool)
        ensures
            res == (self.spec_info() is Pkce),
    {
        match &self.info {
            OAuthProviderInfo::Device(_) => false,
            OAuthProviderInfo::Pkce(_) => true,
        }
    }

    /// Where a device code is asked for; a PKCE provider has no such endpoint.
    pub fn device_code_endpoint(&self) -> (res: Option<&str>)
        ensures
            res is Some <==> self.spec_info() is Device,
            res matches Some(s) ==> s@ == self.spec_info()->Device_0.device_code_endpoint@,
    {
        match &self.info {
            OAuthProviderInfo::Device(inner) => Some(inner.device_code_endpoint.as_str()),
            OAuthProviderInfo::Pkce(_) => None,
        }
    }

    /// Where the user is sent to sign in; a device provider has no such page.
    pub fn auth_url_endpoint(&self) -> (res: Option<&str>)
        ensures
            res is Some <==> self.spec_info() is Pkce,
            res matches Some(s) ==> s@ == self.spec_info()->Pkce_0.auth_url_endpoint@,
    {
        match &self.info {
            OAuthProviderInfo::Device(_) => None,
            OAuthProviderInfo::Pkce(inner) => Some(inner.auth_url_endpoint.as_str()),
        }
    }

    /// Where a token is asked for.
    pub fn token_endpoint(&self) -> (res: &str)
        ensures
            res@ == match self.spec_info() {
                OAuthProviderInfo::Device(d) => d.token_endpoint@,
                OAuthProviderInfo::Pkce(p) => p.token_endpoint@,
            },
    {
        match &self.info {
            OAuthProviderInfo::Device(inner) => inner.token_endpoint.as_str(),
            OAuthProviderInfo::Pkce(inner) => inner.token_endpoint.as_str(),
        }
    }

    /// Where the identity provider sends the user back; a device provider has
    /// no such endpoint.
    pub fn redirect_endpoint(&self) -> (res: Option<&str>)
        ensures
            res is Some <==> self.spec_info() is Pkce,
            res matches Some(s) ==> s@ == self.spec_info()->Pkce_0.redirect_endpoint@,
    {
        match &self.info {
            OAuthProviderInfo::Device(_) => None,
            OAuthProviderInfo::Pkce(inner) => Some(inner.redirect_endpoint.as_str()),
        }
    }

    /// The id of the API's OAuth client for this provider.
    pub fn client_id(&self) -> (res: u128)
        ensures
            res == match self.spec_info() {
                OAuthProviderInfo::Device(d) => d.client_id,
                OAuthProviderInfo::Pkce(p) => p.client_id,
            },
    {
        match &self.info {
            OAuthProviderInfo::Device(inner) => inner.client_id,
            OAuthProviderInfo::Pkce(inner) => inner.client_id,
        }
    }

    /// The scopes asked for: none, whatever the provider.
    pub fn scopes(&self) -> (res: &[String])
        ensures
            res@.len() == 0,
    {
        &[]
    }
}

/// Every byte of `s` is one that a header value accepts.
pub open spec fn valid_header_bytes(s: Seq<u8>) -> bool {
    forall|i: int| 0 <= i < s.len() ==> valid_header_byte(#[trigger] s[i])
}

/// A character whose UTF-8 bytes a header value accepts: a tab, or any
/// character from the space up other than DEL (every non-ASCII character).
pub open spec fn valid_header_char(c: char) -> bool {
    c == '\t' || (c as u32 >= 32 && c as u32 != 127)
}

proof fn lemma_valid_bytes_concat(a: Seq<u8>, b: Seq<u8>)
    ensures
        valid_header_bytes(a + b) <==> valid_header_bytes(a) && valid_header_bytes(b),
{
    if valid_header_bytes(a) && valid_header_bytes(b) {
        assert forall|i: int| 0 <= i < (a + b).len() implies valid_header_byte(#[trigger] (a + b)[i]) by {
            if i >= a.len() {
                assert((a + b)[i] == b[i - a.len()]);
            }
        }
    }
    if valid_header_bytes(a + b) {
        assert forall|i: int| 0 <= i < a.len() implies valid_header_byte(#[trigger] a[i]) by {
            assert((a + b)[i] == a[i]);
        }
        assert forall|i: int| 0 <= i < b.len() implies valid_header_byte(#[trigger] b[i]) by {
            assert((a + b)[i + a.len()] == b[i]);
        }
    }
}

proof fn lemma_scalar_bytes(c: char)
    ensures
        valid_header_bytes(encode_scalar(c as u32)) <==> valid_header_char(c),
{
    let v = c as u32;
    char_is_scalar(c);
    if has_width_1_encoding(v) {
        assert((v & 0x7F) as u8 == v) by (bit_vector)
            requires
                v <= 0x7F,
        ;
        assert(encode_scalar(v)[0] == v as u8);
        assert(c == '\t' <==> v == 9);
    } else {
        assert(0x80 | (v & 0x3F) as u8 >= 0x80) by (bit_vector);
        assert(0x80 | ((v >> 6) & 0x3F) as u8 >= 0x80) by (bit_vector);
        assert(0x80 | ((v >> 12) & 0x3F) as u8 >= 0x80) by (bit_vector);
        assert(0xC0 | ((v >> 6) & 0x1F) as u8 >= 0x80) by (bit_vector);
        assert(0xE0 | ((v >> 12) & 0x0F) as u8 >= 0x80) by (bit_vector);
        assert(0xF0 | ((v >> 18) & 0x7) as u8 >= 0x80) by (bit_vector);
        let e = encode_scalar(v);
        assert forall|i: int| 0 <= i < e.len() implies valid_header_byte(#[trigger] e[i]) by {}
    }
}

/// The bytes of a string are all valid in a header value exactly when each
/// of its characters is.
pub proof fn lemma_header_bytes_chars(s: Seq<char>)
    ensures
        valid_header_bytes(encode_utf8(s)) <==> forall|i: int|
            0 <= i < s.len() ==> valid_header_char(#[trigger] s[i]),
    decreases s.len(),
{
    if s.len() == 0 {
        assert(encode_utf8(s) =~= Seq::<u8>::empty());
    } else {
        lemma_header_bytes_chars(s.drop_first());
        lemma_scalar_bytes(s[0]);
        lemma_valid_bytes_concat(encode_scalar(s[0] as u32), encode_utf8(s.drop_first()));
        if forall|i: int| 0 <= i < s.len() ==> valid_header_char(#[trigger] s[i]) {
            assert forall|i: int| 0 <= i < s.drop_first().len() implies valid_header_char(
                #[trigger] s.drop_first()[i],
            ) by {
                assert(s.drop_first()[i] == s[i + 1]);
            }
        }
        if valid_header_bytes(encode_utf8(s)) {
            assert forall|i: int| 0 <= i < s.len() implies valid_header_char(#[trigger] s[i]) by {
                if i > 0 {
                    assert(s[i] == s.drop_first()[i - 1]);
                }
            }
        }
    }
}

/// Why a token cannot be sent in a header.
#[derive(Clone, Copy, Debug, PartialEq, Eq, Structural)]
pub enum HeaderError {
    /// The value holds a character that a header value does not accept.
    InvalidHeaderValue,
}

/// Every character of `s` is one a header value accepts.
pub open spec fn valid_header_text(s: Seq<char>) -> bool {
    forall|i: int| 0 <= i < s.len() ==> valid_header_char(#[trigger] s[i])
}

/// The text `Bearer ` is valid in a header, so a bearer header is valid
/// exactly when its token is.
pub proof fn lemma_bearer_valid(token: Seq<char>)
    ensures
        valid_header_text("Bearer "@ + token) <==> valid_header_text(token),
{
    let prefix = "Bearer "@;
    reveal_strlit("Bearer ");
    assert forall|i: int| 0 <= i < prefix.len() implies valid_header_char(#[trigger] prefix[i]) by {}
    if valid_header_text(token) {
        assert forall|i: int| 0 <= i < (prefix + token).len() implies valid_header_char(
            #[trigger] (prefix + token)[i],
        ) by {
            if i >= prefix.len() {
                assert((prefix + token)[i] == token[i - prefix.len()]);
            } else {
                assert((prefix + token)[i] == prefix[i]);
            }
        }
    }
    if valid_header_text(prefix + token) {
        assert forall|i: int| 0 <= i < token.len() implies valid_header_char(#[trigger] token[i]) by {
            assert((prefix + token)[i + prefix.len()] == token[i]);
        }
    }
}

/// A header value as plain text, with whether it is marked sensitive (kept
/// out of debug output).
pub struct AuthorizationHeader {
    pub text: String,
    pub sensitive: bool,
}

impl AuthorizationHeader {
    /// The `http` header value for this text: it holds the text's UTF-8
    /// bytes and is marked sensitive exactly where the header is. Refused
    /// where the text holds a character that a header value does not accept.
    pub fn to_header_value(&self) -> (res: Result<http::HeaderValue, HeaderError>)
        ensures
            res is Ok <==> valid_header_text(self.text@),
            res matches Ok(v) ==> header_value_bytes(v) == encode_utf8(self.text@)
                && header_value_sensitive(v) == self.sensitive,
    {
        let text = self.text.as_str();
        proof {
            lemma_header_bytes_chars(text@);
            assert(text.spec_bytes() == encode_utf8(text@));
            assert(valid_header_text(text@) <==> valid_header_bytes(text.spec_bytes()));
        }
        match header_value_from_str(text) {
            Ok(mut value) => {
                if self.sensitive {
                    mark_sensitive(&mut value);
                }
                Ok(value)
            },
            Err(_) => Err(HeaderError::InvalidHeaderValue),
        }
    }
}

/// The `Authorization` header that the API client sends with every request
/// when a token is configured: `Bearer ` and the token, marked sensitive.
/// Refused where the token holds a character that a header value does not
/// accept: a control character other than tab, or DEL.
pub fn authorization_header(token: &str) -> (res: Result<AuthorizationHeader, HeaderError>)
    ensures
        res is Ok <==> valid_header_text(token@),
        res matches Ok(h) ==> h.text@ == "Bearer "@ + token@ && h.sensitive,
{
    let mut text = String::from_str("Bearer ");
    text.append(token);
    let header = AuthorizationHeader { text, sensitive: true };
    proof {
        lemma_bearer_valid(token@);
    }
    match header.to_header_value() {
        Ok(_) => Ok(header),
        Err(e) => Err(e),
    }
}

/// The timeout for opening a connection to the API, in seconds.
pub const CONNECT_TIMEOUT_SECS: u64 = 5;

/// The timeout for a whole request to the API, in seconds.
pub const REQUEST_TIMEOUT_SECS: u64 = 10;

/// How the API client is set up: the header it sends with every request, if
/// any, and its timeouts.
pub struct ClientSettings {
    pub authorization: Option<AuthorizationHeader>,
    pub connect_timeout_secs: u64,
    pub request_timeout_secs: u64,
}

/// The settings of an API client for `token`: with a token, every request
/// carries its bearer header; without, no `Authorization` header is added.
/// Connections time out after 5 seconds, requests after 10. Refused where the
/// token cannot stand in a header.
pub fn client_settings(token: Option<&str>) -> (res: Result<ClientSettings, HeaderError>)
    ensures
        token is None ==> res is Ok && res->Ok_0.authorization is None,
        token matches Some(t) ==> (res is Ok <==> valid_header_text(t@)),
        token matches Some(t) ==> (res matches Ok(s) ==> s.authorization matches Some(h) && h.text@
            == "Bearer "@ + t@ && h.sensitive),
        res matches Ok(s) ==> s.connect_timeout_secs == 5 && s.request_timeout_secs == 10,
{
    let authorization = match token {
        Some(t) => match authorization_header(t) {
            Ok(h) => Some(h),
            Err(e) => {
                return Err(e);
            },
        },
        None => None,
    };
    Ok(
        ClientSettings {
            authorization,
            connect_timeout_secs: CONNECT_TIMEOUT_SECS,
            request_timeout_secs: REQUEST_TIMEOUT_SECS,
        },
    )
}

} // verus!
