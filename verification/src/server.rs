//! What the support API server decides before it starts: its command line,
//! the address it listens on, the permissions it adds to the built-in set,
//! and how its OpenAPI description is titled.

use vstd::prelude::*;
use vstd::string::*;

verus! {

/// What the server binary is asked to do.
#[derive(Clone, Copy, Debug, PartialEq, Eq, Structural)]
pub enum ServerCommand {
    /// Regenerate the OpenAPI schema file
    Describe,
    /// Apply database migrations
    Migrate,
    /// Run the api server
    Run,
    /// Validate the currently located configuration file
    Validate,
    /// Print the version
    Version,
}

/// The server's command line: an optional configuration file and a command.
pub struct ServerCli {
    pub config: Option<String>,
    pub command: ServerCommand,
}

impl ServerCli {
    /// The configuration files to read beside the default ones: the one given
    /// on the command line, if any.
    pub fn config_sources(&self) -> (res: Option<Vec<String>>)
        ensures
            res is Some <==> self.config is Some,
            res matches Some(v) ==> v@.len() == 1 && v@[0]@ == self.config->0@,
    {
        match &self.config {
            Some(path) => {
                let mut v: Vec<String> = Vec::new();
                v.push(path.clone());
                Some(v)
            },
            None => None,
        }
    }
}

/// The permissions of the support API that are not the API framework's own.
#[derive(Clone, Copy, Debug, PartialEq, Eq, Structural)]
pub enum ApiPermissions {
    CreateOAuthClient,
    ManageOAuthClientsAll,
}

/// The permissions that the server adds to those its built-in registration
/// user holds: creating OAuth clients and managing all of them.
pub fn builtin_permissions() -> (res: Vec<ApiPermissions>)
    ensures
        res@ == seq![ApiPermissions::CreateOAuthClient, ApiPermissions::ManageOAuthClientsAll],
{
    let mut res: Vec<ApiPermissions> = Vec::new();
    res.push(ApiPermissions::CreateOAuthClient);
    res.push(ApiPermissions::ManageOAuthClientsAll);
    assert(res@ =~= seq![ApiPermissions::CreateOAuthClient, ApiPermissions::ManageOAuthClientsAll]);
    res
}

/// The port the server listens on when the configuration names none.
pub const DEFAULT_PORT: u16 = 8080;

/// The largest request body the server takes, in bytes: ten MiB.
pub const REQUEST_BODY_MAX_BYTES: usize = 10485760;

/// Where and how the HTTP server listens.
pub struct ServerSettings {
    /// The IPv4 address to bind, as four octets.
    pub bind_ip: [u8; 4],
    pub port: u16,
    pub request_body_max_bytes: usize,
}

/// The listening settings for the configured port: every interface, the
/// configured port or 8080, and request bodies of up to ten MiB.
pub fn server_settings(port: Option<u16>) -> (res: ServerSettings)
    ensures
        res.bind_ip@ == seq![0u8, 0u8, 0u8, 0u8],
        res.port == match port {
            Some(p) => p,
            None => 8080u16,
        },
        res.request_body_max_bytes == 10 * 1024 * 1024,
{
    let port = match port {
        Some(p) => p,
        None => DEFAULT_PORT,
    };
    let res = ServerSettings { bind_ip: [0u8, 0u8, 0u8, 0u8], port, request_body_max_bytes: REQUEST_BODY_MAX_BYTES };
    assert(res.bind_ip@ =~= seq![0u8, 0u8, 0u8, 0u8]);
    res
}

/// The Zendesk account whose help center the Zendesk login goes through.
pub fn zendesk_subdomain() -> (res: String)
    ensures
        res@ == "oxidecomputerhelp"@,
{
    String::from_str("oxidecomputerhelp")
}

/// The title, description, contact and output file of the OpenAPI
/// description that `describe` writes.
pub struct ApiSpecInfo {
    pub title: String,
    pub description: String,
    pub contact_url: String,
    pub contact_email: String,
    pub output_path: String,
}

impl ApiSpecInfo {
    /// The description of the support API.
    pub fn support_api() -> (res: ApiSpecInfo)
        ensures
            res.title@ == "Customer Support API"@,
            res.description@ == "Programmatic access to the Oxide customer support API."@,
            res.contact_url@ == "https://oxide.computer"@,
            res.contact_email@ == "corp-services@oxidecomputer.com"@,
            res.output_path@ == "support-api-spec.json"@,
    {
        ApiSpecInfo {
            title: String::from_str("Customer Support API"),
            description: String::from_str("Programmatic access to the Oxide customer support API."),
            contact_url: String::from_str("https://oxide.computer"),
            contact_email: String::from_str("corp-services@oxidecomputer.com"),
            output_path: String::from_str("support-api-spec.json"),
        }
    }
}

} // verus!
