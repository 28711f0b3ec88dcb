//! Verified core of the support portal: the command tree of the support CLI,
//! the OAuth provider data it hands to its login flow, the server settings and
//! the plan by which the API server installs its initial data.

pub mod command_tree;
pub mod command_table;
pub mod outside;
pub mod login;
pub mod server;
pub mod initial_data;
