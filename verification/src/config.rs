//! Command-line actions and mail-account configuration data.

use vstd::prelude::*;
use vstd::string::StringExecFns;

verus! {

/// The command line: no action starts the server.
#[derive(Clone, Debug)]
pub struct Args {
    pub action: Option<Action>,
}

/// A management action run instead of the server.
#[derive(Clone, Debug)]
pub enum Action {
    /// Add a user to the database, or overwrite one's password.
    AddUser { username: Option<String>, force: bool },
    /// Remove a user from the database.
    DelUser { username: Option<String> },
}

/// A mail address with an optional display name.
#[derive(Clone, Debug)]
pub struct MailAddress {
    pub name: Option<String>,
    pub address: String,
}

/// The account the mail sender logs in with.
#[derive(Clone, Debug)]
pub struct MailAccount {
    /// Host for smtp.
    pub host: String,
    /// Username to login to smtp, the sender address when unset.
    pub name: Option<String>,
    /// Password to login to smtp.
    pub password: String,
}

/// Where the server listens when the configuration does not say.
pub fn default_bind_address() -> (r: String)
    ensures
        r@ == "127.0.0.1:8080"@,
{
    String::from_str("127.0.0.1:8080")
}

} // verus!
