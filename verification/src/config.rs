//! Process configuration: the polling interval, the store location, the
//! optional source list, and the notification transport settings. Reading
//! the configuration file is a collaborator's job; the values live here.

use vstd::prelude::*;
use vstd::string::StringExecFns;

verus! {

#[derive(Clone, Debug)]
pub struct Config {
    pub check_interval_secs: u64,
    pub db_path: String,
    pub ip_sources: Option<Vec<String>>,
    pub smtp: SmtpConfig,
}

#[derive(Clone, Debug)]
pub struct SmtpConfig {
    pub username: String,
    pub app_password: String,
    pub from: String,
    pub to: String,
    pub server: String,
    pub port: u16,
}

/// The relay host used when the configuration names none.
pub fn default_server() -> (r: String)
    ensures
        r@ == "smtp.gmail.com"@,
{
    String::from_str("smtp.gmail.com")
}

/// The relay port used when the configuration names none.
pub fn default_port() -> (r: u16)
    ensures
        r == 587,
{
    587
}

} // verus!
