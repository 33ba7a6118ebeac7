//! Which base address the health probe of a deployed provider goes to.
//! The probe itself is a network call made by the program around the
//! library; the choice of the address is decided here.
use vstd::prelude::*;
use crate::search::{strip_slashes, without_slashes};
use crate::text::{trim, trim_spec};

verus! {

/// The gateway used when neither the command line nor the environment names one.
pub open spec fn default_base_spec() -> Seq<char> {
    "https://api.quanttide.com/qtcloud-work"@
}

/// A given address counts when it holds something besides white space.
pub open spec fn given(o: Option<Seq<char>>) -> bool {
    o is Some && trim_spec(o->0).len() > 0
}

/// The base address: the `--server` value, else the environment's value,
/// else the default gateway; a chosen value loses its trailing slashes.
pub open spec fn base_spec(server: Option<Seq<char>>, env: Option<Seq<char>>) -> Seq<char> {
    if given(server) {
        strip_slashes(server->0)
    } else if given(env) {
        strip_slashes(env->0)
    } else {
        default_base_spec()
    }
}

/// The default gateway.
pub fn default_base() -> (r: String)
    ensures
        r@ == default_base_spec(),
{
    String::from_str("https://api.quanttide.com/qtcloud-work")
}

fn is_given(o: &Option<String>) -> (r: bool)
    ensures
        r == given(crate::text::opt_view(*o)),
{
    match o {
        Some(s) => trim(s.as_str()).as_str().unicode_len() > 0,
        None => false,
    }
}

/// Resolves the API base address from the `--server` option and the value of
/// `QTCLOUD_WORK_API_BASE_URL` (each `None` where absent).
pub fn resolve_base(cli_server: &Option<String>, env_value: &Option<String>) -> (r: String)
    ensures
        r@ == base_spec(crate::text::opt_view(*cli_server), crate::text::opt_view(*env_value)),
{
    if is_given(cli_server) {
        match cli_server {
            Some(s) => without_slashes(s.as_str()),
            None => default_base(),
        }
    } else if is_given(env_value) {
        match env_value {
            Some(s) => without_slashes(s.as_str()),
            None => default_base(),
        }
    } else {
        default_base()
    }
}

} // verus!
