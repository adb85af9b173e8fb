//! The status value reported for the transport server. The server itself
//! — sockets, routing, authentication — stays outside the library; the
//! status is a pure function of whether a handle exists and what it holds.

use vstd::prelude::*;
use crate::events::opt_str_view;

verus! {

/// Status of the transport server.
pub struct ServerStatus {
    pub running: bool,
    pub url: Option<String>,
    pub token: Option<String>,
    pub port: Option<u16>,
}

/// The status a handle denotes: running with its address, token and port,
/// or not running with none of them.
pub fn server_status(handle: Option<(String, String, u16)>) -> (r: ServerStatus)
    ensures
        match handle {
            Some(h) => r.running && opt_str_view(r.url) == Some(h.0@) && opt_str_view(r.token)
                == Some(h.1@) && r.port == Some(h.2),
            None => !r.running && r.url is None && r.token is None && r.port is None,
        },
{
    match handle {
        Some((url, token, port)) => ServerStatus {
            running: true,
            url: Some(url),
            token: Some(token),
            port: Some(port),
        },
        None => ServerStatus { running: false, url: None, token: None, port: None },
    }
}

} // verus!
