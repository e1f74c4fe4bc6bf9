//! The launcher's connection decisions: which network endpoints a session opens, and how far
//! connecting has come.
//!
//! Spawning the endpoints, parsing the server address and opening sockets is done by the game;
//! here is what it decides from the launch mode.

use vstd::prelude::*;

verus! {

/// How the game was launched.
#[derive(Clone, Debug, PartialEq, Eq)]
pub enum LauncherMode {
    /// Join the server at the given address.
    Client(String),
    /// Host a game and play in it.
    Host,
    /// Run a server without a local player.
    Dedicated,
}

impl Default for LauncherMode {
    fn default() -> (mode: LauncherMode)
        ensures
            mode == LauncherMode::Host,
    {
        LauncherMode::Host
    }
}

/// The network endpoints a session opens.
#[derive(Clone, Debug)]
pub struct ConnectionPlan {
    /// Open a server listener.
    pub listen: bool,
    /// Connect a local client to the local server.
    pub host_client: bool,
    /// Connect a client to the server at this address.
    pub remote_address: Option<String>,
}

impl LauncherMode {
    /// The mode the launcher starts in: a dedicated server, or else a hosting client.
    pub fn initial(dedicated: bool) -> (mode: LauncherMode)
        ensures
            mode == (if dedicated {
                LauncherMode::Dedicated
            } else {
                LauncherMode::Host
            }),
    {
        if dedicated {
            LauncherMode::Dedicated
        } else {
            LauncherMode::default()
        }
    }

    /// The endpoints to open for this mode: a host listens and connects its own client to
    /// itself, a client connects to its server's address, a dedicated server only listens.
    pub fn connection_plan(&self) -> (plan: ConnectionPlan)
        ensures
            plan.listen == (*self is Host || *self is Dedicated),
            plan.host_client == (*self is Host),
            match *self {
                LauncherMode::Client(address) => plan.remote_address == Some(address),
                _ => plan.remote_address is None,
            },
    {
        match self {
            LauncherMode::Host => ConnectionPlan {
                listen: true,
                host_client: true,
                remote_address: None,
            },
            LauncherMode::Client(address) => ConnectionPlan {
                listen: false,
                host_client: false,
                remote_address: Some(address.clone()),
            },
            LauncherMode::Dedicated => ConnectionPlan {
                listen: true,
                host_client: false,
                remote_address: None,
            },
        }
    }
}

/// Connection progress as (done, total) for the loading screen: a dedicated server (no client
/// state) is done; a client is done once its network state is ready.
pub fn connection_progress(client_ready: Option<bool>) -> (done_total: (u32, u32))
    ensures
        done_total == match client_ready {
            None => (1u32, 1u32),
            Some(true) => (1u32, 1u32),
            Some(false) => (0u32, 1u32),
        },
{
    match client_ready {
        None => (1, 1),
        Some(ready) => {
            let done: u32 = if ready {
                1
            } else {
                0
            };
            (done, 1)
        },
    }
}

} // verus!
