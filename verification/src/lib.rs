//! The deciding half of a policy-routing HTTP proxy: reading request
//! heads, picking a profile for a host, shaking hands with upstream proxies,
//! ending tunnels and reloading the policy. Nothing here touches a socket, a
//! file or a clock: callers report what happened and carry out what they are
//! told.

pub mod config;
pub mod error;
pub mod protocols;
pub mod pump;
pub mod server;
pub mod text;
pub mod utils;
