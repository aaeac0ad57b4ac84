use vstd::prelude::*;

pub mod actions;
pub mod driver;
pub mod events;
pub mod health;
pub mod http;
pub mod led;
pub mod mdns;
pub mod mem;
pub mod net;
pub mod protocol;
pub mod robot;
pub mod sntp;
pub mod socket;
pub mod text;
pub mod tls;
pub mod types;
pub mod ucpack;
