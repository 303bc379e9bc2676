//! The logic of `omp-relayd`, an authenticated forward relay.
//!
//! Clients pair with the relay once and authenticate from then on: `registry` keeps pairing codes and
//! clients, `pairing` decides who may join, `token` and `auth` who is let in, and `laws` and
//! `history` say what holds of the registry over time. `forward` is the HTTP proxy with its
//! `CONNECT` tunnels, restricted to public addresses by `address`, with the cache of `pinned`
//! clients; `proxy` and `ws` are the relay's own routes. `service` plans the systemd unit, `admin`
//! and `self_test` serve the administrator. `results` says of single calls what comes out of them.
//! The rest is what these are made of.
//!
//! Nothing here reads files, opens sockets or waits: each function takes what was read or found and
//! says what follows from it.

pub mod address;
pub mod admin;
pub mod auth;
pub mod clock;
pub mod forward;
pub mod headers;
pub mod hex;
pub mod history;
pub mod laws;
pub mod pairing;
pub mod pinned;
pub mod proxy;
pub mod registry;
pub mod reply;
pub mod results;
pub mod self_test;
pub mod service;
pub mod text;
pub mod token;
pub mod uri;
pub mod ws;
