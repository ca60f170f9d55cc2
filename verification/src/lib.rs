//! Captive-portal enforcer core: firewall rule codec and expiry sweeper,
//! request classifier, client resolvers, and the weekly wifi time plan.
pub mod bus;
pub mod config;
pub mod portal;
pub mod resolver;
pub mod rules;
pub mod service;
pub mod text;
pub mod wifi;
