//! The host's network: the default route, the DNS resolvers,
//! the interfaces and reachability.

pub mod gateway;
pub mod interface;
pub mod reachability;
pub mod resolver;
