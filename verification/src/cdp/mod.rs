//! The DevTools protocol: the answers of its domains, the session that
//! dispatches commands to them, and the server's side of a connection.
pub mod domains;
pub mod server;
pub mod session;
