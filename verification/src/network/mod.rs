//! How the engine reaches the network: directly, over Tor or over a VPN.
use vstd::prelude::*;
use std::sync::Mutex;

verus! {

#[verifier::external_type_specification]
#[verifier::external_body]
#[verifier::reject_recursive_types(T)]
pub struct ExMutex<T: ?Sized>(std::sync::Mutex<T>);

#[derive(Debug, Clone)]
pub enum ConnectivityMode {
    Direct,
    Tor,
    /// The path of a WireGuard configuration.
    VPN(String),
}

/// The connectivity mode, shared between the threads that fetch.
pub struct NetworkController {
    pub mode: Mutex<ConnectivityMode>,
}

/// `Mutex::new`.
#[verifier::external_body]
fn new_mode_cell(m: ConnectivityMode) -> (r: Mutex<ConnectivityMode>) {
    Mutex::new(m)
}

/// Locks the mutex (`Mutex::lock`) and stores `m` in it. A lock poisoned by
/// a panicking holder is taken over.
#[verifier::external_body]
fn store_mode(cell: &Mutex<ConnectivityMode>, m: ConnectivityMode) {
    *cell.lock().unwrap_or_else(|e| e.into_inner()) = m;
}

/// Locks the mutex (`Mutex::lock`) and copies out what it holds. What it holds
/// is shared state that other threads change, so nothing is said of it.
#[verifier::external_body]
fn load_mode(cell: &Mutex<ConnectivityMode>) -> (r: ConnectivityMode) {
    cell.lock().unwrap_or_else(|e| e.into_inner()).clone()
}

impl NetworkController {
    /// A controller in direct mode.
    pub fn new() -> (r: Self) {
        NetworkController { mode: new_mode_cell(ConnectivityMode::Direct) }
    }

    pub fn set_mode(&self, mode: ConnectivityMode) {
        store_mode(&self.mode, mode);
    }

    /// The current mode, as last set by any thread.
    pub fn get_mode(&self) -> (r: ConnectivityMode) {
        load_mode(&self.mode)
    }
}

} // verus!
