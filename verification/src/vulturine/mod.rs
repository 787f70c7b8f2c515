//! Vulturine: which renderer draws a page, and how external renderers are
//! found and called.
use vstd::prelude::*;
use std::sync::{Arc, Mutex};

pub mod css;
pub mod external;

verus! {

/// Rendering backends.
#[derive(Debug, Clone, Copy, PartialEq, Eq, Structural)]
pub enum RenderBackend {
    /// A Servo process.
    Servo,
    /// A Ladybird process.
    Ladybird,
    /// The in-process renderer.
    Software,
}

impl Default for RenderBackend {
    fn default() -> (r: Self)
        ensures
            r == RenderBackend::Software,
    {
        RenderBackend::Software
    }
}

/// A plain RGBA pixel buffer.
#[derive(Clone)]
pub struct RgbaImage {
    pub size: [usize; 2],
    pub pixels: Vec<[u8; 4]>,
}

impl Default for RgbaImage {
    fn default() -> (r: Self)
        ensures
            r.size@ == seq![0usize, 0usize],
            r.pixels@.len() == 0,
    {
        let r = RgbaImage { size: [0, 0], pixels: Vec::new() };
        assert(r.size@ =~= seq![0usize, 0usize]);
        r
    }
}

/// `Mutex::new`.
#[verifier::external_body]
fn new_backend_cell(b: RenderBackend) -> (r: Arc<Mutex<RenderBackend>>) {
    Arc::new(Mutex::new(b))
}

/// Locks the mutex (`Mutex::lock`) and stores `b`; a lock poisoned by a
/// panicking holder is taken over.
#[verifier::external_body]
fn store_backend(cell: &Arc<Mutex<RenderBackend>>, b: RenderBackend) {
    *cell.lock().unwrap_or_else(|e| e.into_inner()) = b;
}

/// Locks the mutex (`Mutex::lock`) and copies out the backend. It is state
/// shared with other threads, so nothing is said of the value.
#[verifier::external_body]
fn load_backend(cell: &Arc<Mutex<RenderBackend>>) -> (r: RenderBackend) {
    *cell.lock().unwrap_or_else(|e| e.into_inner())
}

/// The coordinator that keeps the active backend, shared between threads.
pub struct VulturineEngine {
    pub active_backend: Arc<Mutex<RenderBackend>>,
}

impl VulturineEngine {
    pub fn new(default_backend: RenderBackend) -> (r: Self) {
        VulturineEngine { active_backend: new_backend_cell(default_backend) }
    }

    /// Swaps the backend while running.
    pub fn switch_engine(&self, new_backend: RenderBackend) {
        store_backend(&self.active_backend, new_backend);
    }

    /// The backend last chosen by any thread.
    pub fn current_backend(&self) -> (r: RenderBackend) {
        load_backend(&self.active_backend)
    }

    /// Whether `backend` can run: the software renderer always, an external
    /// one when it has command candidates.
    pub fn is_backend_configured(&self, backend: RenderBackend, candidates: &Vec<Vec<String>>) -> (r: bool)
        ensures
            r == external::configured(backend, candidates@.len()),
    {
        external::is_configured(backend, candidates)
    }

    /// Takes a video frame; frames are not decoded yet, so nothing happens.
    pub fn route_video_frame(&self, video_id: &str, raw_bytes: &[u8]) {
    }
}

} // verus!
