//! A small frame-orchestration core for canvas demos: a keyed resource
//! store shared by independently written rendering subsystems, a two-phase
//! scene scheduler (one-time ready entries, per-frame paint entries), and a
//! fixed-timestep frame driver with FPS accounting.
//!
//! The host (GPU device, surfaces, the browser's animation-frame callback)
//! stays outside: it hands the library plain values — resource keys, tick
//! timestamps in microseconds — and receives schedules and decisions back.

pub mod frame;
pub mod scene;
pub mod store;
pub mod wgsl;
