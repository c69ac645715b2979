//! A gravitational n-body simulation engine.
//!
//! Point masses attract each other under Newtonian gravity and are advanced
//! through time by a semi-implicit Euler integrator.  A session tracks the
//! planet set, a pause flag, the time step, and two viewpoint references:
//! the object the camera centers on and the object it orients toward.
//!
//! All quantities are fixed-point numbers: an `i64` holds a world value
//! multiplied by [`fixed::SCALE`].  Rendering, keyboard handling and file
//! I/O live outside this crate; the engine consumes decoded commands and
//! already-loaded byte buffers, and hands back plain values.

pub mod codec;
pub mod default_space;
pub mod fixed;
pub mod physics;
pub mod planet;
pub mod selector;
pub mod space;
pub mod viewpoint;

pub use fixed::SCALE;
pub use planet::Planet;
pub use planet::Vec2;
