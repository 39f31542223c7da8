//! The decision logic of a 2D physics sandbox: which bodies the contact
//! solver looks at, how an incident edge is clipped to a contact manifold,
//! which body the drag tool grabs, what the shape tools do with a mouse
//! gesture, and what a frame of the simulation runs.
//!
//! The numeric parts of the simulation (vectors, forces, impulses) live with
//! the application; this library carries its values through generically, and
//! takes the few geometric primitives that its clipping needs as functions.
pub mod collider;
pub mod physics;
pub mod sandbox;
