//! Desktop-pet window management core: click-through window styles, a
//! registry of pet windows, and the persisted session configuration with
//! its on-disk format.

pub mod codec;
pub mod ident;
pub mod platform;
pub mod registry;
pub mod state;
pub mod style;
