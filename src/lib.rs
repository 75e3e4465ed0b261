//! The periodic table viewer's core: color gradients, the color policy,
//! the mapping between grid cells and terminal positions, the selection
//! state machine and the catalog reader.

pub mod catalog;
pub mod color;
pub mod coords;
pub mod gradient;
pub mod layout;
pub mod selection;
pub mod text;
