//! The terminal interface's state and decisions: layout, hotspot view,
//! worker statistics and key handling.
pub mod layout;
pub mod drilldown;
pub mod hotspot;
pub mod live;
pub mod workers;
