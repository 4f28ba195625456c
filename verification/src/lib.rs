//! A contract between a host application and its plugins.
//!
//! A plugin has an identity and a `build` hook ([`plugin`]), is handed to the
//! host in a handle that owns it ([`handle`]), and may contribute an entry to
//! the host's menu and draw the content pane when that entry is selected
//! ([`menu`]). The host's side is its schedule ([`schedule`]), its asset
//! lookup ([`assets`]), its UI tree ([`ui`]) and the dispatch of selections
//! ([`selection`]). [`template`] holds the example plugin, and [`names`] what
//! is shared by every lookup by name.

pub mod assets;
pub mod handle;
pub mod menu;
pub mod names;
pub mod plugin;
pub mod schedule;
pub mod selection;
pub mod template;
pub mod ui;
