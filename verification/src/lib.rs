//! Workspace, tab and split-pane model of a terminal workspace shell, with the geometry and
//! input decisions that the shell derives from it.

pub mod chrome;
pub mod click;
pub mod drag;
pub mod hit_targets;
pub mod host;
pub mod layout;
pub mod model;
pub mod name_editor;
pub mod names;
pub mod navigation;
pub mod rect;
pub mod report;
pub mod route;
pub mod selectors;
pub mod session;
pub mod shell;
pub mod shortcuts;
