//! Verified core of a Wayland desktop shell for Hyprland: configuration
//! files, the Hyprland IPC protocol, theming inputs, the application
//! launcher's ranking, the workspace bar and the notification queue.

pub mod appearance;
pub mod config;
pub mod document;
pub mod entries;
pub mod extend;
pub mod gpu;
pub mod hypr;
pub mod input;
pub mod launcher;
pub mod layer;
pub mod notification;
pub mod option;
pub mod sort;
pub mod surface;
pub mod text;
pub mod workspaces;
pub mod yaml;
