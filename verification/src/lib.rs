//! zfetch: a system summary beside a colored distribution logo. The library holds
//! everything that decides what is shown: parsing of `os-release`, `df`, `lspci`
//! and other tool output, GPU naming, the color scheme, and the layout of the box.
pub mod ascii;
pub mod colors;
pub mod config;
pub mod linux;
pub mod logo_colors;
pub mod macos;
pub mod storage;
pub mod system;
pub mod text;
pub mod theme;
pub mod ui;
pub mod windows;
