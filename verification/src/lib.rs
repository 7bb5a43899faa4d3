//! Core logic of the Zad al-Muslim companion: configuration stores, the
//! reminder orchestrator, the hadith / Quran data catalogue and the decisions
//! behind the desktop commands, each with a verified contract.

pub mod json;
pub mod text;
pub mod config;
pub mod clock;
pub mod orchestrator;
pub mod data_loader;
pub mod windows;
pub mod ipc;
pub mod backup;
pub mod tray;
pub mod startup;
pub mod logfile;
