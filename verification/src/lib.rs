//! The decision and text-processing core of the VOIDFRAME benchmark engine.

pub mod affinity;
pub mod capture;
pub mod cli;
pub mod conflict;
pub mod cs2_config;
pub mod custom_script;
pub mod detection;
pub mod error;
pub mod facts;
pub mod journal;
pub mod json;
pub mod keybind_cfg;
pub mod logon;
pub mod model;
pub mod paths;
pub mod module;
pub mod mutation;
pub mod preflight;
pub mod present_mode;
pub mod presentmon;
pub mod recover;
pub mod registry;
pub mod restore;
pub mod results;
pub mod text;
