//! KyberFrog: the data model, configuration rules and supervision logic of a
//! source-agnostic streaming orchestrator, specified and proved with Verus.

pub mod text;
pub mod model;
pub mod idcode;
pub mod supervisor;
pub mod cameras;
pub mod encoder;
pub mod table;
pub mod gen;
pub mod paths;
pub mod naming;
pub mod strmap;
pub mod config;
pub mod status;
pub mod ops;
pub mod spout;
pub mod tray;
pub mod session;
pub mod web;
pub mod discovery;
pub mod args;
pub mod launch;
pub mod bench;
pub mod hud;
pub mod backdrop;
pub mod gpu;
pub mod client;
pub mod legacy;
