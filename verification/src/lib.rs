//! A single-host virtual machine lab: the configuration model, the userspace
//! network fabric, and the decisions of the lab daemon and its command line.

pub mod cli;
pub mod config;
pub mod encode;
pub mod json;
pub mod labd;
pub mod logs;
pub mod media;
pub mod names;
pub mod net;
pub mod table;
pub mod text;
