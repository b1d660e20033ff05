pub mod alert;
pub mod cli;
pub mod cloudinit;
pub mod config;
pub mod forgejo;
pub mod http;
pub mod json;
pub mod naming;
pub mod policy;
pub mod provider;
pub mod reconcile;
pub mod secret;
pub mod table;
pub mod text;
