//! A request pipeline library: JSON-like values, form and XML packers,
//! an onion-style flow controller and the request carrier.

pub mod json;
pub mod flow_ctrl;
pub mod text;
pub mod query;
pub mod error;
pub mod xml;
pub mod net;
pub mod direction;
pub mod rocket;
pub mod directions;
pub mod plugins;
pub mod ignite;
pub mod http;
pub mod packer;
pub mod artful;
pub mod event;
