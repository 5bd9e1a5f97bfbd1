//! A test double for a device on a CAN bus.
//!
//! An imposter answers incoming messages from stubs: a stub pairs
//! predicates on the incoming message with a list of response templates,
//! which it renders in turn, steered by the behaviors of each template.
//!
//! The library holds the rules: how patterns match, how templates render,
//! how a stub moves through its responses, and how a list of imposters is
//! kept. It performs no input or output and never sleeps; a reply names the
//! delays that its sender is to observe.

pub mod can;
pub mod controller;
pub mod imposter;
pub mod pcan;
pub mod predicate;
pub mod response;
pub mod sequencing;
pub mod stub;
pub mod text;
pub mod utils;
