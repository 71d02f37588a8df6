//! Core runtime of an ActionScript-style bytecode virtual machine: the value
//! and object model with its coercion rules, class and trait resolution,
//! a managed heap with a tracing collector, a bytecode interpreter, and a
//! worker/channel subsystem with a serialized message format.

pub mod amf;
pub mod bitmap;
pub mod channel;
pub mod class;
pub mod context;
pub mod globals;
pub mod heap;
pub mod interp;
pub mod property;
pub mod runtime;
pub mod bitmap_data;
pub mod number;
pub mod utils;
pub mod value;
pub mod worker;
pub mod xml;
