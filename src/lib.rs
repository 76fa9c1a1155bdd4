//! Lightweight Communications and Marshalling: the wire codec, the type hash,
//! the datagram framing and reassembly, the subscription dispatcher, the
//! oldest-dropping ring that hands messages to the user thread, and the
//! schema front-end (parser and code generator).
use vstd::prelude::*;

pub mod error;
pub mod wire;
pub mod message;
pub mod schema;
pub mod fragment;
pub mod reassembly;
pub mod spsc;
pub mod dispatch;
pub mod ast;
pub mod parser;
pub mod codegen;
pub mod facade;

pub use facade::Subscription;
pub use message::{Marshall, Message};

verus! {

} // verus!
