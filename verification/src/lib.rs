//! Universal method invocation: a runtime that lets a program call methods on
//! objects that live in another process, with ownership and borrowing carried
//! over the wire.

pub mod assoc;
pub mod ident;
pub mod json;
pub mod variable;
pub mod message_serialisation;
pub mod endpoint;
pub mod wire;
pub mod proxy_lib;
pub mod registry;
pub mod dispatch;
pub mod reminder;
pub mod students_single;
pub mod students;
