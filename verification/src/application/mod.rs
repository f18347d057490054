//! Application layer: compiled operations, effects, invocation policy, values and the
//! runtime that interprets a checked program.

pub mod command;
pub mod inject;
pub mod interpret;
pub mod invocation;
pub mod output;
pub mod ports;
pub mod prepare;
pub mod runtime;
pub mod search;
pub mod transaction;
pub mod value;

pub use command::{CheckedProgram, Effects, NodeFilter, Op};
pub use invocation::{InvocationPolicy, NodePrecondition};
pub use ports::{CatalogRead, CatalogWrite, ReadLog, WriteCall, WriteLog, WriteResults};
pub use value::{NodeView, Value, XmlMemoryBudget, XML_MEMORY_LIMIT};
