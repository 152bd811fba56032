//! Expression, threshold and metric evaluation for device health checks.
//!
//! Collected counters are combined through a small formula language, compared
//! against alert ranges, and turned into named measurements with a status.
//! Numbers are IEEE 754 binary64 values carried by their bit pattern.

pub mod ast;
pub mod compute;
pub mod decimal;
pub mod error;
pub mod eval;
pub mod filter;
pub mod format;
pub mod generic;
pub mod lexer;
pub mod number;
pub mod output;
pub mod parser;
pub mod pipeline;
pub mod render;
pub mod response;
pub mod snmp;
pub mod status;
pub mod template;
pub mod text;
pub mod threshold;
