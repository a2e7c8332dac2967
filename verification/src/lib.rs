//! Decision logic of an frp server plugin that rejects connections whose
//! source address falls into configured provider ranges, a dynamic block
//! list, or a threat report.

pub mod net;
pub mod ranges;
pub mod text;
pub mod matcher;
pub mod config;
pub mod dynblock;
pub mod ipdata;
pub mod handler;
