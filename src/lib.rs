//! High-level building blocks over the lopdf document model: multi-page
//! embedding layouts, content operators, optional content groups (layers),
//! reusable content blocks and pattern naming.

pub mod blocks;
pub mod content;
pub mod contents;
pub mod copy;
pub mod document;
pub mod embed;
pub mod hatching;
pub mod layout;
pub mod naming;
pub mod ocg;
mod pdf;

pub use lopdf;
