//! Output writers able to emit a loaded store as a conforming document.

pub mod traits;
pub mod xliff12;
