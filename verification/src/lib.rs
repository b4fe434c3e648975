//! Core library for a set of launcher plugins.
//!
//! Two components carry the weight: a fuzzy ranking engine that scores a
//! collection of textual candidates against a query (smart-case subsequence
//! matching with positional bonuses), and the decision logic of a subprocess
//! mediator that spawns a helper process, writes its input from a dedicated
//! worker while the calling side drains its output, and surfaces a typed
//! failure when either side fails.  The process and pipe plumbing itself
//! lives outside the library; everything that decides or computes is here.

pub mod text;
pub mod matcher;
pub mod rank;
pub mod order;
pub mod mediate;
pub mod launch;
pub mod history;
pub mod windows;
pub mod symbols;
