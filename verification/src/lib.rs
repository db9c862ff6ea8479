//! Core session logic for a three-pane terminal file browser: a key-sequence
//! resolver, a modal input router, and a preview pipeline, all stated with
//! contracts and verified. I/O, rendering, and the scripting engine stay
//! outside; they hand plain values in and take plain values back.

pub mod entries;
pub mod keyseq;
pub mod nav;
pub mod owner;
pub mod preview;
pub mod prompt;
pub mod router;
pub mod search;
pub mod state;
pub mod stream;
pub mod textutil;
