//! Reconciliation of a user's list of non-Steam game shortcuts with the
//! filesystem: a lossless codec for the binary shortcuts record format and the
//! rule that drops entries whose target executable is gone.
//!
//! A record file is decoded into its entries and its trailer, the entries are
//! reconciled with what exists on disk, and only if an entry was dropped is
//! the file backed up and replaced by the encoded survivors. The library
//! reads and writes no file itself: it is handed bytes and answers, and says
//! what the host is to do.

pub mod canonical;
pub mod decoder;
pub mod encoder;
pub mod entry;
pub mod keys;
pub mod laws;
pub mod persist;
pub mod quote;
pub mod reconcile;
mod scan;
pub mod wire;

pub use decoder::decode;
pub use encoder::encode;
pub use entry::ShortcutEntry;
pub use persist::{advance, begin, reject, Action, Stage, Verdict};
pub use quote::{unquote, unquote_str};
pub use reconcile::{find_targets, reconcile, reconcile_with};
pub use wire::{Defect, MalformedInput};
