//! The clipboard watcher, which does not watch.
//!
//! GNOME's compositor lets no program in the background see the clipboard. Content is
//! captured by the palette when it opens, and by the shell extension.

use vstd::prelude::*;

verus! {

/// Stands for the capture of clipboard content in the background.
#[derive(Debug, Clone, Copy)]
pub struct Watcher;

impl Watcher {
    /// Starts nothing.
    pub fn spawn() -> (w: Watcher)
        ensures
            w == Watcher,
    {
        Watcher
    }

    /// Says how content is captured.
    pub fn notice(&self) -> (m: &'static str)
        ensures
            m@ == "clipboard capture: passive mode (picker triggers ingestion on each open). GNOME/Mutter does not expose ext-data-control-v1, so background polling is intentionally disabled."@,
    {
        "clipboard capture: passive mode (picker triggers ingestion on each open). GNOME/Mutter does not expose ext-data-control-v1, so background polling is intentionally disabled."
    }
}

} // verus!
