//! Which definitions are ignored, kept or folded into their users.

use crate::text::texts;
use vstd::prelude::*;

verus! {

/// Which definitions get special treatment when a page is put together.
#[derive(Debug, Default)]
pub struct DocsConfig {
    /// Names that are never given a definition of their own.
    pub ignored_definitions: Vec<String>,
    /// Names whose definition always stays on the page.
    pub never_inlined_definitions: Vec<String>,
    /// Names whose definition is always folded into its users.
    pub always_inlined_definitions: Vec<String>,
}

/// Mathematical value of a [`DocsConfig`].
pub struct DocsConfigView {
    pub ignored_definitions: Seq<Seq<char>>,
    pub never_inlined_definitions: Seq<Seq<char>>,
    pub always_inlined_definitions: Seq<Seq<char>>,
}

impl View for DocsConfig {
    type V = DocsConfigView;

    open spec fn view(&self) -> DocsConfigView {
        DocsConfigView {
            ignored_definitions: texts(self.ignored_definitions@),
            never_inlined_definitions: texts(self.never_inlined_definitions@),
            always_inlined_definitions: texts(self.always_inlined_definitions@),
        }
    }
}

} // verus!
