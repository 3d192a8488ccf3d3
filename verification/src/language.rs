//! Target languages.

use vstd::prelude::*;

verus! {

/// A language to translate into, known by the name that readers see.
#[derive(Clone, Copy, Debug)]
pub struct Language {
    pub name: &'static str,
}

impl View for Language {
    type V = Seq<char>;

    open spec fn view(&self) -> Seq<char> {
        self.name@
    }
}

} // verus!
