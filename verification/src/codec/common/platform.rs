//! The platforms whose ROMs can be read.
use vstd::prelude::*;

verus! {

/// A game platform.
#[derive(Debug, Copy, Clone, PartialEq, Eq, Structural)]
pub enum Platform {
    Nds,
}

impl Platform {
    /// The platform's name as shown to people.
    pub fn to_display_string(&self) -> (r: String)
        ensures
            r@ == (match self {
                Platform::Nds => "Nintendo DS"@,
            }),
    {
        match self {
            Platform::Nds => String::from_str("Nintendo DS"),
        }
    }
}

} // verus!
