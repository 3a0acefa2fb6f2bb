//! What the operations promise, stated on what goes in and what comes out.

pub mod asking;
pub mod backend;
pub mod environments;
pub mod inventory;
pub mod lifecycle;
pub mod places;
pub mod protocol;
pub mod publication;
pub mod refreshing;
pub mod resolving;
pub mod search;
pub mod surface;
pub mod targeted;
pub mod texts;
pub mod wording;
