//! Unique-supply digital items: a registry owner mints items capped at one unit
//! each, and holders pass them on. The coordinators decide every state change and
//! the exact instructions for the token ledger; the ledger itself is modelled in
//! specification only, so that the supply and custody laws can be stated and proved.

pub mod identity;
pub mod address;
pub mod ledger;
pub mod program;
