//! Registration reconciliation and bale assignment for an archery event.
//!
//! The crate determines which competition classes and target faces a
//! participant may shoot given their equipment and age, reconciles locally
//! registered participants against an authoritative roster, and packs the
//! reconciled participants onto shooting bales of four lanes each.

pub mod assign;
pub mod class;
pub mod date;
pub mod matcher;
pub mod model;
pub mod pipeline;
pub mod record;
pub mod target_face;
