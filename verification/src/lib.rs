//! Flower classification support library.
//!
//! The classifier decodes an image, resizes it to the model's input grid,
//! reorders it to the channel-first layout the network expects, runs the
//! compiled network, and ranks the per-class scores.  Everything here that is
//! plain data logic — the error taxonomy, the label table, preprocessing and
//! the ranking of scores — is verified; the network itself runs behind the
//! surrounding application.

pub mod errors;
pub mod labels;
pub mod preprocess;
pub mod ranking;

pub use errors::Error;
pub use labels::label_for;
pub use preprocess::preprocess;
pub use ranking::Classification;
pub use ranking::classify_scores;
