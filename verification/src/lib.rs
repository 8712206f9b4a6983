//! A safe, owned model of a compact disc's table of contents, with the
//! identifiers derived from it: the MusicBrainz disc identifier, the
//! freedb identifier, the textual table of contents, and the submission
//! address. Construction from offset data is validated and every derived
//! value is specified exactly; the SHA-1 digest at the heart of the disc
//! identifier is the one foreign computation relied upon. The lifecycle
//! of a foreign reading backend's resource is modelled as a state machine
//! whose release-exactly-once law is proved.

pub mod b64;
pub mod device;
pub mod disc;
pub mod features;
pub mod lifecycle;
pub mod sha;
pub mod text;

pub use disc::DiscId;
pub use features::Features;
