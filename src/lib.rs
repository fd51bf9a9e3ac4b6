//! Text-to-speech serving core: prompt encoding, the voice registry, the
//! decode loops of single requests and static batches, and the admission gate
//! in front of the shared model.

pub mod batch;
pub mod error;
pub mod gate;
pub mod index;
pub mod model;
pub mod order;
pub mod prompt;
pub mod register;
pub mod registry;
pub mod session;
pub mod slot;
pub mod text;
pub mod warmup;
