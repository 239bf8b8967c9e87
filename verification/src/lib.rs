//! Relocates application save data into one managed storage directory and
//! leaves a link behind at the original location.
//!
//! The library holds every decision the tool makes and performs no I/O
//! itself. The catalog of known applications is loaded from plain values
//! ([`database`], [`game`], [`environment`]). File system work is phrased as
//! requests that a driver carries out, handing each reply back: single jobs
//! in [`linker`], whole batches over the catalog in [`batch`].
//!
//! What the jobs and batches come to is stated on a model of the file
//! system ([`disk`], [`effects`]), for which [`roundtrip`] proves that taking
//! saves back undoes relocating them; [`simulation`] is that model in
//! memory, on which jobs and batches can be run.
pub mod batch;
pub mod database;
pub mod disk;
pub mod effects;
pub mod environment;
pub mod errors;
pub mod game;
pub mod linker;
pub mod paths;
pub mod roundtrip;
pub mod settings;
pub mod simulation;
pub mod text;
