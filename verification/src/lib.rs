//! A library that allows to listen network sockets with proper resource
//! limits and error handling.
//!
//! The crate verifies the decision logic of three cooperating pieces:
//!
//! * [`sleep_on_error`] -- filters a stream of `accept()` results for
//!   errors.  Benign errors such as a connection reset by the peer are
//!   skipped; severe errors such as running out of file descriptors put
//!   the filter into a cool-down during which the source is left alone.
//! * [`listen`] -- runs the per-connection tasks produced by the accept
//!   stream with a cap on how many may be in flight at once, and swallows
//!   individual task failures so one bad connection never stops the rest.
//! * [`bind`] -- reconciles a stream of desired address sets against the
//!   mapping of live listening sockets, binding new addresses, closing
//!   dropped ones and retrying failed binds on a shared timer.
//!
//! The surrounding event loop (socket calls, timers, stream polling) is
//! ordinary unverified glue; it feeds plain events into these state
//! machines and carries out the actions they decide on.

pub mod bind;
pub mod config;
pub mod listen;
pub mod sleep_on_error;

pub use bind::BindMany;
pub use config::Config;
pub use listen::Listen;
pub use sleep_on_error::SleepOnError;
