//! Structured cleanup failures.
//!
//! Each variant is a stage tag: it says which stage of cleanup failed, and
//! carries what is known about the failure, so callers can match on the kind
//! rather than on message text.

use vstd::prelude::*;

verus! {

/// Why a cleanup run failed.  Where the failing operation reported a cause,
/// it is preserved as text for chained diagnostics; the reason a single
/// device removal failed is deliberately discarded — a later pass may
/// succeed — so only the final residual set is reported.
#[derive(Debug)]
pub enum CleanupError {
    /// The device-mapper control channel could not be opened; fatal and
    /// non-retriable within the process.
    Initialization { cause: String },
    /// The mount table could not be read.
    MountListing { cause: String },
    /// Enumerating device-mapper devices failed.
    DeviceListing { cause: String },
    /// The first failing unmount, with the offending mount path; later
    /// marked mounts were not attempted.
    Unmount { path: String, cause: String },
    /// The removal passes stopped making progress while marked devices
    /// remained; carries the names still present.
    Residual { remaining: Vec<String> },
}

} // verus!
