//! The clock that playback goes by.
//!
//! It is set by a time server, or by the time that the content management system tells, and runs on
//! by the machine's monotonic clock: that someone sets the machine's own clock does not matter.

pub mod signage;
pub mod sntp;
pub mod types;

pub use signage::{FixedNtpClient, MockClock, SignageClock};
pub use sntp::SntpClient;
pub use types::{Clock, ClockConfidence, ClockSnapshot, ClockSyncResult, NtpClient, NtpResult};
