//! Pull requests: what the user means by a reference, what GitHub says of it,
//! and when to ask.

pub mod attach;
pub mod client;
pub mod poller;
pub mod pr_ref;
pub mod status;
