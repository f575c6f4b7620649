//! Teardown of the kernel storage resources that tests leave behind:
//! device-mapper devices and the filesystems mounted on them.
//!
//! Every resource a test creates carries a fixed marker in its name or mount
//! point. The teardown detaches each marked mount, then removes the marked
//! devices in repeated passes until a pass removes nothing. The library holds
//! the decisions; the caller performs each requested operation and reports
//! what came of it.

pub mod marker;
pub mod names;
pub mod protocol;
pub mod mountinfo;
pub mod mount_sweep;
pub mod device_sweep;
pub mod teardown;
pub mod laws;
pub mod convergence;
