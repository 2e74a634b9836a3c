//! Decision logic of a userspace page-fault handler that restores guest
//! memory from a snapshot file: the guest-region table, the data/hole
//! classification of the backing file, address translation, and the choice
//! of the install operation for each userfault event.


pub mod handler;
pub mod image;
pub mod page;
pub mod region;
pub mod segment;
