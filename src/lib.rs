//! Early-boot core of an operating-system loader: an executable-header
//! decoder and a four-level page-table hierarchy builder, with the small
//! flag-register helper they share.
use vstd::prelude::*;

pub mod boot;
pub mod elf;
pub mod logging;
pub mod paging;
pub mod uflags;
