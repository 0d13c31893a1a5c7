//! The pages of the system section.
pub mod manual_import;
pub mod paging;
