//! Verified core of a small package-management tool: the archive-filename
//! grammar, catalog matching, the installed-package ledger, archive magic
//! validation, and extraction of the catalog embedded in a directory-listing
//! page.

pub mod archive;
pub mod catalog;
pub mod grammar;
pub mod ledger;
pub mod matcher;
pub mod strutil;
