//! A personal file store: a path sandbox, a directory lister, and the
//! naming and response rules of archive downloads and previews.

#[allow(unused_imports)]
use vstd::prelude::*;

pub mod archive;
pub mod home;
pub mod listing;
pub mod query;
pub mod sandbox;
pub mod serve;
pub mod text;
pub mod user;

