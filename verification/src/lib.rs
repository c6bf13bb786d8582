//! What stands between a package build and a privileged install: the build
//! order by dependency depth, the whitelist of expected artifacts, and the
//! audit of archive members that an operator must accept.

pub mod archive;
pub mod audit;
pub mod gate;
pub mod install;
pub mod member;
pub mod names;
pub mod order;
pub mod ordered;
pub mod outcome;
pub mod plan;
pub mod record;
pub mod resolve;
pub mod review;
pub mod run;
pub mod schedule;
pub mod text;
