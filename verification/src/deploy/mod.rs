//! Deploying to a machine in the cloud, or to a container on this one.

pub mod compose;
pub mod discovery;
pub mod image;
pub mod names;
pub mod placement;
pub mod replies;
pub mod watch;
pub mod wizard;
