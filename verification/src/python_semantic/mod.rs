//! The Python semantic backend: its protocol, its process, and what its
//! answers mean for the Workspace.

pub mod adapter;
pub mod batch;
pub mod conversation;
pub mod coordinates;
pub mod environment;
pub mod forms;
pub mod host;
pub mod launcher;
pub mod lifecycle;
pub mod method;
pub mod normalize;
pub mod protocol;
pub mod refresh;
pub mod uri;
