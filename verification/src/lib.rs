//! The logic of a file manager's LAN device discovery, key bindings, thumbnail
//! budget, operation control and launcher progress, with its contracts.

pub mod digits;
pub mod key_bind;
pub mod network_discovery;
pub mod operation;
pub mod shortcuts;
pub mod table;
pub mod text;
pub mod thumb_budget;
pub mod unity;
pub mod wsd;
