//! Live sessions of a coding assistant, as a project panel follows them.

pub mod anchor_laws;
pub mod assets;
pub mod channel_laws;
pub mod double;
pub mod json;
pub mod kvp;
pub mod line_laws;
pub mod listing_laws;
pub mod live_laws;
pub mod live_notes;
pub mod live_state;
pub mod order;
pub mod paths;
pub mod poll_laws;
pub mod polling;
pub mod read_laws;
pub mod row_laws;
pub mod scan_laws;
pub mod session_registry;
pub mod session_rows;
pub mod session_source;
pub mod session_store;
pub mod settings;
pub mod spend_laws;
pub mod store_laws;
pub mod store_runs;
pub mod table_laws;
pub mod terminal_anchors;
pub mod text;
pub mod text_laws;
pub mod text_map;
pub mod transcript;
pub mod transcript_laws;
pub mod usage;
pub mod view_laws;
