//! Deterministic replay of recorded workflow histories.
pub mod activity;
pub mod activity_laws;
pub mod aside_laws;
pub mod child;
pub mod child_laws;
pub mod divergence_laws;
pub mod event;
pub mod external;
pub mod external_laws;
pub mod frame_laws;
pub mod ids;
pub mod index_set;
pub mod json;
pub mod kept_signals;
pub mod kinds;
pub mod laws;
pub mod leftover_laws;
pub mod marker;
pub mod marker_laws;
pub mod matcher;
pub mod message_laws;
pub mod moves;
pub mod origin;
pub mod origin_laws;
pub mod outcome;
pub mod place_laws;
pub mod race_laws;
pub mod record_laws;
pub mod reopening_laws;
pub mod replay;
pub mod request_laws;
pub mod return_laws;
pub mod scan;
pub mod search;
pub mod signal;
pub mod signal_laws;
pub mod signal_race;
pub mod stash;
pub mod status;
pub mod text;
pub mod timer;
pub mod timer_laws;
pub mod types;
pub mod update;
pub mod update_laws;
pub mod vocabulary;
pub mod wait_laws;
