//! Fleet-chat site timers and run analytics for EVE Online incursion fleets.

pub mod analytics_types;
pub mod board;
pub mod clock;
pub mod commands;
pub mod encoding;
pub mod enrichment;
pub mod enrichment_pipeline;
pub mod gamelog_parse;
pub mod gamelog_scan;
pub mod gamelog_watch;
pub mod idset;
pub mod numbers;
pub mod parse;
pub mod resolve;
pub mod run_desk;
pub mod paths;
pub mod site_id;
pub mod spawn_parse;
pub mod state;
pub mod text;
pub mod timing;
pub mod types;
pub mod vanguard_payouts;
pub mod wallet_parse;
