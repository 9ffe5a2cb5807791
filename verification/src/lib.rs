pub mod authorship;
pub mod authorship_laws;
pub mod built_blocks;
pub mod built_laws;
pub mod chain_client;
pub mod chain_laws;
pub mod collations;
pub mod document;
pub mod drop_laws;
pub mod drops;
pub mod duplicate_laws;
pub mod duplicates;
pub mod hash;
pub mod hash_laws;
pub mod hex;
pub mod log_laws;
pub mod log_parser;
pub mod logs;
pub mod model;
pub mod multi_report;
pub mod multi_report_laws;
pub mod parse_laws;
pub mod patterns;
pub mod rebuild_laws;
pub mod rebuilds;
pub mod report;
pub mod report_laws;
pub mod scale;
pub mod search;
pub mod search_laws;
pub mod selection;
pub mod slot_boundaries;
pub mod slot_laws;
pub mod text;
pub mod text_laws;
pub mod time;
pub mod time_laws;
pub mod type_laws;
pub mod types;
