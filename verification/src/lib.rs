//! Core logic of a Discord community bot: a fuzzy-matching search engine for
//! Discord snowflake IDs, argument parsing rules, birthday bookkeeping,
//! pronunciation recording selection and message helpers.
pub mod argument_parser;
pub mod birthday;
pub mod easter_egg;
pub mod english_class;
pub mod event_handler;
pub mod forvo;
pub mod id_search_engine;
pub mod image_checker;
pub mod logger;
pub mod moderation;
pub mod obfuscation;
pub mod session_tracker;
pub mod staff_log;
pub mod text;
pub mod user_search;
pub mod util;
pub mod vocaroo;
