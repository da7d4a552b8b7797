//! Agent-callable code measurement: evidence-carrying, delta-first,
//! tamper-aware.
pub mod canonical;
pub mod date;
pub mod decimal;
pub mod engine;
pub mod evidence;
pub mod parse_health;
pub mod payload;
pub mod policy;
pub mod registry;
pub mod schema;
pub mod selfmeasure;
pub mod sorting;
pub mod strmap;
pub mod testing;
pub mod text;
pub mod unambiguous;
pub mod verdict;
