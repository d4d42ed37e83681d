//! Verified core of HookPop: turning an Amazon link or ASIN into a
//! normalized product request, cleaning Keepa catalog data, checking
//! generated TikTok scripts against the product facts, and the bounded
//! retry logic around the language model.

pub mod config;
pub mod error;
pub mod guarantees;
pub mod keepa;
pub mod llm;
pub mod marketplace;
pub mod product;
pub mod prompt;
pub mod script;
pub mod text;
