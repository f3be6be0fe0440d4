//! Verified building blocks for flow-based programming: block tags and
//! configurations, message codecs (hex, text lines, CSV, JSON), text
//! transformations, and the per-message decision logic of each block.

#![allow(unused_imports)]

pub mod block_config;
pub mod blocks;
pub mod config;
pub mod csv_codec;
pub mod decimal;
pub mod fields;
pub mod hex;
pub mod instance;
pub mod json;
pub mod json_decode;
pub mod json_laws;
pub mod json_tokens;
pub mod lines;
pub mod message;
pub mod proto;
pub mod strings;
pub mod tags;
pub mod text;
pub mod sys;
pub mod types;
pub mod value;
