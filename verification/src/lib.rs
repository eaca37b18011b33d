//! Verified core logic of the CPSL sandbox runtime and its command-line tool.

use vstd::prelude::*;

pub mod text;
pub mod base64_codec;
pub mod base64;
pub mod config;
pub mod doc_reader;
pub mod doc;
pub mod edgar;
pub mod calendar_date;
pub mod cli;
pub mod attachments;
pub mod doc_render;
pub mod grep_match;
pub mod crypto;
pub mod datetime;
pub mod location;
pub mod encryption;
pub mod email;
pub mod grep_search;
pub mod calendar;
pub mod image_ops;
pub mod http;
pub mod csv_data;
pub mod html_doc;
pub mod jwt;
pub mod json_doc;
pub mod edgar_results;
pub mod pdf_plan;
pub mod doc_extract;

verus! {

} // verus!
