//! Verified core of the Lopez web crawler: the directive language (types,
//! lexical rules, expressions), the crawl bookkeeping and the link rules.

pub mod types;
pub mod lexical;
pub mod text;
pub mod expressions;
pub mod outside;
pub mod expr_parse;
pub mod query_parse;
pub mod crawl;
pub mod items;
pub mod literal_parse;
pub mod directive_parse;
pub mod parsers;
pub mod variable;
pub mod position;
pub mod directives;
pub mod robots;
pub mod master;
pub mod boundaries;
pub mod worker;
pub mod page_rank;
pub mod page;
pub mod json;
pub mod download;
pub mod aggregate;

use vstd::prelude::*;

verus! {

} // verus!
