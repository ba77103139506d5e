//! How the vectors of documents and queries are made.

use vstd::prelude::*;

pub mod vector_base;
pub mod embedded;
pub mod custom_values;
pub mod custom;
pub mod document_work;
pub mod vectorizer;
pub mod query_work;
pub mod embedders;
pub mod st_pooling;
pub mod model_cache;

verus! {

} // verus!
