//! Vectors as they come from embedding, and as they go into the database.

use vstd::prelude::*;

use crate::common::DocumentField;
use crate::models::{VectorConfigInternal, VectorData};

verus! {

/// A vector: dense, or sparse with its indices and values. Single-precision
/// numbers are held as their bit patterns.
#[derive(Debug, PartialEq, Eq)]
pub enum Embedded {
    Dense(Vec<u32>),
    Sparse(Vec<u32>, Vec<u32>),
}

/// What an `Embedded` holds.
#[verifier::ext_equal]
pub ghost enum EmbeddedView {
    Dense(Seq<u32>),
    Sparse(Seq<u32>, Seq<u32>),
}

impl Embedded {
    pub open spec fn view(&self) -> EmbeddedView {
        match self {
            Embedded::Dense(v) => EmbeddedView::Dense(v@),
            Embedded::Sparse(i, v) => EmbeddedView::Sparse(i@, v@),
        }
    }

    /// A copy of the vector.
    pub fn duplicate(&self) -> (r: Embedded)
        ensures
            r@ == self@,
    {
        match self {
            Embedded::Dense(v) => Embedded::Dense(copy_numbers(v)),
            Embedded::Sparse(i, v) => Embedded::Sparse(copy_numbers(i), copy_numbers(v)),
        }
    }
}

/// The views of vectors.
pub open spec fn embedded_views(v: Seq<Embedded>) -> Seq<EmbeddedView> {
    Seq::new(v.len(), |i: int| v[i]@)
}

/// Copies numbers.
pub fn copy_numbers(v: &Vec<u32>) -> (r: Vec<u32>)
    ensures
        r@ == v@,
{
    let mut out: Vec<u32> = Vec::new();
    let mut i: usize = 0;
    while i < v.len()
        invariant
            i <= v@.len(),
            out@ == v@.take(i as int),
        decreases v.len() - i,
    {
        out.push(v[i]);
        i += 1;
        assert(out@ =~= v@.take(i as int));
    }
    assert(v@.take(v@.len() as int) =~= v@);
    out
}

/// Whether a `VectorData` holds a vector under the name of its configuration,
/// for a field.
pub open spec fn holds(
    d: VectorData,
    config: VectorConfigInternal,
    field: DocumentField,
    e: EmbeddedView,
) -> bool {
    &&& d.vector_name@ == config.name@
    &&& d.field == field
    &&& d.vector_type == config.vector_type
    &&& match e {
        EmbeddedView::Dense(v) => (d.dense_vector matches Some(w) && w@ == v)
            && d.sparse_indices is None && d.sparse_values is None,
        EmbeddedView::Sparse(i, v) => d.dense_vector is None && (d.sparse_indices matches Some(j)
            && j@ == i) && (d.sparse_values matches Some(w) && w@ == v),
    }
}

/// Puts a vector under the name of its configuration, for a field.
pub fn vector_data(config: &VectorConfigInternal, field: DocumentField, e: Embedded) -> (r:
    VectorData)
    ensures
        holds(r, *config, field, e@),
{
    match e {
        Embedded::Dense(v) => VectorData {
            vector_name: config.name.as_str().to_owned(),
            field,
            vector_type: config.vector_type,
            dense_vector: Some(v),
            sparse_indices: None,
            sparse_values: None,
        },
        Embedded::Sparse(i, v) => VectorData {
            vector_name: config.name.as_str().to_owned(),
            field,
            vector_type: config.vector_type,
            dense_vector: None,
            sparse_indices: Some(i),
            sparse_values: Some(v),
        },
    }
}

/// The data of a vector has the name and the type of its vector, its field, and
/// exactly the numbers that were embedded.
pub proof fn vectors_hold_what_was_embedded(
    d: VectorData,
    config: VectorConfigInternal,
    field: DocumentField,
    e: EmbeddedView,
)
    requires
        holds(d, config, field, e),
    ensures
        d.vector_name@ == config.name@,
        d.field == field,
        d.vector_type == config.vector_type,
        e matches EmbeddedView::Dense(v) ==> (d.dense_vector matches Some(w) && w@ == v)
            && d.sparse_indices is None && d.sparse_values is None,
        e matches EmbeddedView::Sparse(i, v) ==> d.dense_vector is None && (
        d.sparse_indices matches Some(j) && j@ == i) && (d.sparse_values matches Some(w) && w@
            == v),
{
}

/// Embedded vectors stand for the numbers that they hold.
pub proof fn embedded_vectors_say_their_numbers(dense: Vec<u32>, at: Vec<u32>, values: Vec<u32>)
    ensures
        Embedded::Dense(dense)@ == EmbeddedView::Dense(dense@),
        Embedded::Sparse(at, values)@ == EmbeddedView::Sparse(at@, values@),
{
}

} // verus!
