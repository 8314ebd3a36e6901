//! Node embeddings: a vector per `(node, model)` pair. The in-process
//! backend is an intentionally inert placeholder — writes are accepted and
//! dropped, reads are empty — kept so callers exercise the same surface as
//! a real backend.

use vstd::prelude::*;

verus! {

/// An association between a node and a named vector model. Coordinates are
/// fixed-point integers.
pub struct NodeEmbedding {
    pub node_id: u128,
    pub tenant_id: u128,
    pub model: String,
    pub dim: i32,
    pub vec: Vec<i32>,
    pub created_at: i64,
}

/// Mathematical model of an embedding.
pub struct EmbeddingView {
    pub node_id: u128,
    pub tenant_id: u128,
    pub model: Seq<char>,
    pub dim: i32,
    pub vec: Seq<i32>,
    pub created_at: i64,
}

impl View for NodeEmbedding {
    type V = EmbeddingView;

    open spec fn view(&self) -> EmbeddingView {
        EmbeddingView {
            node_id: self.node_id,
            tenant_id: self.tenant_id,
            model: self.model@,
            dim: self.dim,
            vec: self.vec@,
            created_at: self.created_at,
        }
    }
}

impl Clone for NodeEmbedding {
    fn clone(&self) -> (r: Self)
        ensures
            r@ == self@,
    {
        let vec = self.vec.clone();
        proof {
            assert(vec@ =~= self.vec@);
        }
        NodeEmbedding {
            node_id: self.node_id,
            tenant_id: self.tenant_id,
            model: self.model.clone(),
            dim: self.dim,
            vec,
            created_at: self.created_at,
        }
    }
}

/// The inert in-process embedding store: a stub that accepts writes
/// without keeping them and answers every read with nothing.
pub struct InMemoryEmbeddingRepository;

impl InMemoryEmbeddingRepository {
    /// A fresh (and stateless) embedding store.
    pub fn new() -> (r: Self)
        ensures
            r == (InMemoryEmbeddingRepository {  }),
    {
        InMemoryEmbeddingRepository {  }
    }

    /// Accept an embedding and drop it: this placeholder path never fails
    /// and stores nothing.
    pub fn upsert_embedding(&self, tenant: u128, embedding: NodeEmbedding) -> (r: Result<(), ()>)
        ensures
            r is Ok,
    {
        let _ = tenant;
        let _ = embedding;
        Ok(())
    }

    /// Every node has no stored embeddings here: the placeholder read path
    /// answers empty, never an error.
    pub fn get_embeddings(&self, tenant: u128, node_id: u128) -> (r: Result<Vec<NodeEmbedding>, ()>)
        ensures
            match r {
                Ok(v) => v@.len() == 0,
                Err(_) => false,
            },
    {
        let _ = tenant;
        let _ = node_id;
        Ok(Vec::new())
    }
}

impl Default for InMemoryEmbeddingRepository {
    /// The same stateless store `new` builds.
    fn default() -> (r: Self)
        ensures
            r == (InMemoryEmbeddingRepository {  }),
    {
        InMemoryEmbeddingRepository {  }
    }
}

} // verus!
