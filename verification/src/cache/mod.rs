//! The semantic cache.
use vstd::prelude::*;

pub mod cache_laws;
pub mod redis_cache;

verus! {

/// A response from the cache. Its similarity is held as the bits of an IEEE
/// 754 double.
#[derive(Debug, Clone)]
pub struct CachedResponse {
    pub response_body: Vec<u8>,
    pub model: String,
    pub tokens_saved: usize,
    pub similarity_bits: u64,
}

/// What a response from the cache is.
pub struct CachedView {
    pub response_body: Seq<u8>,
    pub model: Seq<char>,
    pub tokens_saved: nat,
    pub similarity_bits: u64,
}

impl View for CachedResponse {
    type V = CachedView;

    open spec fn view(&self) -> CachedView {
        CachedView {
            response_body: self.response_body@,
            model: self.model@,
            tokens_saved: self.tokens_saved as nat,
            similarity_bits: self.similarity_bits,
        }
    }
}

/// How the cache is used.
#[derive(Debug, Clone, Copy, PartialEq, Eq, Structural)]
pub struct CacheStats {
    pub total_entries: u64,
    pub total_hits: u64,
    pub total_misses: u64,
}

impl Default for CacheStats {
    fn default() -> (r: Self)
        ensures
            r == (CacheStats { total_entries: 0, total_hits: 0, total_misses: 0 }),
    {
        CacheStats { total_entries: 0, total_hits: 0, total_misses: 0 }
    }
}

} // verus!
