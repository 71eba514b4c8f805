//! Settings and their defaults. Settings that are fractions are held as the
//! bits of an IEEE 754 double.
use vstd::prelude::*;
use vstd::string::*;

use crate::text;

verus! {

/// 0.35.
pub const DEFAULT_SEMANTIC_THRESHOLD_BITS: u64 = 0x3fd6_6666_6666_6666;

/// 0.85.
pub const DEFAULT_SIMILARITY_CUTOFF_BITS: u64 = 0x3feb_3333_3333_3333;

/// 0.003.
pub const DEFAULT_INPUT_COST_BITS: u64 = 0x3f68_9374_bc6a_7efa;

/// 0.015.
pub const DEFAULT_OUTPUT_COST_BITS: u64 = 0x3f8e_b851_eb85_1eb8;

/// All settings.
#[derive(Debug, Clone)]
pub struct JanusConfig {
    pub server: ServerConfig,
    pub pipeline: PipelineConfig,
    pub cache: CacheConfig,
    pub model: ModelConfig,
    pub pricing: PricingConfig,
}

/// Where the proxy listens, and where it forwards to.
#[derive(Debug, Clone)]
pub struct ServerConfig {
    pub listen: String,
    pub upstream_url: String,
}

/// The stages of the compression pipeline.
#[derive(Debug, Clone, Copy, PartialEq, Eq, Structural)]
pub struct PipelineConfig {
    pub tool_dedup: bool,
    pub regex_structural: bool,
    pub ast_pruning: bool,
    pub semantic_trim: bool,
    pub semantic_threshold_bits: u64,
    pub min_lines_for_ast: usize,
}

/// The semantic cache.
#[derive(Debug, Clone)]
pub struct CacheConfig {
    pub enabled: bool,
    pub redis_url: String,
    pub similarity_cutoff_bits: u64,
    pub ttl_seconds: u64,
    pub stateless_only: bool,
}

/// The model that texts are embedded with.
#[derive(Debug, Clone)]
pub struct ModelConfig {
    pub embedding_model: String,
    pub embedding_cache: String,
}

/// What tokens cost.
#[derive(Debug, Clone, Copy, PartialEq, Eq, Structural)]
pub struct PricingConfig {
    pub input_cost_per_1k_bits: u64,
    pub output_cost_per_1k_bits: u64,
}

pub fn default_listen() -> (r: String)
    ensures
        r@ == "0.0.0.0:8080"@,
{
    text::owned("0.0.0.0:8080")
}

pub fn default_upstream_url() -> (r: String)
    ensures
        r@ == "https://api.anthropic.com"@,
{
    text::owned("https://api.anthropic.com")
}

pub fn default_redis_url() -> (r: String)
    ensures
        r@ == "redis://127.0.0.1:6379"@,
{
    text::owned("redis://127.0.0.1:6379")
}

pub fn default_embedding_model() -> (r: String)
    ensures
        r@ == "BAAI/bge-small-en-v1.5"@,
{
    text::owned("BAAI/bge-small-en-v1.5")
}

pub fn default_embedding_cache() -> (r: String)
    ensures
        r@ == "~/.janus/models"@,
{
    text::owned("~/.janus/models")
}

impl Default for ServerConfig {
    fn default() -> (r: Self)
        ensures
            r.listen@ == "0.0.0.0:8080"@,
            r.upstream_url@ == "https://api.anthropic.com"@,
    {
        ServerConfig { listen: default_listen(), upstream_url: default_upstream_url() }
    }
}

impl Default for PipelineConfig {
    fn default() -> (r: Self)
        ensures
            r == (PipelineConfig {
                tool_dedup: true,
                regex_structural: true,
                ast_pruning: true,
                semantic_trim: true,
                semantic_threshold_bits: DEFAULT_SEMANTIC_THRESHOLD_BITS,
                min_lines_for_ast: 30,
            }),
    {
        PipelineConfig {
            tool_dedup: true,
            regex_structural: true,
            ast_pruning: true,
            semantic_trim: true,
            semantic_threshold_bits: DEFAULT_SEMANTIC_THRESHOLD_BITS,
            min_lines_for_ast: 30,
        }
    }
}

impl Default for CacheConfig {
    fn default() -> (r: Self)
        ensures
            r.enabled,
            r.redis_url@ == "redis://127.0.0.1:6379"@,
            r.similarity_cutoff_bits == DEFAULT_SIMILARITY_CUTOFF_BITS,
            r.ttl_seconds == 3600,
            r.stateless_only,
    {
        CacheConfig {
            enabled: true,
            redis_url: default_redis_url(),
            similarity_cutoff_bits: DEFAULT_SIMILARITY_CUTOFF_BITS,
            ttl_seconds: 3600,
            stateless_only: true,
        }
    }
}

impl Default for ModelConfig {
    fn default() -> (r: Self)
        ensures
            r.embedding_model@ == "BAAI/bge-small-en-v1.5"@,
            r.embedding_cache@ == "~/.janus/models"@,
    {
        ModelConfig {
            embedding_model: default_embedding_model(),
            embedding_cache: default_embedding_cache(),
        }
    }
}

impl Default for PricingConfig {
    fn default() -> (r: Self)
        ensures
            r == (PricingConfig {
                input_cost_per_1k_bits: DEFAULT_INPUT_COST_BITS,
                output_cost_per_1k_bits: DEFAULT_OUTPUT_COST_BITS,
            }),
    {
        PricingConfig {
            input_cost_per_1k_bits: DEFAULT_INPUT_COST_BITS,
            output_cost_per_1k_bits: DEFAULT_OUTPUT_COST_BITS,
        }
    }
}

impl Default for JanusConfig {
    /// What holds without a configuration file.
    fn default() -> (r: Self)
        ensures
            r.server.listen@ == "0.0.0.0:8080"@,
            r.server.upstream_url@ == "https://api.anthropic.com"@,
            r.pipeline == (PipelineConfig {
                tool_dedup: true,
                regex_structural: true,
                ast_pruning: true,
                semantic_trim: true,
                semantic_threshold_bits: DEFAULT_SEMANTIC_THRESHOLD_BITS,
                min_lines_for_ast: 30,
            }),
            r.cache.enabled,
            r.cache.redis_url@ == "redis://127.0.0.1:6379"@,
            r.cache.similarity_cutoff_bits == DEFAULT_SIMILARITY_CUTOFF_BITS,
            r.cache.ttl_seconds == 3600,
            r.cache.stateless_only,
            r.model.embedding_model@ == "BAAI/bge-small-en-v1.5"@,
            r.model.embedding_cache@ == "~/.janus/models"@,
            r.pricing == (PricingConfig {
                input_cost_per_1k_bits: DEFAULT_INPUT_COST_BITS,
                output_cost_per_1k_bits: DEFAULT_OUTPUT_COST_BITS,
            }),
    {
        JanusConfig {
            server: ServerConfig::default(),
            pipeline: PipelineConfig::default(),
            cache: CacheConfig::default(),
            model: ModelConfig::default(),
            pricing: PricingConfig::default(),
        }
    }
}

} // verus!
