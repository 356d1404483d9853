//! What a GGUF header says of a model.

use vstd::prelude::*;

verus! {

/// The header fields the rest of the library reads. A field is `None` where the
/// file does not state it.
#[derive(Debug, Clone)]
pub struct GgufMetadata {
    pub version: u32,
    pub tensor_count: u64,
    pub metadata_kv_count: u64,
    pub architecture: Option<String>,
    pub name: Option<String>,
    pub quant_label: Option<String>,
    pub file_type: Option<u64>,
    pub context_length: Option<u64>,
    pub block_count: Option<u64>,
    pub embedding_length: Option<u64>,
    pub head_count: Option<u64>,
    pub head_count_kv: Option<u64>,
    pub key_length: Option<u64>,
    pub value_length: Option<u64>,
    pub parameter_count: Option<u64>,
    pub size_label: Option<String>,
    pub split_count: Option<u64>,
    pub split_no: Option<u64>,
    /// Experts of a mixture-of-experts model, and how many run per token.
    pub expert_count: Option<u64>,
    pub expert_used_count: Option<u64>,
    pub has_norm_epsilon: bool,
    /// The tokenizer's identity.
    pub vocab_type: Option<String>,
    pub vocab_size: Option<u64>,
    pub bos_token_id: Option<u64>,
    pub eos_token_id: Option<u64>,
    pub add_bos_token: Option<bool>,
    pub add_eos_token: Option<bool>,
}

} // verus!
