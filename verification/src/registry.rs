//! The catalog of known checkpoints and how a model argument is resolved
//! against it. What is on disk and in the environment is asked by the caller
//! and handed in.

use crate::error::{ErrorModel, RocmlError};
use crate::sample::SamplingParams;
use crate::text::{chars_of, contains, ends_with, has_suffix, occurs, same_text};
use vstd::prelude::*;

verus! {

/// Architecture family an entry loads through.
#[derive(Debug, Clone, Copy, PartialEq, Eq, Structural)]
pub enum ModelFamily {
    Qwen3Dense,
    Qwen35Hybrid,
    /// The hybrid body with a mixture of experts in every layer.
    Qwen35Moe,
}

/// One known checkpoint: where it lives, where it is expected, and the
/// defaults to apply unless the user overrides them.
#[derive(Debug, Clone, Copy)]
pub struct ModelSpec {
    pub name: &'static str,
    pub family: ModelFamily,
    /// Path under the checkpoint directory.
    pub gguf_rel: &'static str,
    pub hf_repo: &'static str,
    /// The file to download; the last segment of `gguf_rel`.
    pub hf_file: &'static str,
    pub default_ctx: usize,
    pub sampling: SamplingParams,
    pub thinking_default: bool,
}

/// What a [`ModelSpec`] says.
#[verifier::ext_equal]
pub struct SpecModel {
    pub name: Seq<char>,
    pub family: ModelFamily,
    pub gguf_rel: Seq<char>,
    pub hf_repo: Seq<char>,
    pub hf_file: Seq<char>,
    pub default_ctx: usize,
    pub sampling: SamplingParams,
    pub thinking_default: bool,
}

impl View for ModelSpec {
    type V = SpecModel;

    open spec fn view(&self) -> SpecModel {
        SpecModel {
            name: self.name@,
            family: self.family,
            gguf_rel: self.gguf_rel@,
            hf_repo: self.hf_repo@,
            hf_file: self.hf_file@,
            default_ctx: self.default_ctx,
            sampling: self.sampling,
            thinking_default: self.thinking_default,
        }
    }
}

/// Longest context the engine's cache takes.
pub const MAX_SEQ_CAP: u32 = 4096;

/// The thinking-mode sampling recommended for the dense and the Ornith
/// models: temperature 0.6, nucleus 0.95, top 20.
pub open spec fn thinking_params() -> SamplingParams {
    SamplingParams {
        temperature: 0x3f19_999a,
        top_k: Some(20),
        top_p: Some(0x3f73_3333),
        seed: 0,
        repeat_penalty: None,
        repeat_penalty_window: 64,
    }
}

/// The non-thinking sampling recommended for the small hybrid models:
/// temperature 1, nucleus 1, top 20.
pub open spec fn plain_params() -> SamplingParams {
    SamplingParams {
        temperature: 0x3f80_0000,
        top_k: Some(20),
        top_p: Some(0x3f80_0000),
        seed: 0,
        repeat_penalty: None,
        repeat_penalty_window: 64,
    }
}

fn thinking_sampling() -> (r: SamplingParams)
    ensures
        r == thinking_params(),
{
    SamplingParams {
        temperature: 0x3f19_999a,
        top_k: Some(20),
        top_p: Some(0x3f73_3333),
        seed: 0,
        repeat_penalty: None,
        repeat_penalty_window: 64,
    }
}

fn plain_sampling() -> (r: SamplingParams)
    ensures
        r == plain_params(),
{
    SamplingParams {
        temperature: 0x3f80_0000,
        top_k: Some(20),
        top_p: Some(0x3f80_0000),
        seed: 0,
        repeat_penalty: None,
        repeat_penalty_window: 64,
    }
}

/// The catalog.
pub open spec fn catalog() -> Seq<SpecModel> {
    seq![
        SpecModel {
            name: "ornith-1.0-9b"@,
            family: ModelFamily::Qwen35Hybrid,
            gguf_rel: "Ornith-1.0-9B-GGUF/ornith-1.0-9b-Q4_K_M.gguf"@,
            hf_repo: "ornith-ai/Ornith-1.0-9B-GGUF"@,
            hf_file: "ornith-1.0-9b-Q4_K_M.gguf"@,
            default_ctx: 8192,
            sampling: thinking_params(),
            thinking_default: true,
        },
        SpecModel {
            name: "ornith-1.0-9b-q6"@,
            family: ModelFamily::Qwen35Hybrid,
            gguf_rel: "Ornith-1.0-9B-GGUF/ornith-1.0-9b-Q6_K.gguf"@,
            hf_repo: "ornith-ai/Ornith-1.0-9B-GGUF"@,
            hf_file: "ornith-1.0-9b-Q6_K.gguf"@,
            default_ctx: 8192,
            sampling: thinking_params(),
            thinking_default: true,
        },
        SpecModel {
            name: "ornith-1.5-9b"@,
            family: ModelFamily::Qwen35Hybrid,
            gguf_rel: "Ornith-1.5-9B-GGUF/Ornith-1.5-9B-Q4_K_M.gguf"@,
            hf_repo: "ornith-ai/Ornith-1.5-9B-GGUF"@,
            hf_file: "Ornith-1.5-9B-Q4_K_M.gguf"@,
            default_ctx: 8192,
            sampling: thinking_params(),
            thinking_default: true,
        },
        SpecModel {
            name: "ornith-1.5-9b-q6"@,
            family: ModelFamily::Qwen35Hybrid,
            gguf_rel: "Ornith-1.5-9B-GGUF/Ornith-1.5-9B-Q6_K.gguf"@,
            hf_repo: "ornith-ai/Ornith-1.5-9B-GGUF"@,
            hf_file: "Ornith-1.5-9B-Q6_K.gguf"@,
            default_ctx: 8192,
            sampling: thinking_params(),
            thinking_default: true,
        },
        SpecModel {
            name: "ornith-9b"@,
            family: ModelFamily::Qwen35Hybrid,
            gguf_rel: "Ornith-1.5-9B-GGUF/Ornith-1.5-9B-Q6_K.gguf"@,
            hf_repo: "ornith-ai/Ornith-1.5-9B-GGUF"@,
            hf_file: "Ornith-1.5-9B-Q6_K.gguf"@,
            default_ctx: 8192,
            sampling: thinking_params(),
            thinking_default: true,
        },
        SpecModel {
            name: "ornith-9b-q6"@,
            family: ModelFamily::Qwen35Hybrid,
            gguf_rel: "Ornith-1.0-9B-GGUF/ornith-1.0-9b-Q6_K.gguf"@,
            hf_repo: "ornith-ai/Ornith-1.0-9B-GGUF"@,
            hf_file: "ornith-1.0-9b-Q6_K.gguf"@,
            default_ctx: 8192,
            sampling: thinking_params(),
            thinking_default: true,
        },
        SpecModel {
            name: "ornith-1.5-35b"@,
            family: ModelFamily::Qwen35Moe,
            gguf_rel: "Ornith-1.5-35B-A3B-GGUF/Ornith-1.5-35B-Q4_K_M.gguf"@,
            hf_repo: "ornith-ai/Ornith-1.5-35B-A3B-GGUF"@,
            hf_file: "Ornith-1.5-35B-Q4_K_M.gguf"@,
            default_ctx: 8192,
            sampling: thinking_params(),
            thinking_default: true,
        },
        SpecModel {
            name: "qwen3.5-2b"@,
            family: ModelFamily::Qwen35Hybrid,
            gguf_rel: "Qwen3.5-2B-GGUF/Qwen3.5-2B-Q8_0.gguf"@,
            hf_repo: "unsloth/Qwen3.5-2B-GGUF"@,
            hf_file: "Qwen3.5-2B-Q8_0.gguf"@,
            default_ctx: 4096,
            sampling: plain_params(),
            thinking_default: false,
        },
        SpecModel {
            name: "qwen3.5-0.8b"@,
            family: ModelFamily::Qwen35Hybrid,
            gguf_rel: "Qwen3.5-0.8B-GGUF/Qwen3.5-0.8B-Q8_0.gguf"@,
            hf_repo: "unsloth/Qwen3.5-0.8B-GGUF"@,
            hf_file: "Qwen3.5-0.8B-Q8_0.gguf"@,
            default_ctx: 4096,
            sampling: plain_params(),
            thinking_default: false,
        },
        SpecModel {
            name: "qwen3-0.6b"@,
            family: ModelFamily::Qwen3Dense,
            gguf_rel: "Qwen3-0.6B-GGUF/Qwen3-0.6B-Q8_0.gguf"@,
            hf_repo: "Qwen/Qwen3-0.6B-GGUF"@,
            hf_file: "Qwen3-0.6B-Q8_0.gguf"@,
            default_ctx: 4096,
            sampling: thinking_params(),
            thinking_default: true,
        },
        SpecModel {
            name: "qwen3-1.7b"@,
            family: ModelFamily::Qwen3Dense,
            gguf_rel: "Qwen3-1.7B-GGUF/Qwen3-1.7B-Q8_0.gguf"@,
            hf_repo: "Qwen/Qwen3-1.7B-GGUF"@,
            hf_file: "Qwen3-1.7B-Q8_0.gguf"@,
            default_ctx: 4096,
            sampling: thinking_params(),
            thinking_default: true,
        },
        SpecModel {
            name: "qwen3-4b"@,
            family: ModelFamily::Qwen3Dense,
            gguf_rel: "Qwen3-4B-GGUF/Qwen3-4B-Q4_K_M.gguf"@,
            hf_repo: "Qwen/Qwen3-4B-GGUF"@,
            hf_file: "Qwen3-4B-Q4_K_M.gguf"@,
            default_ctx: 4096,
            sampling: thinking_params(),
            thinking_default: true,
        },
        SpecModel {
            name: "qwen3-8b"@,
            family: ModelFamily::Qwen3Dense,
            gguf_rel: "Qwen3-8B-GGUF/Qwen3-8B-Q4_K_M.gguf"@,
            hf_repo: "Qwen/Qwen3-8B-GGUF"@,
            hf_file: "Qwen3-8B-Q4_K_M.gguf"@,
            default_ctx: 4096,
            sampling: thinking_params(),
            thinking_default: true,
        },
    ]
}

/// The catalog, in order. `ornith-9b` is the default model's short name and
/// describes the same checkpoint as `ornith-1.5-9b-q6`; `ornith-9b-q6`
/// describes the same one as `ornith-1.0-9b-q6`.
pub fn registry() -> (r: Vec<ModelSpec>)
    ensures
        specs(r@) == catalog(),
{
    let r: Vec<ModelSpec> = vec![
        ModelSpec {
            name: "ornith-1.0-9b",
            family: ModelFamily::Qwen35Hybrid,
            gguf_rel: "Ornith-1.0-9B-GGUF/ornith-1.0-9b-Q4_K_M.gguf",
            hf_repo: "ornith-ai/Ornith-1.0-9B-GGUF",
            hf_file: "ornith-1.0-9b-Q4_K_M.gguf",
            default_ctx: 8192,
            sampling: thinking_sampling(),
            thinking_default: true,
        },
        ModelSpec {
            name: "ornith-1.0-9b-q6",
            family: ModelFamily::Qwen35Hybrid,
            gguf_rel: "Ornith-1.0-9B-GGUF/ornith-1.0-9b-Q6_K.gguf",
            hf_repo: "ornith-ai/Ornith-1.0-9B-GGUF",
            hf_file: "ornith-1.0-9b-Q6_K.gguf",
            default_ctx: 8192,
            sampling: thinking_sampling(),
            thinking_default: true,
        },
        ModelSpec {
            name: "ornith-1.5-9b",
            family: ModelFamily::Qwen35Hybrid,
            gguf_rel: "Ornith-1.5-9B-GGUF/Ornith-1.5-9B-Q4_K_M.gguf",
            hf_repo: "ornith-ai/Ornith-1.5-9B-GGUF",
            hf_file: "Ornith-1.5-9B-Q4_K_M.gguf",
            default_ctx: 8192,
            sampling: thinking_sampling(),
            thinking_default: true,
        },
        ModelSpec {
            name: "ornith-1.5-9b-q6",
            family: ModelFamily::Qwen35Hybrid,
            gguf_rel: "Ornith-1.5-9B-GGUF/Ornith-1.5-9B-Q6_K.gguf",
            hf_repo: "ornith-ai/Ornith-1.5-9B-GGUF",
            hf_file: "Ornith-1.5-9B-Q6_K.gguf",
            default_ctx: 8192,
            sampling: thinking_sampling(),
            thinking_default: true,
        },
        ModelSpec {
            name: "ornith-9b",
            family: ModelFamily::Qwen35Hybrid,
            gguf_rel: "Ornith-1.5-9B-GGUF/Ornith-1.5-9B-Q6_K.gguf",
            hf_repo: "ornith-ai/Ornith-1.5-9B-GGUF",
            hf_file: "Ornith-1.5-9B-Q6_K.gguf",
            default_ctx: 8192,
            sampling: thinking_sampling(),
            thinking_default: true,
        },
        ModelSpec {
            name: "ornith-9b-q6",
            family: ModelFamily::Qwen35Hybrid,
            gguf_rel: "Ornith-1.0-9B-GGUF/ornith-1.0-9b-Q6_K.gguf",
            hf_repo: "ornith-ai/Ornith-1.0-9B-GGUF",
            hf_file: "ornith-1.0-9b-Q6_K.gguf",
            default_ctx: 8192,
            sampling: thinking_sampling(),
            thinking_default: true,
        },
        ModelSpec {
            name: "ornith-1.5-35b",
            family: ModelFamily::Qwen35Moe,
            gguf_rel: "Ornith-1.5-35B-A3B-GGUF/Ornith-1.5-35B-Q4_K_M.gguf",
            hf_repo: "ornith-ai/Ornith-1.5-35B-A3B-GGUF",
            hf_file: "Ornith-1.5-35B-Q4_K_M.gguf",
            default_ctx: 8192,
            sampling: thinking_sampling(),
            thinking_default: true,
        },
        ModelSpec {
            name: "qwen3.5-2b",
            family: ModelFamily::Qwen35Hybrid,
            gguf_rel: "Qwen3.5-2B-GGUF/Qwen3.5-2B-Q8_0.gguf",
            hf_repo: "unsloth/Qwen3.5-2B-GGUF",
            hf_file: "Qwen3.5-2B-Q8_0.gguf",
            default_ctx: 4096,
            sampling: plain_sampling(),
            thinking_default: false,
        },
        ModelSpec {
            name: "qwen3.5-0.8b",
            family: ModelFamily::Qwen35Hybrid,
            gguf_rel: "Qwen3.5-0.8B-GGUF/Qwen3.5-0.8B-Q8_0.gguf",
            hf_repo: "unsloth/Qwen3.5-0.8B-GGUF",
            hf_file: "Qwen3.5-0.8B-Q8_0.gguf",
            default_ctx: 4096,
            sampling: plain_sampling(),
            thinking_default: false,
        },
        ModelSpec {
            name: "qwen3-0.6b",
            family: ModelFamily::Qwen3Dense,
            gguf_rel: "Qwen3-0.6B-GGUF/Qwen3-0.6B-Q8_0.gguf",
            hf_repo: "Qwen/Qwen3-0.6B-GGUF",
            hf_file: "Qwen3-0.6B-Q8_0.gguf",
            default_ctx: 4096,
            sampling: thinking_sampling(),
            thinking_default: true,
        },
        ModelSpec {
            name: "qwen3-1.7b",
            family: ModelFamily::Qwen3Dense,
            gguf_rel: "Qwen3-1.7B-GGUF/Qwen3-1.7B-Q8_0.gguf",
            hf_repo: "Qwen/Qwen3-1.7B-GGUF",
            hf_file: "Qwen3-1.7B-Q8_0.gguf",
            default_ctx: 4096,
            sampling: thinking_sampling(),
            thinking_default: true,
        },
        ModelSpec {
            name: "qwen3-4b",
            family: ModelFamily::Qwen3Dense,
            gguf_rel: "Qwen3-4B-GGUF/Qwen3-4B-Q4_K_M.gguf",
            hf_repo: "Qwen/Qwen3-4B-GGUF",
            hf_file: "Qwen3-4B-Q4_K_M.gguf",
            default_ctx: 4096,
            sampling: thinking_sampling(),
            thinking_default: true,
        },
        ModelSpec {
            name: "qwen3-8b",
            family: ModelFamily::Qwen3Dense,
            gguf_rel: "Qwen3-8B-GGUF/Qwen3-8B-Q4_K_M.gguf",
            hf_repo: "Qwen/Qwen3-8B-GGUF",
            hf_file: "Qwen3-8B-Q4_K_M.gguf",
            default_ctx: 4096,
            sampling: thinking_sampling(),
            thinking_default: true,
        },
    ];
    assert(specs(r@) =~= catalog());
    r
}

/// The contents of a list of entries.
pub open spec fn specs(s: Seq<ModelSpec>) -> Seq<SpecModel> {
    s.map_values(|m: ModelSpec| m@)
}

/// No two entries share a name.
pub proof fn law_names_are_unique(i: int, j: int)
    requires
        0 <= i < j < catalog().len(),
    ensures
        catalog()[i].name != catalog()[j].name,
{
    reveal_strlit("ornith-1.0-9b");
    reveal_strlit("ornith-1.0-9b-q6");
    reveal_strlit("ornith-1.5-9b");
    reveal_strlit("ornith-1.5-9b-q6");
    reveal_strlit("ornith-9b");
    reveal_strlit("ornith-9b-q6");
    reveal_strlit("ornith-1.5-35b");
    reveal_strlit("qwen3.5-2b");
    reveal_strlit("qwen3.5-0.8b");
    reveal_strlit("qwen3-0.6b");
    reveal_strlit("qwen3-1.7b");
    reveal_strlit("qwen3-4b");
    reveal_strlit("qwen3-8b");
    assert("ornith-1.0-9b"@.len() != "ornith-1.0-9b-q6"@.len());
    assert("ornith-1.0-9b"@[9] != "ornith-1.5-9b"@[9]);
    assert("ornith-1.0-9b"@.len() != "ornith-1.5-9b-q6"@.len());
    assert("ornith-1.0-9b"@.len() != "ornith-9b"@.len());
    assert("ornith-1.0-9b"@.len() != "ornith-1.5-35b"@.len());
    assert("ornith-1.0-9b"@.len() != "qwen3.5-2b"@.len());
    assert("ornith-1.0-9b"@.len() != "qwen3.5-0.8b"@.len());
    assert("ornith-1.0-9b"@.len() != "qwen3-0.6b"@.len());
    assert("ornith-1.0-9b"@.len() != "qwen3-1.7b"@.len());
    assert("ornith-1.0-9b"@.len() != "qwen3-4b"@.len());
    assert("ornith-1.0-9b"@.len() != "qwen3-8b"@.len());
    assert("ornith-1.0-9b-q6"@.len() != "ornith-1.5-9b"@.len());
    assert("ornith-1.0-9b-q6"@[9] != "ornith-1.5-9b-q6"@[9]);
    assert("ornith-1.0-9b-q6"@.len() != "ornith-9b"@.len());
    assert("ornith-1.0-9b-q6"@.len() != "ornith-1.5-35b"@.len());
    assert("ornith-1.0-9b-q6"@.len() != "qwen3.5-2b"@.len());
    assert("ornith-1.0-9b-q6"@.len() != "qwen3.5-0.8b"@.len());
    assert("ornith-1.0-9b-q6"@.len() != "qwen3-0.6b"@.len());
    assert("ornith-1.0-9b-q6"@.len() != "qwen3-1.7b"@.len());
    assert("ornith-1.0-9b-q6"@.len() != "qwen3-4b"@.len());
    assert("ornith-1.0-9b-q6"@.len() != "qwen3-8b"@.len());
    assert("ornith-1.5-9b"@.len() != "ornith-1.5-9b-q6"@.len());
    assert("ornith-1.5-9b"@.len() != "ornith-9b"@.len());
    assert("ornith-1.5-9b"@.len() != "ornith-1.5-35b"@.len());
    assert("ornith-1.5-9b"@.len() != "qwen3.5-2b"@.len());
    assert("ornith-1.5-9b"@.len() != "qwen3.5-0.8b"@.len());
    assert("ornith-1.5-9b"@.len() != "qwen3-0.6b"@.len());
    assert("ornith-1.5-9b"@.len() != "qwen3-1.7b"@.len());
    assert("ornith-1.5-9b"@.len() != "qwen3-4b"@.len());
    assert("ornith-1.5-9b"@.len() != "qwen3-8b"@.len());
    assert("ornith-1.5-9b-q6"@.len() != "ornith-9b"@.len());
    assert("ornith-1.5-9b-q6"@.len() != "ornith-1.5-35b"@.len());
    assert("ornith-1.5-9b-q6"@.len() != "qwen3.5-2b"@.len());
    assert("ornith-1.5-9b-q6"@.len() != "qwen3.5-0.8b"@.len());
    assert("ornith-1.5-9b-q6"@.len() != "qwen3-0.6b"@.len());
    assert("ornith-1.5-9b-q6"@.len() != "qwen3-1.7b"@.len());
    assert("ornith-1.5-9b-q6"@.len() != "qwen3-4b"@.len());
    assert("ornith-1.5-9b-q6"@.len() != "qwen3-8b"@.len());
    assert("ornith-9b"@.len() != "ornith-1.5-35b"@.len());
    assert("ornith-9b"@.len() != "qwen3.5-2b"@.len());
    assert("ornith-9b"@.len() != "qwen3.5-0.8b"@.len());
    assert("ornith-9b"@.len() != "qwen3-0.6b"@.len());
    assert("ornith-9b"@.len() != "qwen3-1.7b"@.len());
    assert("ornith-9b"@.len() != "qwen3-4b"@.len());
    assert("ornith-9b"@.len() != "qwen3-8b"@.len());
    assert("ornith-9b-q6"@.len() != "ornith-1.0-9b"@.len());
    assert("ornith-9b-q6"@.len() != "ornith-1.0-9b-q6"@.len());
    assert("ornith-9b-q6"@.len() != "ornith-1.5-9b"@.len());
    assert("ornith-9b-q6"@.len() != "ornith-1.5-9b-q6"@.len());
    assert("ornith-9b-q6"@.len() != "ornith-9b"@.len());
    assert("ornith-9b-q6"@.len() != "ornith-1.5-35b"@.len());
    assert("ornith-9b-q6"@.len() != "qwen3.5-2b"@.len());
    assert("ornith-9b-q6"@[0] != "qwen3.5-0.8b"@[0]);
    assert("ornith-9b-q6"@.len() != "qwen3-0.6b"@.len());
    assert("ornith-9b-q6"@.len() != "qwen3-1.7b"@.len());
    assert("ornith-9b-q6"@.len() != "qwen3-4b"@.len());
    assert("ornith-9b-q6"@.len() != "qwen3-8b"@.len());
    assert("ornith-1.5-35b"@.len() != "qwen3.5-2b"@.len());
    assert("ornith-1.5-35b"@.len() != "qwen3.5-0.8b"@.len());
    assert("ornith-1.5-35b"@.len() != "qwen3-0.6b"@.len());
    assert("ornith-1.5-35b"@.len() != "qwen3-1.7b"@.len());
    assert("ornith-1.5-35b"@.len() != "qwen3-4b"@.len());
    assert("ornith-1.5-35b"@.len() != "qwen3-8b"@.len());
    assert("qwen3.5-2b"@.len() != "qwen3.5-0.8b"@.len());
    assert("qwen3.5-2b"@[5] != "qwen3-0.6b"@[5]);
    assert("qwen3.5-2b"@[5] != "qwen3-1.7b"@[5]);
    assert("qwen3.5-2b"@.len() != "qwen3-4b"@.len());
    assert("qwen3.5-2b"@.len() != "qwen3-8b"@.len());
    assert("qwen3.5-0.8b"@.len() != "qwen3-0.6b"@.len());
    assert("qwen3.5-0.8b"@.len() != "qwen3-1.7b"@.len());
    assert("qwen3.5-0.8b"@.len() != "qwen3-4b"@.len());
    assert("qwen3.5-0.8b"@.len() != "qwen3-8b"@.len());
    assert("qwen3-0.6b"@[6] != "qwen3-1.7b"@[6]);
    assert("qwen3-0.6b"@.len() != "qwen3-4b"@.len());
    assert("qwen3-0.6b"@.len() != "qwen3-8b"@.len());
    assert("qwen3-1.7b"@.len() != "qwen3-4b"@.len());
    assert("qwen3-1.7b"@.len() != "qwen3-8b"@.len());
    assert("qwen3-4b"@[6] != "qwen3-8b"@[6]);
}

/// A download lands where the entry is looked for: the file to download is
/// the last segment of the entry's path.
pub proof fn law_download_lands_where_expected(i: int)
    requires
        0 <= i < catalog().len(),
    ensures
        has_suffix(catalog()[i].gguf_rel, seq!['/'] + catalog()[i].hf_file),
        !catalog()[i].hf_file.contains('/'),
{
    if i == 0 {
        reveal_strlit("Ornith-1.0-9B-GGUF/ornith-1.0-9b-Q4_K_M.gguf");
        reveal_strlit("ornith-1.0-9b-Q4_K_M.gguf");
        lemma_last_segment(
            "Ornith-1.0-9B-GGUF/ornith-1.0-9b-Q4_K_M.gguf"@,
            "ornith-1.0-9b-Q4_K_M.gguf"@,
        );
    }
    if i == 1 {
        reveal_strlit("Ornith-1.0-9B-GGUF/ornith-1.0-9b-Q6_K.gguf");
        reveal_strlit("ornith-1.0-9b-Q6_K.gguf");
        lemma_last_segment(
            "Ornith-1.0-9B-GGUF/ornith-1.0-9b-Q6_K.gguf"@,
            "ornith-1.0-9b-Q6_K.gguf"@,
        );
    }
    if i == 2 {
        reveal_strlit("Ornith-1.5-9B-GGUF/Ornith-1.5-9B-Q4_K_M.gguf");
        reveal_strlit("Ornith-1.5-9B-Q4_K_M.gguf");
        lemma_last_segment(
            "Ornith-1.5-9B-GGUF/Ornith-1.5-9B-Q4_K_M.gguf"@,
            "Ornith-1.5-9B-Q4_K_M.gguf"@,
        );
    }
    if i == 3 {
        reveal_strlit("Ornith-1.5-9B-GGUF/Ornith-1.5-9B-Q6_K.gguf");
        reveal_strlit("Ornith-1.5-9B-Q6_K.gguf");
        lemma_last_segment(
            "Ornith-1.5-9B-GGUF/Ornith-1.5-9B-Q6_K.gguf"@,
            "Ornith-1.5-9B-Q6_K.gguf"@,
        );
    }
    if i == 4 {
        reveal_strlit("Ornith-1.5-9B-GGUF/Ornith-1.5-9B-Q6_K.gguf");
        reveal_strlit("Ornith-1.5-9B-Q6_K.gguf");
        lemma_last_segment(
            "Ornith-1.5-9B-GGUF/Ornith-1.5-9B-Q6_K.gguf"@,
            "Ornith-1.5-9B-Q6_K.gguf"@,
        );
    }
    if i == 5 {
        reveal_strlit("Ornith-1.0-9B-GGUF/ornith-1.0-9b-Q6_K.gguf");
        reveal_strlit("ornith-1.0-9b-Q6_K.gguf");
        lemma_last_segment(
            "Ornith-1.0-9B-GGUF/ornith-1.0-9b-Q6_K.gguf"@,
            "ornith-1.0-9b-Q6_K.gguf"@,
        );
    }
    if i == 6 {
        reveal_strlit("Ornith-1.5-35B-A3B-GGUF/Ornith-1.5-35B-Q4_K_M.gguf");
        reveal_strlit("Ornith-1.5-35B-Q4_K_M.gguf");
        lemma_last_segment(
            "Ornith-1.5-35B-A3B-GGUF/Ornith-1.5-35B-Q4_K_M.gguf"@,
            "Ornith-1.5-35B-Q4_K_M.gguf"@,
        );
    }
    if i == 7 {
        reveal_strlit("Qwen3.5-2B-GGUF/Qwen3.5-2B-Q8_0.gguf");
        reveal_strlit("Qwen3.5-2B-Q8_0.gguf");
        lemma_last_segment(
            "Qwen3.5-2B-GGUF/Qwen3.5-2B-Q8_0.gguf"@,
            "Qwen3.5-2B-Q8_0.gguf"@,
        );
    }
    if i == 8 {
        reveal_strlit("Qwen3.5-0.8B-GGUF/Qwen3.5-0.8B-Q8_0.gguf");
        reveal_strlit("Qwen3.5-0.8B-Q8_0.gguf");
        lemma_last_segment(
            "Qwen3.5-0.8B-GGUF/Qwen3.5-0.8B-Q8_0.gguf"@,
            "Qwen3.5-0.8B-Q8_0.gguf"@,
        );
    }
    if i == 9 {
        reveal_strlit("Qwen3-0.6B-GGUF/Qwen3-0.6B-Q8_0.gguf");
        reveal_strlit("Qwen3-0.6B-Q8_0.gguf");
        lemma_last_segment(
            "Qwen3-0.6B-GGUF/Qwen3-0.6B-Q8_0.gguf"@,
            "Qwen3-0.6B-Q8_0.gguf"@,
        );
    }
    if i == 10 {
        reveal_strlit("Qwen3-1.7B-GGUF/Qwen3-1.7B-Q8_0.gguf");
        reveal_strlit("Qwen3-1.7B-Q8_0.gguf");
        lemma_last_segment(
            "Qwen3-1.7B-GGUF/Qwen3-1.7B-Q8_0.gguf"@,
            "Qwen3-1.7B-Q8_0.gguf"@,
        );
    }
    if i == 11 {
        reveal_strlit("Qwen3-4B-GGUF/Qwen3-4B-Q4_K_M.gguf");
        reveal_strlit("Qwen3-4B-Q4_K_M.gguf");
        lemma_last_segment(
            "Qwen3-4B-GGUF/Qwen3-4B-Q4_K_M.gguf"@,
            "Qwen3-4B-Q4_K_M.gguf"@,
        );
    }
    if i == 12 {
        reveal_strlit("Qwen3-8B-GGUF/Qwen3-8B-Q4_K_M.gguf");
        reveal_strlit("Qwen3-8B-Q4_K_M.gguf");
        lemma_last_segment(
            "Qwen3-8B-GGUF/Qwen3-8B-Q4_K_M.gguf"@,
            "Qwen3-8B-Q4_K_M.gguf"@,
        );
    }
}

/// A path made of a directory part, a slash and a file without one ends with
/// that file.
proof fn lemma_last_segment(rel: Seq<char>, file: Seq<char>)
    requires
        rel.len() > file.len(),
        rel[rel.len() - file.len() - 1] == '/',
        forall|k: int|
            0 <= k < file.len() ==> #[trigger] file[k] == rel[rel.len() - file.len() + k],
        forall|k: int| 0 <= k < file.len() ==> #[trigger] file[k] != '/',
    ensures
        has_suffix(rel, seq!['/'] + file),
        !file.contains('/'),
{
    let tail = seq!['/'] + file;
    assert(rel.subrange(rel.len() - tail.len(), rel.len() as int) =~= tail);
}

/// A model argument that names a file: it contains a slash, ends in `.gguf`,
/// or is an existing file.
pub open spec fn path_like(name: Seq<char>, is_file: bool) -> bool {
    occurs(name, "/"@) || has_suffix(name, ".gguf"@) || is_file
}

/// Whether a model argument names a file. `is_file` says whether there is a
/// file of that name.
pub fn is_path_like(name_or_path: &str, is_file: bool) -> (r: bool)
    ensures
        r == path_like(name_or_path@, is_file),
{
    contains(name_or_path, "/") || ends_with(name_or_path, ".gguf") || is_file
}

/// The context the engine gets: the requested one, capped.
pub fn clamp_ctx(requested: usize) -> (r: usize)
    ensures
        r == (if requested > MAX_SEQ_CAP {
            MAX_SEQ_CAP as usize
        } else {
            requested
        }),
{
    if requested > MAX_SEQ_CAP as usize {
        MAX_SEQ_CAP as usize
    } else {
        requested
    }
}

/// A path below a directory.
pub open spec fn joined(dir: Seq<char>, rel: Seq<char>) -> Seq<char> {
    if dir.len() == 0 {
        rel
    } else if dir.last() == '/' {
        dir + rel
    } else {
        dir + seq!['/'] + rel
    }
}

fn join(dir: &str, rel: &str) -> (r: String)
    ensures
        r@ == joined(dir@, rel@),
{
    proof {
        reveal_strlit("/");
    }
    let mut out: String = dir.to_owned();
    if !dir.is_empty() {
        if !ends_with(dir, "/") {
            out.append("/");
        }
        proof {
            let n = dir@.len() as int;
            assert(has_suffix(dir@, "/"@) <==> dir@.last() == '/') by {
                assert("/"@ =~= seq!['/']);
                assert("/"@.len() == 1);
                if has_suffix(dir@, "/"@) {
                    assert(dir@.subrange(n - 1, n)[0] == "/"@[0]);
                } else if dir@.last() == '/' {
                    assert(dir@.subrange(n - 1, n) =~= "/"@);
                }
            }
        }
    }
    out.append(rel);
    proof {
        assert("/"@ =~= seq!['/']);
        assert(out@ =~= joined(dir@, rel@));
    }
    out
}

/// The checkpoint directory: the one the environment names, else
/// `checkpoints` under the home directory, else under the current one.
pub open spec fn checkpoint_dir_of(
    configured: Option<Seq<char>>,
    home: Option<Seq<char>>,
) -> Seq<char> {
    match configured {
        Some(d) => d,
        None => joined(
            match home {
                Some(h) => h,
                None => "."@,
            },
            "checkpoints"@,
        ),
    }
}

/// The content of an optional string.
pub open spec fn opt_text(s: Option<&str>) -> Option<Seq<char>> {
    match s {
        None => None,
        Some(x) => Some(x@),
    }
}

/// The checkpoint directory, from the two environment variables that decide.
pub fn checkpoint_dir(configured: Option<&str>, home: Option<&str>) -> (r: String)
    ensures
        r@ == checkpoint_dir_of(opt_text(configured), opt_text(home)),
{
    match configured {
        Some(d) => d.to_owned(),
        None => match home {
            Some(h) => join(h, "checkpoints"),
            None => join(".", "checkpoints"),
        },
    }
}

/// Where an entry is expected on disk.
pub fn resolved_path(spec: &ModelSpec, dir: &str) -> (r: String)
    ensures
        r@ == joined(dir@, spec.gguf_rel@),
{
    join(dir, spec.gguf_rel)
}

/// The last slash of a path, or minus one.
pub open spec fn last_slash(s: Seq<char>) -> int
    decreases s.len(),
{
    if s.len() == 0 {
        -1
    } else if s.last() == '/' {
        s.len() - 1
    } else {
        last_slash(s.drop_last())
    }
}

/// The directory an entry's file is in.
pub open spec fn subdir_of(dir: Seq<char>, rel: Seq<char>) -> Seq<char> {
    let n = last_slash(rel);
    if n <= 0 {
        dir
    } else {
        joined(dir, rel.take(n))
    }
}

fn checkpoint_subdir(spec: &ModelSpec, dir: &str) -> (r: String)
    ensures
        r@ == subdir_of(dir@, spec.gguf_rel@),
{
    let rel = chars_of(spec.gguf_rel);
    let mut n: usize = rel.len();
    proof {
        assert(rel@.take(n as int) =~= rel@);
    }
    while n > 0 && rel[n - 1] != '/'
        invariant
            n <= rel@.len(),
            rel@ == spec.gguf_rel@,
            last_slash(rel@) == last_slash(rel@.take(n as int)),
        decreases n,
    {
        proof {
            assert(rel@.take(n as int).drop_last() =~= rel@.take(n - 1));
            assert(rel@.take(n as int).last() == rel@[n - 1]);
        }
        n = n - 1;
    }
    proof {
        if n > 0 {
            assert(rel@.take(n as int).last() == rel@[n - 1]);
        } else {
            assert(rel@.take(0) =~= Seq::empty());
        }
    }
    if n <= 1 {
        return dir.to_owned();
    }
    join(dir, spec.gguf_rel.substring_char(0, n - 1))
}

/// The names of a run of entries, separated by commas.
pub open spec fn name_list(s: Seq<SpecModel>) -> Seq<char>
    decreases s.len(),
{
    if s.len() == 0 {
        Seq::empty()
    } else if s.len() == 1 {
        s[0].name
    } else {
        name_list(s.drop_last()) + ", "@ + s.last().name
    }
}

fn known_names(entries: &Vec<ModelSpec>) -> (r: String)
    ensures
        r@ == name_list(specs(entries@)),
{
    let mut out: String = String::new();
    let mut i: usize = 0;
    let ghost s = specs(entries@);
    proof {
        assert(s.take(0) =~= Seq::empty());
        assert(out@ =~= name_list(s.take(0)));
    }
    while i < entries.len()
        invariant
            i <= entries@.len(),
            s == specs(entries@),
            out@ == name_list(s.take(i as int)),
        decreases entries@.len() - i,
    {
        let ghost before = out@;
        proof {
            assert(s.take(i + 1).drop_last() =~= s.take(i as int));
            assert(s.take(i + 1).last() == entries@[i as int]@);
        }
        if i > 0 {
            out.append(", ");
        }
        out.append(entries[i].name);
        proof {
            if i == 0 {
                assert(before =~= Seq::empty());
                assert(out@ =~= entries@[0].name@);
                assert(s.take(1)[0] == entries@[0]@);
            }
            assert(out@ =~= name_list(s.take(i + 1)));
        }
        i = i + 1;
    }
    proof {
        assert(s.take(i as int) =~= s);
    }
    out
}

/// What a model argument stands for.
#[derive(Debug)]
pub enum Target {
    /// A file, with no preset defaults.
    File,
    /// A catalog entry.
    Entry(ModelSpec),
}

/// The index of the first entry of a name, if there is one.
pub open spec fn find_name(s: Seq<SpecModel>, name: Seq<char>) -> Option<int>
    decreases s.len(),
{
    if s.len() == 0 {
        None
    } else {
        match find_name(s.drop_last(), name) {
            Some(i) => Some(i),
            None => if s.last().name == name {
                Some(s.len() - 1)
            } else {
                None
            },
        }
    }
}

/// A found entry has the name, and is the first that has it; nothing is found
/// only where no entry has it.
proof fn lemma_find_name(s: Seq<SpecModel>, name: Seq<char>)
    ensures
        match find_name(s, name) {
            Some(i) => {
                &&& 0 <= i < s.len()
                &&& s[i].name == name
            },
            None => forall|i: int| 0 <= i < s.len() ==> (#[trigger] s[i]).name != name,
        },
    decreases s.len(),
{
    if s.len() > 0 {
        lemma_find_name(s.drop_last(), name);
        if find_name(s, name) is None {
            assert forall|i: int| 0 <= i < s.len() implies (#[trigger] s[i]).name != name by {
                if i < s.len() - 1 {
                    assert(s.drop_last()[i].name != name);
                }
            }
        }
    }
}

/// Every entry of the catalog is found by its own name, and by no other.
pub proof fn law_every_entry_is_found_by_its_name(i: int, name: Seq<char>)
    requires
        0 <= i < catalog().len(),
    ensures
        find_name(catalog(), name) == Some(i) <==> name == catalog()[i].name,
        find_name(catalog(), name) is None ==> name != catalog()[i].name,
{
    lemma_find_name(catalog(), name);
    if name == catalog()[i].name {
        let j = find_name(catalog(), name)->0;
        assert(find_name(catalog(), name) is Some);
        if i < j {
            law_names_are_unique(i, j);
        } else if j < i {
            law_names_are_unique(j, i);
        }
    }
}

proof fn lemma_last_slash(sub: Seq<char>, file: Seq<char>)
    requires
        !file.contains('/'),
    ensures
        last_slash(sub + seq!['/'] + file) == sub.len(),
    decreases file.len(),
{
    let s = sub + seq!['/'] + file;
    if file.len() == 0 {
        assert(s.last() == '/');
    } else {
        let less = file.drop_last();
        assert(file.contains(file[file.len() - 1]));
        assert(s.last() == file.last());
        assert(s.drop_last() =~= sub + seq!['/'] + less);
        assert forall|i: int| 0 <= i < less.len() implies less[i] != '/' by {
            assert(file.contains(file[i]));
        }
        lemma_last_slash(sub, less);
    }
}

/// A file that is downloaded into the directory a missing checkpoint is
/// reported with is at the path that checkpoint is looked for.
pub proof fn law_download_directory_holds_the_path(
    dir: Seq<char>,
    sub: Seq<char>,
    file: Seq<char>,
)
    requires
        sub.len() > 0,
        sub.last() != '/',
        !file.contains('/'),
    ensures
        joined(subdir_of(dir, sub + seq!['/'] + file), file) == joined(
            dir,
            sub + seq!['/'] + file,
        ),
{
    let rel = sub + seq!['/'] + file;
    lemma_last_slash(sub, file);
    assert(rel.take(sub.len() as int) =~= sub);
    let d = joined(dir, sub);
    assert(d.last() == sub.last());
    assert(joined(d, file) =~= joined(dir, rel));
}

/// Decides whether a model argument is a file or a catalog entry. An unknown
/// name is an error that lists the known ones.
pub fn find_target(name_or_path: &str, is_file: bool) -> (r: Result<Target, RocmlError>)
    ensures
        if path_like(name_or_path@, is_file) {
            r is Ok && r->Ok_0 is File
        } else {
            match find_name(catalog(), name_or_path@) {
                Some(i) => r is Ok && r->Ok_0 is Entry && r->Ok_0->Entry_0@ == catalog()[i],
                None => r is Err && r->Err_0@ == (ErrorModel::UnknownModel {
                    name: name_or_path@,
                    known_names: name_list(catalog()),
                }),
            }
        },
{
    if is_path_like(name_or_path, is_file) {
        return Ok(Target::File);
    }
    let entries = registry();
    let ghost s = specs(entries@);
    let mut i: usize = 0;
    proof {
        assert(s.take(0) =~= Seq::empty());
    }
    while i < entries.len()
        invariant
            i <= entries@.len(),
            s == specs(entries@),
            s == catalog(),
            find_name(s.take(i as int), name_or_path@) is None,
            !path_like(name_or_path@, is_file),
        decreases entries@.len() - i,
    {
        proof {
            assert(s.take(i + 1).drop_last() =~= s.take(i as int));
            assert(s.take(i + 1).last() == entries@[i as int]@);
        }
        if same_text(entries[i].name, name_or_path) {
            proof {
                lemma_find_name_extends(s, name_or_path@, i + 1);
            }
            return Ok(Target::Entry(entries[i]));
        }
        i = i + 1;
    }
    proof {
        assert(s.take(i as int) =~= s);
    }
    Err(
        RocmlError::UnknownModel {
            name: name_or_path.to_owned(),
            known_names: known_names(&entries),
        },
    )
}

proof fn lemma_find_name_extends(s: Seq<SpecModel>, name: Seq<char>, n: int)
    requires
        0 <= n <= s.len(),
        find_name(s.take(n), name) is Some,
    ensures
        find_name(s, name) == find_name(s.take(n), name),
    decreases s.len() - n,
{
    if n < s.len() {
        assert(s.take(n + 1).drop_last() =~= s.take(n));
        lemma_find_name_extends(s, name, n + 1);
    } else {
        assert(s.take(n) =~= s);
    }
}

/// What a missing checkpoint is reported as.
pub open spec fn missing_file(spec: SpecModel, dir: Seq<char>) -> ErrorModel {
    ErrorModel::ModelFileMissing {
        name: spec.name,
        path: joined(dir, spec.gguf_rel),
        repo: spec.hf_repo,
        file: spec.hf_file,
        local_dir: subdir_of(dir, spec.gguf_rel),
    }
}

/// The error for a checkpoint that is not on disk.
pub fn missing_file_error(spec: &ModelSpec, dir: &str) -> (r: RocmlError)
    ensures
        r@ == missing_file(spec@, dir@),
{
    RocmlError::ModelFileMissing {
        name: spec.name.to_owned(),
        path: resolved_path(spec, dir),
        repo: spec.hf_repo.to_owned(),
        file: spec.hf_file.to_owned(),
        local_dir: checkpoint_subdir(spec, dir),
    }
}

/// A resolved model argument: a path on disk, and the entry it came from.
#[derive(Debug)]
pub struct ResolvedModel {
    pub path: String,
    pub spec: Option<ModelSpec>,
}

/// The outcome of resolving a model argument.
#[derive(Debug)]
pub enum Resolution {
    Ready(ResolvedModel),
    /// The entry's file is to be downloaded first.
    Download(ModelSpec),
}

/// Resolves a model argument. `present` says whether the entry's file is on
/// disk; `download` whether it may be fetched.
pub fn resolve(
    name_or_path: &str,
    is_file: bool,
    dir: &str,
    present: bool,
    download: bool,
) -> (r: Result<Resolution, RocmlError>)
    ensures
        if path_like(name_or_path@, is_file) {
            &&& r is Ok && r->Ok_0 is Ready
            &&& r->Ok_0->Ready_0.path@ == name_or_path@
            &&& r->Ok_0->Ready_0.spec is None
        } else {
            match find_name(catalog(), name_or_path@) {
                None => r is Err && r->Err_0@ == (ErrorModel::UnknownModel {
                    name: name_or_path@,
                    known_names: name_list(catalog()),
                }),
                Some(i) => if present {
                    &&& r is Ok && r->Ok_0 is Ready
                    &&& r->Ok_0->Ready_0.path@ == joined(dir@, catalog()[i].gguf_rel)
                    &&& r->Ok_0->Ready_0.spec is Some
                    &&& r->Ok_0->Ready_0.spec->0@ == catalog()[i]
                } else if download {
                    &&& r is Ok && r->Ok_0 is Download
                    &&& r->Ok_0->Download_0@ == catalog()[i]
                } else {
                    r is Err && r->Err_0@ == missing_file(catalog()[i], dir@)
                },
            }
        },
{
    match find_target(name_or_path, is_file) {
        Err(e) => Err(e),
        Ok(Target::File) => Ok(
            Resolution::Ready(ResolvedModel { path: name_or_path.to_owned(), spec: None }),
        ),
        Ok(Target::Entry(spec)) => if present {
            Ok(
                Resolution::Ready(
                    ResolvedModel { path: resolved_path(&spec, dir), spec: Some(spec) },
                ),
            )
        } else if download {
            Ok(Resolution::Download(spec))
        } else {
            Err(missing_file_error(&spec, dir))
        },
    }
}

/// The outcome once a download has finished: the file must be there now.
pub fn resolve_downloaded(spec: ModelSpec, dir: &str, present: bool) -> (r: Result<
    ResolvedModel,
    RocmlError,
>)
    ensures
        if present {
            &&& r is Ok
            &&& r->Ok_0.path@ == joined(dir@, spec.gguf_rel@)
            &&& r->Ok_0.spec == Some(spec)
        } else {
            r is Err && r->Err_0@ == missing_file(spec@, dir@)
        },
{
    if present {
        Ok(ResolvedModel { path: resolved_path(&spec, dir), spec: Some(spec) })
    } else {
        Err(missing_file_error(&spec, dir))
    }
}

} // verus!
