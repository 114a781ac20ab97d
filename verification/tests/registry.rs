//! The catalog of known checkpoints.

use std::path::Path;

use rocml::error::RocmlError;
use rocml::registry::{
    checkpoint_dir, clamp_ctx, is_path_like, missing_file_error, registry, resolve,
    resolve_downloaded, resolved_path, Resolution, MAX_SEQ_CAP,
};

const DIR: &str = "/home/user/checkpoints";

#[test]
fn registry_every_registry_name_is_unique() {
    let entries = registry();
    let mut names: Vec<&str> = entries.iter().map(|s| s.name).collect();
    let len_before = names.len();
    names.sort_unstable();
    names.dedup();
    assert_eq!(names.len(), len_before, "duplicate name in REGISTRY");
}

#[test]
fn registry_every_hf_file_matches_gguf_rel_final_segment() {
    for spec in registry() {
        let final_segment = Path::new(spec.gguf_rel)
            .file_name()
            .and_then(|n| n.to_str())
            .unwrap_or_default();
        assert_eq!(final_segment, spec.hf_file, "{}", spec.name);
    }
}

#[test]
fn catalog_every_registry_name_is_unique() {
    let entries = registry();
    let mut names: Vec<&str> = entries.iter().map(|s| s.name).collect();
    let len_before = names.len();
    names.sort_unstable();
    names.dedup();
    assert_eq!(names.len(), len_before, "duplicate name in REGISTRY");
}

#[test]
fn catalog_every_hf_file_matches_gguf_rel_final_segment() {
    for spec in registry() {
        let final_segment = Path::new(spec.gguf_rel)
            .file_name()
            .and_then(|n| n.to_str())
            .unwrap_or_default();
        assert_eq!(
            final_segment, spec.hf_file,
            "{}: gguf_rel's filename must match hf_file so a download lands where resolve() expects it",
            spec.name
        );
    }
}

#[test]
fn default_alias_matches_its_aliased_entry() {
    let entries = registry();
    let alias = entries.iter().find(|s| s.name == "ornith-9b").unwrap();
    let target = entries.iter().find(|s| s.name == "ornith-1.5-9b-q6").unwrap();
    assert_eq!(alias.gguf_rel, target.gguf_rel);
    assert_eq!(alias.hf_repo, target.hf_repo);
    assert_eq!(alias.hf_file, target.hf_file);
    assert_eq!(alias.default_ctx, target.default_ctx);
    assert_eq!(alias.sampling, target.sampling);
    assert_eq!(alias.thinking_default, target.thinking_default);
}

#[test]
fn dot_gguf_extension_is_path_like() {
    assert!(is_path_like("./somewhere/model.gguf", false));
    assert!(is_path_like("model.gguf", false));
}

#[test]
fn slash_containing_name_is_path_like() {
    assert!(is_path_like("some/dir/model", false));
}

#[test]
fn existing_file_is_path_like_even_without_gguf_extension() {
    assert!(is_path_like("checkpoint", true));
    assert!(!is_path_like("checkpoint", false));
}

#[test]
fn plain_registry_name_is_not_path_like() {
    assert!(!is_path_like("qwen3.5-2b", false));
    assert!(!is_path_like("ornith-9b", false));
}

#[test]
fn resolve_treats_bare_registry_name_as_lookup() {
    match resolve("qwen3-0.6b", false, DIR, true, false) {
        Ok(Resolution::Ready(resolved)) => {
            let spec = resolved.spec.unwrap();
            assert_eq!(spec.name, "qwen3-0.6b");
            assert_eq!(resolved.path, resolved_path(&spec, DIR));
        }
        other => panic!("unexpected {other:?}"),
    }
    match resolve("qwen3-0.6b", false, DIR, false, false) {
        Err(RocmlError::ModelFileMissing { name, .. }) => assert_eq!(name, "qwen3-0.6b"),
        other => panic!("unexpected {other:?}"),
    }
}

#[test]
fn resolve_unknown_name_lists_known_names() {
    match resolve("totally-not-a-model", false, DIR, false, false) {
        Err(RocmlError::UnknownModel { name, known_names }) => {
            assert_eq!(name, "totally-not-a-model");
            for spec in registry() {
                assert!(known_names.contains(spec.name), "error should list {}", spec.name);
            }
        }
        other => panic!("unexpected {other:?}"),
    }
}

#[test]
fn resolve_missing_file_error_names_path_repo_and_remedies() {
    let entries = registry();
    let spec = entries.iter().find(|s| s.name == "qwen3-0.6b").unwrap();
    let err = missing_file_error(spec, DIR);
    if let RocmlError::ModelFileMissing { path, repo, file, local_dir, .. } = err {
        assert!(path.contains("Qwen3-0.6B-Q8_0.gguf"));
        assert!(path.starts_with(&local_dir));
        assert_eq!(repo, "Qwen/Qwen3-0.6B-GGUF");
        assert_eq!(file, spec.hf_file);
    } else {
        panic!("expected ModelFileMissing");
    }
}

#[test]
fn resolve_path_like_input_skips_registry_lookup() {
    match resolve("./some/model.gguf", false, DIR, false, false).unwrap() {
        Resolution::Ready(resolved) => {
            assert!(resolved.spec.is_none());
            assert_eq!(resolved.path, "./some/model.gguf");
        }
        other => panic!("unexpected {other:?}"),
    }
}

#[test]
fn absent_entry_is_downloaded_when_allowed() {
    let spec = match resolve("ornith-9b", false, DIR, false, true).unwrap() {
        Resolution::Download(spec) => spec,
        other => panic!("unexpected {other:?}"),
    };
    assert_eq!(spec.name, "ornith-9b");
    let done = resolve_downloaded(spec, DIR, true).unwrap();
    assert_eq!(done.path, resolved_path(&spec, DIR));
    assert!(matches!(
        resolve_downloaded(spec, DIR, false),
        Err(RocmlError::ModelFileMissing { .. })
    ));
}

#[test]
fn checkpoint_directory_comes_from_the_environment() {
    assert_eq!(checkpoint_dir(Some("/data/models"), Some("/home/u")), "/data/models");
    assert_eq!(checkpoint_dir(None, Some("/home/u")), "/home/u/checkpoints");
    assert_eq!(checkpoint_dir(None, None), "./checkpoints");
}

#[test]
fn clamp_ctx_leaves_small_values_untouched() {
    assert_eq!(clamp_ctx(2048), 2048);
}

#[test]
fn clamp_ctx_caps_at_max_seq_cap() {
    assert_eq!(clamp_ctx(8192), MAX_SEQ_CAP as usize);
}

#[test]
fn the_earlier_name_of_the_six_bit_entry_still_resolves() {
    let entries = registry();
    let alias = entries.iter().find(|s| s.name == "ornith-9b-q6").unwrap();
    let target = entries.iter().find(|s| s.name == "ornith-1.0-9b-q6").unwrap();
    assert_eq!(alias.gguf_rel, "Ornith-1.0-9B-GGUF/ornith-1.0-9b-Q6_K.gguf");
    assert_eq!(alias.gguf_rel, target.gguf_rel);
    assert_eq!(alias.hf_repo, target.hf_repo);
    assert_eq!(alias.hf_file, target.hf_file);
    assert_eq!(alias.default_ctx, target.default_ctx);
    assert_eq!(alias.sampling, target.sampling);
    assert_eq!(alias.thinking_default, target.thinking_default);
    let done = match resolve("ornith-9b-q6", false, DIR, true, false).unwrap() {
        Resolution::Ready(done) => done,
        other => panic!("unexpected {other:?}"),
    };
    assert_eq!(done.path, resolved_path(alias, DIR));
}
