use muthr::download::{
    bearer, build_resolve_url, bundle_download_json, bundle_probe_names, check_mlx_bundle, join, looks_like_mlx_bundle,
    model_dir_setting, parse_hf_source, repo_files, resolve_request, single_download_json, tree_api_url,
    weight_map_of, BundleError, DownloadRequest, HfSource, HfUrlError, TreeEntry, WeightMap,
};
use muthr::json::JsonValue;

fn strings(v: &[&str]) -> Vec<String> {
    v.iter().map(|s| s.to_string()).collect()
}

#[test]
fn parse_tree_url() {
    let source = parse_hf_source("https://huggingface.co/mlx-community/Qwen3.6-35B-A3B-4bit/tree/main")
        .expect("tree url should parse");

    match source {
        HfSource::Tree { repo, revision } => {
            assert_eq!(repo, "mlx-community/Qwen3.6-35B-A3B-4bit");
            assert_eq!(revision, "main");
        }
        _ => panic!("expected tree source"),
    }
}

#[test]
fn parse_resolve_url() {
    let source = parse_hf_source(
        "https://huggingface.co/mlx-community/Qwen3.6-35B-A3B-4bit/resolve/main/config.json",
    )
    .expect("resolve url should parse");

    match source {
        HfSource::File { repo, revision, filename } => {
            assert_eq!(repo, "mlx-community/Qwen3.6-35B-A3B-4bit");
            assert_eq!(revision, "main");
            assert_eq!(filename, "config.json");
        }
        _ => panic!("expected file source"),
    }
}

#[test]
fn resolve_repo_without_filename_as_bundle() {
    let request = resolve_request("mlx-community/Qwen3.6-35B-A3B-4bit", None).expect("repo source should resolve");

    match request {
        DownloadRequest::Bundle { repo, revision } => {
            assert_eq!(repo, "mlx-community/Qwen3.6-35B-A3B-4bit");
            assert_eq!(revision, "main");
        }
        _ => panic!("expected bundle request"),
    }
}

#[test]
fn mlx_bundle_detection() {
    assert!(looks_like_mlx_bundle(&["config.json".to_string(), "model.safetensors.index.json".to_string(),]));
    assert!(!looks_like_mlx_bundle(&["README.md".to_string(), "weights.bin".to_string(),]));
}

#[test]
fn validate_mlx_bundle_dir_requires_expected_files() {
    let present = strings(&[
        "config.json",
        "tokenizer_config.json",
        "tokenizer.json",
        "model.safetensors.index.json",
        "model-00001-of-00001.safetensors",
    ]);
    check_mlx_bundle(&present, &present, &None).expect("should validate mlx bundle");
}

#[test]
fn validate_mlx_bundle_dir_fails_when_missing_weights() {
    let present = strings(&["config.json", "tokenizer_config.json", "tokenizer.json", "model.safetensors.index.json"]);
    let err = check_mlx_bundle(&present, &present, &None).expect_err("should fail validation");
    match err {
        BundleError::Missing(m) => assert!(m.iter().any(|f| f.contains("model-*.safetensors"))),
        other => panic!("unexpected error {:?}", other),
    }
}

#[test]
fn validate_mlx_bundle_dir_fails_when_index_shards_missing() {
    let present = strings(&[
        "config.json",
        "tokenizer_config.json",
        "tokenizer.json",
        "model.safetensors.index.json",
        "model-00001-of-00002.safetensors",
    ]);
    let weight_map = Some(WeightMap::Object(vec![
        Some("model-00001-of-00002.safetensors".to_string()),
        Some("model-00002-of-00002.safetensors".to_string()),
    ]));
    let err = check_mlx_bundle(&present, &present, &weight_map).expect_err("should fail validation");
    match err {
        BundleError::Missing(m) => assert!(m.iter().any(|f| f.contains("model-00002-of-00002.safetensors"))),
        other => panic!("unexpected error {:?}", other),
    }
}

#[test]
fn bundle_missing_files_are_listed_in_order() {
    let err = check_mlx_bundle(&Vec::new(), &Vec::new(), &None).expect_err("empty bundle");
    assert_eq!(
        err,
        BundleError::Missing(strings(&[
            "config.json",
            "tokenizer_config.json",
            "model.safetensors.index.json",
            "tokenizer.json|tokenizer.model|vocab.json",
            "model-*.safetensors",
        ]))
    );
}

#[test]
fn bundle_with_vocab_tokenizer_passes() {
    let present = strings(&[
        "config.json",
        "tokenizer_config.json",
        "vocab.json",
        "model.safetensors.index.json",
        "model-1.safetensors",
    ]);
    let weight_map = Some(WeightMap::Object(vec![
        Some("model-1.safetensors".to_string()),
        Some("model-1.safetensors".to_string()),
    ]));
    assert_eq!(check_mlx_bundle(&present, &present, &weight_map), Ok(()));
}

#[test]
fn bundle_weight_map_errors() {
    let present = strings(&["config.json", "model.safetensors.index.json"]);
    assert_eq!(check_mlx_bundle(&present, &present, &Some(WeightMap::NotObject)), Err(BundleError::WeightMapNotObject));
    assert_eq!(
        check_mlx_bundle(&present, &present, &Some(WeightMap::Object(vec![Some("a".to_string()), None]))),
        Err(BundleError::ShardNotString)
    );
}

#[test]
fn bundle_weight_map_ignored_without_index() {
    let present = strings(&["config.json", "tokenizer_config.json", "tokenizer.json", "model-1.safetensors"]);
    let err = check_mlx_bundle(&present, &present, &Some(WeightMap::NotObject)).expect_err("index missing");
    assert_eq!(err, BundleError::Missing(strings(&["model.safetensors.index.json"])));
}

#[test]
fn nested_shard_name_is_no_top_level_weight() {
    let present = strings(&[
        "config.json",
        "tokenizer_config.json",
        "tokenizer.json",
        "model.safetensors.index.json",
        "sub/model-1.safetensors",
    ]);
    let err = check_mlx_bundle(&present, &present, &None).expect_err("no top-level shard");
    assert_eq!(err, BundleError::Missing(strings(&["model-*.safetensors"])));
}

#[test]
fn parse_errors() {
    assert_eq!(parse_hf_source("https://example.com/a/b"), Err(HfUrlError::NotHuggingFaceUrl));
    assert_eq!(parse_hf_source("https://huggingface.co/onlyone"), Err(HfUrlError::InvalidRepositoryPath));
    assert_eq!(parse_hf_source("https://huggingface.co/a/tree/main"), Err(HfUrlError::InvalidRepositoryPath));
    assert_eq!(parse_hf_source("https://huggingface.co/a/b/resolve"), Err(HfUrlError::MissingRevision));
    assert_eq!(parse_hf_source("https://huggingface.co/a/b/blob/main"), Err(HfUrlError::MissingFilename));
}

#[test]
fn parse_other_shapes() {
    assert_eq!(
        parse_hf_source("huggingface.co/org/model?x=1"),
        Ok(HfSource::Repo { repo: "org/model".to_string() })
    );
    assert_eq!(
        parse_hf_source("https://huggingface.co/org/model/tree"),
        Ok(HfSource::Tree { repo: "org/model".to_string(), revision: "main".to_string() })
    );
    assert_eq!(
        parse_hf_source("http://huggingface.co/org/model/blob/dev/sub/dir/file.json#top"),
        Ok(HfSource::File {
            repo: "org/model".to_string(),
            revision: "dev".to_string(),
            filename: "sub/dir/file.json".to_string(),
        })
    );
}

#[test]
fn resolve_requests() {
    assert_eq!(
        resolve_request("org/model", Some("config.json")),
        Ok(DownloadRequest::Single {
            repo: "org/model".to_string(),
            revision: "main".to_string(),
            filename: "config.json".to_string(),
        })
    );
    assert_eq!(
        resolve_request("https://huggingface.co/org/model/tree/v2", Some("a.txt")),
        Ok(DownloadRequest::Single {
            repo: "org/model".to_string(),
            revision: "v2".to_string(),
            filename: "a.txt".to_string(),
        })
    );
    assert_eq!(
        resolve_request("https://huggingface.co/org/model", None),
        Ok(DownloadRequest::Bundle { repo: "org/model".to_string(), revision: "main".to_string() })
    );
    assert_eq!(resolve_request("https://example.com/x/y", None), Err(HfUrlError::NotHuggingFaceUrl));
    let r = resolve_request("https://huggingface.co/org/model/resolve/main/w.bin", None).unwrap();
    assert_eq!(r.repo(), "org/model");
}

#[test]
fn resolve_url_round_trip() {
    let url = build_resolve_url("org/model", "main", "config.json");
    assert_eq!(url, "https://huggingface.co/org/model/resolve/main/config.json");
    assert_eq!(
        parse_hf_source(&url),
        Ok(HfSource::File {
            repo: "org/model".to_string(),
            revision: "main".to_string(),
            filename: "config.json".to_string(),
        })
    );
}

#[test]
fn tree_listing_files() {
    let entries = vec![
        TreeEntry { entry_type: "directory".to_string(), path: "sub".to_string() },
        TreeEntry { entry_type: "file".to_string(), path: "sub/a.json".to_string() },
        TreeEntry { entry_type: "file".to_string(), path: "b.safetensors".to_string() },
    ];
    assert_eq!(repo_files(&entries), strings(&["sub/a.json", "b.safetensors"]));
    assert_eq!(tree_api_url("o/m", "main"), "https://huggingface.co/api/models/o/m/tree/main?recursive=1");
}

#[test]
fn download_settings() {
    assert_eq!(model_dir_setting(Some("/models"), Some("/home/u")), "/models");
    assert_eq!(join("/a", "b/c"), "/a/b/c");
    assert_eq!(bearer("tok"), "Bearer tok");
}

#[test]
fn weight_map_from_index() {
    let index = JsonValue::Object(vec![(
        "weight_map".to_string(),
        JsonValue::Object(vec![
            ("a".to_string(), JsonValue::Str("m-1.safetensors".to_string())),
            ("b".to_string(), JsonValue::Number("3".to_string())),
        ]),
    )]);
    assert_eq!(weight_map_of(&index), Some(WeightMap::Object(vec![Some("m-1.safetensors".to_string()), None])));
    let not_object = JsonValue::Object(vec![("weight_map".to_string(), JsonValue::Null)]);
    assert_eq!(weight_map_of(&not_object), Some(WeightMap::NotObject));
    assert_eq!(weight_map_of(&JsonValue::Object(vec![])), None);
}

#[test]
fn download_reports() {
    let single = single_download_json("/m/config.json", Some(12));
    assert_eq!(single.get("status").and_then(|v| v.as_str()), Some("done"));
    assert_eq!(single.get("bytes").and_then(|v| v.as_u64()), Some(12));
    let bundle = bundle_download_json("o/m", "main", &strings(&["a", "b"]));
    assert_eq!(bundle.get("count").and_then(|v| v.as_u64()), Some(2));
    assert_eq!(bundle.get("downloaded").and_then(|v| v.as_array()).map(|a| a.len()), Some(2));
}

#[test]
fn bundle_presence_is_what_exists_under_the_directory() {
    let weight_map = Some(WeightMap::Object(vec![Some("./model-2.safetensors".to_string())]));
    assert_eq!(
        bundle_probe_names(&weight_map),
        strings(&[
            "config.json",
            "tokenizer_config.json",
            "model.safetensors.index.json",
            "tokenizer.json",
            "tokenizer.model",
            "vocab.json",
            "./model-2.safetensors",
        ])
    );
    let existing = strings(&[
        "config.json",
        "tokenizer_config.json",
        "model.safetensors.index.json",
        "tokenizer.json",
        "./model-2.safetensors",
    ]);
    let entries = strings(&[
        "config.json",
        "tokenizer_config.json",
        "model.safetensors.index.json",
        "tokenizer.json",
        "model-2.safetensors",
    ]);
    assert_eq!(check_mlx_bundle(&existing, &entries, &weight_map), Ok(()));
    let dangling = strings(&["tokenizer_config.json", "model.safetensors.index.json", "tokenizer.json"]);
    assert_eq!(
        check_mlx_bundle(&dangling, &entries, &None),
        Err(BundleError::Missing(strings(&["config.json"])))
    );
    assert_eq!(bundle_probe_names(&Some(WeightMap::Object(vec![None]))).len(), 6);
}

#[test]
fn resolve_url_parses_back_with_nested_file_path() {
    let url = build_resolve_url("mlx-community/Qwen3-4B", "v1.0", "shards/model-00001.safetensors");
    assert_eq!(
        parse_hf_source(&url),
        Ok(HfSource::File {
            repo: "mlx-community/Qwen3-4B".to_string(),
            revision: "v1.0".to_string(),
            filename: "shards/model-00001.safetensors".to_string(),
        })
    );
}
