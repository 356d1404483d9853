use std::path::Path;
use tokamak::ollama::{
    digest_to_filename, list_by_keys, list_models, manifest_blob, manifest_model, model_name,
    weights_layer, FoundBlob, Layer, OllamaModel, MODEL_LAYER,
};

#[test]
fn digest_maps_to_blob_filename() {
    assert_eq!(digest_to_filename("sha256:abc123"), Some("sha256-abc123".to_string()));
    // Traversal attempts and malformed digests are rejected.
    assert_eq!(digest_to_filename("sha256:../../etc/passwd"), None);
    assert_eq!(digest_to_filename("sha256:a/b"), None);
    assert_eq!(digest_to_filename("no-colon"), None);
    assert_eq!(digest_to_filename("sha256:"), None);
}

/// The folders and the file of a path below a root.
fn parts(path: &Path, root: &Path) -> Vec<String> {
    path.strip_prefix(root)
        .unwrap()
        .components()
        .map(|c| c.as_os_str().to_string_lossy().into_owned())
        .collect()
}

#[test]
fn builds_ollama_style_names() {
    let root = Path::new("/m");
    // library models drop the implicit namespace
    assert_eq!(
        model_name(&parts(Path::new("/m/registry.ollama.ai/library/qwen3/14b"), root)),
        Some("qwen3:14b".to_string())
    );
    // third-party models keep theirs
    assert_eq!(
        model_name(&parts(
            Path::new("/m/registry.ollama.ai/sweaterdog/andy-4/latest"),
            root
        )),
        Some("sweaterdog/andy-4:latest".to_string())
    );
    // too shallow to be a manifest
    assert_eq!(model_name(&parts(Path::new("/m/stray-file"), root)), None);
}

fn names(list: &[&str]) -> Vec<String> {
    list.iter().map(|s| s.to_string()).collect()
}

#[test]
fn namespaces_may_be_deep_or_missing() {
    assert_eq!(model_name(&names(&["r", "m", "t"])), Some("m:t".to_string()));
    assert_eq!(model_name(&names(&["r", "a", "b", "m", "t"])), Some("a/b/m:t".to_string()));
    assert_eq!(
        model_name(&names(&["r", "library", "b", "m", "t"])),
        Some("library/b/m:t".to_string())
    );
    assert_eq!(digest_to_filename(":abc"), None);
    assert_eq!(digest_to_filename("sha256:a-b"), None);
    assert_eq!(digest_to_filename("a\\b:c"), None);
}

fn layer(media_type: &str, digest: &str, size: u64) -> Layer {
    Layer { media_type: media_type.to_string(), digest: digest.to_string(), size }
}

#[test]
fn a_manifest_maps_to_its_weights() {
    let layers = vec![
        layer("application/vnd.ollama.image.template", "sha256:11", 1),
        layer(MODEL_LAYER, "sha256:22", 2),
        layer(MODEL_LAYER, "sha256:33", 3),
    ];
    assert_eq!(weights_layer(&layers).map(|l| l.size), Some(2));
    assert_eq!(manifest_blob(&layers).as_deref(), Some("sha256-22"));
    let path = names(&["r", "library", "m", "t"]);
    let found = |is_file, size| FoundBlob { path: "/b/sha256-22".to_string(), is_file, size };
    let m = manifest_model(&layers, &path, &found(true, Some(9))).unwrap();
    assert_eq!((m.name.as_str(), m.blob_path.as_str(), m.size_bytes), ("m:t", "/b/sha256-22", 9));
    // without the file's own size the manifest's is taken
    assert_eq!(manifest_model(&layers, &path, &found(true, None)).unwrap().size_bytes, 2);
    // an interrupted pull
    assert!(manifest_model(&layers, &path, &found(false, None)).is_none());
    assert!(manifest_model(&layers, &names(&["x"]), &found(true, None)).is_none());
    assert!(manifest_model(&vec![], &path, &found(true, None)).is_none());
}

fn model(name: &str, blob: &str) -> OllamaModel {
    OllamaModel { name: name.to_string(), blob_path: blob.to_string(), size_bytes: 0 }
}

#[test]
fn models_are_listed_by_name_without_regard_to_case() {
    let list = list_models(vec![model("b", "1"), model("A", "2"), model("C", "3"), model("a", "4")]);
    let shown: Vec<&str> = list.iter().map(|m| m.name.as_str()).collect();
    assert_eq!(shown, ["A", "a", "b", "C"]);
}

#[test]
fn two_names_for_one_blob_are_both_listed() {
    let list = list_by_keys(
        vec![model("x", "1"), model("y", "1"), model("z", "2"), model("w", "1")],
        &names(&["2", "3", "1", "4"]),
    );
    let shown: Vec<&str> = list.iter().map(|m| m.name.as_str()).collect();
    assert_eq!(shown, ["z", "x", "y", "w"]);
    let list = list_models(vec![model("m:latest", "1"), model("m:7b", "1")]);
    let shown: Vec<&str> = list.iter().map(|m| m.name.as_str()).collect();
    assert_eq!(shown, ["m:7b", "m:latest"]);
}
