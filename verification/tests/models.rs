use bee::models::{
    definition, download_marker, download_total, is_parakeet, list, model_file_url, model_path,
    models, parakeet_files,
};

#[test]
fn catalog_lookup() {
    let m = definition("base-en").unwrap();
    assert_eq!(m.name, "Base (English)");
    assert_eq!(m.size_mb, 142);
    assert!(m.recommended);
    assert!(definition("nope").is_none());
    assert_eq!(models().len(), 7);
    assert_eq!(definition("parakeet-v3").unwrap().filename, "parakeet-v3");
}

#[test]
fn model_paths() {
    let dir = std::path::Path::new("/models");
    assert_eq!(
        model_path(dir, "tiny-en").unwrap(),
        std::path::Path::new("/models").join("ggml-tiny.en.bin")
    );
    assert_eq!(model_path(dir, "x").unwrap_err(), "Unknown model");
}

#[test]
fn list_marks_active_only_when_downloaded() {
    let mut downloaded = vec![false; 7];
    downloaded[1] = true;
    let infos = list(&downloaded, "base-en");
    assert_eq!(infos.len(), 7);
    assert!(infos[1].active && infos[1].downloaded);
    assert!(infos.iter().enumerate().all(|(i, m)| m.active == (i == 1)));
    let infos = list(&vec![false; 7], "base-en");
    assert!(infos.iter().all(|m| !m.active));
    assert_eq!(infos[4].id, "large-v3");
    assert!(infos[4].multilingual);
}

#[test]
fn download_helpers() {
    assert_eq!(download_total(Some(10), 142), 10);
    assert_eq!(download_total(None, 142), 142_000_000);
    assert_eq!(
        model_file_url("https://h/x", "vocab.txt"),
        "https://h/x/vocab.txt?download=true"
    );
    assert_eq!(parakeet_files().len(), 4);
    assert_eq!(parakeet_files()[0], "encoder-model.int8.onnx");
    let p = definition("parakeet-v3").unwrap();
    assert_eq!(download_marker(&p), Some("encoder-model.int8.onnx"));
    assert_eq!(download_marker(&definition("tiny-en").unwrap()), None);
    assert!(is_parakeet("parakeet-v3"));
    assert!(!is_parakeet("tiny-en"));
}

#[test]
fn every_catalog_model_can_be_looked_up() {
    for m in models() {
        let found = definition(m.id).unwrap();
        assert_eq!(found.id, m.id);
        assert_eq!(found.url, m.url);
    }
}
