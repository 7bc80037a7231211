//! The catalog of speech-recognition models and what is known about each.
use vstd::prelude::*;
use crate::text::{append_str, str_equal};

verus! {

#[verifier::external_type_specification]
#[verifier::external_body]
pub struct ExPath(std::path::Path);

/// A model the application can download and run.
#[derive(Clone, Copy, Debug)]
pub struct ModelDefinition {
    pub id: &'static str,
    pub name: &'static str,
    pub detail: &'static str,
    pub size_mb: u32,
    pub filename: &'static str,
    pub url: &'static str,
    pub multilingual: bool,
    pub recommended: bool,
}

/// The model catalog, in display order.
pub open spec fn catalog() -> Seq<ModelDefinition> {
    seq![
        ModelDefinition { id: "tiny-en", name: "Tiny (English)", detail: "Fastest · Basic accuracy", size_mb: 75, filename: "ggml-tiny.en.bin", url: "https://huggingface.co/ggerganov/whisper.cpp/resolve/main/ggml-tiny.en.bin", multilingual: false, recommended: false },
        ModelDefinition { id: "base-en", name: "Base (English)", detail: "Fast · Good accuracy", size_mb: 142, filename: "ggml-base.en.bin", url: "https://huggingface.co/ggerganov/whisper.cpp/resolve/main/ggml-base.en.bin", multilingual: false, recommended: true },
        ModelDefinition { id: "small-en", name: "Small (English)", detail: "Moderate · Better accuracy", size_mb: 466, filename: "ggml-small.en.bin", url: "https://huggingface.co/ggerganov/whisper.cpp/resolve/main/ggml-small.en.bin", multilingual: false, recommended: false },
        ModelDefinition { id: "medium-en", name: "Medium (English)", detail: "Slower · Great accuracy", size_mb: 1500, filename: "ggml-medium.en.bin", url: "https://huggingface.co/ggerganov/whisper.cpp/resolve/main/ggml-medium.en.bin", multilingual: false, recommended: false },
        ModelDefinition { id: "large-v3", name: "Large v3", detail: "Best accuracy · Multilingual", size_mb: 3100, filename: "ggml-large-v3.bin", url: "https://huggingface.co/ggerganov/whisper.cpp/resolve/main/ggml-large-v3.bin", multilingual: true, recommended: false },
        ModelDefinition { id: "distil-large-v3", name: "Distil Large v3", detail: "Fast · Great accuracy", size_mb: 1500, filename: "ggml-distil-large-v3.bin", url: "https://huggingface.co/distil-whisper/distil-large-v3-ggml/resolve/main/ggml-distil-large-v3.bin", multilingual: true, recommended: false },
        ModelDefinition { id: "parakeet-v3", name: "Parakeet V3", detail: "Fast multilingual · 25 languages", size_mb: 671, filename: "parakeet-v3", url: "https://huggingface.co/s0me-0ne/parakeet-tdt-0.6b-v3-onnx/resolve/main", multilingual: true, recommended: false },
    ]
}

/// The model catalog, in display order.
pub fn models() -> (r: Vec<ModelDefinition>)
    ensures
        r@ == catalog(),
{
    let r = vec![
        ModelDefinition { id: "tiny-en", name: "Tiny (English)", detail: "Fastest · Basic accuracy", size_mb: 75, filename: "ggml-tiny.en.bin", url: "https://huggingface.co/ggerganov/whisper.cpp/resolve/main/ggml-tiny.en.bin", multilingual: false, recommended: false },
        ModelDefinition { id: "base-en", name: "Base (English)", detail: "Fast · Good accuracy", size_mb: 142, filename: "ggml-base.en.bin", url: "https://huggingface.co/ggerganov/whisper.cpp/resolve/main/ggml-base.en.bin", multilingual: false, recommended: true },
        ModelDefinition { id: "small-en", name: "Small (English)", detail: "Moderate · Better accuracy", size_mb: 466, filename: "ggml-small.en.bin", url: "https://huggingface.co/ggerganov/whisper.cpp/resolve/main/ggml-small.en.bin", multilingual: false, recommended: false },
        ModelDefinition { id: "medium-en", name: "Medium (English)", detail: "Slower · Great accuracy", size_mb: 1500, filename: "ggml-medium.en.bin", url: "https://huggingface.co/ggerganov/whisper.cpp/resolve/main/ggml-medium.en.bin", multilingual: false, recommended: false },
        ModelDefinition { id: "large-v3", name: "Large v3", detail: "Best accuracy · Multilingual", size_mb: 3100, filename: "ggml-large-v3.bin", url: "https://huggingface.co/ggerganov/whisper.cpp/resolve/main/ggml-large-v3.bin", multilingual: true, recommended: false },
        ModelDefinition { id: "distil-large-v3", name: "Distil Large v3", detail: "Fast · Great accuracy", size_mb: 1500, filename: "ggml-distil-large-v3.bin", url: "https://huggingface.co/distil-whisper/distil-large-v3-ggml/resolve/main/ggml-distil-large-v3.bin", multilingual: true, recommended: false },
        ModelDefinition { id: "parakeet-v3", name: "Parakeet V3", detail: "Fast multilingual · 25 languages", size_mb: 671, filename: "parakeet-v3", url: "https://huggingface.co/s0me-0ne/parakeet-tdt-0.6b-v3-onnx/resolve/main", multilingual: true, recommended: false },
    ];
    assert(r@ =~= catalog());
    r
}

/// Catalog entry `i` is the first whose id is `id`.
pub open spec fn is_first_model(id: Seq<char>, i: int) -> bool {
    &&& 0 <= i < catalog().len()
    &&& catalog()[i].id@ == id
    &&& forall|j: int| 0 <= j < i ==> (#[trigger] catalog()[j]).id@ != id
}

/// The catalog entry with id `id`, if there is one.
pub open spec fn catalog_entry(id: Seq<char>) -> Option<ModelDefinition> {
    if exists|i: int| is_first_model(id, i) {
        Some(catalog()[choose|i: int| is_first_model(id, i)])
    } else {
        None
    }
}

/// Looks a model up by its id.
pub fn definition(id: &str) -> (r: Option<ModelDefinition>)
    ensures
        r == catalog_entry(id@),
        r is None <==> forall|i: int| 0 <= i < catalog().len() ==> (#[trigger] catalog()[i]).id@ != id@,
{
    let all = models();
    let mut i: usize = 0;
    while i < all.len()
        invariant
            all@ == catalog(),
            i <= all@.len(),
            forall|j: int| 0 <= j < i ==> (#[trigger] catalog()[j]).id@ != id@,
        decreases all@.len() - i,
    {
        if str_equal(all[i].id, id) {
            proof {
                assert(is_first_model(id@, i as int));
                let k = choose|k: int| is_first_model(id@, k);
                assert(is_first_model(id@, k));
                if k < i {
                    assert(catalog()[k].id@ != id@);
                }
                if i < k {
                    assert(catalog()[i as int].id@ != id@);
                }
            }
            return Some(all[i]);
        }
        i += 1;
    }
    proof {
        if exists|k: int| is_first_model(id@, k) {
            let k = choose|k: int| is_first_model(id@, k);
            assert(catalog()[k].id@ != id@);
        }
    }
    None
}

/// The path that `Path::join` makes of the directory `dir` and the relative
/// name `name`, under the path rules of the platform the library is built
/// for.
pub uninterp spec fn joined_path(dir: &std::path::Path, name: Seq<char>) -> std::path::PathBuf;

/// `Path::join`: the file `name` inside the directory `dir`.  Its result is
/// named `joined_path`; how separators are placed is left to `std`.
#[verifier::external_body]
fn join_path(dir: &std::path::Path, name: &str) -> (r: std::path::PathBuf)
    ensures
        r == joined_path(dir, name@),
{
    dir.join(name)
}

/// Where the files of model `id` are stored inside `dir`; an unknown id is
/// refused with "Unknown model".
pub fn model_path(dir: &std::path::Path, id: &str) -> (r: Result<std::path::PathBuf, String>)
    ensures
        r is Ok <==> catalog_entry(id@) is Some,
        r matches Ok(p) ==> p == joined_path(dir, catalog_entry(id@)->Some_0.filename@),
        r matches Err(e) ==> e@ == "Unknown model"@,
{
    match definition(id) {
        Some(m) => Ok(join_path(dir, m.filename)),
        None => Err("Unknown model".to_owned()),
    }
}

/// What the model list shows about one model.
#[derive(Clone, Debug)]
pub struct ModelInfo {
    pub id: String,
    pub name: String,
    pub detail: String,
    pub size_mb: u32,
    pub downloaded: bool,
    pub active: bool,
    pub multilingual: bool,
    pub recommended: bool,
}

/// `info` describes catalog entry `m`, downloaded or not, with `active`
/// naming the selected model.
pub open spec fn describes(info: ModelInfo, m: ModelDefinition, downloaded: bool, active: Seq<char>) -> bool {
    &&& info.id@ == m.id@
    &&& info.name@ == m.name@
    &&& info.detail@ == m.detail@
    &&& info.size_mb == m.size_mb
    &&& info.downloaded == downloaded
    &&& info.active == (m.id@ == active && downloaded)
    &&& info.multilingual == m.multilingual
    &&& info.recommended == m.recommended
}

/// The file inside a model's directory whose presence shows that a
/// multi-file model was downloaded completely; single-file models have none.
pub fn download_marker(m: &ModelDefinition) -> (r: Option<&'static str>)
    ensures
        r is Some <==> m.id@ == "parakeet-v3"@,
        r matches Some(f) ==> f@ == "encoder-model.int8.onnx"@,
{
    if is_parakeet(m.id) {
        Some("encoder-model.int8.onnx")
    } else {
        None
    }
}

/// Whether `id` names the Parakeet model, which is a directory of ONNX files
/// rather than one file.
pub fn is_parakeet(id: &str) -> (r: bool)
    ensures
        r == (id@ == "parakeet-v3"@),
{
    str_equal(id, "parakeet-v3")
}

/// The model list, given for each catalog entry whether it is on disk and
/// which model is selected.  A model is active only when it is the selected
/// one and downloaded.
pub fn list(downloaded: &[bool], active: &str) -> (r: Vec<ModelInfo>)
    requires
        downloaded@.len() == catalog().len(),
    ensures
        r@.len() == catalog().len(),
        forall|i: int|
            0 <= i < catalog().len() ==> describes(
                #[trigger] r@[i],
                catalog()[i],
                downloaded@[i],
                active@,
            ),
{
    let all = models();
    let mut out: Vec<ModelInfo> = Vec::new();
    let mut i: usize = 0;
    while i < all.len()
        invariant
            all@ == catalog(),
            downloaded@.len() == catalog().len(),
            i <= all@.len(),
            out@.len() == i,
            forall|j: int|
                0 <= j < i ==> describes(#[trigger] out@[j], catalog()[j], downloaded@[j], active@),
        decreases all@.len() - i,
    {
        let m = all[i];
        let is_active = str_equal(m.id, active) && downloaded[i];
        out.push(
            ModelInfo {
                id: m.id.to_owned(),
                name: m.name.to_owned(),
                detail: m.detail.to_owned(),
                size_mb: m.size_mb,
                downloaded: downloaded[i],
                active: is_active,
                multilingual: m.multilingual,
                recommended: m.recommended,
            },
        );
        i += 1;
    }
    out
}

/// The size of a download in bytes when the server does not report one:
/// the catalog size in megabytes times one million.
pub fn fallback_size_bytes(size_mb: u32) -> (r: u64)
    ensures
        r == size_mb * 1_000_000,
{
    size_mb as u64 * 1_000_000
}

/// The number of bytes a single-file download is expected to have: the
/// length the server reports, or else the catalog size.
pub fn download_total(content_length: Option<u64>, size_mb: u32) -> (r: u64)
    ensures
        r == match content_length {
            Some(n) => n as int,
            None => size_mb * 1_000_000,
        },
{
    match content_length {
        Some(n) => n,
        None => fallback_size_bytes(size_mb),
    }
}

/// The files that make up the Parakeet model, in download order.
pub open spec fn parakeet_file_names() -> Seq<Seq<char>> {
    seq![
        "encoder-model.int8.onnx"@,
        "decoder_joint-model.int8.onnx"@,
        "nemo128.onnx"@,
        "vocab.txt"@,
    ]
}

/// The files that make up the Parakeet model, in download order.
pub fn parakeet_files() -> (r: Vec<&'static str>)
    ensures
        r@.len() == parakeet_file_names().len(),
        forall|i: int| 0 <= i < r@.len() ==> (#[trigger] r@[i])@ == parakeet_file_names()[i],
{
    vec!["encoder-model.int8.onnx", "decoder_joint-model.int8.onnx", "nemo128.onnx", "vocab.txt"]
}

/// The download address of one file of a multi-file model:
/// `{base}/{name}?download=true`.
pub fn model_file_url(base: &str, name: &str) -> (r: String)
    ensures
        r@ == base@ + "/"@ + name@ + "?download=true"@,
{
    let mut r = base.to_owned();
    append_str(&mut r, "/");
    append_str(&mut r, name);
    append_str(&mut r, "?download=true");
    r
}


/// The catalog's ids are pairwise different.
pub proof fn lemma_catalog_ids_distinct()
    ensures
        forall|i: int, j: int|
            0 <= i < catalog().len() && 0 <= j < catalog().len() && i != j ==> (#[trigger] catalog()[i]).id@
                != (#[trigger] catalog()[j]).id@,
{
    reveal_strlit("tiny-en");
    reveal_strlit("base-en");
    reveal_strlit("small-en");
    reveal_strlit("medium-en");
    reveal_strlit("large-v3");
    reveal_strlit("distil-large-v3");
    reveal_strlit("parakeet-v3");
    let c = catalog();
    assert(c[0].id@[0] == 't' && c[1].id@[0] == 'b' && c[2].id@[0] == 's' && c[3].id@[0] == 'm');
    assert(c[4].id@[0] == 'l' && c[5].id@[0] == 'd' && c[6].id@[0] == 'p');
    assert forall|i: int, j: int|
        0 <= i < c.len() && 0 <= j < c.len() && i != j implies (#[trigger] c[i]).id@ != (#[trigger] c[j]).id@ by {
        if c[i].id@ == c[j].id@ {
            assert(c[i].id@[0] == c[j].id@[0]);
        }
    }
}

/// Looking a model up by the id of a catalog entry gives that entry.
pub proof fn lemma_lookup_finds_each_model(i: int)
    requires
        0 <= i < catalog().len(),
    ensures
        catalog_entry(catalog()[i].id@) == Some(catalog()[i]),
{
    lemma_catalog_ids_distinct();
    let id = catalog()[i].id@;
    assert(is_first_model(id, i));
    let k = choose|k: int| is_first_model(id, k);
    assert(is_first_model(id, k));
    if k != i {
        assert(catalog()[k].id@ != catalog()[i].id@);
    }
}

/// In a model list at most one model is active: the selected one, and only
/// when it is downloaded.
pub proof fn lemma_at_most_one_active(infos: Seq<ModelInfo>, downloaded: Seq<bool>, active: Seq<char>)
    requires
        infos.len() == catalog().len(),
        downloaded.len() == catalog().len(),
        forall|i: int| 0 <= i < catalog().len() ==> describes(#[trigger] infos[i], catalog()[i], downloaded[i], active),
    ensures
        forall|i: int, j: int|
            0 <= i < infos.len() && 0 <= j < infos.len() && (#[trigger] infos[i]).active && (#[trigger] infos[j]).active ==> i == j,
        forall|i: int| 0 <= i < infos.len() && (#[trigger] infos[i]).active ==> infos[i].downloaded && infos[i].id@ == active,
{
    lemma_catalog_ids_distinct();
    assert forall|i: int, j: int|
        0 <= i < infos.len() && 0 <= j < infos.len() && (#[trigger] infos[i]).active && (#[trigger] infos[j]).active implies i == j by {
        assert(describes(infos[i], catalog()[i], downloaded[i], active));
        assert(describes(infos[j], catalog()[j], downloaded[j], active));
        if i != j {
            assert(catalog()[i].id@ != catalog()[j].id@);
        }
    }
    assert forall|i: int| 0 <= i < infos.len() && (#[trigger] infos[i]).active implies infos[i].downloaded && infos[i].id@ == active by {
        assert(describes(infos[i], catalog()[i], downloaded[i], active));
    }
}

} // verus!
