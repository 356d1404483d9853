//! What the commands of the application decide.

use crate::estimator::{
    advice_countable, countable, estimate, is_advice, is_advice_countable, is_estimable,
    is_estimate, kv_named, native, quant_advice, shape_from_metadata, shape_notes, shape_of, KvType,
    VramEstimate,
};
use crate::gguf::GgufMetadata;
use crate::scanner::ScanRoot;
use crate::text::{clone_all, opt_str_view, opt_view, same, texts};
use vstd::prelude::*;

verus! {

// ---------------------------------------------------------------------------
// Folders
// ---------------------------------------------------------------------------

/// The folders that were saved, then those of a request.
pub open spec fn all_dirs(saved: Seq<Seq<char>>, extra: Seq<Seq<char>>) -> Seq<Seq<char>> {
    saved + extra
}

/// The folders to scan besides the usual ones: those that were saved, then those
/// of this request.
pub fn model_dirs(saved: &Vec<String>, extra: &Vec<String>) -> (dirs: Vec<String>)
    ensures
        texts(dirs@) == all_dirs(texts(saved@), texts(extra@)),
{
    let mut dirs = clone_all(saved);
    for i in 0..extra.len()
        invariant
            texts(dirs@) == texts(saved@) + texts(extra@).take(i as int),
    {
        let ghost before = dirs@;
        dirs.push(extra[i].clone());
        assert(texts(dirs@) =~= texts(before).push(extra@[i as int]@));
        assert(texts(extra@).take(i + 1) =~= texts(extra@).take(i as int).push(extra@[i as int]@));
    }
    assert(texts(extra@).take(extra@.len() as int) =~= texts(extra@));
    dirs
}

/// A folder that was saved, and whether it is there.
#[derive(Debug, Clone)]
pub struct SavedDir {
    pub path: String,
    pub is_dir: bool,
}

/// `roots` are the usual folders and, behind them, the saved ones.
pub open spec fn are_roots(
    roots: Seq<ScanRoot>,
    usual: Seq<ScanRoot>,
    saved: Seq<SavedDir>,
) -> bool {
    &&& roots.len() == usual.len() + saved.len()
    &&& forall|i: int| 0 <= i < usual.len() ==> #[trigger] roots[i] == usual[i]
    &&& forall|i: int|
        0 <= i < saved.len() ==> {
            let r = #[trigger] roots[usual.len() + i];
            r.path@ == saved[i].path@ && r.source@ == "folder"@ && r.exists == saved[i].is_dir
        }
}

/// All folders that are scanned.
pub fn scan_roots(usual: Vec<ScanRoot>, saved: &Vec<SavedDir>) -> (roots: Vec<ScanRoot>)
    ensures
        are_roots(roots@, usual@, saved@),
{
    let ghost before = usual@;
    let mut roots = usual;
    for i in 0..saved.len()
        invariant
            are_roots(roots@, before, saved@.take(i as int)),
    {
        roots.push(
            ScanRoot {
                path: saved[i].path.clone(),
                source: String::from_str("folder"),
                exists: saved[i].is_dir,
            },
        );
        assert(saved@.take(i + 1) =~= saved@.take(i as int).push(saved@[i as int]));
    }
    assert(saved@.take(saved@.len() as int) =~= saved@);
    roots
}

// ---------------------------------------------------------------------------
// Downloads
// ---------------------------------------------------------------------------

/// A download that was asked for.
#[derive(Debug, Clone)]
pub enum DownloadPlan {
    /// A file of a repository.
    Hub { repo: String, file: String },
    /// A file at an address.
    Direct { url: String },
    /// A model of Ollama's library.
    Pull { model: String },
}

/// `r` is what a request for a download means. Which of its parts are needed
/// depends on the source.
pub open spec fn is_plan(
    r: Result<DownloadPlan, String>,
    source: Seq<char>,
    repo: Option<String>,
    file: Option<String>,
    url: Option<String>,
    model: Option<String>,
) -> bool {
    if source == "huggingface"@ {
        match (repo, file) {
            (None, _) => r is Err && r->Err_0@ == "missing repo"@,
            (_, None) => r is Err && r->Err_0@ == "missing file"@,
            (Some(repo), Some(file)) => r is Ok && r->Ok_0 == (DownloadPlan::Hub { repo, file }),
        }
    } else if source == "url"@ {
        match url {
            None => r is Err && r->Err_0@ == "missing url"@,
            Some(url) => r is Ok && r->Ok_0 == (DownloadPlan::Direct { url }),
        }
    } else if source == "ollama"@ {
        match model {
            None => r is Err && r->Err_0@ == "missing model"@,
            Some(model) => r is Ok && r->Ok_0 == (DownloadPlan::Pull { model }),
        }
    } else {
        r is Err && r->Err_0@ == "unknown download source: "@ + source
    }
}

/// What a request for a download means.
pub fn download_plan(
    source: &str,
    repo: Option<String>,
    file: Option<String>,
    url: Option<String>,
    model: Option<String>,
) -> (r: Result<DownloadPlan, String>)
    ensures
        is_plan(r, source@, repo, file, url, model),
{
    proof {
        reveal_strlit("huggingface");
        reveal_strlit("url");
        reveal_strlit("ollama");
    }
    if same(source, "huggingface") {
        match (repo, file) {
            (None, _) => Err(String::from_str("missing repo")),
            (_, None) => Err(String::from_str("missing file")),
            (Some(repo), Some(file)) => Ok(DownloadPlan::Hub { repo, file }),
        }
    } else if same(source, "url") {
        match url {
            None => Err(String::from_str("missing url")),
            Some(url) => Ok(DownloadPlan::Direct { url }),
        }
    } else if same(source, "ollama") {
        match model {
            None => Err(String::from_str("missing model")),
            Some(model) => Ok(DownloadPlan::Pull { model }),
        }
    } else {
        let mut s = String::from_str("unknown download source: ");
        s.append(source);
        Err(s)
    }
}

// ---------------------------------------------------------------------------
// The running model and the GPU
// ---------------------------------------------------------------------------

/// `r` is where the running server is.
pub open spec fn is_running_url(r: Result<String, String>, base_url: Option<String>) -> bool {
    match base_url {
        Some(u) => r is Ok && r->Ok_0 == u,
        None => r is Err && r->Err_0@ == "no model is running — launch one first"@,
    }
}

/// Where the running server is, if one is running.
pub fn running_url(base_url: Option<String>) -> (r: Result<String, String>)
    ensures
        is_running_url(r, base_url),
{
    match base_url {
        Some(u) => Ok(u),
        None => Err(String::from_str("no model is running — launch one first")),
    }
}

/// What is known of a GPU.
#[derive(Debug, Clone)]
pub struct GpuInfo {
    pub name: String,
    pub vram_total_bytes: u64,
    pub vram_used_bytes: u64,
}

/// `s` names the GPU that reports are about.
pub open spec fn is_gpu_name(s: Seq<char>, gpus: Seq<GpuInfo>) -> bool {
    s == (if gpus.len() > 0 {
        gpus[0].name@
    } else {
        "unknown GPU"@
    })
}

/// The name of the GPU that reports are about.
pub fn gpu_name(gpus: &Vec<GpuInfo>) -> (s: String)
    ensures
        is_gpu_name(s@, gpus@),
{
    if gpus.len() > 0 {
        gpus[0].name.clone()
    } else {
        String::from_str("unknown GPU")
    }
}

/// The memory of the first GPU, in all and free, none where there is no GPU.
pub open spec fn gpu_memory(gpus: Seq<GpuInfo>) -> (nat, nat) {
    if gpus.len() > 0 {
        let total = gpus[0].vram_total_bytes as nat;
        let used = gpus[0].vram_used_bytes as nat;
        (
            total,
            if used <= total {
                (total - used) as nat
            } else {
                0
            },
        )
    } else {
        (0, 0)
    }
}

/// The memory of the first GPU, in all and free.
fn memory_of(gpus: &Vec<GpuInfo>) -> (m: (u64, u64))
    ensures
        (m.0 as nat, m.1 as nat) == gpu_memory(gpus@),
{
    if gpus.len() > 0 {
        let total = gpus[0].vram_total_bytes;
        let used = gpus[0].vram_used_bytes;
        let free = if used <= total {
            total - used
        } else {
            0
        };
        (total, free)
    } else {
        (0, 0)
    }
}

/// 64 bits can count what the estimate of a model adds up.
pub open spec fn config_countable(md: GgufMetadata, file_size: u64, kv: KvType) -> bool {
    match shape_of(md, file_size) {
        Some(shape) => countable(shape, native(shape), kv) && advice_countable(
            shape,
            opt_view(md.quant_label),
            md.parameter_count,
            kv,
        ),
        None => true,
    }
}

/// `r` is the estimate for a model on the first GPU, with advice on its
/// quantization.
pub open spec fn is_config(
    r: Result<VramEstimate, String>,
    md: GgufMetadata,
    file_size: u64,
    gpus: Seq<GpuInfo>,
    kv: KvType,
) -> bool {
    let (total, free) = gpu_memory(gpus);
    if total == 0 {
        r is Err && r->Err_0@ == "no GPU detected to estimate against"@
    } else {
        match (shape_of(md, file_size), r) {
            (None, Err(e)) => e@ == "insufficient model metadata to estimate"@,
            (Some(shape), Ok(est)) => {
                &&& is_estimate(
                    shape,
                    total,
                    free,
                    kv,
                    shape_notes(md),
                    (VramEstimate { quant_advice: None, ..est }),
                )
                &&& is_advice(
                    est.quant_advice,
                    shape,
                    opt_view(md.quant_label),
                    md.parameter_count,
                    total,
                    kv,
                )
            },
            _ => false,
        }
    }
}

/// Estimates how much of a model to put on the GPU and how much context to give
/// it, under the element type that the KV cache is launched with. Nothing comes
/// out where there is a GPU and the header gives numbers that 64 bits cannot add
/// up.
pub fn estimate_config(
    md: &GgufMetadata,
    file_size: u64,
    gpus: &Vec<GpuInfo>,
    kv_cache_type: Option<&str>,
) -> (r: Option<Result<VramEstimate, String>>)
    ensures
        ({
            let kv = kv_named(opt_str_view(kv_cache_type));
            match r {
                Some(x) => is_config(x, *md, file_size, gpus@, kv),
                None => gpu_memory(gpus@).0 > 0 && !config_countable(*md, file_size, kv),
            }
        }),
        gpu_memory(gpus@).0 > 0 && !config_countable(
            *md,
            file_size,
            kv_named(opt_str_view(kv_cache_type)),
        ) ==> r is None,
{
    let (total, free) = memory_of(gpus);
    if total == 0 {
        return Some(Err(String::from_str("no GPU detected to estimate against")));
    }
    let mut notes: Vec<String> = Vec::new();
    let shape = match shape_from_metadata(md, file_size, &mut notes) {
        Some(s) => s,
        None => {
            return Some(Err(String::from_str("insufficient model metadata to estimate")));
        },
    };
    assert(texts(notes@) =~= shape_notes(*md));
    let kv = KvType::parse(kv_cache_type);
    let label: Option<&str> = match &md.quant_label {
        Some(s) => Some(s.as_str()),
        None => None,
    };
    assert(opt_str_view(label) == opt_view(md.quant_label));
    if !is_estimable(&shape, kv) || !is_advice_countable(&shape, label, md.parameter_count, kv) {
        return None;
    }
    let mut est = estimate(&shape, total, free, kv, notes);
    let ghost plain = est;
    est.quant_advice = quant_advice(&shape, label, md.parameter_count, total, kv);
    proof {
        assert((VramEstimate { quant_advice: None, ..est }) == plain);
    }
    Some(Ok(est))
}

// ---------------------------------------------------------------------------
// Laws
// ---------------------------------------------------------------------------

/// A request is taken as the kind of download that its source names, with the parts
/// that it states.
pub proof fn law_request_is_taken_by_its_source(
    r: Result<DownloadPlan, String>,
    source: Seq<char>,
    repo: Option<String>,
    file: Option<String>,
    url: Option<String>,
    model: Option<String>,
)
    requires
        is_plan(r, source, repo, file, url, model),
    ensures
        r matches Ok(DownloadPlan::Hub { repo: x, file: y }) ==> source == "huggingface"@ && repo
            == Some(x) && file == Some(y),
        r matches Ok(DownloadPlan::Direct { url: x }) ==> source == "url"@ && url == Some(x),
        r matches Ok(DownloadPlan::Pull { model: x }) ==> source == "ollama"@ && model == Some(x),
        source == "huggingface"@ && repo is Some && file is Some ==> r is Ok,
        source == "url"@ && url is Some ==> r is Ok,
        source == "ollama"@ && model is Some ==> r is Ok,
{
    reveal_strlit("huggingface");
    reveal_strlit("url");
    reveal_strlit("ollama");
    assert("huggingface"@.len() == 11 && "url"@.len() == 3 && "ollama"@.len() == 6);
}

/// Reports are about the first GPU, whatever others there are.
pub proof fn law_first_gpu_is_named(s: Seq<char>, gpus: Seq<GpuInfo>)
    requires
        is_gpu_name(s, gpus),
    ensures
        gpus.len() > 0 ==> s == gpus[0].name@,
        gpus.len() == 0 ==> s == "unknown GPU"@,
{
}

/// An estimate is made for the whole memory of the first GPU, and says how much of it
/// is free, none where more is said to be used than there is; without a GPU that has
/// memory there is none.
pub proof fn law_estimate_is_for_the_first_gpu(
    r: Result<VramEstimate, String>,
    md: GgufMetadata,
    file_size: u64,
    gpus: Seq<GpuInfo>,
    kv: KvType,
)
    requires
        is_config(r, md, file_size, gpus, kv),
    ensures
        gpus.len() == 0 ==> r is Err,
        r matches Ok(est) ==> {
            &&& gpus.len() > 0
            &&& est.gpu_total_bytes == gpus[0].vram_total_bytes
            &&& est.gpu_total_bytes > 0
            &&& gpus[0].vram_used_bytes <= gpus[0].vram_total_bytes ==> est.gpu_free_bytes
                + gpus[0].vram_used_bytes == est.gpu_total_bytes
            &&& gpus[0].vram_used_bytes > gpus[0].vram_total_bytes ==> est.gpu_free_bytes == 0
            &&& shape_of(md, file_size) is Some
        },
        gpus.len() > 0 && gpus[0].vram_total_bytes > 0 && shape_of(md, file_size) is Some ==> r is Ok,
        gpus.len() > 0 && gpus[0].vram_total_bytes > 0 && shape_of(md, file_size) is None ==> (
        r matches Err(e) && e@ == "insufficient model metadata to estimate"@),
        gpus.len() == 0 || gpus[0].vram_total_bytes == 0 ==> (r matches Err(e) && e@
            == "no GPU detected to estimate against"@),
{
}

/// The usual folders are scanned first, and a folder that was saved is shown as one,
/// whether it is there or not.
pub proof fn law_saved_folders_are_scanned_last(
    roots: Seq<ScanRoot>,
    usual: Seq<ScanRoot>,
    saved: Seq<SavedDir>,
    i: int,
)
    requires
        are_roots(roots, usual, saved),
        0 <= i < roots.len(),
    ensures
        i < usual.len() ==> roots[i] == usual[i],
        i >= usual.len() ==> roots[i].path@ == saved[i - usual.len()].path@ && roots[i].exists
            == saved[i - usual.len()].is_dir && roots[i].source@ == "folder"@,
        roots.len() == usual.len() + saved.len(),
{
    if i >= usual.len() {
        let k = i - usual.len();
        assert(roots[usual.len() + k].path@ == saved[k].path@);
    }
}

/// Every folder is scanned, a saved one and one of the request, each in its order, and
/// no other.
pub proof fn law_every_folder_is_scanned(saved: Seq<Seq<char>>, extra: Seq<Seq<char>>, i: int)
    ensures
        all_dirs(saved, extra).len() == saved.len() + extra.len(),
        0 <= i < saved.len() ==> all_dirs(saved, extra)[i] == saved[i],
        0 <= i < extra.len() ==> all_dirs(saved, extra)[saved.len() + i] == extra[i],
{
}

/// A chat goes to the server that runs, and needs one.
pub proof fn law_chat_needs_a_running_model(r: Result<String, String>, base_url: Option<String>)
    requires
        is_running_url(r, base_url),
    ensures
        base_url matches Some(u) ==> r == Ok::<String, String>(u),
        base_url is None ==> (r matches Err(e) && e@ == "no model is running — launch one first"@),
{
}

} // verus!
