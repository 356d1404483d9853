use tokamak::json::parse_json;
use tokamak::runtime::{
    asset_url, check_unpacked, cuda_version_key, install_end, installed_backend, installed_binary,
    options, options_in, release_url, status, tar_args, unpack_outcome, Installation, RuntimeBuild,
    Target,
};
use tokamak::scanner::Place;

#[test]
fn picks_the_highest_cuda_version() {
    // A plain string max would choose 12.4 over 13.3.
    assert!(
        cuda_version_key("llama-b1-bin-win-cuda-13.3-x64.zip")
            > cuda_version_key("llama-b1-bin-win-cuda-12.4-x64.zip")
    );
    assert_eq!(cuda_version_key("llama-b1-bin-win-cuda-13.3-x64.zip"), (13, 3));
    assert_eq!(cuda_version_key("nonsense.zip"), (0, 0));
}

fn place(path: &str, is_file: bool) -> Place {
    Place { path: path.to_string(), is_file }
}

#[test]
fn reports_not_installed_on_a_clean_machine() {
    let s = status(&vec![place("/r/llama-server", false)], &None);
    assert_eq!(s.installed, s.path.is_some());
}

/// Verbatim asset names from llama.cpp release b10423. Kept literal so a
/// rename upstream shows up as a test failure rather than as an empty
/// runtime list in front of a user.
const REAL: &[&str] = &[
    "llama-b10423-bin-win-cuda-12.4-x64.zip",
    "cudart-llama-bin-win-cuda-12.4-x64.zip",
    "llama-b10423-bin-win-vulkan-x64.zip",
    "llama-b10423-bin-win-cpu-x64.zip",
    "llama-b10423-bin-ubuntu-x64.tar.gz",
    "llama-b10423-bin-ubuntu-vulkan-x64.tar.gz",
    "llama-b10423-bin-ubuntu-arm64.tar.gz",
    "llama-b10423-bin-ubuntu-vulkan-arm64.tar.gz",
    "llama-b10423-bin-ubuntu-sycl-fp16-x64.tar.gz",
    "llama-b10423-bin-ubuntu-sycl-fp32-x64.tar.gz",
    "llama-b10423-bin-ubuntu-openvino-2026.2.1-x64.tar.gz",
    "llama-b10423-bin-ubuntu-s390x.tar.gz",
];

fn matching(stem: &str) -> Vec<&'static str> {
    REAL.iter().copied().filter(|n| n.contains(stem)).collect()
}

const WIN: Target = Target { platform: "win", arch: "x64" };
const LINUX: Target = Target { platform: "ubuntu", arch: "x64" };
const LINUX_ARM: Target = Target { platform: "ubuntu", arch: "arm64" };

#[test]
fn windows_picks_its_own_three_backends() {
    assert_eq!(matching(&WIN.cpu_stem()), ["llama-b10423-bin-win-cpu-x64.zip"]);
    assert_eq!(matching(&WIN.vulkan_stem()), ["llama-b10423-bin-win-vulkan-x64.zip"]);
    assert!(WIN.cuda_available());
}

/// Linux's CPU build has no "cpu" token, so the Windows predicate would find
/// nothing at all.
#[test]
fn linux_cpu_build_carries_no_backend_token() {
    assert_eq!(LINUX.cpu_stem(), "bin-ubuntu-x64");
    assert_eq!(matching(&LINUX.cpu_stem()), ["llama-b10423-bin-ubuntu-x64.tar.gz"]);
    // The Windows-shaped predicate finds nothing here.
    assert!(matching("bin-ubuntu-cpu").is_empty());
}

/// The bare stem must not sweep up the accelerated builds. It does not,
/// because each carries its token between platform and arch.
#[test]
fn the_linux_cpu_stem_excludes_accelerated_builds() {
    let hits = matching(&LINUX.cpu_stem());
    assert_eq!(hits.len(), 1, "cpu stem swept up extras: {hits:?}");
    for acc in ["vulkan", "sycl", "openvino"] {
        assert!(!hits[0].contains(acc), "{acc} leaked into the CPU build");
    }
}

#[test]
fn linux_vulkan_is_offered_and_arch_specific() {
    assert_eq!(
        matching(&LINUX.vulkan_stem()),
        ["llama-b10423-bin-ubuntu-vulkan-x64.tar.gz"]
    );
    assert_eq!(
        matching(&LINUX_ARM.vulkan_stem()),
        ["llama-b10423-bin-ubuntu-vulkan-arm64.tar.gz"]
    );
}

#[test]
fn arm64_does_not_match_the_x64_builds() {
    assert_eq!(matching(&LINUX_ARM.cpu_stem()), ["llama-b10423-bin-ubuntu-arm64.tar.gz"]);
}

/// Upstream ships no Linux CUDA artefact, so offering one would dangle a
/// build that cannot be downloaded.
#[test]
fn linux_is_not_offered_cuda() {
    assert!(!LINUX.cuda_available());
    assert!(
        !REAL.iter().any(|n| n.contains("bin-ubuntu-cuda")),
        "upstream started shipping Linux CUDA — revisit cuda_available()"
    );
}

/// A release with these files, each as large as its index and one.
fn release(names: &[&str]) -> String {
    let assets: Vec<String> = names
        .iter()
        .enumerate()
        .map(|(i, n)| format!("{{\"name\":\"{n}\",\"size\":{}}}", i + 1))
        .collect();
    format!("{{\"tag_name\":\"b10423\",\"assets\":[{}]}}", assets.join(","))
}

#[test]
fn a_windows_release_offers_three_builds() {
    let offer = options(&release(REAL), &WIN, true).unwrap().unwrap();
    assert_eq!(offer.tag, "b10423");
    let ids: Vec<&str> = offer.builds.iter().map(|b| b.id.as_str()).collect();
    assert_eq!(ids, ["cuda", "vulkan", "cpu"]);
    let cuda = &offer.builds[0];
    assert_eq!(cuda.label, "CUDA 12.4");
    // CUDA must carry its runtime libraries or the binary will not start.
    assert_eq!(cuda.assets, [REAL[0], REAL[1]]);
    assert_eq!(cuda.total_bytes, 3);
    assert!(cuda.recommended && !offer.builds[1].recommended && !offer.builds[2].recommended);
    let without = options(&release(REAL), &WIN, false).unwrap().unwrap();
    assert!(!without.builds[0].recommended && without.builds[1].recommended);
}

#[test]
fn the_newest_cuda_build_is_taken() {
    let names = [
        "llama-b1-bin-win-cuda-9.1-x64.zip",
        "llama-b1-bin-win-cuda-13.3-x64.zip",
        "llama-b1-bin-win-cuda-12.4-x64.zip",
        "cudart-llama-bin-win-cuda-12.4-x64.zip",
        "cudart-llama-bin-win-cuda-13.3-x64.zip",
    ];
    let j = parse_json(&release(&names)).unwrap();
    let offer = options_in(&j, &WIN, true).unwrap().unwrap();
    assert_eq!(offer.builds.len(), 1);
    assert_eq!(offer.builds[0].assets, [names[1], names[4]]);
}

#[test]
fn versions_are_read_on_both_architectures() {
    assert_eq!(cuda_version_key("llama-b1-bin-win-cuda-12.8-arm64.zip"), (12, 8));
    let names = [
        "llama-b1-bin-win-cuda-12.8-arm64.zip",
        "llama-b1-bin-win-cuda-12.4-arm64.zip",
        "cudart-llama-bin-win-cuda-12.8-x64.zip",
        "cudart-llama-bin-win-cuda-12.8-arm64.zip",
    ];
    let offer = options(&release(&names), &Target::current(true, true), true).unwrap().unwrap();
    assert_eq!(offer.builds[0].assets, [names[0], names[3]]);
}

#[test]
fn the_cuda_runtime_has_the_version_of_its_build() {
    let names = [
        "cudart-llama-bin-win-cuda-12.40-x64.zip",
        "cudart-llama-bin-win-cuda-112.4-x64.zip",
        "cudart-llama-bin-win-cuda-12.4.1-x64.zip",
        "cudart-llama-bin-win-cuda-1.12.4-x64.zip",
        "llama-b1-bin-win-cuda-12.4-x64.zip",
        "cudart-llama-bin-win-cuda-12.4-x64.zip",
    ];
    let offer = options(&release(&names), &WIN, true).unwrap().unwrap();
    assert_eq!(offer.builds[0].assets, [names[4], names[5]]);
    let offer = options(&release(&names[..5]), &WIN, true).unwrap().unwrap();
    assert_eq!(offer.builds[0].assets, [names[4]]);
}

#[test]
fn linux_is_offered_vulkan_and_cpu() {
    let offer = options(&release(REAL), &LINUX, true).unwrap().unwrap();
    let ids: Vec<&str> = offer.builds.iter().map(|b| b.id.as_str()).collect();
    assert_eq!(ids, ["vulkan", "cpu"]);
}

#[test]
fn a_release_without_builds_is_refused() {
    let none = options(r#"{"assets":[]}"#, &LINUX, true).unwrap();
    assert_eq!(none.unwrap_err(), "no usable ubuntu x64 assets in llama.cpp latest");
    assert!(options("nonsense", &LINUX, true).unwrap().is_err());
    let huge = r#"{"assets":[
        {"name":"llama-bin-win-cuda-1.2-x64.zip","size":18446744073709551615},
        {"name":"cudart-1.2.zip","size":1}]}"#;
    assert!(options(huge, &WIN, true).is_none());
    assert!(options(huge, &LINUX, true).is_some());
}

#[test]
fn targets_follow_the_machine() {
    assert_eq!(Target::current(true, false), WIN);
    assert_eq!(Target::current(false, false), LINUX);
    assert_eq!(Target::current(false, true), LINUX_ARM);
}

#[test]
fn an_installation_is_found_and_described() {
    let places = vec![place("/r/llama-server", false), place("/r/b1/llama-server", true)];
    assert_eq!(installed_binary(&places).as_deref(), Some("/r/b1/llama-server"));
    let s = status(&places, &Some(" b1\n".to_string()));
    assert!(s.installed);
    assert_eq!(s.version.as_deref(), Some("b1"));
    assert_eq!(installed_backend(&Some(" cuda\n".to_string())).as_deref(), Some("cuda"));
    assert_eq!(installed_backend(&Some(" \n".to_string())), None);
    assert!(check_unpacked(&places).is_ok());
    assert_eq!(
        check_unpacked(&vec![]).unwrap_err(),
        "downloaded, but no llama-server binary was found in the archive"
    );
}

#[test]
fn an_installation_reports_its_stages() {
    let build = RuntimeBuild {
        id: "cuda".to_string(),
        label: String::new(),
        note: String::new(),
        assets: vec!["a.zip".to_string()],
        total_bytes: 100,
        recommended: true,
    };
    let mut i = Installation::new(&build);
    let fetch = i.fetch(&build, "https://h").unwrap();
    assert_eq!((fetch.asset.as_str(), fetch.url.as_str()), ("a.zip", "https://h/a.zip"));
    assert_eq!((fetch.progress.received, fetch.progress.total), (0, 100));
    let p = i.downloading(30);
    assert_eq!((p.stage.as_str(), p.received, p.total, p.done), ("downloading", 30, 100, false));
    let p = i.extracting(60);
    assert_eq!((p.stage.as_str(), p.received), ("extracting", 60));
    assert_eq!(i.downloading(5).received, 65);
    i.advance();
    assert!(i.fetch(&build, "https://h").is_none());
    let end = install_end(100, Ok(()));
    assert_eq!((end.stage.as_str(), end.received, end.done), ("done", 100, true));
    let bad = install_end(100, Err("x".to_string()));
    assert_eq!((bad.stage.as_str(), bad.total, bad.error.as_deref()), ("failed", 0, Some("x")));
    let base = release_url(" b1\n");
    assert_eq!(base, "https://github.com/ggml-org/llama.cpp/releases/download/b1");
    assert_eq!(asset_url(&base, "a.zip"), format!("{base}/a.zip"));
}

#[test]
fn unpacking_says_what_went_wrong() {
    assert_eq!(tar_args("a.zip", "/r"), ["-xf", "a.zip", "-C", "/r"]);
    assert_eq!(unpack_outcome(Ok((true, "warning".to_string()))), Ok(()));
    assert_eq!(
        unpack_outcome(Ok((false, " bad archive\n".to_string()))),
        Err("unpacking failed: bad archive".to_string())
    );
    assert_eq!(
        unpack_outcome(Err("not found".to_string())),
        Err("could not run tar to unpack: not found".to_string())
    );
}
