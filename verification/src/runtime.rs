//! The managed llama.cpp runtime.
//!
//! The runtime is fetched on demand: of the builds that a release publishes, those
//! that suit this machine are offered with their real sizes, and the chosen one
//! is downloaded and unpacked.

use crate::json::{
    as_items, as_text, as_whole, document, field, get, items_of, parse_json, text_of, views,
    whole_of, Json, JsonView,
};
use crate::scanner::{find_file, first_file, law_first_file_is_found, Place};
use crate::text::{
    before, begins, chars_of, cut, decimal, digit, first_at, head_of, is_digit, is_space,
    law_numbers_are_read_back, law_pieces_of_a_joined_text, law_text_is_cut_at_the_first,
    law_text_without_a_mark_is_one_piece, law_trimming_takes_white_space, lemma_decimal_value, occurs, occurs_at, opt_view,
    parse_unsigned, pieces, pieces_view, push_text, same, split, split_once, stands_at,
    str_contains, str_starts_with, string_of, texts, trim, trimmed, unsigned,
};
use vstd::prelude::*;

verus! {

/// One installable backend, assembled from the assets of a release.
#[derive(Debug, Clone)]
pub struct RuntimeBuild {
    /// "cuda", "vulkan" or "cpu".
    pub id: String,
    pub label: String,
    pub note: String,
    /// Files to download, in order.
    pub assets: Vec<String>,
    pub total_bytes: u64,
    pub recommended: bool,
}

/// Whether a runtime is installed.
#[derive(Debug, Clone)]
pub struct RuntimeStatus {
    pub installed: bool,
    pub path: Option<String>,
    pub version: Option<String>,
}

/// How an installation stands, as it is passed on.
#[derive(Debug, Clone)]
pub struct RuntimeProgress {
    pub stage: String,
    pub received: u64,
    pub total: u64,
    pub done: bool,
    pub error: Option<String>,
}

// ---------------------------------------------------------------------------
// What is installed
// ---------------------------------------------------------------------------

/// The managed binary: releases unpack flat or into a folder, so the places to
/// look at are the runtime folder itself and the folders in it.
pub fn installed_binary(places: &Vec<Place>) -> (r: Option<String>)
    ensures
        opt_view(r) == first_file(places@, 0),
{
    find_file(places)
}

/// A text, trimmed.
fn trimmed_text(s: &str) -> (r: String)
    ensures
        r@ == trim(s@),
{
    let cs = chars_of(s);
    string_of(trimmed(cs.as_slice()))
}

/// The backend that a record names.
pub open spec fn recorded(record: Option<Seq<char>>) -> Option<Seq<char>> {
    match record {
        Some(s) => if trim(s).len() > 0 {
            Some(trim(s))
        } else {
            None
        },
        None => None,
    }
}

/// The backend that was recorded when the runtime was installed.
pub fn installed_backend(record: &Option<String>) -> (r: Option<String>)
    ensures
        opt_view(r) == recorded(opt_view(*record)),
{
    match record {
        Some(s) => {
            let cs = chars_of(s.as_str());
            let t = trimmed(cs.as_slice());
            if t.len() > 0 {
                Some(string_of(t))
            } else {
                None
            }
        },
        None => None,
    }
}

/// `s` says whether a runtime is installed.
pub open spec fn is_status(
    s: RuntimeStatus,
    places: Seq<Place>,
    record: Option<Seq<char>>,
) -> bool {
    &&& opt_view(s.path) == first_file(places, 0)
    &&& s.installed == (s.path is Some)
    &&& opt_view(s.version) == (match record {
        Some(v) => Some(trim(v)),
        None => None,
    })
}

/// Whether a runtime is installed, from the places to look at and the version that
/// was recorded.
pub fn status(places: &Vec<Place>, record: &Option<String>) -> (s: RuntimeStatus)
    ensures
        is_status(s, places@, opt_view(*record)),
{
    let path = installed_binary(places);
    RuntimeStatus {
        installed: path.is_some(),
        path,
        version: match record {
            Some(v) => Some(trimmed_text(v.as_str())),
            None => None,
        },
    }
}

// ---------------------------------------------------------------------------
// Targets
// ---------------------------------------------------------------------------

/// The platform and architecture that assets are named for.
#[derive(Debug, Clone, Copy, PartialEq, Eq)]
pub struct Target {
    /// "win" or "ubuntu".
    pub platform: &'static str,
    /// "x64" or "arm64".
    pub arch: &'static str,
}

/// The name of a target's Vulkan build holds this.
pub open spec fn vulkan_stem(t: Target) -> Seq<char> {
    "bin-"@ + t.platform@ + "-vulkan-"@ + t.arch@
}

/// The name of a target's CPU build holds this. On Linux it names no backend; the
/// accelerated builds name theirs between platform and architecture.
pub open spec fn cpu_stem(t: Target) -> Seq<char> {
    if t.platform@ == "win"@ {
        "bin-win-cpu-"@ + t.arch@
    } else {
        "bin-"@ + t.platform@ + "-"@ + t.arch@
    }
}

/// `t` is the target of a machine.
pub open spec fn is_target(t: Target, windows: bool, aarch64: bool) -> bool {
    &&& t.platform@ == (if windows {
        "win"@
    } else {
        "ubuntu"@
    })
    &&& t.arch@ == (if aarch64 {
        "arm64"@
    } else {
        "x64"@
    })
}

impl Target {
    /// The target of a machine.
    pub fn current(windows: bool, aarch64: bool) -> (t: Target)
        ensures
            is_target(t, windows, aarch64),
    {
        Target {
            platform: if windows {
                "win"
            } else {
                "ubuntu"
            },
            arch: if aarch64 {
                "arm64"
            } else {
                "x64"
            },
        }
    }

    /// Whether there are CUDA builds: only Windows gets them.
    pub fn cuda_available(&self) -> (r: bool)
        ensures
            r == (self.platform@ == "win"@),
    {
        same(self.platform, "win")
    }

    /// What the name of the Vulkan build holds.
    pub fn vulkan_stem(&self) -> (s: String)
        ensures
            s@ == vulkan_stem(*self),
    {
        let mut s = String::from_str("bin-");
        s.append(self.platform);
        s.append("-vulkan-");
        s.append(self.arch);
        s
    }

    /// What the name of the CPU build holds.
    pub fn cpu_stem(&self) -> (s: String)
        ensures
            s@ == cpu_stem(*self),
    {
        if same(self.platform, "win") {
            let mut s = String::from_str("bin-win-cpu-");
            s.append(self.arch);
            s
        } else {
            let mut s = String::from_str("bin-");
            s.append(self.platform);
            s.append("-");
            s.append(self.arch);
            s
        }
    }
}

// ---------------------------------------------------------------------------
// CUDA versions
// ---------------------------------------------------------------------------

/// The CUDA version in an asset's name: what stands between `bin-win-cuda-` and
/// `-x64`; empty without the former. On other architectures the rest of the name
/// stays with it, so that a version there is one of that architecture.
pub open spec fn cuda_version(name: Seq<char>) -> Seq<char> {
    match cut(name, "bin-win-cuda-"@) {
        Some((_, rest)) => head_of(head_of(rest, "bin-win-cuda-"@), "-x64"@),
        None => Seq::empty(),
    }
}

/// A part of a version as a number, 0 where it is none.
pub open spec fn version_part(parts: Seq<Seq<char>>, i: int) -> nat {
    if i < parts.len() {
        match unsigned(parts[i], u32::MAX as nat) {
            Some(n) => n,
            None => 0,
        }
    } else {
        0
    }
}

/// Major and minor CUDA version in an asset's name, on any architecture.
pub open spec fn cuda_key(name: Seq<char>) -> (nat, nat) {
    let parts = split(head_of(cuda_version(name), "-arm64"@), seq!['.']);
    (version_part(parts, 0), version_part(parts, 1))
}

/// Version `a` is older than version `b`.
pub open spec fn older(a: (nat, nat), b: (nat, nat)) -> bool {
    a.0 < b.0 || (a.0 == b.0 && a.1 < b.1)
}

/// `cuda_version`, computed.
fn cuda_version_of(name: &str) -> (s: String)
    ensures
        s@ == cuda_version(name@),
{
    let cs = chars_of(name);
    let stem = chars_of("bin-win-cuda-");
    let arch = chars_of("-x64");
    match split_once(cs.as_slice(), stem.as_slice()) {
        Some((_, rest)) => string_of(before(before(rest, stem.as_slice()), arch.as_slice())),
        None => {
            let s = String::new();
            assert(s@ =~= Seq::<char>::empty());
            s
        },
    }
}

/// `version_part`, computed.
fn part_of(parts: &Vec<Vec<char>>, i: usize) -> (n: u32)
    ensures
        n as nat == version_part(pieces_view(parts@), i as int),
{
    if i < parts.len() {
        assert(pieces_view(parts@)[i as int] == parts@[i as int]@);
        match parse_unsigned(parts[i].as_slice(), u32::MAX as u64) {
            Some(n) => n as u32,
            None => 0,
        }
    } else {
        0
    }
}

/// Sort key of a CUDA asset, so that 13.3 comes behind 12.4.
pub fn cuda_version_key(name: &str) -> (r: (u32, u32))
    ensures
        (r.0 as nat, r.1 as nat) == cuda_key(name@),
{
    let version = cuda_version_of(name);
    let cs = chars_of(version.as_str());
    let mut dot: Vec<char> = Vec::new();
    dot.push('.');
    assert(dot@ =~= seq!['.']);
    let arm = chars_of("-arm64");
    let parts = pieces(before(cs.as_slice(), arm.as_slice()), dot.as_slice());
    (part_of(&parts, 0), part_of(&parts, 1))
}

// ---------------------------------------------------------------------------
// Builds of a release
// ---------------------------------------------------------------------------

/// A file of a release.
#[derive(Debug, Clone)]
pub struct Asset {
    pub name: String,
    pub size: u64,
}

/// A file of a release, seen as a text and a size.
pub type AssetView = (Seq<char>, u64);

/// The files in a list of assets: those that have a name, of unknown size 0.
pub open spec fn named_assets(items: Seq<JsonView>) -> Seq<AssetView>
    decreases items.len(),
{
    if items.len() == 0 {
        Seq::empty()
    } else {
        let front = named_assets(items.drop_last());
        match text_of(field(items.last(), "name"@)) {
            Some(name) => front.push(
                (
                    name,
                    match whole_of(field(items.last(), "size"@)) {
                        Some(n) => n,
                        None => 0,
                    },
                ),
            ),
            None => front,
        }
    }
}

/// The files of a release.
pub open spec fn release_assets(release: JsonView) -> Seq<AssetView> {
    match items_of(field(release, "assets"@)) {
        Some(items) => named_assets(items),
        None => Seq::empty(),
    }
}

/// The tag of a release.
pub open spec fn release_tag(release: JsonView) -> Seq<char> {
    match text_of(field(release, "tag_name"@)) {
        Some(s) => s,
        None => "latest"@,
    }
}

/// The views of some assets.
pub open spec fn asset_views(assets: Seq<Asset>) -> Seq<AssetView> {
    assets.map_values(|a: Asset| (a.name@, a.size))
}

/// The files of a release that was read.
fn assets_in(release: &Json) -> (assets: Vec<Asset>)
    ensures
        asset_views(assets@) == release_assets(release@),
{
    let mut assets: Vec<Asset> = Vec::new();
    match as_items(get(Some(release), "assets")) {
        Some(items) => {
            let ghost all = views(items@);
            assert(asset_views(assets@) =~= named_assets(all.take(0)));
            for i in 0..items.len()
                invariant
                    all == views(items@),
                    asset_views(assets@) == named_assets(all.take(i as int)),
            {
                let j = &items[i];
                proof {
                    assert(all[i as int] == j@);
                    assert(all.take(i + 1).drop_last() =~= all.take(i as int));
                }
                if let Some(name) = as_text(get(Some(j), "name")) {
                    let size = match as_whole(get(Some(j), "size")) {
                        Some(n) => n,
                        None => 0,
                    };
                    let ghost before = assets@;
                    assets.push(Asset { name: name.clone(), size });
                    assert(asset_views(assets@) =~= asset_views(before).push((name@, size)));
                }
            }
            assert(all.take(all.len() as int) =~= all);
        },
        None => {
            assert(asset_views(assets@) =~= Seq::empty());
        },
    }
    assets
}

/// An asset is a CUDA build for this architecture.
pub open spec fn is_cuda_build(a: AssetView, t: Target) -> bool {
    occurs(a.0, "bin-win-cuda-"@) && occurs(a.0, t.arch@) && !begins(a.0, "cudart"@)
}

/// `i` is the CUDA build with the highest version, the last of several.
pub open spec fn is_newest_cuda(assets: Seq<AssetView>, t: Target, i: int) -> bool {
    &&& 0 <= i < assets.len()
    &&& is_cuda_build(assets[i], t)
    &&& forall|j: int|
        0 <= j < assets.len() && is_cuda_build(#[trigger] assets[j], t) ==> !older(
            cuda_key(assets[i].0),
            cuda_key(assets[j].0),
        )
    &&& forall|j: int|
        i < j < assets.len() && is_cuda_build(#[trigger] assets[j], t) ==> older(
            cuda_key(assets[j].0),
            cuda_key(assets[i].0),
        )
}

/// The CUDA build to offer, where the target has any.
pub open spec fn cuda_choice(assets: Seq<AssetView>, t: Target) -> Option<AssetView> {
    if t.platform@ == "win"@ && exists|i: int| is_newest_cuda(assets, t, i) {
        Some(assets[choose|i: int| is_newest_cuda(assets, t, i)])
    } else {
        None
    }
}

/// The first asset, from index `i` on, whose name holds `stem`.
pub open spec fn first_holding(assets: Seq<AssetView>, stem: Seq<char>, i: int) -> Option<AssetView>
    decreases assets.len() - i,
{
    if i < 0 || i >= assets.len() {
        None
    } else if occurs(assets[i].0, stem) {
        Some(assets[i])
    } else {
        first_holding(assets, stem, i + 1)
    }
}

/// A version stands at index `i` of a name, and not as a part of a longer one: no
/// digit or dot before it, and no digit, or dot and digit, behind it.
pub open spec fn version_at(name: Seq<char>, version: Seq<char>, i: int) -> bool {
    let end = i + version.len();
    &&& occurs_at(name, version, i)
    &&& !(i > 0 && (is_digit(name[i - 1]) || name[i - 1] == '.'))
    &&& !(end < name.len() && is_digit(name[end]))
    &&& !(end + 1 < name.len() && name[end] == '.' && is_digit(name[end + 1]))
}

/// A name states this version.
pub open spec fn states_version(name: Seq<char>, version: Seq<char>) -> bool {
    exists|i: int| #[trigger] version_at(name, version, i)
}

/// Whether a version stands at index `i` of a name.
fn is_version_at(name: &[char], version: &[char], i: usize) -> (r: bool)
    requires
        i + version@.len() <= name@.len(),
    ensures
        r == version_at(name@, version@, i as int),
{
    if !stands_at(name, version, i) {
        return false;
    }
    if i > 0 && (digit(name[i - 1]) || name[i - 1] == '.') {
        return false;
    }
    let end: usize = i + version.len();
    if end < name.len() && digit(name[end]) {
        return false;
    }
    !(end < name.len() && name.len() - end > 1 && name[end] == '.' && digit(name[end + 1]))
}

/// Whether a name states this version.
fn has_version(name: &str, version: &str) -> (r: bool)
    ensures
        r == states_version(name@, version@),
{
    let cs = chars_of(name);
    let v = chars_of(version);
    if v.len() > cs.len() {
        assert(forall|i: int| !#[trigger] version_at(name@, version@, i));
        return false;
    }
    let last: usize = cs.len() - v.len();
    for i in 0..last
        invariant
            cs@ == name@,
            v@ == version@,
            last == cs@.len() - v@.len(),
            forall|k: int| 0 <= k < i ==> !#[trigger] version_at(name@, version@, k),
    {
        if is_version_at(cs.as_slice(), v.as_slice(), i) {
            return true;
        }
    }
    let r = is_version_at(cs.as_slice(), v.as_slice(), last);
    assert(!r ==> forall|k: int| !#[trigger] version_at(name@, version@, k));
    r
}

/// The first archive, from index `i` on, of the CUDA runtime of this version.
pub open spec fn first_cudart(assets: Seq<AssetView>, version: Seq<char>, i: int) -> Option<
    AssetView,
>
    decreases assets.len() - i,
{
    if i < 0 || i >= assets.len() {
        None
    } else if begins(assets[i].0, "cudart-"@) && states_version(assets[i].0, version) {
        Some(assets[i])
    } else {
        first_cudart(assets, version, i + 1)
    }
}

/// A build, seen as texts.
pub struct BuildView {
    pub id: Seq<char>,
    pub label: Seq<char>,
    pub note: Seq<char>,
    pub assets: Seq<Seq<char>>,
    pub total_bytes: nat,
    pub recommended: bool,
}

impl View for RuntimeBuild {
    type V = BuildView;

    open spec fn view(&self) -> BuildView {
        BuildView {
            id: self.id@,
            label: self.label@,
            note: self.note@,
            assets: texts(self.assets@),
            total_bytes: self.total_bytes as nat,
            recommended: self.recommended,
        }
    }
}

/// The CUDA build, with the runtime libraries that are shipped separately.
pub open spec fn cuda_build(assets: Seq<AssetView>, build: AssetView, has_nvidia: bool) -> BuildView {
    let version = cuda_version(build.0);
    let cudart = first_cudart(assets, version, 0);
    BuildView {
        id: "cuda"@,
        label: "CUDA "@ + version,
        note: "fastest on NVIDIA — includes the CUDA runtime"@,
        assets: match cudart {
            Some(r) => seq![build.0, r.0],
            None => seq![build.0],
        },
        total_bytes: build.1 as nat + (match cudart {
            Some(r) => r.1 as nat,
            None => 0,
        }),
        recommended: has_nvidia,
    }
}

/// The Vulkan build.
pub open spec fn vulkan_build(a: AssetView, has_nvidia: bool) -> BuildView {
    BuildView {
        id: "vulkan"@,
        label: "Vulkan"@,
        note: "works on NVIDIA, AMD and Intel — much smaller download"@,
        assets: seq![a.0],
        total_bytes: a.1 as nat,
        recommended: !has_nvidia,
    }
}

/// The CPU build.
pub open spec fn cpu_build(a: AssetView) -> BuildView {
    BuildView {
        id: "cpu"@,
        label: "CPU only"@,
        note: "no GPU acceleration — a fallback, expect single-digit tok/s"@,
        assets: seq![a.0],
        total_bytes: a.1 as nat,
        recommended: false,
    }
}

/// One build, if there is one.
pub open spec fn build_if(b: Option<BuildView>) -> Seq<BuildView> {
    match b {
        Some(x) => seq![x],
        None => seq![],
    }
}

/// The CUDA build to offer.
pub open spec fn offered_cuda(assets: Seq<AssetView>, t: Target, has_nvidia: bool) -> Option<
    BuildView,
> {
    match cuda_choice(assets, t) {
        Some(a) => Some(cuda_build(assets, a, has_nvidia)),
        None => None,
    }
}

/// The Vulkan build to offer.
pub open spec fn offered_vulkan(assets: Seq<AssetView>, t: Target, has_nvidia: bool) -> Option<
    BuildView,
> {
    match first_holding(assets, vulkan_stem(t), 0) {
        Some(a) => Some(vulkan_build(a, has_nvidia)),
        None => None,
    }
}

/// The CPU build to offer.
pub open spec fn offered_cpu(assets: Seq<AssetView>, t: Target) -> Option<BuildView> {
    match first_holding(assets, cpu_stem(t), 0) {
        Some(a) => Some(cpu_build(a)),
        None => None,
    }
}

/// The builds to offer.
pub open spec fn offered_builds(assets: Seq<AssetView>, t: Target, has_nvidia: bool) -> Seq<
    BuildView,
> {
    build_if(offered_cuda(assets, t, has_nvidia)) + build_if(
        offered_vulkan(assets, t, has_nvidia),
    ) + build_if(offered_cpu(assets, t))
}

/// 64 bits can count the bytes of the CUDA build.
pub open spec fn release_countable(release: JsonView, t: Target) -> bool {
    match offered_cuda(release_assets(release), t, false) {
        Some(b) => b.total_bytes <= u64::MAX,
        None => true,
    }
}

/// The views of some builds.
pub open spec fn build_views(builds: Seq<RuntimeBuild>) -> Seq<BuildView> {
    builds.map_values(|b: RuntimeBuild| b@)
}

/// The error where nothing fits.
pub open spec fn nothing_usable(t: Target, tag: Seq<char>) -> Seq<char> {
    "no usable "@ + t.platform@ + " "@ + t.arch@ + " assets in llama.cpp "@ + tag
}

proof fn lemma_newest_unique(assets: Seq<AssetView>, t: Target, i: int, j: int)
    requires
        is_newest_cuda(assets, t, i),
        is_newest_cuda(assets, t, j),
    ensures
        i == j,
{
    if i < j {
        assert(older(cuda_key(assets[j].0), cuda_key(assets[i].0)));
    } else if j < i {
        assert(older(cuda_key(assets[i].0), cuda_key(assets[j].0)));
    }
}

/// Whether one version is older than another.
fn is_older(a: (u32, u32), b: (u32, u32)) -> (r: bool)
    ensures
        r == older((a.0 as nat, a.1 as nat), (b.0 as nat, b.1 as nat)),
{
    a.0 < b.0 || (a.0 == b.0 && a.1 < b.1)
}

/// The CUDA build with the highest version among the assets.
fn newest_cuda(assets: &Vec<Asset>, t: &Target) -> (r: Option<usize>)
    ensures
        match r {
            Some(i) => is_newest_cuda(asset_views(assets@), *t, i as int),
            None => forall|j: int|
                0 <= j < assets@.len() ==> !is_cuda_build(
                    #[trigger] asset_views(assets@)[j],
                    *t,
                ),
        },
{
    let ghost all = asset_views(assets@);
    let mut best: Option<usize> = None;
    let mut best_key: (u32, u32) = (0, 0);
    for i in 0..assets.len()
        invariant
            all == asset_views(assets@),
            match best {
                Some(k) => {
                    &&& k < i
                    &&& is_cuda_build(all[k as int], *t)
                    &&& (best_key.0 as nat, best_key.1 as nat) == cuda_key(all[k as int].0)
                    &&& forall|j: int|
                        0 <= j < i && is_cuda_build(#[trigger] all[j], *t) ==> !older(
                            cuda_key(all[k as int].0),
                            cuda_key(all[j].0),
                        )
                    &&& forall|j: int|
                        k < j < i && is_cuda_build(#[trigger] all[j], *t) ==> older(
                            cuda_key(all[j].0),
                            cuda_key(all[k as int].0),
                        )
                },
                None => forall|j: int| 0 <= j < i ==> !is_cuda_build(#[trigger] all[j], *t),
            },
    {
        let name = assets[i].name.as_str();
        assert(all[i as int].0 == name@);
        if str_contains(name, "bin-win-cuda-") && str_contains(name, t.arch) && !str_starts_with(
            name,
            "cudart",
        ) {
            let key = cuda_version_key(name);
            let newer = match best {
                Some(_) => !is_older(key, best_key),
                None => true,
            };
            if newer {
                best = Some(i);
                best_key = key;
            }
        }
    }
    best
}

/// The first asset whose name holds `stem`.
fn find_holding(assets: &Vec<Asset>, stem: &str) -> (r: Option<usize>)
    ensures
        match r {
            Some(i) => i < assets@.len() && first_holding(asset_views(assets@), stem@, 0) == Some(
                asset_views(assets@)[i as int],
            ),
            None => first_holding(asset_views(assets@), stem@, 0) is None,
        },
{
    let ghost all = asset_views(assets@);
    for i in 0..assets.len()
        invariant
            all == asset_views(assets@),
            first_holding(all, stem@, 0) == first_holding(all, stem@, i as int),
    {
        assert(all[i as int].0 == assets@[i as int].name@);
        if str_contains(assets[i].name.as_str(), stem) {
            return Some(i);
        }
    }
    None
}

/// The first archive of the CUDA runtime of this version.
fn find_cudart(assets: &Vec<Asset>, version: &str) -> (r: Option<usize>)
    ensures
        match r {
            Some(i) => i < assets@.len() && first_cudart(
                asset_views(assets@),
                version@,
                0,
            ) == Some(asset_views(assets@)[i as int]),
            None => first_cudart(asset_views(assets@), version@, 0) is None,
        },
{
    let ghost all = asset_views(assets@);
    for i in 0..assets.len()
        invariant
            all == asset_views(assets@),
            first_cudart(all, version@, 0) == first_cudart(all, version@, i as int),
    {
        assert(all[i as int].0 == assets@[i as int].name@);
        let name = assets[i].name.as_str();
        if str_starts_with(name, "cudart-") && has_version(name, version) {
            return Some(i);
        }
    }
    None
}

/// The CUDA build that is made of the asset at index `i`, if 64 bits can count its
/// bytes.
fn make_cuda(assets: &Vec<Asset>, i: usize, has_nvidia: bool) -> (r: Option<RuntimeBuild>)
    requires
        i < assets@.len(),
    ensures
        ({
            let b = cuda_build(
                asset_views(assets@),
                asset_views(assets@)[i as int],
                has_nvidia,
            );
            match r {
                Some(x) => x@ == b,
                None => b.total_bytes > u64::MAX,
            }
        }),
{
    let a = &assets[i];
    let version = cuda_version_of(a.name.as_str());
    let mut label = String::from_str("CUDA ");
    label.append(version.as_str());
    let mut names: Vec<String> = Vec::new();
    push_text(&mut names, a.name.as_str());
    let mut bytes: u64 = a.size;
    match find_cudart(assets, version.as_str()) {
        Some(k) => {
            push_text(&mut names, assets[k].name.as_str());
            if assets[k].size > u64::MAX - bytes {
                return None;
            }
            bytes = bytes + assets[k].size;
            assert(texts(names@) =~= seq![a.name@, assets@[k as int].name@]);
        },
        None => {
            assert(texts(names@) =~= seq![a.name@]);
        },
    }
    Some(
        RuntimeBuild {
            id: String::from_str("cuda"),
            label,
            note: String::from_str("fastest on NVIDIA — includes the CUDA runtime"),
            assets: names,
            total_bytes: bytes,
            recommended: has_nvidia,
        },
    )
}

/// A build of one file.
fn make_single(id: &str, label: &str, note: &str, a: &Asset, recommended: bool) -> (b: RuntimeBuild)
    ensures
        b@ == (BuildView {
            id: id@,
            label: label@,
            note: note@,
            assets: seq![a.name@],
            total_bytes: a.size as nat,
            recommended,
        }),
{
    let mut names: Vec<String> = Vec::new();
    push_text(&mut names, a.name.as_str());
    assert(texts(names@) =~= seq![a.name@]);
    RuntimeBuild {
        id: String::from_str(id),
        label: String::from_str(label),
        note: String::from_str(note),
        assets: names,
        total_bytes: a.size,
        recommended,
    }
}

/// Adds a build.
fn push_build(builds: &mut Vec<RuntimeBuild>, b: RuntimeBuild)
    ensures
        build_views(final(builds)@) == build_views(old(builds)@) + seq![b@],
{
    let ghost before = builds@;
    builds.push(b);
    assert(build_views(builds@) =~= build_views(before) + seq![b@]);
}

/// The builds to offer, if 64 bits can count their bytes.
fn builds_of(assets: &Vec<Asset>, t: &Target, has_nvidia: bool) -> (r: Option<Vec<RuntimeBuild>>)
    ensures
        ({
            let all = asset_views(assets@);
            let countable = match offered_cuda(all, *t, has_nvidia) {
                Some(b) => b.total_bytes <= u64::MAX,
                None => true,
            };
            match r {
                Some(builds) => countable && build_views(builds@) == offered_builds(
                    all,
                    *t,
                    has_nvidia,
                ),
                None => !countable,
            }
        }),
{
    let ghost all = asset_views(assets@);
    let mut builds: Vec<RuntimeBuild> = Vec::new();
    assert(build_views(builds@) =~= seq![]);
    match newest_cuda(assets, t) {
        Some(i) => {
            if t.cuda_available() {
                proof {
                    let k = choose|k: int| is_newest_cuda(all, *t, k);
                    lemma_newest_unique(all, *t, i as int, k);
                    assert(cuda_choice(all, *t) == Some(all[i as int]));
                }
                match make_cuda(assets, i, has_nvidia) {
                    Some(b) => {
                        push_build(&mut builds, b);
                    },
                    None => {
                        return None;
                    },
                }
            }
        },
        None => {
            assert(cuda_choice(all, *t) is None);
        },
    }
    let ghost first = build_if(offered_cuda(all, *t, has_nvidia));
    assert(build_views(builds@) =~= first);
    let vulkan = t.vulkan_stem();
    if let Some(i) = find_holding(assets, vulkan.as_str()) {
        let b = make_single(
            "vulkan",
            "Vulkan",
            "works on NVIDIA, AMD and Intel — much smaller download",
            &assets[i],
            !has_nvidia,
        );
        push_build(&mut builds, b);
    }
    let ghost second = build_if(offered_vulkan(all, *t, has_nvidia));
    assert(build_views(builds@) =~= first + second);
    let cpu = t.cpu_stem();
    if let Some(i) = find_holding(assets, cpu.as_str()) {
        let b = make_single(
            "cpu",
            "CPU only",
            "no GPU acceleration — a fallback, expect single-digit tok/s",
            &assets[i],
            false,
        );
        push_build(&mut builds, b);
    }
    assert(build_views(builds@) =~= offered_builds(all, *t, has_nvidia));
    Some(builds)
}

/// What is offered of a release: its tag and the builds.
#[derive(Debug, Clone)]
pub struct Offer {
    pub tag: String,
    pub builds: Vec<RuntimeBuild>,
}

/// `r` is what is offered of a release.
pub open spec fn is_offer(
    r: Result<Offer, String>,
    release: JsonView,
    t: Target,
    has_nvidia: bool,
) -> bool {
    let builds = offered_builds(release_assets(release), t, has_nvidia);
    if builds.len() > 0 {
        r is Ok && r->Ok_0.tag@ == release_tag(release) && build_views(r->Ok_0.builds@) == builds
    } else {
        r is Err && r->Err_0@ == nothing_usable(t, release_tag(release))
    }
}

/// Which builds of a release that was read are worth offering, with their sizes.
/// CUDA is recommended where there is an NVIDIA card. A release whose sizes 64
/// bits cannot count gives nothing.
pub fn options_in(release: &Json, t: &Target, has_nvidia: bool) -> (r: Option<Result<Offer, String>>)
    ensures
        match r {
            Some(o) => release_countable(release@, *t) && is_offer(
                o,
                release@,
                *t,
                has_nvidia,
            ),
            None => !release_countable(release@, *t),
        },
{
    let tag = match as_text(get(Some(release), "tag_name")) {
        Some(s) => s.clone(),
        None => String::from_str("latest"),
    };
    let assets = assets_in(release);
    match builds_of(&assets, t, has_nvidia) {
        Some(builds) => {
            if builds.len() == 0 {
                let mut s = String::from_str("no usable ");
                s.append(t.platform);
                s.append(" ");
                s.append(t.arch);
                s.append(" assets in llama.cpp ");
                s.append(tag.as_str());
                Some(Err(s))
            } else {
                Some(Ok(Offer { tag, builds }))
            }
        },
        None => None,
    }
}

/// Which builds of a release are worth offering, from the text that describes it.
pub fn options(body: &str, t: &Target, has_nvidia: bool) -> (r: Option<Result<Offer, String>>)
    ensures
        match document(body@) {
            Ok(release) => match r {
                Some(o) => release_countable(release, *t) && is_offer(o, release, *t, has_nvidia),
                None => !release_countable(release, *t),
            },
            Err(e) => r is Some && r->0 is Err && r->0->Err_0@ == e,
        },
{
    match parse_json(body) {
        Ok(release) => options_in(&release, t, has_nvidia),
        Err(e) => Some(Err(e)),
    }
}

/// Only Windows is offered CUDA.
pub proof fn law_linux_is_not_offered_cuda(
    assets: Seq<AssetView>,
    t: Target,
    has_nvidia: bool,
    k: int,
)
    requires
        t.platform@ != "win"@,
        0 <= k < offered_builds(assets, t, has_nvidia).len(),
    ensures
        offered_builds(assets, t, has_nvidia)[k].id != "cuda"@,
{
    reveal_strlit("cuda");
    reveal_strlit("vulkan");
    reveal_strlit("cpu");
    assert("cuda"@.len() == 4 && "vulkan"@.len() == 6 && "cpu"@.len() == 3);
}

/// Of several CUDA builds none is newer than the one offered.
pub proof fn law_highest_cuda_version_is_offered(assets: Seq<AssetView>, t: Target, j: int)
    requires
        cuda_choice(assets, t) is Some,
        0 <= j < assets.len(),
        is_cuda_build(assets[j], t),
    ensures
        !older(cuda_key((cuda_choice(assets, t)->0).0), cuda_key(assets[j].0)),
        is_cuda_build(cuda_choice(assets, t)->0, t),
{
    let i = choose|i: int| is_newest_cuda(assets, t, i);
    assert(is_newest_cuda(assets, t, i));
}

/// With an NVIDIA card the CUDA build is recommended and nothing else, without one
/// the Vulkan build and nothing else.
pub proof fn law_recommendation_follows_the_card(
    assets: Seq<AssetView>,
    t: Target,
    has_nvidia: bool,
    k: int,
)
    requires
        0 <= k < offered_builds(assets, t, has_nvidia).len(),
    ensures
        offered_builds(assets, t, has_nvidia)[k].recommended <==> offered_builds(
            assets,
            t,
            has_nvidia,
        )[k].id == (if has_nvidia {
            "cuda"@
        } else {
            "vulkan"@
        }),
{
    reveal_strlit("cuda");
    reveal_strlit("vulkan");
    reveal_strlit("cpu");
    assert("cuda"@.len() == 4 && "vulkan"@.len() == 6 && "cpu"@.len() == 3);
}

/// The archive of the CUDA runtime that comes with a CUDA build states the build's
/// own version, and there is one wherever the release has such an archive.
pub proof fn law_cuda_runtime_has_the_version_of_its_build(
    assets: Seq<AssetView>,
    build: AssetView,
    has_nvidia: bool,
    j: int,
)
    requires
        0 <= j < assets.len(),
        begins(assets[j].0, "cudart-"@),
        states_version(assets[j].0, cuda_version(build.0)),
    ensures
        ({
            let b = cuda_build(assets, build, has_nvidia);
            &&& b.assets.len() == 2
            &&& b.assets[0] == build.0
            &&& begins(b.assets[1], "cudart-"@)
            &&& states_version(b.assets[1], cuda_version(build.0))
        }),
{
    lemma_cudart_found(assets, cuda_version(build.0), 0, j);
}

/// An archive at or behind index `i` is found from there on.
proof fn lemma_cudart_found(assets: Seq<AssetView>, version: Seq<char>, i: int, j: int)
    requires
        0 <= i <= j < assets.len(),
        begins(assets[j].0, "cudart-"@),
        states_version(assets[j].0, version),
    ensures
        ({
            let r = first_cudart(assets, version, i);
            &&& r is Some
            &&& begins((r->0).0, "cudart-"@)
            &&& states_version((r->0).0, version)
        }),
    decreases j - i,
{
    if i < j {
        lemma_cudart_found(assets, version, i + 1, j);
    }
}

// ---------------------------------------------------------------------------
// Installing
// ---------------------------------------------------------------------------

/// Where a release is.
pub open spec fn release_link(tag: Seq<char>) -> Seq<char> {
    "https://github.com/ggml-org/llama.cpp/releases/download/"@ + trim(tag)
}

/// Where a file below an address is.
pub open spec fn asset_link(base: Seq<char>, asset: Seq<char>) -> Seq<char> {
    base + "/"@ + asset
}

/// Where the assets of a release are.
pub fn release_url(tag: &str) -> (s: String)
    ensures
        s@ == release_link(tag@),
{
    let mut s = String::from_str("https://github.com/ggml-org/llama.cpp/releases/download/");
    s.append(trimmed_text(tag).as_str());
    s
}

/// Where an asset of a release is.
pub fn asset_url(base: &str, asset: &str) -> (s: String)
    ensures
        s@ == asset_link(base@, asset@),
{
    let mut s = String::from_str(base);
    s.append("/");
    s.append(asset);
    s
}

/// An installation: how many of its assets are unpacked, and the bytes of those
/// that are there already.
#[derive(Debug, Clone, Copy)]
pub struct Installation {
    pub unpacked: usize,
    pub done_bytes: u64,
    pub total_bytes: u64,
}

/// An asset to download: its name, where it is, and what to say before.
#[derive(Debug, Clone)]
pub struct Fetch {
    pub asset: String,
    pub url: String,
    pub progress: RuntimeProgress,
}

/// `p` says how an installation stands.
pub open spec fn says_stage(p: RuntimeProgress, stage: Seq<char>, received: nat, total: nat) -> bool {
    &&& p.stage@ == stage
    &&& p.received == received
    &&& p.total == total
    &&& !p.done
    &&& p.error is None
}

/// `r` is the asset to download next.
pub open spec fn is_fetch(
    i: Installation,
    build: RuntimeBuild,
    base: Seq<char>,
    r: Option<Fetch>,
) -> bool {
    match r {
        Some(f) => {
            &&& i.unpacked < build.assets@.len()
            &&& f.asset@ == build.assets@[i.unpacked as int]@
            &&& f.url@ == base + "/"@ + f.asset@
            &&& says_stage(
                f.progress,
                "downloading"@,
                i.done_bytes as nat,
                i.total_bytes as nat,
            )
        },
        None => i.unpacked >= build.assets@.len(),
    }
}

/// `after` is `before` with one more asset unpacked.
pub open spec fn is_advanced(before: Installation, after: Installation) -> bool {
    &&& after == (Installation { unpacked: after.unpacked, ..before })
    &&& after.unpacked == before.unpacked + 1
}

/// `after` is `before` with an asset of this size there, and `p` says so.
pub open spec fn is_extracted(
    before: Installation,
    after: Installation,
    size: u64,
    p: RuntimeProgress,
) -> bool {
    &&& after == (Installation { done_bytes: after.done_bytes, ..before })
    &&& after.done_bytes == before.done_bytes + size
    &&& says_stage(p, "extracting"@, after.done_bytes as nat, after.total_bytes as nat)
}

impl Installation {
    /// An installation begins.
    pub fn new(build: &RuntimeBuild) -> (i: Installation)
        ensures
            i.unpacked == 0,
            i.done_bytes == 0,
            i.total_bytes == build.total_bytes,
    {
        Installation { unpacked: 0, done_bytes: 0, total_bytes: build.total_bytes }
    }

    /// The next asset to download, in the order of the build; none when all are
    /// unpacked.
    pub fn fetch(&self, build: &RuntimeBuild, base: &str) -> (r: Option<Fetch>)
        ensures
            is_fetch(*self, *build, base@, r),
    {
        if self.unpacked >= build.assets.len() {
            return None;
        }
        let asset = build.assets[self.unpacked].clone();
        let url = asset_url(base, asset.as_str());
        Some(Fetch { asset, url, progress: self.downloading(0) })
    }

    /// An asset was unpacked.
    pub fn advance(&mut self)
        requires
            old(self).unpacked < usize::MAX,
        ensures
            is_advanced(*old(self), *final(self)),
    {
        self.unpacked = self.unpacked + 1;
    }

    /// An asset is being downloaded, of which `received` bytes are there.
    pub fn downloading(&self, received: u64) -> (p: RuntimeProgress)
        requires
            self.done_bytes + received <= u64::MAX,
        ensures
            says_stage(
                p,
                "downloading"@,
                (self.done_bytes + received) as nat,
                self.total_bytes as nat,
            ),
    {
        RuntimeProgress {
            stage: String::from_str("downloading"),
            received: self.done_bytes + received,
            total: self.total_bytes,
            done: false,
            error: None,
        }
    }

    /// An asset of this size is there and is being unpacked.
    pub fn extracting(&mut self, size: u64) -> (p: RuntimeProgress)
        requires
            old(self).done_bytes + size <= u64::MAX,
        ensures
            is_extracted(*old(self), *final(self), size, p),
    {
        self.done_bytes = self.done_bytes + size;
        RuntimeProgress {
            stage: String::from_str("extracting"),
            received: self.done_bytes,
            total: self.total_bytes,
            done: false,
            error: None,
        }
    }
}

/// Whether an installation that unpacked everything gave a binary.
pub fn check_unpacked(places: &Vec<Place>) -> (r: Result<(), String>)
    ensures
        r is Ok <==> first_file(places@, 0) is Some,
        r is Err ==> r->Err_0@
            == "downloaded, but no llama-server binary was found in the archive"@,
{
    match find_file(places) {
        Some(_) => Ok(()),
        None => Err(
            String::from_str("downloaded, but no llama-server binary was found in the archive"),
        ),
    }
}

/// `p` says how an installation ended.
pub open spec fn is_install_end(
    p: RuntimeProgress,
    total: u64,
    outcome: Result<(), String>,
) -> bool {
    &&& p.done
    &&& outcome is Ok ==> p.stage@ == "done"@ && p.received == total && p.total == total
        && p.error is None
    &&& outcome is Err ==> p.stage@ == "failed"@ && p.received == 0 && p.total == 0 && p.error
        == Some(outcome->Err_0)
}

/// How an installation ended.
pub fn install_end(total: u64, outcome: Result<(), String>) -> (p: RuntimeProgress)
    ensures
        is_install_end(p, total, outcome),
{
    match outcome {
        Ok(_) => RuntimeProgress {
            stage: String::from_str("done"),
            received: total,
            total,
            done: true,
            error: None,
        },
        Err(e) => RuntimeProgress {
            stage: String::from_str("failed"),
            received: 0,
            total: 0,
            done: true,
            error: Some(e),
        },
    }
}

/// What `tar` is told to unpack an archive into a folder.
pub open spec fn unpack_args(archive: Seq<char>, into: Seq<char>) -> Seq<Seq<char>> {
    seq!["-xf"@, archive, "-C"@, into]
}

/// The arguments of `tar` that unpack an archive into a folder.
pub fn tar_args(archive: &str, into: &str) -> (args: Vec<String>)
    ensures
        texts(args@) == unpack_args(archive@, into@),
{
    let mut args: Vec<String> = Vec::new();
    push_text(&mut args, "-xf");
    push_text(&mut args, archive);
    push_text(&mut args, "-C");
    push_text(&mut args, into);
    assert(texts(args@) =~= seq!["-xf"@, archive@, "-C"@, into@]);
    args
}

/// `r` is the outcome of unpacking.
pub open spec fn is_unpacked(
    r: Result<(), String>,
    ran: Result<(bool, String), String>,
) -> bool {
    match ran {
        Ok((success, said)) => if success {
            r is Ok
        } else {
            r is Err && r->Err_0@ == "unpacking failed: "@ + trim(said@)
        },
        Err(e) => r is Err && r->Err_0@ == "could not run tar to unpack: "@ + e@,
    }
}

/// The outcome of unpacking: whether `tar` ran, whether it succeeded, and what it
/// said.
pub fn unpack_outcome(ran: Result<(bool, String), String>) -> (r: Result<(), String>)
    ensures
        is_unpacked(r, ran),
{
    match ran {
        Ok((success, said)) => {
            if success {
                return Ok(());
            }
            let mut s = String::from_str("unpacking failed: ");
            s.append(trimmed_text(said.as_str()).as_str());
            Err(s)
        },
        Err(e) => {
            let mut s = String::from_str("could not run tar to unpack: ");
            s.append(e.as_str());
            Err(s)
        },
    }
}

// ---------------------------------------------------------------------------
// Laws
// ---------------------------------------------------------------------------

/// The version of a CUDA build is read out of its name as its two numbers.
pub proof fn law_cuda_version_is_read_from_the_name(
    name: Seq<char>,
    front: Seq<char>,
    major: u32,
    minor: u32,
    arch: Seq<char>,
    rest: Seq<char>,
)
    requires
        arch == "-x64"@ || arch == "-arm64"@,
        name == front + "bin-win-cuda-"@ + (decimal(major as nat).push('.') + decimal(minor as nat)
            + arch + rest),
        first_at(name, "bin-win-cuda-"@, front.len() as int),
        !occurs(
            decimal(major as nat).push('.') + decimal(minor as nat) + arch + rest,
            "bin-win-cuda-"@,
        ),
        arch == "-arm64"@ ==> !occurs(
            decimal(major as nat).push('.') + decimal(minor as nat) + arch + rest,
            "-x64"@,
        ),
    ensures
        cuda_key(name) == (major as nat, minor as nat),
        arch == "-x64"@ ==> cuda_version(name) == decimal(major as nat).push('.') + decimal(
            minor as nat,
        ),
{
    let a = decimal(major as nat);
    let b = decimal(minor as nat);
    let v = a.push('.') + b;
    let tail = v + arch + rest;
    let stem = "bin-win-cuda-"@;
    law_text_is_cut_at_the_first(name, stem, front.len() as int);
    assert(name.skip(front.len() as int + stem.len()) =~= tail);
    assert(head_of(tail, stem) == tail);
    lemma_decimal_value(major as nat);
    lemma_decimal_value(minor as nat);
    assert forall|i: int| 0 <= i < v.len() implies is_digit(#[trigger] v[i]) || v[i] == '.' by {
        if i < a.len() {
            assert(v[i] == a[i]);
        } else if i > a.len() {
            assert(v[i] == b[i - a.len() - 1]);
        }
    }
    reveal_strlit("-x64");
    reveal_strlit("-arm64");
    let x = "-x64"@;
    let m = "-arm64"@;
    if arch == x {
        lemma_head_before_mark(v, x, rest);
        assert(cuda_version(name) == v);
        if occurs(v, m) {
            let i = choose|i: int| occurs_at(v, m, i);
            assert(v.subrange(i, i + m.len())[0] == v[i]);
        }
        assert(head_of(v, m) == v);
    } else {
        assert(head_of(tail, x) == tail);
        assert(cuda_version(name) == tail);
        lemma_head_before_mark(v, m, rest);
    }
    let dot = seq!['.'];
    assert(dot[0] == '.');
    assert(dot.contains('.'));
    assert(forall|c: char| dot.contains(c) ==> c == '.');
    law_pieces_of_a_joined_text(a, '.', b, dot);
    assert(forall|i: int| 0 <= i < a.len() ==> is_digit(#[trigger] a[i]));
    assert(forall|i: int| 0 <= i < b.len() ==> is_digit(#[trigger] b[i]));
    law_text_without_a_mark_is_one_piece(a, dot);
    law_text_without_a_mark_is_one_piece(b, dot);
    assert(split(v, dot) =~= seq![a, b]);
    law_numbers_are_read_back(major as nat, u32::MAX as nat);
    law_numbers_are_read_back(minor as nat, u32::MAX as nat);
}

/// A version ends where the architecture begins.
proof fn lemma_head_before_mark(v: Seq<char>, mark: Seq<char>, rest: Seq<char>)
    requires
        mark.len() > 0,
        mark[0] == '-',
        forall|i: int| 0 <= i < v.len() ==> is_digit(#[trigger] v[i]) || v[i] == '.',
    ensures
        head_of(v + mark + rest, mark) == v,
{
    let s = v + mark + rest;
    let n = v.len() as int;
    assert(s.subrange(n, n + mark.len()) =~= mark);
    assert forall|i: int| 0 <= i < n implies !#[trigger] occurs_at(s, mark, i) by {
        if occurs_at(s, mark, i) {
            assert(s.subrange(i, i + mark.len())[0] == v[i]);
        }
    }
    assert(first_at(s, mark, n));
    law_text_is_cut_at_the_first(s, mark, n);
    assert(s.take(n) =~= v);
}

/// The files of a release are those of its list that have a name, in its order,
/// with their sizes.
pub proof fn law_release_files_are_listed(items: Seq<JsonView>) -> (from: Seq<int>)
    ensures
        from.len() == named_assets(items).len(),
        forall|k: int, l: int| 0 <= k < l < from.len() ==> #[trigger] from[k] < #[trigger] from[l],
        forall|i: int|
            0 <= i < items.len() && text_of(field(#[trigger] items[i], "name"@)) is Some
                ==> from.contains(i),
        forall|k: int|
            0 <= k < from.len() ==> {
                let j = items[#[trigger] from[k]];
                let a = named_assets(items)[k];
                &&& 0 <= from[k] < items.len()
                &&& text_of(field(j, "name"@)) == Some(a.0)
                &&& whole_of(field(j, "size"@)) == Some(a.1) || (whole_of(field(j, "size"@)) is None
                    && a.1 == 0)
            },
    decreases items.len(),
{
    if items.len() == 0 {
        Seq::empty()
    } else {
        let front = items.drop_last();
        let n = items.len() - 1;
        let before = law_release_files_are_listed(front);
        let from = if text_of(field(items.last(), "name"@)) is Some {
            before.push(n)
        } else {
            before
        };
        assert forall|i: int|
            0 <= i < items.len() && text_of(
                field(#[trigger] items[i], "name"@),
            ) is Some implies from.contains(i) by {
            if i < n {
                assert(front[i] == items[i]);
                assert(before.contains(i));
                let k = choose|k: int| 0 <= k < before.len() && before[k] == i;
                assert(from[k] == i);
            } else {
                assert(from[before.len() as int] == i);
            }
        }
        assert forall|k: int| 0 <= k < from.len() implies ({
            let j = items[#[trigger] from[k]];
            let a = named_assets(items)[k];
            &&& 0 <= from[k] < items.len()
            &&& text_of(field(j, "name"@)) == Some(a.0)
            &&& whole_of(field(j, "size"@)) == Some(a.1) || (whole_of(field(j, "size"@)) is None
                && a.1 == 0)
        }) by {
            if k < before.len() {
                assert(before[k] == from[k]);
                assert(front[before[k]] == items[from[k]]);
                assert(named_assets(items)[k] == named_assets(front)[k]);
            }
        }
        from
    }
}

/// The first file whose name holds a text is one, and none before it is; nothing is
/// found only where there is none.
proof fn lemma_first_holding(assets: Seq<AssetView>, stem: Seq<char>, i: int)
    requires
        0 <= i <= assets.len(),
        forall|j: int| 0 <= j < i ==> !occurs((#[trigger] assets[j]).0, stem),
    ensures
        match first_holding(assets, stem, i) {
            Some(a) => exists|k: int| is_first_holding(assets, stem, k) && assets[k] == a,
            None => forall|j: int| 0 <= j < assets.len() ==> !occurs((#[trigger] assets[j]).0, stem),
        },
    decreases assets.len() - i,
{
    if i < assets.len() {
        if occurs(assets[i].0, stem) {
            assert(is_first_holding(assets, stem, i));
        } else {
            lemma_first_holding(assets, stem, i + 1);
        }
    }
}

/// `k` is the first file whose name holds a text.
pub open spec fn is_first_holding(assets: Seq<AssetView>, stem: Seq<char>, k: int) -> bool {
    &&& 0 <= k < assets.len()
    &&& occurs(assets[k].0, stem)
    &&& forall|j: int| 0 <= j < k ==> !occurs((#[trigger] assets[j]).0, stem)
}

/// The Vulkan and the CPU build are offered wherever the release has a file for this
/// platform and architecture: the first such file, with its size.
pub proof fn law_build_is_the_file_for_this_machine(
    assets: Seq<AssetView>,
    t: Target,
    has_nvidia: bool,
    k: int,
)
    requires
        is_first_holding(assets, "bin-"@ + t.platform@ + "-vulkan-"@ + t.arch@, k),
    ensures
        offered_vulkan(assets, t, has_nvidia) matches Some(b) && b.id == "vulkan"@ && b.label
            == "Vulkan"@ && b.assets == seq![assets[k].0] && b.total_bytes == assets[k].1
            && b.recommended == !has_nvidia,
{
    let stem = "bin-"@ + t.platform@ + "-vulkan-"@ + t.arch@;
    lemma_first_holding(assets, stem, 0);
    assert(occurs(assets[k].0, stem));
    let a = first_holding(assets, stem, 0)->0;
    let l = choose|l: int| is_first_holding(assets, stem, l) && assets[l] == a;
    assert(k == l);
}

/// The CPU build's file names the backend on Windows only.
pub proof fn law_cpu_build_is_the_file_for_this_machine(
    assets: Seq<AssetView>,
    t: Target,
    k: int,
)
    requires
        t.platform@ == "win"@ ==> is_first_holding(assets, "bin-win-cpu-"@ + t.arch@, k),
        t.platform@ != "win"@ ==> is_first_holding(
            assets,
            "bin-"@ + t.platform@ + "-"@ + t.arch@,
            k,
        ),
    ensures
        offered_cpu(assets, t) matches Some(b) && b.id == "cpu"@ && b.label == "CPU only"@
            && b.assets == seq![assets[k].0] && b.total_bytes == assets[k].1 && !b.recommended,
{
    let stem = if t.platform@ == "win"@ {
        "bin-win-cpu-"@ + t.arch@
    } else {
        "bin-"@ + t.platform@ + "-"@ + t.arch@
    };
    lemma_first_holding(assets, stem, 0);
    assert(occurs(assets[k].0, stem));
    let a = first_holding(assets, stem, 0)->0;
    let l = choose|l: int| is_first_holding(assets, stem, l) && assets[l] == a;
    assert(k == l);
}

/// Nothing is offered that the release has no file for.
pub proof fn law_nothing_is_offered_without_a_file(
    assets: Seq<AssetView>,
    t: Target,
    has_nvidia: bool,
)
    ensures
        (forall|j: int|
            0 <= j < assets.len() ==> !occurs(
                (#[trigger] assets[j]).0,
                "bin-"@ + t.platform@ + "-vulkan-"@ + t.arch@,
            )) ==> offered_vulkan(assets, t, has_nvidia) is None,
        (forall|j: int|
            0 <= j < assets.len() ==> !occurs((#[trigger] assets[j]).0, "bin-win-cuda-"@))
            ==> offered_cuda(assets, t, has_nvidia) is None,
        assets.len() == 0 ==> offered_builds(assets, t, has_nvidia).len() == 0,
{
    let stem = "bin-"@ + t.platform@ + "-vulkan-"@ + t.arch@;
    lemma_first_holding(assets, stem, 0);
    if first_holding(assets, stem, 0) is Some {
        let a = first_holding(assets, stem, 0)->0;
        let l = choose|l: int| is_first_holding(assets, stem, l) && assets[l] == a;
        assert(occurs(assets[l].0, stem));
    }
    if exists|i: int| is_newest_cuda(assets, t, i) {
        let i = choose|i: int| is_newest_cuda(assets, t, i);
        assert(is_cuda_build(assets[i], t));
        assert(occurs(assets[i].0, "bin-win-cuda-"@));
    }
}

/// On Windows a CUDA build of this architecture is offered wherever the release has
/// one: of those with the highest major version one with the highest minor version,
/// named after its version, and it weighs what its files do.
pub proof fn law_newest_cuda_build_is_offered(
    assets: Seq<AssetView>,
    t: Target,
    has_nvidia: bool,
    j: int,
)
    requires
        t.platform@ == "win"@,
        0 <= j < assets.len(),
        occurs(assets[j].0, "bin-win-cuda-"@),
        occurs(assets[j].0, t.arch@),
        !begins(assets[j].0, "cudart"@),
    ensures
        offered_cuda(assets, t, has_nvidia) matches Some(b) && {
            let best = cuda_key(b.assets[0]);
            let other = cuda_key(assets[j].0);
            &&& b.id == "cuda"@
            &&& b.label == "CUDA "@ + cuda_version(b.assets[0])
            &&& b.recommended == has_nvidia
            &&& best.0 > other.0 || (best.0 == other.0 && best.1 >= other.1)
            &&& occurs(b.assets[0], "bin-win-cuda-"@)
            &&& occurs(b.assets[0], t.arch@)
            &&& !begins(b.assets[0], "cudart"@)
            &&& b.assets.len() == 1 ==> exists|i: int|
                0 <= i < assets.len() && #[trigger] assets[i] == (
                b.assets[0], b.total_bytes as u64) && b.total_bytes <= u64::MAX
            &&& b.assets.len() == 2 ==> exists|i: int, r: int|
                0 <= i < assets.len() && 0 <= r < assets.len() && (#[trigger] assets[i]).0
                    == b.assets[0] && (#[trigger] assets[r]).0 == b.assets[1] && b.total_bytes
                    == assets[i].1 + assets[r].1 && begins(assets[r].0, "cudart-"@)
            &&& b.assets.len() == 1 || b.assets.len() == 2
        },
{
    assert(is_cuda_build(assets[j], t));
    lemma_newest_exists(assets, t, assets.len() as int, j);
    let i = choose|i: int| is_newest_cuda(assets, t, i);
    assert(!older(cuda_key(assets[i].0), cuda_key(assets[j].0)));
    let version = cuda_version(assets[i].0);
    lemma_first_cudart(assets, version, 0);
    let b = offered_cuda(assets, t, has_nvidia)->0;
    assert(b.assets[0] == assets[i].0);
    if first_cudart(assets, version, 0) is Some {
        let r = choose|r: int|
            0 <= r < assets.len() && #[trigger] assets[r] == first_cudart(assets, version, 0)->0;
        assert(assets[r].0 == b.assets[1]);
        assert(begins(assets[r].0, "cudart-"@));
    } else {
        assert(assets[i] == (b.assets[0], b.total_bytes as u64));
    }
}

/// The archive that is found is one of the release's.
proof fn lemma_first_cudart(assets: Seq<AssetView>, version: Seq<char>, i: int)
    requires
        0 <= i <= assets.len(),
    ensures
        first_cudart(assets, version, i) matches Some(a) ==> begins(a.0, "cudart-"@) && exists|r: int|
            0 <= r < assets.len() && #[trigger] assets[r] == a,
    decreases assets.len() - i,
{
    if i < assets.len() && !(begins(assets[i].0, "cudart-"@) && states_version(
        assets[i].0,
        version,
    )) {
        lemma_first_cudart(assets, version, i + 1);
    }
}

/// Where there are CUDA builds one is the newest.
proof fn lemma_newest_exists(assets: Seq<AssetView>, t: Target, n: int, j: int)
    requires
        0 <= j < n <= assets.len(),
        is_cuda_build(assets[j], t),
    ensures
        n == assets.len() ==> exists|i: int| is_newest_cuda(assets, t, i),
        exists|i: int| is_newest_cuda(assets.take(n), t, i),
    decreases n,
{
    let all = assets.take(n);
    if n == assets.len() {
        assert(all =~= assets);
    }
    if exists|k: int| 0 <= k < n - 1 && is_cuda_build(#[trigger] assets[k], t) {
        let k = choose|k: int| 0 <= k < n - 1 && is_cuda_build(#[trigger] assets[k], t);
        lemma_newest_exists(assets, t, n - 1, k);
        let front = assets.take(n - 1);
        let i = choose|i: int| is_newest_cuda(front, t, i);
        assert(forall|l: int| 0 <= l < n - 1 ==> #[trigger] all[l] == front[l]);
        if is_cuda_build(all[n - 1], t) && !older(cuda_key(all[n - 1].0), cuda_key(all[i].0)) {
            assert forall|l: int| 0 <= l < n && is_cuda_build(#[trigger] all[l], t) implies !older(
                cuda_key(all[n - 1].0),
                cuda_key(all[l].0),
            ) by {
                if l < n - 1 {
                    assert(is_cuda_build(front[l], t));
                    assert(!older(cuda_key(front[i].0), cuda_key(front[l].0)));
                }
            }
            assert(is_newest_cuda(all, t, n - 1));
        } else {
            assert forall|l: int| 0 <= l < n && is_cuda_build(#[trigger] all[l], t) implies !older(
                cuda_key(all[i].0),
                cuda_key(all[l].0),
            ) by {
                if l < n - 1 {
                    assert(is_cuda_build(front[l], t));
                }
            }
            assert forall|l: int| i < l < n && is_cuda_build(#[trigger] all[l], t) implies older(
                cuda_key(all[l].0),
                cuda_key(all[i].0),
            ) by {
                if l < n - 1 {
                    assert(is_cuda_build(front[l], t));
                }
            }
            assert(is_newest_cuda(all, t, i));
        }
    } else {
        assert(j == n - 1);
        assert(is_newest_cuda(all, t, j));
    }
}

/// What is offered is CUDA, Vulkan and CPU, in this order, of those that there are.
pub proof fn law_fastest_builds_come_first(
    r: Result<Offer, String>,
    release: JsonView,
    t: Target,
    has_nvidia: bool,
)
    requires
        is_offer(r, release, t, has_nvidia),
    ensures
        ({
            let assets = release_assets(release);
            let cuda = offered_cuda(assets, t, has_nvidia);
            let vulkan = offered_vulkan(assets, t, has_nvidia);
            let cpu = offered_cpu(assets, t);
            let n: int = if cuda is Some {
                1
            } else {
                0
            };
            let m: int = if vulkan is Some {
                n + 1
            } else {
                n
            };
            match r {
                Ok(o) => {
                    &&& cuda is Some ==> o.builds@[0]@ == cuda->0
                    &&& vulkan is Some ==> o.builds@[n]@ == vulkan->0
                    &&& cpu is Some ==> o.builds@[m]@ == cpu->0
                    &&& o.builds@.len() == m + (if cpu is Some {
                        1int
                    } else {
                        0
                    })
                    &&& text_of(field(release, "tag_name"@)) is Some ==> text_of(
                        field(release, "tag_name"@),
                    ) == Some(o.tag@)
                    &&& text_of(field(release, "tag_name"@)) is None ==> o.tag@ == "latest"@
                },
                Err(_) => cuda is None && vulkan is None && cpu is None,
            }
        }),
{
    let assets = release_assets(release);
    let a = build_if(offered_cuda(assets, t, has_nvidia));
    let b = build_if(offered_vulkan(assets, t, has_nvidia));
    let c = build_if(offered_cpu(assets, t));
    if let Ok(o) = r {
        let shown = build_views(o.builds@);
        assert(shown == a + b + c);
        assert(shown.len() == o.builds@.len());
        assert(a.len() > 0 ==> shown[0] == a[0] && shown[0] == o.builds@[0]@);
        assert(b.len() > 0 ==> shown[a.len() as int] == b[0] && shown[a.len() as int]
            == o.builds@[a.len() as int]@);
        let n = a.len() + b.len();
        assert(c.len() > 0 ==> shown[n as int] == c[0] && shown[n as int] == o.builds@[n as int]@);
    } else {
        assert((a + b + c).len() == a.len() + b.len() + c.len());
    }
}

/// The assets of a build are fetched in its order, each from below the release, and
/// those that are unpacked are not fetched again.
pub proof fn law_assets_are_fetched_in_order(
    a: Installation,
    b: Installation,
    build: RuntimeBuild,
    base: Seq<char>,
    f: Option<Fetch>,
    g: Option<Fetch>,
)
    requires
        is_fetch(a, build, base, f),
        is_advanced(a, b),
        is_fetch(b, build, base, g),
    ensures
        f matches Some(x) ==> x.asset@ == build.assets@[a.unpacked as int]@ && x.url@ == base + "/"@
            + x.asset@ && x.progress.received == a.done_bytes && x.progress.total == a.total_bytes
            && x.progress.stage@ == "downloading"@,
        g matches Some(x) ==> x.asset@ == build.assets@[a.unpacked + 1]@ && x.progress.received
            == a.done_bytes,
        f is None <==> build.assets@.len() <= a.unpacked,
        g is None <==> build.assets@.len() <= a.unpacked + 1,
{
}

/// The bytes of the assets of an installation add up, and its total stays.
pub proof fn law_installed_bytes_add_up(
    a: Installation,
    b: Installation,
    c: Installation,
    first: u64,
    second: u64,
    p: RuntimeProgress,
    q: RuntimeProgress,
)
    requires
        is_extracted(a, b, first, p),
        is_extracted(b, c, second, q),
    ensures
        p.received == a.done_bytes + first,
        q.received == a.done_bytes + first + second,
        c.done_bytes == q.received,
        p.total == a.total_bytes && q.total == a.total_bytes && c.total_bytes == a.total_bytes,
        c.unpacked == a.unpacked,
        p.stage@ == "extracting"@ && q.stage@ == "extracting"@,
        !p.done && !q.done,
{
}

/// A record is read without the white space around it; a blank one names no backend.
pub proof fn law_records_are_read_bare(
    before: Seq<char>,
    name: Seq<char>,
    after: Seq<char>,
    s: RuntimeStatus,
    places: Seq<Place>,
)
    requires
        forall|i: int| 0 <= i < before.len() ==> is_space(#[trigger] before[i]),
        forall|i: int| 0 <= i < after.len() ==> is_space(#[trigger] after[i]),
        name.len() > 0,
        !is_space(name[0]),
        !is_space(name.last()),
        is_status(s, places, Some(before + name + after)),
    ensures
        recorded(Some(before + name + after)) == Some(name),
        recorded(Some(Seq::empty())) is None,
        recorded(None) is None,
        s.version is Some && s.version->0@ == name,
        release_link(before + name + after)
            == "https://github.com/ggml-org/llama.cpp/releases/download/"@ + name,
{
    law_trimming_takes_white_space(before, name, after);
    assert(opt_view(s.version) == Some(name));
}

/// A runtime is installed exactly where one of the places has a file, and it is the
/// first of them.
pub proof fn law_installed_runtime_is_there(
    s: RuntimeStatus,
    places: Seq<Place>,
    record: Option<Seq<char>>,
    k: int,
)
    requires
        is_status(s, places, record),
    ensures
        0 <= k < places.len() && places[k].is_file ==> s.installed,
        s.installed ==> s.path is Some && exists|i: int|
            0 <= i < places.len() && (#[trigger] places[i]).is_file && places[i].path@
                == s.path->0@ && forall|j: int| 0 <= j < i ==> !(#[trigger] places[j]).is_file,
        !s.installed ==> s.path is None,
{
    law_first_file_is_found(places);
    assert(opt_view(s.path) is Some <==> s.path is Some);
}

/// The files of a release are below its address, each at its own.
pub proof fn law_assets_are_below_their_release(base: Seq<char>, a: Seq<char>, b: Seq<char>)
    ensures
        asset_link(base, a) == asset_link(base, b) ==> a == b,
        asset_link(base, a) == base + "/"@ + a,
{
    let front = base + "/"@;
    assert((front + a).skip(front.len() as int) =~= a);
    assert((front + b).skip(front.len() as int) =~= b);
}

/// An installation that ended well shows all its bytes, and one that failed its error.
pub proof fn law_installation_ends_one_way(
    p: RuntimeProgress,
    total: u64,
    outcome: Result<(), String>,
)
    requires
        is_install_end(p, total, outcome),
    ensures
        p.done,
        outcome is Ok ==> p.stage@ == "done"@ && p.received == total && p.total == total
            && p.error is None,
        outcome matches Err(e) ==> p.stage@ == "failed"@ && p.error == Some(e) && p.received == 0,
{
}

/// The archive that was fetched is unpacked into the folder that is named, and what
/// went wrong is said.
pub proof fn law_archive_is_unpacked_into_the_folder(
    archive: Seq<char>,
    into: Seq<char>,
    r: Result<(), String>,
    ran: Result<(bool, String), String>,
)
    requires
        is_unpacked(r, ran),
    ensures
        unpack_args(archive, into) == seq!["-xf"@, archive, "-C"@, into],
        r is Ok <==> (ran matches Ok(t) && t.0),
        ran matches Ok(t) ==> !t.0 ==> r->Err_0@ == "unpacking failed: "@ + trim(t.1@),
        ran matches Err(e) ==> r->Err_0@ == "could not run tar to unpack: "@ + e@,
{
}

/// Machines that differ in their system or their processor have different targets.
pub proof fn law_targets_tell_machines_apart(
    t: Target,
    windows: bool,
    aarch64: bool,
    u: Target,
    other_windows: bool,
    other_aarch64: bool,
)
    requires
        is_target(t, windows, aarch64),
        is_target(u, other_windows, other_aarch64),
    ensures
        t.platform@ == u.platform@ <==> windows == other_windows,
        t.arch@ == u.arch@ <==> aarch64 == other_aarch64,
        windows ==> t.platform@ == "win"@,
        aarch64 ==> t.arch@ == "arm64"@,
        !windows ==> t.platform@ == "ubuntu"@,
        !aarch64 ==> t.arch@ == "x64"@,
{
    reveal_strlit("win");
    reveal_strlit("ubuntu");
    reveal_strlit("arm64");
    reveal_strlit("x64");
    assert("win"@.len() == 3 && "ubuntu"@.len() == 6);
    assert("arm64"@.len() == 5 && "x64"@.len() == 3);
}

/// A name that states a version holds it whole: no digit or dot runs into it from
/// before, and no digit or further part follows it.
pub proof fn law_version_is_stated_whole(name: Seq<char>, version: Seq<char>) -> (i: int)
    requires
        states_version(name, version),
    ensures
        0 <= i && i + version.len() <= name.len(),
        name.subrange(i, i + version.len()) == version,
        i > 0 ==> !is_digit(name[i - 1]) && name[i - 1] != '.',
        i + version.len() < name.len() ==> !is_digit(name[i + version.len()]),
        i + version.len() + 1 < name.len() && name[i + version.len()] == '.' ==> !is_digit(
            name[i + version.len() + 1],
        ),
{
    choose|i: int| #[trigger] version_at(name, version, i)
}

/// Where nothing can be offered the error names the platform, the architecture and the
/// release.
pub proof fn law_unusable_release_is_named(
    r: Result<Offer, String>,
    release: JsonView,
    t: Target,
    has_nvidia: bool,
)
    requires
        is_offer(r, release, t, has_nvidia),
        r is Err,
    ensures
        r->Err_0@ == "no usable "@ + t.platform@ + " "@ + t.arch@ + " assets in llama.cpp "@ + (
        match text_of(field(release, "tag_name"@)) {
            Some(tag) => tag,
            None => "latest"@,
        }),
{
}

} // verus!
