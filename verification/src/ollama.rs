//! The model store of Ollama.
//!
//! Ollama keeps weights as blobs that are named by their content and records in
//! manifests which blob belongs to which model. A manifest maps to its weights
//! blob, which is an ordinary GGUF file, so its models can be listed beside the
//! others.

use crate::order::{every, is_order, is_sorted_pick, lemma_insert, placed};
use crate::text::{
    alnum, chars_of, cut, first_at, is_alnum, is_text_below, law_text_is_cut_at_the_first,
    lemma_first_exists, lemma_text_order, lowercase, occurs, occurs_at, opt_view, same, split_once,
    str_contains, string_of, text_below, texts, to_lowercase,
};
use vstd::prelude::*;
use vstd::set_lib::{lemma_int_range, set_int_range};

verus! {

/// The media type of the layer that carries the weights.
pub const MODEL_LAYER: &'static str = "application/vnd.ollama.image.model";

/// A layer of a manifest.
#[derive(Debug, Clone)]
pub struct Layer {
    pub media_type: String,
    pub digest: String,
    pub size: u64,
}

/// A model registered in the store.
#[derive(Debug, Clone)]
pub struct OllamaModel {
    /// The name that Ollama shows, such as `deepseek-r1:14b`.
    pub name: String,
    pub blob_path: String,
    pub size_bytes: u64,
}

// ---------------------------------------------------------------------------
// Manifests
// ---------------------------------------------------------------------------

/// All characters are ASCII letters and digits.
pub open spec fn all_alnum(s: Seq<char>) -> bool {
    forall|i: int| 0 <= i < s.len() ==> is_alnum(#[trigger] s[i])
}

/// A digest holds nothing that could lead out of a folder.
pub open spec fn is_plain_digest(digest: Seq<char>) -> bool {
    !occurs(digest, "/"@) && !occurs(digest, "\\"@) && !occurs(digest, ".."@)
}

/// The file name of the blob with this digest.
pub open spec fn blob_name(digest: Seq<char>) -> Option<Seq<char>> {
    if !is_plain_digest(digest) {
        None
    } else {
        match cut(digest, ":"@) {
            Some((algo, hex)) => if algo.len() == 0 || hex.len() == 0 || !all_alnum(hex) {
                None
            } else {
                Some(algo + "-"@ + hex)
            },
            None => None,
        }
    }
}

/// The file name of the blob with this digest: `sha256:abc` is `sha256-abc`. A
/// digest with path separators has none, nor has one of another form.
pub fn digest_to_filename(digest: &str) -> (r: Option<String>)
    ensures
        opt_view(r) == blob_name(digest@),
{
    if str_contains(digest, "/") || str_contains(digest, "\\") || str_contains(digest, "..") {
        return None;
    }
    let chars = chars_of(digest);
    let colon = chars_of(":");
    match split_once(chars.as_slice(), colon.as_slice()) {
        Some((algo, hex)) => {
            if algo.len() == 0 || hex.len() == 0 {
                return None;
            }
            for i in 0..hex.len()
                invariant
                    forall|j: int| 0 <= j < i ==> is_alnum(#[trigger] hex@[j]),
                    cut(digest@, ":"@) == Some((algo@, hex@)),
            {
                if !alnum(hex[i]) {
                    assert(!all_alnum(hex@));
                    return None;
                }
            }
            assert(all_alnum(hex@));
            let mut name = string_of(algo);
            name.append("-");
            name.append(string_of(hex).as_str());
            Some(name)
        },
        None => None,
    }
}

/// A blob's file name holds no path separator and no "..", so the blob is in its
/// folder whatever the manifest says.
pub proof fn law_blob_stays_in_its_folder(digest: Seq<char>)
    requires
        blob_name(digest) is Some,
    ensures
        is_plain_digest(blob_name(digest)->0),
{
    reveal_strlit("/");
    reveal_strlit("\\");
    reveal_strlit("..");
    reveal_strlit(":");
    reveal_strlit("-");
    let name = blob_name(digest)->0;
    let (algo, hex) = cut(digest, ":"@)->0;
    let at = choose|i: int| occurs_at(digest, ":"@, i);
    lemma_first_exists(digest, ":"@, at);
    let k = choose|k: int| first_at(digest, ":"@, k);
    assert(algo =~= digest.take(k));
    assert(hex =~= digest.skip(k + 1));
    assert forall|i: int| 0 <= i < name.len() implies name[i] == '-' || is_alnum(#[trigger] name[i])
        || (i < algo.len() && name[i] == digest[i]) by {
        if i > algo.len() {
            assert(name[i] == hex[i - algo.len() - 1]);
        }
    }
    assert forall|i: int| !occurs_at(name, "/"@, i) by {
        if occurs_at(name, "/"@, i) {
            assert(name.subrange(i, i + 1)[0] == '/');
            assert(digest.subrange(i, i + 1) =~= "/"@);
            assert(occurs_at(digest, "/"@, i));
        }
    }
    assert forall|i: int| !occurs_at(name, "\\"@, i) by {
        if occurs_at(name, "\\"@, i) {
            assert(name.subrange(i, i + 1)[0] == '\\');
            assert(digest.subrange(i, i + 1) =~= "\\"@);
            assert(occurs_at(digest, "\\"@, i));
        }
    }
    assert forall|i: int| !occurs_at(name, ".."@, i) by {
        if occurs_at(name, ".."@, i) {
            assert(name.subrange(i, i + 2)[0] == '.');
            assert(name.subrange(i, i + 2)[1] == '.');
            assert(name[i] == '.' && name[i + 1] == '.');
            assert(digest.subrange(i, i + 2) =~= ".."@);
            assert(occurs_at(digest, ".."@, i));
        }
    }
}

/// Some texts with a slash between them.
pub open spec fn joined(parts: Seq<Seq<char>>) -> Seq<char>
    decreases parts.len(),
{
    if parts.len() == 0 {
        Seq::empty()
    } else if parts.len() == 1 {
        parts[0]
    } else {
        joined(parts.drop_last()) + "/"@ + parts.last()
    }
}

/// The name of the model whose manifest is at this path, given as the folders and
/// the file below the root: registry, namespace, name and tag. The registry is
/// dropped, and so is the namespace `library`.
pub open spec fn name_of(parts: Seq<Seq<char>>) -> Option<Seq<char>> {
    if parts.len() < 3 {
        None
    } else {
        let tag = parts.last();
        let name = parts[parts.len() - 2];
        let namespace = parts.subrange(1, parts.len() - 2);
        if namespace.len() == 0 || namespace == seq!["library"@] {
            Some(name + ":"@ + tag)
        } else {
            Some(joined(namespace) + "/"@ + name + ":"@ + tag)
        }
    }
}

/// The name of the model whose manifest is at this path.
pub fn model_name(parts: &Vec<String>) -> (r: Option<String>)
    ensures
        opt_view(r) == name_of(texts(parts@)),
{
    let n = parts.len();
    if n < 3 {
        return None;
    }
    let ghost all = texts(parts@);
    let ghost namespace = all.subrange(1, all.len() - 2);
    let mut out = String::from_str("");
    proof {
        reveal_strlit("");
    }
    if n == 3 || (n == 4 && same(parts[1].as_str(), "library")) {
        proof {
            assert(out@ =~= Seq::empty());
            if n == 4 {
                assert(namespace =~= seq![all[1]]);
                assert(namespace =~= seq!["library"@]);
            }
        }
    } else {
        proof {
            if namespace == seq!["library"@] {
                assert(namespace.len() == 1);
                assert(namespace[0] == all[1]);
            }
        }
        out.append(parts[1].as_str());
        assert(namespace.take(1)[0] == all[1]);
        assert(out@ =~= joined(namespace.take(1)));
        for i in 2..n - 2
            invariant
                n == parts@.len(),
                n > 3,
                all == texts(parts@),
                namespace == all.subrange(1, all.len() - 2),
                out@ == joined(namespace.take(i - 1)),
        {
            proof {
                assert(namespace.take(i as int).drop_last() =~= namespace.take(i - 1));
                assert(namespace.take(i as int).last() == all[i as int]);
            }
            out.append("/");
            out.append(parts[i].as_str());
        }
        assert(namespace.take(n - 3) =~= namespace);
        out.append("/");
    }
    let ghost head = out@;
    out.append(parts[n - 2].as_str());
    out.append(":");
    out.append(parts[n - 1].as_str());
    assert(out@ =~= head + all[n - 2] + ":"@ + all[n - 1]);
    Some(out)
}

/// The first layer, from index `i` on, that carries weights.
pub open spec fn weights_from(layers: Seq<Layer>, i: int) -> Option<Layer>
    decreases layers.len() - i,
{
    if i < 0 || i >= layers.len() {
        None
    } else if layers[i].media_type@ == MODEL_LAYER@ {
        Some(layers[i])
    } else {
        weights_from(layers, i + 1)
    }
}

/// The layer of a manifest that carries the weights.
pub fn weights_layer(layers: &Vec<Layer>) -> (r: Option<&Layer>)
    ensures
        match r {
            Some(l) => weights_from(layers@, 0) == Some(*l),
            None => weights_from(layers@, 0) is None,
        },
{
    for i in 0..layers.len()
        invariant
            weights_from(layers@, 0) == weights_from(layers@, i as int),
    {
        if same(layers[i].media_type.as_str(), MODEL_LAYER) {
            return Some(&layers[i]);
        }
    }
    None
}

/// The file name of the weights blob of a manifest.
pub open spec fn manifest_blob_name(layers: Seq<Layer>) -> Option<Seq<char>> {
    match weights_from(layers, 0) {
        Some(l) => blob_name(l.digest@),
        None => None,
    }
}

/// The file name of the weights blob of a manifest.
pub fn manifest_blob(layers: &Vec<Layer>) -> (r: Option<String>)
    ensures
        opt_view(r) == manifest_blob_name(layers@),
{
    match weights_layer(layers) {
        Some(l) => digest_to_filename(l.digest.as_str()),
        None => None,
    }
}

/// A blob as it was found on disk.
#[derive(Debug, Clone)]
pub struct FoundBlob {
    pub path: String,
    pub is_file: bool,
    /// The size of the file, where it could be read.
    pub size: Option<u64>,
}

/// `r` is the model of a manifest.
pub open spec fn is_manifest_model(
    layers: Seq<Layer>,
    parts: Seq<Seq<char>>,
    blob: FoundBlob,
    r: Option<OllamaModel>,
) -> bool {
    &&& r is Some <==> manifest_blob_name(layers) is Some && blob.is_file && name_of(parts) is Some
    &&& r matches Some(m) ==> {
        &&& name_of(parts) == Some(m.name@)
        &&& m.blob_path@ == blob.path@
        &&& m.size_bytes == (match blob.size {
            Some(n) => n,
            None => (weights_from(layers, 0)->0).size,
        })
    }
}

/// The model of a manifest, given its path below the root of all manifests and
/// what was found of its blob: none where the manifest names no blob, where the
/// blob is missing and where the path is no model's. The size is that of the
/// file, or the manifest's where that is not known.
pub fn manifest_model(layers: &Vec<Layer>, parts: &Vec<String>, blob: &FoundBlob) -> (r: Option<
    OllamaModel,
>)
    ensures
        is_manifest_model(layers@, texts(parts@), *blob, r),
{
    match weights_layer(layers) {
        Some(layer) => {
            if digest_to_filename(layer.digest.as_str()).is_none() || !blob.is_file {
                return None;
            }
            let size_bytes = match blob.size {
                Some(n) => n,
                None => layer.size,
            };
            match model_name(parts) {
                Some(name) => Some(OllamaModel { name, blob_path: blob.path.clone(), size_bytes }),
                None => None,
            }
        },
        None => None,
    }
}

// ---------------------------------------------------------------------------
// Listing
// ---------------------------------------------------------------------------

/// A model with the key that it is listed by.
pub struct Keyed {
    pub key: Seq<char>,
    pub model: OllamaModel,
}

/// Which entry holds which model.
pub open spec fn holds_model(models: Seq<OllamaModel>, keys: Seq<Seq<char>>) -> spec_fn(
    Keyed,
    int,
) -> bool {
    |e: Keyed, i: int| e.key == keys[i] && e.model == models[i]
}

/// Entries in the order of their keys.
pub open spec fn by_key() -> spec_fn(Keyed, Keyed) -> bool {
    |a: Keyed, b: Keyed| text_below(a.key, b.key)
}

/// The models of some entries.
pub open spec fn models_of(entries: Seq<Keyed>) -> Seq<OllamaModel> {
    entries.map_values(|e: Keyed| e.model)
}

/// `list` holds the models, each of them once, in the stable order of their keys.
pub open spec fn is_listing(
    list: Seq<OllamaModel>,
    models: Seq<OllamaModel>,
    keys: Seq<Seq<char>>,
) -> bool {
    exists|entries: Seq<Keyed>, from: Seq<int>|
        {
            &&& #[trigger] is_sorted_pick(
                entries,
                from,
                models.len() as int,
                every(),
                holds_model(models, keys),
                by_key(),
            )
            &&& list == models_of(entries)
        }
}

/// The keys that models are listed by: their names in lowercase.
pub open spec fn name_keys(models: Seq<OllamaModel>) -> Seq<Seq<char>> {
    models.map_values(|m: OllamaModel| lowercase(m.name@))
}

/// Lists models by the keys given for them.
pub fn list_by_keys(models: Vec<OllamaModel>, keys: &Vec<String>) -> (list: Vec<OllamaModel>)
    requires
        keys@.len() == models@.len(),
    ensures
        is_listing(list@, models@, texts(keys@)),
{
    let ghost all = models@;
    let ghost names = texts(keys@);
    let ghost mut entries: Seq<Keyed> = Seq::empty();
    let ghost mut from: Seq<int> = Seq::empty();
    let mut rest = models;
    let mut out: Vec<OllamaModel> = Vec::new();
    let mut shown: Vec<Vec<char>> = Vec::new();
    let n = keys.len();
    assert(models_of(entries) =~= out@);
    for i in 0..n
        invariant
            n == keys@.len(),
            n == all.len(),
            names == texts(keys@),
            rest@ == all.skip(i as int),
            is_sorted_pick(entries, from, i as int, every(), holds_model(all, names), by_key()),
            out@ == models_of(entries),
            shown@.len() == entries.len(),
            forall|k: int| 0 <= k < entries.len() ==> (#[trigger] shown@[k])@ == entries[k].key,
    {
        let m = rest.remove(0);
        let key = chars_of(keys[i].as_str());
        let ghost e = Keyed { key: key@, model: m };
        let mut p: usize = 0;
        while p < shown.len() && !is_text_below(key.as_slice(), shown[p].as_slice())
            invariant
                p <= shown@.len(),
                shown@.len() == entries.len(),
                e.key == key@,
                forall|k: int| 0 <= k < entries.len() ==> (#[trigger] shown@[k])@ == entries[k].key,
                forall|k: int| 0 <= k < p ==> !by_key()(e, #[trigger] entries[k]),
            decreases shown@.len() - p,
        {
            assert(shown@[p as int]@ == entries[p as int].key);
            p = p + 1;
        }
        proof {
            assert(all.skip(i as int).remove(0) =~= all.skip(i + 1));
            assert(m == all[i as int]);
            assert(names[i as int] == keys@[i as int]@);
            lemma_by_key_is_order();
            assert(every()(i as int));
            assert(holds_model(all, names)(e, i as int));
            if p < shown@.len() {
                assert(shown@[p as int]@ == entries[p as int].key);
            }
            lemma_insert(
                entries,
                from,
                i as int,
                p as int,
                e,
                every(),
                holds_model(all, names),
                by_key(),
            );
            from = from.insert(p as int, i as int);
            assert(models_of(entries).insert(p as int, m) =~= models_of(
                entries.insert(p as int, e),
            ));
            entries = entries.insert(p as int, e);
        }
        out.insert(p, m);
        shown.insert(p, key);
    }
    assert(is_sorted_pick(
        entries,
        from,
        all.len() as int,
        every(),
        holds_model(all, names),
        by_key(),
    ));
    out
}

/// The order of keys is one.
proof fn lemma_by_key_is_order()
    ensures
        is_order(by_key()),
{
    let f = by_key();
    assert forall|a: Keyed, b: Keyed| #[trigger] f(a, b) implies !f(b, a) by {
        lemma_text_order(a.key, b.key, a.key);
    }
    assert forall|a: Keyed, b: Keyed, c: Keyed| #[trigger]
        f(a, b) && !#[trigger] f(c, b) implies f(a, c) by {
        lemma_text_order(a.key, b.key, c.key);
    }
}

/// Lists every model of a store by name, without regard to case. Two names for one
/// blob are two models.
pub fn list_models(models: Vec<OllamaModel>) -> (list: Vec<OllamaModel>)
    ensures
        is_listing(list@, models@, name_keys(models@)),
{
    let mut keys: Vec<String> = Vec::new();
    for i in 0..models.len()
        invariant
            keys@.len() == i,
            forall|k: int| 0 <= k < i ==> (#[trigger] keys@[k])@ == lowercase(models@[k].name@),
    {
        keys.push(to_lowercase(models[i].name.as_str()));
    }
    assert(texts(keys@) =~= name_keys(models@));
    list_by_keys(models, &keys)
}

/// Every model that is listed is one of the store.
pub proof fn law_listing_holds_only_models_of_the_store(
    list: Seq<OllamaModel>,
    models: Seq<OllamaModel>,
    keys: Seq<Seq<char>>,
    k: int,
)
    requires
        is_listing(list, models, keys),
        0 <= k < list.len(),
    ensures
        models.contains(list[k]),
{
    let (entries, from) = choose|entries: Seq<Keyed>, from: Seq<int>|
        {
            &&& #[trigger] is_sorted_pick(
                entries,
                from,
                models.len() as int,
                every(),
                holds_model(models, keys),
                by_key(),
            )
            &&& list == models_of(entries)
        };
    assert(holds_model(models, keys)(entries[k], from[k]));
    assert(models[from[k]] == list[k]);
}

/// Every model of the store is listed, and there are as many entries as models,
/// so that no name is dropped for sharing a blob with another.
pub proof fn law_every_model_is_listed(
    list: Seq<OllamaModel>,
    models: Seq<OllamaModel>,
    keys: Seq<Seq<char>>,
    i: int,
)
    requires
        is_listing(list, models, keys),
        0 <= i < models.len(),
    ensures
        list.contains(models[i]),
        list.len() == models.len(),
{
    let (entries, from) = choose|entries: Seq<Keyed>, from: Seq<int>|
        {
            &&& #[trigger] is_sorted_pick(
                entries,
                from,
                models.len() as int,
                every(),
                holds_model(models, keys),
                by_key(),
            )
            &&& list == models_of(entries)
        };
    assert(every()(i));
    assert(from.contains(i));
    let j = choose|j: int| 0 <= j < from.len() && from[j] == i;
    assert(holds_model(models, keys)(entries[j], from[j]));
    assert(list[j] == models[i]);
    assert(from.no_duplicates()) by {
        assert forall|k: int, l: int| 0 <= k < l < from.len() implies from[k] != from[l] by {
            assert(placed(entries, from, by_key(), k, l));
        }
    }
    from.unique_seq_to_set();
    lemma_int_range(0, models.len() as int);
    assert forall|x: int| set_int_range(0, models.len() as int).contains(x) implies #[trigger]
        from.to_set().contains(x) by {
        assert(every()(x));
    }
    assert(from.to_set() =~= set_int_range(0, models.len() as int));
}

/// The models of a store are listed by their names in lowercase, none before one
/// that it comes after.
pub proof fn law_listing_is_sorted_by_name(
    list: Seq<OllamaModel>,
    models: Seq<OllamaModel>,
    k: int,
    l: int,
)
    requires
        is_listing(list, models, name_keys(models)),
        0 <= k < l < list.len(),
    ensures
        !text_below(lowercase(list[l].name@), lowercase(list[k].name@)),
{
    let keys = name_keys(models);
    let (entries, from) = choose|entries: Seq<Keyed>, from: Seq<int>|
        {
            &&& #[trigger] is_sorted_pick(
                entries,
                from,
                models.len() as int,
                every(),
                holds_model(models, keys),
                by_key(),
            )
            &&& list == models_of(entries)
        };
    assert(placed(entries, from, by_key(), k, l));
    assert(holds_model(models, keys)(entries[k], from[k]));
    assert(holds_model(models, keys)(entries[l], from[l]));
}

/// A digest names its blob: the algorithm and the digits, with a hyphen between them.
pub proof fn law_blob_is_named_by_its_digest(algo: Seq<char>, hex: Seq<char>)
    requires
        algo.len() > 0,
        hex.len() > 0,
        forall|i: int| 0 <= i < algo.len() ==> is_alnum(#[trigger] algo[i]),
        forall|i: int| 0 <= i < hex.len() ==> is_alnum(#[trigger] hex[i]),
    ensures
        blob_name(algo + ":"@ + hex) == Some(algo + "-"@ + hex),
{
    reveal_strlit("/");
    reveal_strlit("\\");
    reveal_strlit("..");
    reveal_strlit(":");
    let digest = algo + ":"@ + hex;
    let n = algo.len() as int;
    assert forall|i: int| 0 <= i < digest.len() implies is_alnum(#[trigger] digest[i]) || (i == n
        && digest[i] == ':') by {
        if i < n {
            assert(digest[i] == algo[i]);
        } else if i > n {
            assert(digest[i] == hex[i - n - 1]);
        }
    }
    assert forall|i: int| !occurs_at(digest, "/"@, i) by {
        if occurs_at(digest, "/"@, i) {
            assert(digest.subrange(i, i + 1)[0] == digest[i]);
        }
    }
    assert forall|i: int| !occurs_at(digest, "\\"@, i) by {
        if occurs_at(digest, "\\"@, i) {
            assert(digest.subrange(i, i + 1)[0] == digest[i]);
        }
    }
    assert forall|i: int| !occurs_at(digest, ".."@, i) by {
        if occurs_at(digest, ".."@, i) {
            assert(digest.subrange(i, i + 2)[0] == digest[i]);
        }
    }
    assert(digest.subrange(n, n + 1) =~= ":"@);
    assert forall|i: int| 0 <= i < n implies !#[trigger] occurs_at(digest, ":"@, i) by {
        if occurs_at(digest, ":"@, i) {
            assert(digest.subrange(i, i + 1)[0] == digest[i]);
            assert(is_alnum(algo[i]));
        }
    }
    assert(first_at(digest, ":"@, n));
    law_text_is_cut_at_the_first(digest, ":"@, n);
    assert(digest.take(n) =~= algo);
    assert(digest.skip(n + 1) =~= hex);
}

/// A model is shown by its name and its tag, and by its namespace where that is not
/// Ollama's own; which registry it is from is not shown.
pub proof fn law_models_are_shown_by_name_and_tag(
    registry: Seq<char>,
    other: Seq<char>,
    namespace: Seq<char>,
    name: Seq<char>,
    tag: Seq<char>,
)
    ensures
        name_of(seq![registry, "library"@, name, tag]) == Some(name + ":"@ + tag),
        name_of(seq![registry, name, tag]) == Some(name + ":"@ + tag),
        namespace != "library"@ ==> name_of(seq![registry, namespace, name, tag]) == Some(
            namespace + "/"@ + name + ":"@ + tag,
        ),
        name_of(seq![registry, namespace, name, tag]) == name_of(
            seq![other, namespace, name, tag],
        ),
        name_of(seq![name, tag]) is None,
        name_of(seq![tag]) is None,
{
    let own = seq![registry, "library"@, name, tag];
    assert(own.subrange(1, 2) =~= seq!["library"@]);
    let a = seq![registry, namespace, name, tag];
    let b = seq![other, namespace, name, tag];
    let one = seq![namespace];
    assert(a.subrange(1, 2) =~= one);
    assert(b.subrange(1, 2) =~= one);
    assert(one[0] == namespace);
    if namespace != "library"@ {
        assert(one != seq!["library"@]) by {
            assert(seq!["library"@][0] == "library"@);
        }
        assert(joined(one) == namespace);
    }
}

/// Deeper namespaces are shown with a slash between their parts.
pub proof fn law_namespaces_are_shown_in_full(
    parts: Seq<Seq<char>>,
    last: Seq<char>,
)
    requires
        parts.len() > 0,
    ensures
        joined(parts.push(last)) == joined(parts) + "/"@ + last,
{
    assert(parts.push(last).drop_last() =~= parts);
}

/// The weights of a manifest are its first layer of the type that Ollama gives to
/// models.
pub proof fn law_weights_are_the_first_model_layer(layers: Seq<Layer>, k: int)
    requires
        0 <= k < layers.len(),
        layers[k].media_type@ == "application/vnd.ollama.image.model"@,
        forall|j: int|
            0 <= j < k ==> (#[trigger] layers[j]).media_type@
                != "application/vnd.ollama.image.model"@,
    ensures
        weights_from(layers, 0) == Some(layers[k]),
{
    lemma_weights_from(layers, 0, k);
}

proof fn lemma_weights_from(layers: Seq<Layer>, i: int, k: int)
    requires
        0 <= i <= k < layers.len(),
        layers[k].media_type@ == "application/vnd.ollama.image.model"@,
        forall|j: int|
            0 <= j < k ==> (#[trigger] layers[j]).media_type@
                != "application/vnd.ollama.image.model"@,
    ensures
        weights_from(layers, i) == Some(layers[k]),
    decreases k - i,
{
    if i < k {
        lemma_weights_from(layers, i + 1, k);
    }
}

/// A manifest without a layer of weights is no model.
pub proof fn law_manifest_without_weights_is_no_model(
    layers: Seq<Layer>,
    parts: Seq<Seq<char>>,
    blob: FoundBlob,
    r: Option<OllamaModel>,
)
    requires
        is_manifest_model(layers, parts, blob, r),
        forall|j: int|
            0 <= j < layers.len() ==> (#[trigger] layers[j]).media_type@
                != "application/vnd.ollama.image.model"@,
    ensures
        r is None,
{
    lemma_no_weights(layers, 0);
}

proof fn lemma_no_weights(layers: Seq<Layer>, i: int)
    requires
        0 <= i <= layers.len(),
        forall|j: int|
            0 <= j < layers.len() ==> (#[trigger] layers[j]).media_type@
                != "application/vnd.ollama.image.model"@,
    ensures
        weights_from(layers, i) is None,
    decreases layers.len() - i,
{
    if i < layers.len() {
        lemma_no_weights(layers, i + 1);
    }
}

/// A model is where its blob is, and as large as the blob's file; only where that
/// could not be read is the manifest believed.
pub proof fn law_model_is_as_large_as_its_file(
    layers: Seq<Layer>,
    parts: Seq<Seq<char>>,
    blob: FoundBlob,
    r: Option<OllamaModel>,
    k: int,
)
    requires
        is_manifest_model(layers, parts, blob, r),
        0 <= k < layers.len(),
        layers[k].media_type@ == "application/vnd.ollama.image.model"@,
        forall|j: int|
            0 <= j < k ==> (#[trigger] layers[j]).media_type@
                != "application/vnd.ollama.image.model"@,
    ensures
        r is Some <==> blob.is_file && blob_name(layers[k].digest@) is Some && name_of(
            parts,
        ) is Some,
        r matches Some(m) ==> {
            &&& m.blob_path@ == blob.path@
            &&& name_of(parts) == Some(m.name@)
            &&& blob.size matches Some(n) ==> m.size_bytes == n
            &&& blob.size is None ==> m.size_bytes == layers[k].size
        },
{
    lemma_weights_from(layers, 0, k);
}

} // verus!
