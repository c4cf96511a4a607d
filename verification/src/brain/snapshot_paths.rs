use vstd::prelude::*;
use vstd::string::StringSliceAdditionalSpecFns;

use crate::rag::rag_io::{path_extension, path_extension_of};
use crate::text::{
    opt_text,
    chars_of,
    contains_seq,
    find_first,
    hex16_string,
    hex_fixed_seq,
    push_all,
    replace_first,
    replace_first_seq,
    string_from_chars,
    subvec,
    trim_chars,
    trim_seq,
};

verus! {

/// Whether a character may stay in a file name: ASCII letters and digits, `-` and `_`.
pub open spec fn is_file_name_char(c: char) -> bool {
    ('a' <= c && c <= 'z') || ('A' <= c && c <= 'Z') || ('0' <= c && c <= '9') || c == '-' || c
        == '_'
}

pub open spec fn sanitize_char(c: char) -> char {
    if is_file_name_char(c) {
        c
    } else {
        '_'
    }
}

/// The id with every character that may not stay in a file name replaced by `_`.
pub open spec fn sanitized(id: Seq<char>) -> Seq<char> {
    id.map_values(|c: char| sanitize_char(c))
}

pub fn sanitize_instance_id(instance_id: &str) -> (r: String)
    ensures
        r@ == sanitized(instance_id@),
{
    let chars = chars_of(instance_id);
    let mut out: Vec<char> = Vec::new();
    let mut i: usize = 0;
    while i < chars.len()
        invariant
            i <= chars.len(),
            chars@ == instance_id@,
            out@ == sanitized(chars@.take(i as int)),
        decreases chars.len() - i,
    {
        let c = chars[i];
        let keep = ('a' <= c && c <= 'z') || ('A' <= c && c <= 'Z') || ('0' <= c && c <= '9') || c
            == '-' || c == '_';
        out.push(if keep { c } else { '_' });
        i = i + 1;
        assert(out@ =~= sanitized(chars@.take(i as int)));
    }
    assert(chars@.take(chars.len() as int) == chars@);
    string_from_chars(&out)
}

/// A sanitized id only holds characters that may stay in a file name.
pub proof fn lemma_sanitized_is_file_safe(id: Seq<char>)
    ensures
        forall|i: int| 0 <= i < sanitized(id).len() ==> is_file_name_char(#[trigger] sanitized(id)[i]),
        sanitized(id).len() == id.len(),
{
}

pub const FNV_OFFSET_BASIS: u64 = 0xcbf29ce484222325;

pub const FNV_PRIME: u64 = 0x100000001b3;

/// The 64-bit FNV-1a digest of the bytes, continued from `hash`.
pub open spec fn fnv1a_from(hash: u64, bytes: Seq<u8>) -> u64
    decreases bytes.len(),
{
    if bytes.len() == 0 {
        hash
    } else {
        fnv1a_from((hash ^ (bytes[0] as u64)).wrapping_mul(FNV_PRIME), bytes.drop_first())
    }
}

pub open spec fn fnv1a(bytes: Seq<u8>) -> u64 {
    fnv1a_from(FNV_OFFSET_BASIS, bytes)
}

/// Hashing one more byte is one more FNV-1a step.
pub proof fn lemma_fnv1a_step(hash: u64, bytes: Seq<u8>, b: u8)
    ensures
        fnv1a_from(hash, bytes.push(b)) == (fnv1a_from(hash, bytes) ^ (b as u64)).wrapping_mul(
            FNV_PRIME,
        ),
    decreases bytes.len(),
{
    if bytes.len() > 0 {
        let next = (hash ^ (bytes[0] as u64)).wrapping_mul(FNV_PRIME);
        assert(bytes.push(b).drop_first() =~= bytes.drop_first().push(b));
        lemma_fnv1a_step(next, bytes.drop_first(), b);
    } else {
        let next = (hash ^ (b as u64)).wrapping_mul(FNV_PRIME);
        assert(bytes.push(b).drop_first() =~= Seq::<u8>::empty());
        assert(bytes.push(b)[0] == b);
        assert(fnv1a_from(next, Seq::<u8>::empty()) == next);
        assert(fnv1a_from(hash, bytes) == hash);
    }
}

/// The FNV-1a digest of the id's UTF-8 bytes as 16 lower-case hexadecimal digits.
pub open spec fn fingerprint(id: Seq<char>) -> Seq<char> {
    hex_fixed_seq(fnv1a(vstd::utf8::encode_utf8(id)) as nat, 16)
}

pub fn fingerprint_instance_id(instance_id: &str) -> (r: String)
    ensures
        r@ == fingerprint(instance_id@),
{
    let bytes = instance_id.as_bytes();
    let mut hash: u64 = FNV_OFFSET_BASIS;
    let mut i: usize = 0;
    while i < bytes.len()
        invariant
            i <= bytes.len(),
            bytes@ == instance_id.spec_bytes(),
            hash == fnv1a(bytes@.take(i as int)),
        decreases bytes.len() - i,
    {
        proof {
            lemma_fnv1a_step(FNV_OFFSET_BASIS, bytes@.take(i as int), bytes@[i as int]);
            assert(bytes@.take(i + 1) =~= bytes@.take(i as int).push(bytes@[i as int]));
        }
        hash = (hash ^ (bytes[i] as u64)).wrapping_mul(FNV_PRIME);
        i = i + 1;
    }
    assert(bytes@.take(bytes.len() as int) == bytes@);
    hex16_string(hash)
}

/// The id a snapshot is stored under: the trimmed id, or `default` when it is blank.
pub open spec fn resolved_id(id: Seq<char>) -> Seq<char> {
    if trim_seq(id).len() == 0 {
        "default"@
    } else {
        trim_seq(id)
    }
}

/// The file-name segment of an instance: the sanitized id, cut to 48 characters, `_`,
/// then the fingerprint of the resolved id.
pub open spec fn id_segment(id: Seq<char>) -> Seq<char> {
    let s = sanitized(resolved_id(id));
    let s = if s.len() == 0 {
        "default"@
    } else {
        s
    };
    let s = if s.len() > 48 {
        s.take(48)
    } else {
        s
    };
    s + "_"@ + fingerprint(resolved_id(id))
}

pub fn snapshot_id_segment(instance_id: &str) -> (r: String)
    ensures
        r@ == id_segment(instance_id@),
{
    let trimmed = trim_chars(&chars_of(instance_id));
    let resolved = if trimmed.len() == 0 {
        "default".to_string()
    } else {
        string_from_chars(&trimmed)
    };
    let sanitized_id = sanitize_instance_id(resolved.as_str());
    let mut seg = chars_of(sanitized_id.as_str());
    if seg.len() == 0 {
        seg = chars_of("default");
    }
    if seg.len() > 48 {
        seg = subvec(&seg, 0, 48);
    }
    push_all(&mut seg, &chars_of("_"));
    let fp = fingerprint_instance_id(resolved.as_str());
    push_all(&mut seg, &chars_of(fp.as_str()));
    string_from_chars(&seg)
}

/// The names of the cognitive, memory and classifier snapshot files when a directory is
/// given or configured.
pub open spec fn dir_component_names(id: Seq<char>) -> (Seq<char>, Seq<char>, Seq<char>) {
    (
        id_segment(id) + "_cognitive.nrn"@,
        id_segment(id) + "_memory.nrn"@,
        id_segment(id) + "_classifier.json"@,
    )
}

/// The names of the snapshot files next to a store file with the given stem and extension.
pub open spec fn store_component_names(id: Seq<char>, stem: Seq<char>, extension: Seq<char>) -> (
    Seq<char>,
    Seq<char>,
    Seq<char>,
) {
    (
        stem + "_"@ + id_segment(id) + "_cognitive."@ + extension,
        stem + "_"@ + id_segment(id) + "_memory."@ + extension,
        stem + "_"@ + id_segment(id) + "_classifier.json"@,
    )
}

fn concat2(a: &str, b: &str) -> (r: String)
    ensures
        r@ == a@ + b@,
{
    let mut out = a.to_string();
    out.append(b);
    out
}

fn concat3(a: &str, b: &str, c: &str) -> (r: String)
    ensures
        r@ == a@ + b@ + c@,
{
    let mut out = a.to_string();
    out.append(b);
    out.append(c);
    out
}

/// The file names of the cognitive, memory and classifier snapshots of an instance.
/// `store` is `None` when a directory is given or configured, and otherwise the stem and
/// extension of the configured store file.
pub fn snapshot_component_names(instance_id: &str, store: Option<(&str, &str)>) -> (r: (
    String,
    String,
    String,
))
    ensures
        (r.0@, r.1@, r.2@) == match store {
            None => dir_component_names(instance_id@),
            Some((stem, extension)) => store_component_names(instance_id@, stem@, extension@),
        },
{
    let seg = snapshot_id_segment(instance_id);
    match store {
        None => (
            concat2(seg.as_str(), "_cognitive.nrn"),
            concat2(seg.as_str(), "_memory.nrn"),
            concat2(seg.as_str(), "_classifier.json"),
        ),
        Some((stem, extension)) => {
            let prefix = concat3(stem, "_", seg.as_str());
            (
                concat3(prefix.as_str(), "_cognitive.", extension),
                concat3(prefix.as_str(), "_memory.", extension),
                concat2(prefix.as_str(), "_classifier.json"),
            )
        },
    }
}

/// The name derived from the cognitive snapshot name by putting `marker` in place of its
/// first `_cognitive.`, or by appending `fallback_suffix` when there is none.
pub open spec fn derived_name(cognitive: Seq<char>, marker: Seq<char>, fallback_suffix: Seq<char>) -> Seq<
    char,
> {
    if contains_seq(cognitive, "_cognitive."@) {
        replace_first_seq(cognitive, "_cognitive."@, marker)
    } else {
        cognitive + fallback_suffix
    }
}

fn derive_name(cognitive_name: &str, marker: &str, fallback_suffix: &str) -> (r: String)
    ensures
        r@ == derived_name(cognitive_name@, marker@, fallback_suffix@),
{
    let name = chars_of(cognitive_name);
    let pattern = chars_of("_cognitive.");
    match find_first(&name, &pattern) {
        Some(_) => string_from_chars(&replace_first(&name, &pattern, &chars_of(marker))),
        None => concat2(cognitive_name, fallback_suffix),
    }
}

/// The name of the snapshot bundle file, derived from the cognitive snapshot name.
pub fn bundle_file_name(cognitive_name: &str) -> (r: String)
    ensures
        r@ == derived_name(cognitive_name@, "_bundle."@, "_bundle.nrn"@),
{
    derive_name(cognitive_name, "_bundle.", "_bundle.nrn")
}

/// The name of the transaction log file, derived from the cognitive snapshot name.
pub fn transaction_log_file_name(cognitive_name: &str) -> (r: String)
    ensures
        r@ == derived_name(cognitive_name@, "_transactions."@, "_transactions.wal"@),
{
    derive_name(cognitive_name, "_transactions.", "_transactions.wal")
}

/// What `Path::parent` gives for a path, as text.
pub uninterp spec fn path_parent_of(path: Seq<char>) -> Option<Seq<char>>;

/// What `Path::file_stem` gives for a path, as text.
pub uninterp spec fn path_file_stem_of(path: Seq<char>) -> Option<Seq<char>>;

/// Calls `std::path::Path::parent` and keeps the parent as text when it is UTF-8; the
/// contract names that result.
#[verifier::external_body]
fn path_parent(path: &str) -> (r: Option<String>)
    ensures
        opt_text(r) == path_parent_of(path@),
{
    std::path::Path::new(path).parent().and_then(|p| p.to_str()).map(|p| p.to_string())
}

/// Calls `std::path::Path::file_stem` and keeps the stem as text when it is UTF-8; the
/// contract names that result.
#[verifier::external_body]
fn path_file_stem(path: &str) -> (r: Option<String>)
    ensures
        opt_text(r) == path_file_stem_of(path@),
{
    std::path::Path::new(path).file_stem().and_then(|s| s.to_str()).map(|s| s.to_string())
}

/// Where the snapshot files of a brain go: into a directory, or next to the store file, named
/// after its stem and with its extension.
#[derive(Debug, Clone, PartialEq, Eq)]
pub enum SnapshotLocation {
    Directory(String),
    NextToStore { parent: String, stem: String, extension: String },
}

/// The store file when none is configured.
pub open spec fn default_store_file() -> Seq<char> {
    "./multimodal_store.nrn"@
}

/// `Some` text, or `fallback`.
pub open spec fn text_or(o: Option<Seq<char>>, fallback: Seq<char>) -> Seq<char> {
    match o {
        Some(t) => t,
        None => fallback,
    }
}

/// The snapshot location: the given directory, else the configured directory, else next to the
/// configured store file (by default `./multimodal_store.nrn`), with the stem
/// `multimodal_store` and the extension `nrn` where the store file has none.
pub open spec fn snapshot_location_spec(
    dir_override: Option<Seq<char>>,
    dir_setting: Option<Seq<char>>,
    store_file_setting: Option<Seq<char>>,
) -> (bool, Seq<char>, Seq<char>, Seq<char>) {
    match dir_override {
        Some(d) => (true, d, Seq::empty(), Seq::empty()),
        None => match dir_setting {
            Some(d) => (true, d, Seq::empty(), Seq::empty()),
            None => {
                let base = text_or(store_file_setting, default_store_file());
                (
                    false,
                    text_or(path_parent_of(base), Seq::empty()),
                    text_or(path_file_stem_of(base), "multimodal_store"@),
                    text_or(path_extension_of(base), "nrn"@),
                )
            },
        },
    }
}

/// A location as `(is a directory, directory or parent, stem, extension)`.
pub open spec fn location_view(l: SnapshotLocation) -> (bool, Seq<char>, Seq<char>, Seq<char>) {
    match l {
        SnapshotLocation::Directory(d) => (true, d@, Seq::empty(), Seq::empty()),
        SnapshotLocation::NextToStore { parent, stem, extension } => (false, parent@, stem@, extension@),
    }
}

pub open spec fn opt_str(o: Option<&str>) -> Option<Seq<char>> {
    match o {
        Some(s) => Some(s@),
        None => None,
    }
}

fn text_or_else(o: Option<String>, fallback: &str) -> (r: String)
    ensures
        r@ == text_or(opt_text(o), fallback@),
{
    match o {
        Some(t) => t,
        None => fallback.to_string(),
    }
}

/// Where the snapshot files go, from a directory given by the caller, the configured directory
/// (`NEURON_MULTIMODAL_STORE_DIR`) and the configured store file
/// (`NEURON_MULTIMODAL_STORE_FILE`).
pub fn snapshot_location(
    dir_override: Option<&str>,
    dir_setting: Option<&str>,
    store_file_setting: Option<&str>,
) -> (r: SnapshotLocation)
    ensures
        location_view(r) == snapshot_location_spec(
            opt_str(dir_override),
            opt_str(dir_setting),
            opt_str(store_file_setting),
        ),
{
    if let Some(dir) = dir_override {
        return SnapshotLocation::Directory(dir.to_string());
    }
    if let Some(dir) = dir_setting {
        return SnapshotLocation::Directory(dir.to_string());
    }
    let base = match store_file_setting {
        Some(b) => b.to_string(),
        None => "./multimodal_store.nrn".to_string(),
    };
    let parent = text_or_else(path_parent(base.as_str()), "");
    let stem = text_or_else(path_file_stem(base.as_str()), "multimodal_store");
    let extension = text_or_else(path_extension(base.as_str()), "nrn");
    proof {
        reveal_strlit("");
    }
    SnapshotLocation::NextToStore { parent, stem, extension }
}

} // verus!
