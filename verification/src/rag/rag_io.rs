use vstd::prelude::*;

use std::collections::hash_map::DefaultHasher;
use std::hash::{Hash, Hasher};
use vstd::std_specs::hash::DefaultHasherAdditionalSpecFns;

use crate::collections::{first_position, lemma_first_position_absent, lemma_first_position_found, StrMap};
use crate::rag::types::RagDocument;
use crate::text::{
    opt_text,
    trim_str,
    chars_of,
    decimal_seq,
    decimal_string,
    hex16_string,
    hex_fixed_seq,
    lower_chars,
    lower_seq,
    string_from_chars,
    string_views,
    trim_chars,
    trim_seq,
    trim_start_char,
    trim_start_char_seq,
};

verus! {

/// Errors of importing documents.
#[derive(Debug, Clone, PartialEq, Eq)]
pub enum RagIoError {
    Io(String),
    Csv(String),
    InvalidPath(String),
    NonUtf8File(String),
    MissingCsvColumn { column: String, path: String },
}

pub open spec fn rag_error_text(e: RagIoError) -> Seq<char> {
    match e {
        RagIoError::Io(m) => "rag I/O error: "@ + m@,
        RagIoError::Csv(m) => "rag CSV parse error: "@ + m@,
        RagIoError::InvalidPath(p) => "invalid path for rag import: "@ + p@,
        RagIoError::NonUtf8File(p) => "rag importer only supports UTF-8 files: "@ + p@,
        RagIoError::MissingCsvColumn { column, path } => "required CSV column '"@ + column@
            + "' not found in "@ + path@,
    }
}

impl RagIoError {
    /// The text that the error displays.
    pub fn message(&self) -> (r: String)
        ensures
            r@ == rag_error_text(*self),
    {
        match self {
            RagIoError::Io(m) => {
                let mut out = "rag I/O error: ".to_string();
                out.append(m.as_str());
                out
            },
            RagIoError::Csv(m) => {
                let mut out = "rag CSV parse error: ".to_string();
                out.append(m.as_str());
                out
            },
            RagIoError::InvalidPath(p) => {
                let mut out = "invalid path for rag import: ".to_string();
                out.append(p.as_str());
                out
            },
            RagIoError::NonUtf8File(p) => {
                let mut out = "rag importer only supports UTF-8 files: ".to_string();
                out.append(p.as_str());
                out
            },
            RagIoError::MissingCsvColumn { column, path } => {
                let mut out = "required CSV column '".to_string();
                out.append(column.as_str());
                out.append("' not found in ");
                out.append(path.as_str());
                out
            },
        }
    }
}

/// Which files a directory import reads.
#[derive(Debug, Clone)]
pub struct RagFileImportConfig {
    pub include_extensions: Vec<String>,
    pub recursive: bool,
}

impl Default for RagFileImportConfig {
    fn default() -> (r: Self)
        ensures
            string_views(r.include_extensions@) == seq!["txt"@, "md"@],
            r.recursive,
    {
        let mut exts: Vec<String> = Vec::new();
        exts.push("txt".to_string());
        exts.push("md".to_string());
        assert(string_views(exts@) =~= seq!["txt"@, "md"@]);
        Self { include_extensions: exts, recursive: true }
    }
}

/// Which CSV columns hold the text, the id and the metadata.
#[derive(Debug, Clone)]
pub struct RagCsvImportConfig {
    pub text_column: String,
    pub id_column: Option<String>,
    pub metadata_columns: Vec<String>,
}

impl Default for RagCsvImportConfig {
    fn default() -> (r: Self)
        ensures
            r.text_column@ == "ki_text"@,
            r.id_column is None,
            r.metadata_columns@.len() == 0,
    {
        Self { text_column: "ki_text".to_string(), id_column: None, metadata_columns: Vec::new() }
    }
}

/// An extension filter entry: trimmed, without leading dots, lower-cased.
pub open spec fn normalized_extension(e: Seq<char>) -> Seq<char> {
    lower_seq(trim_start_char_seq(trim_seq(e), '.'))
}

/// The normalized extensions, without the empty ones.
pub open spec fn normalized_extensions(exts: Seq<Seq<char>>) -> Seq<Seq<char>>
    decreases exts.len(),
{
    if exts.len() == 0 {
        Seq::empty()
    } else {
        let e = normalized_extension(exts[0]);
        (if e.len() > 0 {
            seq![e]
        } else {
            Seq::empty()
        }) + normalized_extensions(exts.drop_first())
    }
}

/// Normalizing one more extension appends it, when it is not empty after normalizing.
pub proof fn lemma_normalized_extensions_push(exts: Seq<Seq<char>>, x: Seq<char>)
    ensures
        normalized_extensions(exts.push(x)) == normalized_extensions(exts) + (if normalized_extension(
            x,
        ).len() > 0 {
            seq![normalized_extension(x)]
        } else {
            Seq::empty()
        }),
    decreases exts.len(),
{
    if exts.len() == 0 {
        reveal_with_fuel(normalized_extensions, 2);
        assert(exts.push(x).drop_first() =~= Seq::<Seq<char>>::empty());
        assert(exts.push(x)[0] == x);
    } else {
        assert(exts.push(x).drop_first() =~= exts.drop_first().push(x));
        assert(exts.push(x)[0] == exts[0]);
        lemma_normalized_extensions_push(exts.drop_first(), x);
    }
}

pub fn normalize_extensions(exts: &Vec<String>) -> (r: Vec<String>)
    ensures
        string_views(r@) == normalized_extensions(string_views(exts@)),
{
    let mut out: Vec<String> = Vec::new();
    let mut i: usize = 0;
    while i < exts.len()
        invariant
            i <= exts.len(),
            string_views(out@) == normalized_extensions(string_views(exts@.take(i as int))),
        decreases exts.len() - i,
    {
        let e = lower_chars(&trim_start_char(&trim_chars(&chars_of(exts[i].as_str())), '.'));
        proof {
            lemma_normalized_extensions_push(string_views(exts@.take(i as int)), exts@[i as int]@);
            assert(string_views(exts@.take(i + 1)) =~= string_views(exts@.take(i as int)).push(
                exts@[i as int]@,
            ));
        }
        if e.len() > 0 {
            let ghost before = string_views(out@);
            out.push(string_from_chars(&e));
            assert(string_views(out@) =~= before + seq![e@]);
        } else {
            assert(string_views(out@) =~= string_views(out@) + Seq::<Seq<char>>::empty());
        }
        i = i + 1;
    }
    assert(exts@.take(exts.len() as int) =~= exts@);
    out
}

/// What `Path::extension` gives for a path, as text.
pub uninterp spec fn path_extension_of(path: Seq<char>) -> Option<Seq<char>>;

/// What `Path::file_name` gives for a path, as text.
pub uninterp spec fn path_file_name_of(path: Seq<char>) -> Option<Seq<char>>;

/// Calls `std::path::Path::extension` and keeps the extension as text when it is UTF-8.
/// The contract names that result and adds what the documentation of `extension` says: it
/// is the part of the file name after its last `.`, so it holds no `.`.
#[verifier::external_body]
pub(crate) fn path_extension(path: &str) -> (r: Option<String>)
    ensures
        opt_text(r) == path_extension_of(path@),
        r matches Some(e) ==> forall|i: int| 0 <= i < e@.len() ==> e@[i] != '.',
{
    std::path::Path::new(path).extension().and_then(|e| e.to_str()).map(|e| e.to_string())
}

/// Calls `std::path::Path::file_name` and keeps the name as text when it is UTF-8; the
/// contract names that result.
#[verifier::external_body]
fn path_file_name(path: &str) -> (r: Option<String>)
    ensures
        opt_text(r) == path_file_name_of(path@),
{
    std::path::Path::new(path).file_name().and_then(|e| e.to_str()).map(|e| e.to_string())
}

/// Whether a file is imported: every file when no extension is listed, else a file whose
/// lower-cased extension is listed.
pub open spec fn import_accepts(extension: Option<Seq<char>>, normalized: Seq<Seq<char>>) -> bool {
    if normalized.len() == 0 {
        true
    } else {
        match extension {
            None => false,
            Some(e) => normalized.contains(lower_seq(e)),
        }
    }
}

pub fn should_import(path: &str, normalized_extensions: &Vec<String>) -> (r: bool)
    ensures
        r == import_accepts(path_extension_of(path@), string_views(normalized_extensions@)),
{
    if normalized_extensions.len() == 0 {
        return true;
    }
    let ext = match path_extension(path) {
        Some(e) => e,
        None => return false,
    };
    let lowered = string_from_chars(&lower_chars(&chars_of(ext.as_str())));
    let ghost views = string_views(normalized_extensions@);
    assert(path_extension_of(path@) == Some(ext@));
    assert(views.len() == normalized_extensions.len());
    let mut i: usize = 0;
    while i < normalized_extensions.len()
        invariant
            i <= normalized_extensions.len(),
            views == string_views(normalized_extensions@),
            views.len() == normalized_extensions.len(),
            lowered@ == lower_seq(ext@),
            path_extension_of(path@) == Some(ext@),
            forall|j: int| 0 <= j < i ==> views[j] != lowered@,
        decreases normalized_extensions.len() - i,
    {
        if normalized_extensions[i] == lowered {
            assert(views[i as int] == lowered@);
            assert(views.contains(lower_seq(ext@)));
            return true;
        }
        i = i + 1;
    }
    false
}

/// The `k` lowest bytes of `v`, least significant first.
pub open spec fn le_bytes(v: nat, k: nat) -> Seq<u8>
    decreases k,
{
    if k == 0 {
        Seq::empty()
    } else {
        seq![(v % 256) as u8] + le_bytes(v / 256, (k - 1) as nat)
    }
}

/// The bytes of a `usize` count, least significant first: `usize::BITS / 8` of them.
pub open spec fn count_le_bytes(n: nat) -> Seq<u8> {
    le_bytes(n, (usize::BITS / 8) as nat)
}

/// The chunk that hashing a count writes: its native-endian bytes, so the little-endian
/// bytes or those reversed, as the machine orders them.
pub open spec fn is_count_chunk(chunk: Seq<u8>, n: nat) -> bool {
    chunk == count_le_bytes(n) || chunk == count_le_bytes(n).reverse()
}

/// Feeds a count to a hasher through `<usize as Hash>::hash`. That hash calls
/// `Hasher::write_usize`, which `DefaultHasher` does not override: its default writes the
/// count's native-endian bytes (`to_ne_bytes`) with a single `write`. The contract says that
/// one chunk is written and that it is those bytes, in little- or big-endian order; which of
/// the two depends on the machine and is left open.
#[verifier::external_body]
fn hash_count(hasher: &mut DefaultHasher, n: usize)
    ensures
        final(hasher)@ == old(hasher)@.push(count_le_bytes(n as nat)) || final(hasher)@ == old(
            hasher,
        )@.push(count_le_bytes(n as nat).reverse()),
{
    n.hash(hasher)
}

/// The length of a text in UTF-8 bytes, as `str::len` gives it.
pub open spec fn text_byte_len(text: Seq<char>) -> nat {
    (vstd::utf8::encode_utf8(text).len() as usize) as nat
}

/// The chunks that hashing a text writes: its UTF-8 bytes, then the byte `0xff` that keeps
/// texts prefix-free.
pub open spec fn text_hash_chunks(text: Seq<char>) -> Seq<Seq<u8>> {
    seq![vstd::utf8::encode_utf8(text), seq![0xffu8]]
}

/// The id that the standard hasher gives for the chunks written to it: `doc_` and the hash in
/// sixteen lower-case hexadecimal digits.
pub open spec fn id_of_chunks(chunks: Seq<Seq<u8>>) -> Seq<char> {
    "doc_"@ + hex_fixed_seq(DefaultHasher::spec_finish(chunks) as nat, 16)
}

/// The id of a file document: the hash of its path and of the byte length of its text.
pub open spec fn is_file_document_id(id: Seq<char>, path: Seq<char>, text_len: nat) -> bool {
    exists|b: Seq<u8>| is_count_chunk(b, text_len) && id == id_of_chunks(text_hash_chunks(path).push(b))
}

/// The id of a CSV row document: the hash of the path, the row index and the byte length of
/// the row's text.
pub open spec fn is_row_document_id(id: Seq<char>, path: Seq<char>, row_index: nat, text_len: nat) -> bool {
    exists|b1: Seq<u8>, b2: Seq<u8>|
        is_count_chunk(b1, row_index) && is_count_chunk(b2, text_len) && id == id_of_chunks(
            text_hash_chunks(path).push(b1).push(b2),
        )
}

fn document_id_from_hash(h: u64) -> (r: String)
    ensures
        r@ == "doc_"@ + hex_fixed_seq(h as nat, 16),
{
    let mut out = "doc_".to_string();
    let hex = hex16_string(h);
    out.append(hex.as_str());
    out
}

/// A standard hasher that has hashed `text`: its bytes, then `0xff`, as `<str as Hash>` writes
/// them.
fn hasher_of_text(text: &str) -> (r: DefaultHasher)
    ensures
        r@ == text_hash_chunks(text@),
{
    let mut hasher = DefaultHasher::new();
    hasher.write(text.as_bytes());
    let ghost after_text = hasher@;
    let separator: Vec<u8> = vec![0xffu8];
    assert(separator@ =~= seq![0xffu8]);
    hasher.write(separator.as_slice());
    assert(after_text =~= seq![vstd::utf8::encode_utf8(text@)]);
    assert(hasher@ =~= text_hash_chunks(text@));
    hasher
}

/// The id of a file document, from its path and the length of its text.
pub fn build_document_id(path: &str, text: &str) -> (r: String)
    ensures
        is_file_document_id(r@, path@, text_byte_len(text@)),
{
    let mut hasher = hasher_of_text(path);
    let ghost before = hasher@;
    let n = text.len();
    hash_count(&mut hasher, n);
    let ghost b = choose|b: Seq<u8>| is_count_chunk(b, n as nat) && hasher@ == before.push(b);
    let r = document_id_from_hash(hasher.finish());
    assert(r@ == id_of_chunks(text_hash_chunks(path@).push(b)));
    r
}

/// The id of a CSV row document, from the path, the row index and the length of its text.
pub fn build_document_id_for_row(path: &str, row_index: usize, text: &str) -> (r: String)
    ensures
        is_row_document_id(r@, path@, row_index as nat, text_byte_len(text@)),
{
    let mut hasher = hasher_of_text(path);
    let ghost before = hasher@;
    hash_count(&mut hasher, row_index);
    let ghost b1 = choose|b: Seq<u8>| is_count_chunk(b, row_index as nat) && hasher@ == before.push(b);
    let ghost middle = hasher@;
    let n = text.len();
    hash_count(&mut hasher, n);
    let ghost b2 = choose|b: Seq<u8>| is_count_chunk(b, n as nat) && hasher@ == middle.push(b);
    let r = document_id_from_hash(hasher.finish());
    assert(r@ == id_of_chunks(text_hash_chunks(path@).push(b1).push(b2)));
    r
}

/// Whether the bytes are valid UTF-8, and the text they encode.
#[verifier::external_body]
fn decode_utf8(bytes: Vec<u8>) -> (r: Option<String>)
    ensures
        r is Some <==> vstd::utf8::valid_utf8(bytes@),
        r matches Some(s) ==> s@ == vstd::utf8::decode_utf8(bytes@),
{
    String::from_utf8(bytes).ok()
}

/// The metadata of a file document: its path, and its file name where the path has one.
pub open spec fn file_meta(path: Seq<char>, k: Seq<char>) -> Option<Seq<char>> {
    if k == "file_name"@ && path_file_name_of(path) is Some {
        path_file_name_of(path)
    } else if k == "source_path"@ {
        Some(path)
    } else {
        None
    }
}

/// What a file import makes of a path and the valid UTF-8 bytes of the file.
pub open spec fn is_file_document(doc: RagDocument, path: Seq<char>, bytes: Seq<u8>) -> bool {
    &&& doc.text@ == vstd::utf8::decode_utf8(bytes)
    &&& is_file_document_id(doc.id@, path, text_byte_len(doc.text@))
    &&& forall|k: Seq<char>| #[trigger] doc.meta(k) == file_meta(path, k)
}

/// The document for a file: its text, with the path and the file name as metadata.
pub fn import_file(path: &str, bytes: Vec<u8>) -> (r: Result<RagDocument, RagIoError>)
    ensures
        !vstd::utf8::valid_utf8(bytes@) ==> (r matches Err(RagIoError::NonUtf8File(p)) && p@
            == path@),
        vstd::utf8::valid_utf8(bytes@) ==> (r matches Ok(doc) && is_file_document(
            doc,
            path@,
            bytes@,
        )),
{
    let ghost b = bytes@;
    let text = match decode_utf8(bytes) {
        Some(t) => t,
        None => return Err(RagIoError::NonUtf8File(path.to_string())),
    };
    let mut metadata: StrMap<String> = StrMap::new();
    metadata.insert("source_path".to_string(), path.to_string());
    match path_file_name(path) {
        Some(name) => {
            metadata.insert("file_name".to_string(), name);
        },
        None => {},
    }
    proof {
        reveal_strlit("file_name");
        reveal_strlit("source_path");
    }
    let id = build_document_id(path, text.as_str());
    Ok(RagDocument { id, text, metadata })
}

/// A listed file: its path and its bytes.
pub open spec fn file_views(files: Seq<(String, Vec<u8>)>) -> Seq<(Seq<char>, Seq<u8>)> {
    files.map_values(|f: (String, Vec<u8>)| (f.0@, f.1@))
}

/// The files of a listing that an import with these normalized extensions reads, in order.
pub open spec fn accepted_files(files: Seq<(Seq<char>, Seq<u8>)>, normalized: Seq<Seq<char>>) -> Seq<
    (Seq<char>, Seq<u8>),
>
    decreases files.len(),
{
    if files.len() == 0 {
        Seq::empty()
    } else {
        let prev = accepted_files(files.drop_last(), normalized);
        if import_accepts(path_extension_of(files.last().0), normalized) {
            prev.push(files.last())
        } else {
            prev
        }
    }
}

/// Imports the files of a directory listing, in the order listed: each file whose extension
/// the configuration accepts becomes a document; the first accepted file that is not UTF-8
/// stops the import.
pub fn import_directory(files: &Vec<(String, Vec<u8>)>, config: &RagFileImportConfig) -> (r: Result<
    Vec<RagDocument>,
    RagIoError,
>)
    ensures
        ({
            let acc = accepted_files(
                file_views(files@),
                normalized_extensions(string_views(config.include_extensions@)),
            );
            &&& r is Err <==> exists|i: int| 0 <= i < acc.len() && !vstd::utf8::valid_utf8(#[trigger] acc[i].1)
            &&& r matches Err(e) ==> exists|i: int|
                0 <= i < acc.len() && !vstd::utf8::valid_utf8(#[trigger] acc[i].1) && (forall|j: int|
                    0 <= j < i ==> vstd::utf8::valid_utf8(acc[j].1)) && (e matches RagIoError::NonUtf8File(p)
                    && p@ == acc[i].0)
            &&& r matches Ok(docs) ==> docs.len() == acc.len() && forall|j: int|
                0 <= j < docs.len() ==> is_file_document(#[trigger] docs[j], acc[j].0, acc[j].1)
        }),
{
    let normalized = normalize_extensions(&config.include_extensions);
    let ghost norm = string_views(normalized@);
    let ghost fs = file_views(files@);
    let mut docs: Vec<RagDocument> = Vec::new();
    let mut i: usize = 0;
    while i < files.len()
        invariant
            i <= files.len(),
            fs == file_views(files@),
            norm == string_views(normalized@),
            norm == normalized_extensions(string_views(config.include_extensions@)),
            docs.len() == accepted_files(fs.take(i as int), norm).len(),
            forall|j: int|
                0 <= j < docs.len() ==> vstd::utf8::valid_utf8(
                    #[trigger] accepted_files(fs.take(i as int), norm)[j].1,
                ),
            forall|j: int|
                0 <= j < docs.len() ==> is_file_document(
                    #[trigger] docs[j],
                    accepted_files(fs.take(i as int), norm)[j].0,
                    accepted_files(fs.take(i as int), norm)[j].1,
                ),
        decreases files.len() - i,
    {
        let ghost prev = accepted_files(fs.take(i as int), norm);
        let ghost next = accepted_files(fs.take(i + 1), norm);
        let ghost f = fs[i as int];
        proof {
            assert(fs.take(i + 1).drop_last() =~= fs.take(i as int));
            assert(fs.take(i + 1).last() == f);
            assert(f == (files[i as int].0@, files[i as int].1@));
        }
        let accepted = should_import(files[i].0.as_str(), &normalized);
        if accepted {
            assert(next == prev.push(f));
            let bytes = files[i].1.clone();
            assert(bytes@ =~= files[i as int].1@);
            match import_file(files[i].0.as_str(), bytes) {
                Ok(doc) => {
                    docs.push(doc);
                    assert forall|j: int| 0 <= j < docs.len() implies vstd::utf8::valid_utf8(
                        #[trigger] next[j].1,
                    ) && is_file_document(docs[j], next[j].0, next[j].1) by {
                        if j < prev.len() {
                            assert(next[j] == prev[j]);
                        }
                    }
                },
                Err(e) => {
                    let ghost acc = accepted_files(fs, norm);
                    proof {
                        lemma_accepted_files_prefix(fs, norm, i as int + 1);
                        assert(next[prev.len() as int] == f);
                        assert(acc[prev.len() as int] == f);
                        assert(!vstd::utf8::valid_utf8(acc[prev.len() as int].1));
                        assert(e matches RagIoError::NonUtf8File(p) && p@ == acc[prev.len() as int].0);
                        assert forall|j: int| 0 <= j < prev.len() implies vstd::utf8::valid_utf8(
                            acc[j].1,
                        ) by {
                            assert(next[j] == prev[j]);
                            assert(acc[j] == next[j]);
                        }
                    }
                    return Err(e);
                },
            }
        } else {
            assert(next == prev);
        }
        i = i + 1;
    }
    proof {
        assert(fs.take(files.len() as int) =~= fs);
    }
    Ok(docs)
}

/// The accepted files of a prefix of a listing are a prefix of the accepted files of the
/// whole listing.
pub proof fn lemma_accepted_files_prefix(
    files: Seq<(Seq<char>, Seq<u8>)>,
    normalized: Seq<Seq<char>>,
    n: int,
)
    requires
        0 <= n <= files.len(),
    ensures
        accepted_files(files.take(n), normalized).len() <= accepted_files(files, normalized).len(),
        forall|j: int|
            0 <= j < accepted_files(files.take(n), normalized).len() ==> #[trigger] accepted_files(
                files.take(n),
                normalized,
            )[j] == accepted_files(files, normalized)[j],
    decreases files.len() - n,
{
    if n < files.len() {
        lemma_accepted_files_prefix(files, normalized, n + 1);
        let a = accepted_files(files.take(n), normalized);
        let b = accepted_files(files.take(n + 1), normalized);
        assert(files.take(n + 1).drop_last() =~= files.take(n));
        assert forall|j: int| 0 <= j < a.len() implies #[trigger] a[j] == accepted_files(
            files,
            normalized,
        )[j] by {
            assert(a[j] == b[j]);
        }
    } else {
        assert(files.take(n) =~= files);
    }
}

/// What `csv::Reader::headers` reads from CSV bytes: the fields of the header row, or the
/// text that its `csv::Error` displays.
pub uninterp spec fn csv_header_fields(bytes: Seq<u8>) -> Result<Seq<Seq<char>>, Seq<char>>;

/// What `csv::Reader::records` reads from CSV bytes: the fields of the records after the
/// header row, or the text that the `csv::Error` of the first record that fails displays.
pub uninterp spec fn csv_record_fields(bytes: Seq<u8>) -> Result<Seq<Seq<Seq<char>>>, Seq<char>>;

/// Rows of fields, as text.
pub open spec fn table_views(rows: Seq<Vec<String>>) -> Seq<Seq<Seq<char>>> {
    rows.map_values(|r: Vec<String>| string_views(r@))
}

/// Makes a reader with `csv::Reader::from_reader` (the first row holds the headers) and
/// reads the header row with `csv::Reader::headers`, keeping an error as the text it
/// displays. The contract names the outcome: the fields, or that text.
#[verifier::external_body]
fn read_csv_headers(bytes: &[u8]) -> (r: Result<Vec<String>, String>)
    ensures
        match r {
            Ok(h) => csv_header_fields(bytes@) == Ok::<Seq<Seq<char>>, Seq<char>>(string_views(h@)),
            Err(e) => csv_header_fields(bytes@) == Err::<Seq<Seq<char>>, Seq<char>>(e@),
        },
{
    let mut reader = csv::Reader::from_reader(bytes);
    match reader.headers() {
        Ok(headers) => Ok(headers.iter().map(|field| field.to_string()).collect()),
        Err(err) => Err(err.to_string()),
    }
}

/// Makes a reader with `csv::Reader::from_reader` and reads every record after the header
/// row with `csv::Reader::records`, stopping at the first that fails and keeping its error
/// as the text it displays. The contract names the outcome: the rows of fields, or that text.
#[verifier::external_body]
fn read_csv_records(bytes: &[u8]) -> (r: Result<Vec<Vec<String>>, String>)
    ensures
        match r {
            Ok(rows) => csv_record_fields(bytes@) == Ok::<Seq<Seq<Seq<char>>>, Seq<char>>(table_views(rows@)),
            Err(e) => csv_record_fields(bytes@) == Err::<Seq<Seq<Seq<char>>>, Seq<char>>(e@),
        },
{
    let mut reader = csv::Reader::from_reader(bytes);
    let mut rows = Vec::new();
    for record in reader.records() {
        match record {
            Ok(record) => rows.push(record.iter().map(|field| field.to_string()).collect()),
            Err(err) => return Err(err.to_string()),
        }
    }
    Ok(rows)
}

pub open spec fn opt_index(o: Option<usize>) -> Option<int> {
    match o {
        Some(i) => Some(i as int),
        None => None,
    }
}

fn header_position(headers: &Vec<String>, name: &String) -> (r: Option<usize>)
    ensures
        opt_index(r) == first_position(string_views(headers@), name@),
{
    let ghost hs = string_views(headers@);
    let mut i: usize = 0;
    while i < headers.len()
        invariant
            i <= headers.len(),
            hs == string_views(headers@),
            hs.len() == headers.len(),
            forall|j: int| 0 <= j < i ==> #[trigger] hs[j] != name@,
        decreases headers.len() - i,
    {
        if headers[i] == *name {
            proof {
                lemma_first_position_found(hs, name@, i as int);
            }
            return Some(i);
        }
        i = i + 1;
    }
    proof {
        lemma_first_position_absent(hs, name@);
    }
    None
}

/// The metadata columns when none are named: every column but those of the text and the id,
/// each under its header, in order.
pub open spec fn default_metadata_columns(headers: Seq<Seq<char>>, text_index: int, id_index: Option<
    int,
>, n: int) -> Seq<(int, Seq<char>)>
    decreases n,
{
    if n <= 0 {
        Seq::empty()
    } else {
        let prev = default_metadata_columns(headers, text_index, id_index, n - 1);
        if n - 1 == text_index || id_index == Some(n - 1) {
            prev
        } else {
            prev.push((n - 1, headers[n - 1]))
        }
    }
}

/// The named metadata columns, each trimmed and found among the headers; the first that is
/// missing is the error.
pub open spec fn named_metadata_columns(headers: Seq<Seq<char>>, names: Seq<Seq<char>>) -> Result<
    Seq<(int, Seq<char>)>,
    Seq<char>,
>
    decreases names.len(),
{
    if names.len() == 0 {
        Ok(Seq::empty())
    } else {
        match named_metadata_columns(headers, names.drop_last()) {
            Err(missing) => Err(missing),
            Ok(prev) => {
                let name = trim_seq(names.last());
                match first_position(headers, name) {
                    None => Err(name),
                    Some(i) => Ok(prev.push((i, name))),
                }
            },
        }
    }
}

/// Once a named metadata column is missing, the columns named after it do not change the
/// error.
proof fn lemma_named_metadata_missing_stays(headers: Seq<Seq<char>>, names: Seq<Seq<char>>, k: int)
    requires
        0 <= k <= names.len(),
        named_metadata_columns(headers, names.take(k)) is Err,
    ensures
        named_metadata_columns(headers, names.take(names.len() as int)) == named_metadata_columns(
            headers,
            names.take(k),
        ),
    decreases names.len() - k,
{
    if k < names.len() {
        assert(names.take(k + 1).drop_last() =~= names.take(k));
        lemma_named_metadata_missing_stays(headers, names, k + 1);
    }
}

/// Where a CSV import finds the text, the id and the metadata of a row, or the first column
/// that it needs and the headers lack.
pub open spec fn csv_column_resolution(
    headers: Seq<Seq<char>>,
    text_column: Seq<char>,
    id_column: Option<Seq<char>>,
    metadata_columns: Seq<Seq<char>>,
) -> Result<(int, Option<int>, Seq<(int, Seq<char>)>), Seq<char>> {
    let text_name = trim_seq(text_column);
    match first_position(headers, text_name) {
        None => Err(text_name),
        Some(ti) => {
            let id: Result<Option<int>, Seq<char>> = match id_column {
                None => Ok(None),
                Some(c) => match first_position(headers, trim_seq(c)) {
                    None => Err(trim_seq(c)),
                    Some(x) => Ok(Some(x)),
                },
            };
            match id {
                Err(missing) => Err(missing),
                Ok(id_index) => if metadata_columns.len() == 0 {
                    Ok((ti, id_index, default_metadata_columns(headers, ti, id_index, headers.len() as int)))
                } else {
                    match named_metadata_columns(headers, metadata_columns) {
                        Err(missing) => Err(missing),
                        Ok(meta) => Ok((ti, id_index, meta)),
                    }
                },
            }
        },
    }
}

/// Where the text, the id and the metadata of a CSV row are found.
#[derive(Debug, Clone)]
pub struct CsvColumns {
    pub text_index: usize,
    pub id_index: Option<usize>,
    pub metadata: Vec<(usize, String)>,
}

pub open spec fn column_views(cols: Seq<(usize, String)>) -> Seq<(int, Seq<char>)> {
    cols.map_values(|c: (usize, String)| (c.0 as int, c.1@))
}

impl CsvColumns {
    pub open spec fn resolution(&self) -> (int, Option<int>, Seq<(int, Seq<char>)>) {
        (self.text_index as int, opt_index(self.id_index), column_views(self.metadata@))
    }
}

/// The column of `name`, or the error for a CSV file that lacks it.
fn required_column(path: &str, headers: &Vec<String>, name: &str) -> (r: Result<usize, RagIoError>)
    ensures
        match first_position(string_views(headers@), trim_seq(name@)) {
            Some(i) => r matches Ok(x) && x as int == i,
            None => r matches Err(RagIoError::MissingCsvColumn { column, path: p }) && column@
                == trim_seq(name@) && p@ == path@,
        },
{
    let trimmed = trim_str(name);
    match header_position(headers, &trimmed) {
        Some(i) => Ok(i),
        None => Err(RagIoError::MissingCsvColumn { column: trimmed, path: path.to_string() }),
    }
}

/// Finds the columns of a CSV import among the headers of the file at `path`.
pub fn resolve_csv_columns(path: &str, headers: &Vec<String>, config: &RagCsvImportConfig) -> (r:
    Result<CsvColumns, RagIoError>)
    ensures
        match csv_column_resolution(
            string_views(headers@),
            config.text_column@,
            opt_text(config.id_column),
            string_views(config.metadata_columns@),
        ) {
            Ok(res) => r matches Ok(c) && c.resolution() == res,
            Err(missing) => r matches Err(RagIoError::MissingCsvColumn { column, path: p })
                && column@ == missing && p@ == path@,
        },
{
    let ghost hs = string_views(headers@);
    let text_index = required_column(path, headers, config.text_column.as_str())?;
    let id_index = match &config.id_column {
        Some(c) => Some(required_column(path, headers, c.as_str())?),
        None => None,
    };
    let mut metadata: Vec<(usize, String)> = Vec::new();
    if config.metadata_columns.len() == 0 {
        let mut idx: usize = 0;
        while idx < headers.len()
            invariant
                idx <= headers.len(),
                hs == string_views(headers@),
                config.metadata_columns.len() == 0,
                first_position(hs, trim_seq(config.text_column@)) == Some(text_index as int),
                config.id_column is None ==> id_index is None,
                config.id_column matches Some(c) ==> id_index is Some && first_position(
                    hs,
                    trim_seq(c@),
                ) == opt_index(id_index),
                column_views(metadata@) == default_metadata_columns(
                    hs,
                    text_index as int,
                    opt_index(id_index),
                    idx as int,
                ),
            decreases headers.len() - idx,
        {
            let ghost before = column_views(metadata@);
            let skip = idx == text_index || match id_index {
                Some(x) => x == idx,
                None => false,
            };
            if !skip {
                metadata.push((idx, headers[idx].clone()));
                assert(column_views(metadata@) =~= before.push((idx as int, hs[idx as int])));
            }
            idx = idx + 1;
        }
    } else {
        let ghost names = string_views(config.metadata_columns@);
        assert(names.take(0) =~= Seq::<Seq<char>>::empty());
        assert(column_views(metadata@) =~= Seq::<(int, Seq<char>)>::empty());
        let mut m: usize = 0;
        while m < config.metadata_columns.len()
            invariant
                m <= config.metadata_columns.len(),
                hs == string_views(headers@),
                names == string_views(config.metadata_columns@),
                names.len() > 0,
                first_position(hs, trim_seq(config.text_column@)) == Some(text_index as int),
                config.id_column is None ==> id_index is None,
                config.id_column matches Some(c) ==> id_index is Some && first_position(
                    hs,
                    trim_seq(c@),
                ) == opt_index(id_index),
                named_metadata_columns(hs, names.take(m as int)) == Ok::<
                    Seq<(int, Seq<char>)>,
                    Seq<char>,
                >(column_views(metadata@)),
            decreases config.metadata_columns.len() - m,
        {
            proof {
                assert(names.take(m + 1).drop_last() =~= names.take(m as int));
            }
            let name = trim_str(config.metadata_columns[m].as_str());
            let ghost before = column_views(metadata@);
            match header_position(headers, &name) {
                Some(i) => {
                    metadata.push((i, name));
                    assert(column_views(metadata@) =~= before.push((i as int, trim_seq(names[m as int]))));
                },
                None => {
                    proof {
                        lemma_named_metadata_missing_stays(hs, names, m as int + 1);
                        assert(names.take(names.len() as int) =~= names);
                    }
                    return Err(RagIoError::MissingCsvColumn { column: name, path: path.to_string() });
                },
            }
            m = m + 1;
        }
        assert(names.take(names.len() as int) =~= names);
    }
    Ok(CsvColumns { text_index, id_index, metadata })
}

/// The field at `i` of a row, or nothing where the row is shorter.
pub open spec fn csv_field(row: Seq<Seq<char>>, i: int) -> Seq<char> {
    if 0 <= i < row.len() {
        row[i]
    } else {
        Seq::empty()
    }
}

/// The indices of the rows whose trimmed text is not empty: the rows that become documents.
pub open spec fn kept_csv_rows(rows: Seq<Seq<Seq<char>>>, text_index: int) -> Seq<int>
    decreases rows.len(),
{
    if rows.len() == 0 {
        Seq::empty()
    } else {
        let prev = kept_csv_rows(rows.drop_last(), text_index);
        if trim_seq(csv_field(rows.last(), text_index)).len() > 0 {
            prev.push(rows.len() - 1)
        } else {
            prev
        }
    }
}

/// The metadata of the document of a row: the path under `source_path`, the row index under
/// `row_index`, then each metadata column with a non-empty trimmed value under its name, a
/// later column replacing an earlier one of the same name.
pub open spec fn csv_row_meta(
    path: Seq<char>,
    row_index: int,
    columns: Seq<(int, Seq<char>)>,
    row: Seq<Seq<char>>,
    k: Seq<char>,
) -> Option<Seq<char>>
    decreases columns.len(),
{
    if columns.len() == 0 {
        if k == "row_index"@ {
            Some(decimal_seq(row_index as nat))
        } else if k == "source_path"@ {
            Some(path)
        } else {
            None
        }
    } else {
        let value = trim_seq(csv_field(row, columns.last().0));
        if columns.last().1 == k && value.len() > 0 {
            Some(value)
        } else {
            csv_row_meta(path, row_index, columns.drop_last(), row, k)
        }
    }
}

/// What a CSV import makes of row `i`: the trimmed text, the metadata, and the trimmed id
/// column where it is given and not empty, else a generated id.
pub open spec fn is_csv_row_document(
    doc: RagDocument,
    path: Seq<char>,
    columns: (int, Option<int>, Seq<(int, Seq<char>)>),
    rows: Seq<Seq<Seq<char>>>,
    i: int,
) -> bool {
    let row = rows[i];
    &&& doc.text@ == trim_seq(csv_field(row, columns.0))
    &&& forall|k: Seq<char>| #[trigger] doc.meta(k) == csv_row_meta(path, i, columns.2, row, k)
    &&& match columns.1 {
        Some(x) if trim_seq(csv_field(row, x)).len() > 0 => doc.id@ == trim_seq(csv_field(row, x)),
        _ => is_row_document_id(doc.id@, path, i as nat, text_byte_len(doc.text@)),
    }
}

/// The documents of a CSV import: one for each kept row, in order.
pub open spec fn are_csv_documents(
    docs: Seq<RagDocument>,
    path: Seq<char>,
    columns: (int, Option<int>, Seq<(int, Seq<char>)>),
    rows: Seq<Seq<Seq<char>>>,
) -> bool {
    let kept = kept_csv_rows(rows, columns.0);
    &&& docs.len() == kept.len()
    &&& forall|j: int|
        0 <= j < docs.len() ==> is_csv_row_document(#[trigger] docs[j], path, columns, rows, kept[j])
}

/// The trimmed field at `i` of a row, empty where the row is shorter.
fn trimmed_field(row: &Vec<String>, i: usize) -> (r: String)
    ensures
        r@ == trim_seq(csv_field(string_views(row@), i as int)),
{
    if i < row.len() {
        trim_str(row[i].as_str())
    } else {
        proof {
            reveal_strlit("");
        }
        let r = String::new();
        assert(trim_seq(Seq::<char>::empty()) =~= Seq::<char>::empty()) by {
            reveal_with_fuel(crate::text::trim_start_seq, 1);
        }
        r
    }
}

/// The metadata of the document of row `row_index`.
fn csv_row_metadata(
    path: &str,
    row_index: usize,
    columns: &Vec<(usize, String)>,
    row: &Vec<String>,
) -> (m: StrMap<String>)
    ensures
        forall|k: Seq<char>|
            #[trigger] opt_text(m.spec_get(k)) == csv_row_meta(
                path@,
                row_index as int,
                column_views(columns@),
                string_views(row@),
                k,
            ),
{
    let ghost cols = column_views(columns@);
    let ghost r = string_views(row@);
    let mut m: StrMap<String> = StrMap::new();
    m.insert("source_path".to_string(), path.to_string());
    m.insert("row_index".to_string(), decimal_string(row_index as u64));
    proof {
        reveal_strlit("source_path");
        reveal_strlit("row_index");
        assert forall|k: Seq<char>|
            #[trigger] opt_text(m.spec_get(k)) == csv_row_meta(path@, row_index as int, cols.take(0), r, k) by {
            assert(cols.take(0).len() == 0);
        }
    }
    let mut c: usize = 0;
    while c < columns.len()
        invariant
            c <= columns.len(),
            cols == column_views(columns@),
            r == string_views(row@),
            forall|k: Seq<char>|
                #[trigger] opt_text(m.spec_get(k)) == csv_row_meta(
                    path@,
                    row_index as int,
                    cols.take(c as int),
                    r,
                    k,
                ),
        decreases columns.len() - c,
    {
        proof {
            assert(cols.take(c + 1).drop_last() =~= cols.take(c as int));
            assert(cols.take(c + 1).last() == cols[c as int]);
        }
        let value = trimmed_field(row, columns[c].0);
        if !value.as_str().is_empty() {
            m.insert(columns[c].1.clone(), value);
        }
        c = c + 1;
    }
    assert(cols.take(columns.len() as int) =~= cols);
    m
}

/// The documents of the rows of a CSV file, with the columns resolved from its headers:
/// rows whose trimmed text is empty are left out, and the others keep their order.
pub fn csv_row_documents(path: &str, columns: &CsvColumns, rows: &Vec<Vec<String>>) -> (r: Vec<
    RagDocument,
>)
    ensures
        are_csv_documents(r@, path@, columns.resolution(), table_views(rows@)),
{
    let ghost t = table_views(rows@);
    let ghost res = columns.resolution();
    let mut docs: Vec<RagDocument> = Vec::new();
    let mut i: usize = 0;
    while i < rows.len()
        invariant
            i <= rows.len(),
            t == table_views(rows@),
            res == columns.resolution(),
            docs.len() == kept_csv_rows(t.take(i as int), res.0).len(),
            forall|j: int|
                0 <= j < docs.len() ==> is_csv_row_document(
                    #[trigger] docs[j],
                    path@,
                    res,
                    t,
                    kept_csv_rows(t.take(i as int), res.0)[j],
                ),
        decreases rows.len() - i,
    {
        let ghost prev = kept_csv_rows(t.take(i as int), res.0);
        proof {
            assert(t.take(i + 1).drop_last() =~= t.take(i as int));
            assert(t.take(i + 1).last() == t[i as int]);
            assert(t[i as int] == string_views(rows[i as int]@));
        }
        let text = trimmed_field(&rows[i], columns.text_index);
        if !text.as_str().is_empty() {
            let metadata = csv_row_metadata(path, i, &columns.metadata, &rows[i]);
            let id = match columns.id_index {
                Some(x) => {
                    let candidate = trimmed_field(&rows[i], x);
                    if !candidate.as_str().is_empty() {
                        candidate
                    } else {
                        build_document_id_for_row(path, i, text.as_str())
                    }
                },
                None => build_document_id_for_row(path, i, text.as_str()),
            };
            let doc = RagDocument { id, text, metadata };
            assert(is_csv_row_document(doc, path@, res, t, i as int));
            docs.push(doc);
            proof {
                let next = kept_csv_rows(t.take(i + 1), res.0);
                assert(next == prev.push(i as int));
                assert forall|j: int| 0 <= j < docs.len() implies is_csv_row_document(
                    #[trigger] docs[j],
                    path@,
                    res,
                    t,
                    next[j],
                ) by {
                    if j < prev.len() {
                        assert(next[j] == prev[j]);
                    }
                }
            }
        } else {
            assert(kept_csv_rows(t.take(i + 1), res.0) == prev);
        }
        i = i + 1;
    }
    assert(t.take(rows.len() as int) =~= t);
    docs
}

/// Imports the rows of CSV bytes, read from the file at `path`, as documents: the headers
/// are read and the configured columns found among them, then each record whose text is not
/// empty becomes a document.
pub fn import_csv(path: &str, bytes: &[u8], config: &RagCsvImportConfig) -> (r: Result<
    Vec<RagDocument>,
    RagIoError,
>)
    ensures
        csv_header_fields(bytes@) matches Err(text) ==> r matches Err(RagIoError::Csv(m)) && m@ == text,
        csv_header_fields(bytes@) matches Ok(headers) ==> match csv_column_resolution(
            headers,
            config.text_column@,
            opt_text(config.id_column),
            string_views(config.metadata_columns@),
        ) {
            Err(missing) => r matches Err(RagIoError::MissingCsvColumn { column, path: p })
                && column@ == missing && p@ == path@,
            Ok(res) => match csv_record_fields(bytes@) {
                Err(text) => r matches Err(RagIoError::Csv(m)) && m@ == text,
                Ok(rows) => r matches Ok(docs) && are_csv_documents(docs@, path@, res, rows),
            },
        },
{
    let headers = match read_csv_headers(bytes) {
        Ok(h) => h,
        Err(e) => return Err(RagIoError::Csv(e)),
    };
    let columns = resolve_csv_columns(path, &headers, config)?;
    let rows = match read_csv_records(bytes) {
        Ok(rows) => rows,
        Err(e) => return Err(RagIoError::Csv(e)),
    };
    Ok(csv_row_documents(path, &columns, &rows))
}

} // verus!
