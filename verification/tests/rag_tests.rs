use std::hash::{Hash, Hasher};
use neuralnet::input::MultiModalInput;
use neuralnet::rag::bridge::BrainRagBridge;
use neuralnet::rag::rag_io::{
    build_document_id,
    build_document_id_for_row,
    csv_row_documents,
    import_csv,
    import_directory,
    import_file,
    normalize_extensions,
    resolve_csv_columns,
    should_import,
    RagCsvImportConfig,
    RagFileImportConfig,
    RagIoError,
};

#[test]
fn query_from_text_input_returns_trimmed_text() {
    let input = MultiModalInput::Text("  cat on mat  ".to_string());
    let query = BrainRagBridge::query_from_input(&input);
    assert_eq!(query, "cat on mat");
}

#[test]
fn query_from_feature_tokens_includes_modality_and_tokens() {
    let input = MultiModalInput::FeatureTokens {
        modality: "vision".to_string(),
        tokens: vec!["edge:04".to_string(), "shape:09".to_string()],
    };
    let query = BrainRagBridge::query_from_input(&input);
    assert_eq!(query, "vision edge:04 shape:09");
}

#[test]
fn import_file_reads_utf8_text_into_document() {
    let path = "/tmp/neuralnet_rag_io_file.txt";
    let doc = import_file(path, b"hello rag importer".to_vec())
        .unwrap_or_else(|_| panic!("import file should succeed"));

    assert_eq!(doc.text, "hello rag importer");
    assert!(doc.id.starts_with("doc_"));
    assert_eq!(doc.metadata.get("source_path").map(String::as_str), Some(path));
    assert_eq!(doc.metadata.get("file_name").map(String::as_str), Some("neuralnet_rag_io_file.txt"));
}

#[test]
fn import_file_rejects_non_utf8_bytes() {
    let result = import_file("/tmp/binary.bin", vec![0xff, 0xfe, 0x00]);
    match result {
        Err(RagIoError::NonUtf8File(p)) => assert_eq!(p, "/tmp/binary.bin"),
        other => panic!("expected non-UTF-8 error, got {:?}", other),
    }
    let err = RagIoError::NonUtf8File("/tmp/binary.bin".to_string());
    assert_eq!(err.message(), "rag importer only supports UTF-8 files: /tmp/binary.bin");
}

#[test]
fn import_directory_filters_by_extension() {
    let files = vec![
        ("/tmp/dir/a.txt".to_string(), b"text doc".to_vec()),
        ("/tmp/dir/b.md".to_string(), b"markdown doc".to_vec()),
        ("/tmp/dir/c.json".to_string(), b"{\"k\":\"v\"}".to_vec()),
    ];
    let config = RagFileImportConfig { include_extensions: vec!["txt".to_string()], recursive: false };

    let docs = import_directory(&files, &config)
        .unwrap_or_else(|_| panic!("directory import should succeed"));

    assert_eq!(docs.len(), 1);
    assert_eq!(docs[0].metadata.get("file_name").map(String::as_str), Some("a.txt"));
}

#[test]
fn import_directory_stops_at_first_non_utf8_accepted_file() {
    let files = vec![
        ("/tmp/dir/skip.bin".to_string(), vec![0xffu8]),
        ("/tmp/dir/a.txt".to_string(), b"ok".to_vec()),
        ("/tmp/dir/bad.TXT".to_string(), vec![0xffu8, 0xff]),
        ("/tmp/dir/worse.txt".to_string(), vec![0xfeu8]),
    ];
    let config = RagFileImportConfig { include_extensions: vec![" .Txt ".to_string()], recursive: true };
    match import_directory(&files, &config) {
        Err(RagIoError::NonUtf8File(p)) => assert_eq!(p, "/tmp/dir/bad.TXT"),
        other => panic!("expected non-UTF-8 error, got {:?}", other),
    }
}

#[test]
fn import_directory_accepts_every_file_without_extension_filter() {
    let files = vec![
        ("/tmp/dir/a".to_string(), b"one".to_vec()),
        ("/tmp/dir/b.json".to_string(), b"two".to_vec()),
    ];
    let config = RagFileImportConfig { include_extensions: vec!["  ".to_string(), ".".to_string()], recursive: false };
    let docs = import_directory(&files, &config).expect("import should succeed");
    assert_eq!(docs.len(), 2);
    assert_eq!(docs[1].text, "two");
}

#[test]
fn default_file_import_config_lists_text_and_markdown() {
    let config = RagFileImportConfig::default();
    assert_eq!(config.include_extensions, vec!["txt".to_string(), "md".to_string()]);
    assert!(config.recursive);
}

#[test]
fn extensions_are_trimmed_undotted_and_lower_cased() {
    let normalized = normalize_extensions(&vec![" .TXT".to_string(), "..Md".to_string(), "   ".to_string()]);
    assert_eq!(normalized, vec!["txt".to_string(), "md".to_string()]);
    assert!(should_import("/x/readme.MD", &normalized));
    assert!(!should_import("/x/readme", &normalized));
    assert!(!should_import("/x/data.json", &normalized));
    assert!(should_import("/x/data.json", &Vec::new()));
}

#[test]
fn document_ids_are_prefixed_hex() {
    let id = build_document_id("/tmp/a.txt", "text");
    assert!(id.starts_with("doc_"));
    assert_eq!(id.len(), 20);
    assert!(id[4..].chars().all(|c| c.is_ascii_hexdigit() && !c.is_ascii_uppercase()));
    let row_id = build_document_id_for_row("/tmp/a.csv", 3, "text");
    assert!(row_id.starts_with("doc_"));
    assert_eq!(row_id.len(), 20);
}

#[test]
fn import_csv_builds_row_level_documents() {
    let path = "/tmp/neuralnet_rag_io_rows.csv";
    let csv_text = "ki_topic,ki_text,alt_ki_text\nTopic A,Primary A,Alt A\nTopic B,Primary B,Alt B\n";

    let docs = import_csv(path, csv_text.as_bytes(), &RagCsvImportConfig::default())
        .unwrap_or_else(|_| panic!("csv import should succeed"));

    assert_eq!(docs.len(), 2);
    assert_eq!(docs[0].text, "Primary A");
    assert_eq!(docs[1].text, "Primary B");
    assert_eq!(docs[0].metadata.get("ki_topic").map(String::as_str), Some("Topic A"));
}

#[test]
fn import_csv_supports_custom_text_column() {
    let path = "/tmp/neuralnet_rag_io_custom.csv";
    let csv_text = "ki_topic,ki_text,alt_ki_text\nTopic A,Primary A,Alt A\n";

    let config = RagCsvImportConfig {
        text_column: "alt_ki_text".to_string(),
        id_column: None,
        metadata_columns: vec!["ki_topic".to_string()],
    };

    let docs = import_csv(path, csv_text.as_bytes(), &config)
        .unwrap_or_else(|_| panic!("csv import should succeed"));

    assert_eq!(docs.len(), 1);
    assert_eq!(docs[0].text, "Alt A");
    assert_eq!(docs[0].metadata.get("ki_topic").map(String::as_str), Some("Topic A"));
}

#[test]
fn import_csv_uses_id_column_and_skips_blank_rows() {
    let csv_text = "id,text,tag\nr1, first ,x\n, ,y\n  , third ,\n";
    let config = RagCsvImportConfig {
        text_column: " text ".to_string(),
        id_column: Some("id".to_string()),
        metadata_columns: Vec::new(),
    };
    let docs = import_csv("rows.csv", csv_text.as_bytes(), &config).expect("import should succeed");
    assert_eq!(docs.len(), 2);
    assert_eq!(docs[0].id, "r1");
    assert_eq!(docs[0].text, "first");
    assert_eq!(docs[0].metadata.get("tag").map(String::as_str), Some("x"));
    assert_eq!(docs[0].metadata.get("row_index").map(String::as_str), Some("0"));
    assert_eq!(docs[0].metadata.get("source_path").map(String::as_str), Some("rows.csv"));
    assert!(docs[0].metadata.get("id").is_none());
    assert!(docs[1].id.starts_with("doc_"));
    assert_eq!(docs[1].text, "third");
    assert_eq!(docs[1].metadata.get("row_index").map(String::as_str), Some("2"));
    assert!(docs[1].metadata.get("tag").is_none());
}

#[test]
fn import_csv_reports_missing_columns() {
    let csv_text = "a,b\n1,2\n";
    let config = RagCsvImportConfig::default();
    match import_csv("in.csv", csv_text.as_bytes(), &config) {
        Err(RagIoError::MissingCsvColumn { column, path }) => {
            assert_eq!(column, "ki_text");
            assert_eq!(path, "in.csv");
        },
        other => panic!("expected a missing column, got {:?}", other),
    }
    let config = RagCsvImportConfig {
        text_column: "a".to_string(),
        id_column: None,
        metadata_columns: vec!["b".to_string(), " zz ".to_string(), "yy".to_string()],
    };
    match import_csv("in.csv", csv_text.as_bytes(), &config) {
        Err(err @ RagIoError::MissingCsvColumn { .. }) => {
            assert_eq!(err.message(), "required CSV column 'zz' not found in in.csv");
        },
        other => panic!("expected a missing column, got {:?}", other),
    }
    let config = RagCsvImportConfig {
        text_column: "a".to_string(),
        id_column: Some("nope".to_string()),
        metadata_columns: Vec::new(),
    };
    assert!(matches!(
        import_csv("in.csv", csv_text.as_bytes(), &config),
        Err(RagIoError::MissingCsvColumn { .. })
    ));
}

#[test]
fn import_csv_reports_malformed_records_as_csv_errors() {
    let csv_text = "ki_text,other\nok,1\nbad\n";
    match import_csv("bad.csv", csv_text.as_bytes(), &RagCsvImportConfig::default()) {
        Err(err @ RagIoError::Csv(_)) => assert!(err.message().starts_with("rag CSV parse error: ")),
        other => panic!("expected a CSV error, got {:?}", other),
    }
    let bad_header: &[u8] = &[0xff, b',', b'a', b'\n'];
    assert!(matches!(
        import_csv("bad.csv", bad_header, &RagCsvImportConfig::default()),
        Err(RagIoError::Csv(_))
    ));
}

#[test]
fn csv_columns_resolve_from_headers() {
    let headers = vec!["id".to_string(), "text".to_string(), "topic".to_string(), "text".to_string()];
    let config = RagCsvImportConfig {
        text_column: "text".to_string(),
        id_column: Some("id".to_string()),
        metadata_columns: Vec::new(),
    };
    let columns = resolve_csv_columns("f.csv", &headers, &config).expect("columns resolve");
    assert_eq!(columns.text_index, 1);
    assert_eq!(columns.id_index, Some(0));
    assert_eq!(columns.metadata, vec![(2usize, "topic".to_string()), (3usize, "text".to_string())]);

    let rows = vec![vec!["r9".to_string(), "  body ".to_string(), "t".to_string(), "dup".to_string()]];
    let docs = csv_row_documents("f.csv", &columns, &rows);
    assert_eq!(docs.len(), 1);
    assert_eq!(docs[0].id, "r9");
    assert_eq!(docs[0].text, "body");
    assert_eq!(docs[0].metadata.get("text").map(String::as_str), Some("dup"));
}

#[test]
fn rag_error_messages() {
    assert_eq!(RagIoError::Io("boom".to_string()).message(), "rag I/O error: boom");
    assert_eq!(RagIoError::Csv("x".to_string()).message(), "rag CSV parse error: x");
    assert_eq!(
        RagIoError::InvalidPath("/nope".to_string()).message(),
        "invalid path for rag import: /nope"
    );
}

#[test]
fn csv_import_config_default() {
    let config = RagCsvImportConfig::default();
    assert_eq!(config.text_column, "ki_text");
    assert!(config.id_column.is_none());
    assert!(config.metadata_columns.is_empty());
}

#[test]
fn document_ids_hash_the_path_and_the_text_length() {
    let path = "notes/ünïcode.txt";
    let text = "some text";
    let mut hasher = std::collections::hash_map::DefaultHasher::new();
    path.hash(&mut hasher);
    text.len().hash(&mut hasher);
    assert_eq!(neuralnet::rag::rag_io::build_document_id(path, text), format!("doc_{:016x}", hasher.finish()));

    let mut row_hasher = std::collections::hash_map::DefaultHasher::new();
    path.hash(&mut row_hasher);
    3usize.hash(&mut row_hasher);
    text.len().hash(&mut row_hasher);
    assert_eq!(
        neuralnet::rag::rag_io::build_document_id_for_row(path, 3, text),
        format!("doc_{:016x}", row_hasher.finish())
    );
    assert_ne!(
        neuralnet::rag::rag_io::build_document_id(path, text),
        neuralnet::rag::rag_io::build_document_id(text, path)
    );
}

#[test]
fn row_document_ids_differ_by_row_index() {
    let a = neuralnet::rag::rag_io::build_document_id_for_row("rows.csv", 1, "same");
    let b = neuralnet::rag::rag_io::build_document_id_for_row("rows.csv", 2, "same");
    assert_ne!(a, b);
    let mut hasher = std::collections::hash_map::DefaultHasher::new();
    hasher.write("rows.csv".as_bytes());
    hasher.write(&[0xff]);
    hasher.write(&2usize.to_ne_bytes());
    hasher.write(&4usize.to_ne_bytes());
    assert_eq!(b, format!("doc_{:016x}", hasher.finish()));
}
