use cake::cache::{is_cached, sha256_hash, store_path, CacheIndex};
use cake::compare::{compare_slices, count_common_hashes};
use cake::errors::{ExportError, FetchError, FormatError};
use cake::export::assemble_container;
use cake::fetch::{
    check_fetched, get_download_url_from_model_id, hashes_file_dir_and_path,
    header_length_from_prefix, range_request_value,
};
use cake::header::{ContainerHeader, TensorMeta};
use cake::layers::{build_layers, plan_layer_downloads, process_fetched_layer,
    sort_layers_by_size_desc};
use cake::manifest::{get_model_hashes_by_model_id, manifest_entries_for_file, merge_pairs,
    ManifestEntry};
use cake::model::safetensors_file_names;
use cake::parse::parse_header;
use cake::ser::serialize_header;

fn tensor(dtype: &str, shape: &[u64], start: u64, end: u64) -> TensorMeta {
    TensorMeta {
        dtype: dtype.to_string(),
        shape: shape.to_vec(),
        offset_start: start,
        offset_end: end,
    }
}

fn two_tensor_header() -> ContainerHeader {
    ContainerHeader {
        metadata: None,
        tensors: vec![
            ("t1".to_string(), tensor("F32", &[2], 0, 8)),
            ("t2".to_string(), tensor("F32", &[2], 8, 16)),
        ],
    }
}

#[test]
fn header_round_trip_two_tensors() {
    let h = two_tensor_header();
    let bytes = serialize_header(&h);
    let (back, n) = parse_header(bytes.as_slice()).expect("round trip parse");
    assert_eq!(bytes.len() as u64, 8 + n);
    assert_eq!(back.tensors.len(), 2);
    assert_eq!(back.tensors[0].0, "t1");
    assert_eq!(back.tensors[0].1.dtype, "F32");
    assert_eq!(back.tensors[0].1.shape, vec![2]);
    assert_eq!(back.tensors[0].1.offset_start, 0);
    assert_eq!(back.tensors[0].1.offset_end, 8);
    assert_eq!(back.tensors[1].0, "t2");
    assert_eq!(back.tensors[1].1.offset_start, 8);
    assert_eq!(back.tensors[1].1.offset_end, 16);
    assert!(back.metadata.is_none());
}

#[test]
fn header_round_trip_with_metadata() {
    let h = ContainerHeader {
        metadata: Some(vec![("format".to_string(), "pt".to_string())]),
        tensors: vec![("w".to_string(), tensor("I64", &[3, 4], 0, 96))],
    };
    let bytes = serialize_header(&h);
    let (back, _) = parse_header(bytes.as_slice()).expect("round trip parse");
    let kvs = back.metadata.expect("metadata kept");
    assert_eq!(kvs, vec![("format".to_string(), "pt".to_string())]);
    assert_eq!(back.tensors.len(), 1);
    assert_eq!(back.tensors[0].0, "w");
    assert_eq!(back.tensors[0].1.shape, vec![3, 4]);
}

#[test]
fn serialized_header_is_aligned_and_prefixed() {
    let h = two_tensor_header();
    let bytes = serialize_header(&h);
    let body = r#"{"t1":{"dtype":"F32","shape":[2],"data_offsets":[0,8]},"t2":{"dtype":"F32","shape":[2],"data_offsets":[8,16]}}"#;
    let pad = (8 - body.len() % 8) % 8;
    let mut expected = ((body.len() + pad) as u64).to_le_bytes().to_vec();
    expected.extend_from_slice(body.as_bytes());
    expected.extend_from_slice(&vec![b' '; pad]);
    assert_eq!(bytes, expected);
    assert_eq!((bytes.len() - 8) % 8, 0);
}

#[test]
fn length_prefix_decodes_sixteen() {
    let r = header_length_from_prefix(&[16, 0, 0, 0, 0, 0, 0, 0]);
    assert_eq!(r, Some(16));
}

#[test]
fn length_prefix_needs_eight_bytes() {
    assert_eq!(header_length_from_prefix(&[16, 0, 0]), None);
    assert_eq!(header_length_from_prefix(&[0; 9]), None);
}

#[test]
fn parse_rejects_short_buffer() {
    match parse_header(&[1, 2, 3]) {
        Err(FormatError::MissingLengthPrefix) => {}
        _ => panic!("expected a missing length prefix error"),
    }
}

#[test]
fn parse_rejects_truncated_body() {
    let mut bytes = 64u64.to_le_bytes().to_vec();
    bytes.extend_from_slice(b"{}");
    match parse_header(bytes.as_slice()) {
        Err(FormatError::TruncatedBody) => {}
        _ => panic!("expected a truncated body error"),
    }
}

#[test]
fn parse_rejects_reversed_offsets() {
    let body = br#"{"t":{"dtype":"F32","shape":[2],"data_offsets":[10,5]}}"#;
    let mut bytes = (body.len() as u64).to_le_bytes().to_vec();
    bytes.extend_from_slice(body);
    match parse_header(bytes.as_slice()) {
        Err(FormatError::BadTensor { name }) => assert_eq!(name, "t"),
        _ => panic!("expected a bad tensor error for reversed offsets"),
    }
}

#[test]
fn parse_rejects_repeated_tensor_name() {
    let body = br#"{"t":{"dtype":"F32","shape":[],"data_offsets":[0,1]},"t":{"dtype":"F32","shape":[],"data_offsets":[1,2]}}"#;
    let mut bytes = (body.len() as u64).to_le_bytes().to_vec();
    bytes.extend_from_slice(body);
    assert!(parse_header(bytes.as_slice()).is_err());
}

#[test]
fn parse_accepts_trailing_spaces() {
    let body = br#"{"t":{"dtype":"F32","shape":[1],"data_offsets":[0,4]}}  "#;
    let mut bytes = (body.len() as u64).to_le_bytes().to_vec();
    bytes.extend_from_slice(body);
    let (h, n) = parse_header(bytes.as_slice()).expect("padded body parses");
    assert_eq!(n as usize, body.len());
    assert_eq!(h.tensors[0].0, "t");
}

#[test]
fn sha256_known_answer() {
    let hash = sha256_hash(b"abc");
    assert_eq!(
        hash,
        "ba7816bf8f01cfea414140de5dae2223b00361a396177a9cb410ff61f20015ad"
    );
    assert_eq!(sha256_hash(b"").len(), 64);
}

#[test]
fn hashing_is_deterministic() {
    let a = sha256_hash(&[7, 8, 9]);
    let b = sha256_hash(&[7, 8, 9]);
    assert_eq!(a, b);
}

#[test]
fn identical_bytes_share_one_cache_entry() {
    let blob_for_t1: Vec<u8> = vec![1, 2, 3, 4];
    let blob_for_t2: Vec<u8> = vec![1, 2, 3, 4];
    let mut index = CacheIndex::new();
    index.record(sha256_hash(blob_for_t1.as_slice()));
    index.record(sha256_hash(blob_for_t2.as_slice()));
    assert_eq!(index.hashes.len(), 1);
    let p1 = store_path("cache", &sha256_hash(blob_for_t1.as_slice()));
    let p2 = store_path("cache", &sha256_hash(blob_for_t2.as_slice()));
    assert_eq!(p1, p2);
}

#[test]
fn store_path_joins_root_and_hash() {
    assert_eq!(store_path("root", "abcd"), "root/abcd");
}

#[test]
fn cache_membership() {
    let available = vec!["aa".to_string(), "bb".to_string()];
    assert!(is_cached(&"aa".to_string(), &available));
    assert!(!is_cached(&"cc".to_string(), &available));
}

#[test]
fn scheduler_builds_two_layers_in_offset_order() {
    let h = two_tensor_header();
    let layers = sort_layers_by_size_desc(build_layers(&h, None));
    assert_eq!(layers.len(), 2);
    assert_eq!(layers[0].name, "t1");
    assert_eq!(layers[0].size, 8);
    assert_eq!(layers[1].name, "t2");
    assert_eq!(layers[1].size, 8);
    assert!(layers[0].offset_start < layers[1].offset_start);
}

#[test]
fn scheduler_sorts_largest_first() {
    let h = ContainerHeader {
        metadata: None,
        tensors: vec![
            ("small".to_string(), tensor("F32", &[1], 0, 4)),
            ("large".to_string(), tensor("F32", &[8], 4, 36)),
        ],
    };
    let layers = sort_layers_by_size_desc(build_layers(&h, None));
    assert_eq!(layers[0].name, "large");
    assert_eq!(layers[0].size, 32);
    assert_eq!(layers[1].name, "small");
}

#[test]
fn scheduler_honors_allow_list() {
    let h = two_tensor_header();
    let allow = vec!["t2".to_string()];
    let layers = build_layers(&h, Some(&allow));
    assert_eq!(layers.len(), 1);
    assert_eq!(layers[0].name, "t2");
}

#[test]
fn scheduler_skips_cached_hashes_entirely() {
    let manifest = vec![
        ("t1".to_string(), "h1".to_string()),
        ("t2".to_string(), "h2".to_string()),
    ];
    let all = vec!["h1".to_string(), "h2".to_string()];
    assert!(plan_layer_downloads(&manifest, &all).is_empty());
    let some = vec!["h1".to_string()];
    assert_eq!(plan_layer_downloads(&manifest, &some), vec!["t2".to_string()]);
    let none: Vec<String> = Vec::new();
    assert_eq!(
        plan_layer_downloads(&manifest, &none),
        vec!["t1".to_string(), "t2".to_string()]
    );
}

#[test]
fn fetched_layer_is_checked_and_hashed() {
    let h = two_tensor_header();
    let layers = build_layers(&h, None);
    let bytes: Vec<u8> = vec![0; 8];
    let hl = process_fetched_layer(&layers[0], &bytes).expect("exact length accepted");
    assert_eq!(hl.name, "t1");
    assert_eq!(hl.size, 8);
    assert_eq!(hl.hash, sha256_hash(bytes.as_slice()));
    let short: Vec<u8> = vec![0; 5];
    match process_fetched_layer(&layers[0], &short) {
        Err(FetchError::TruncatedFetch { expected: 8, got: 5 }) => {}
        _ => panic!("expected a truncation error"),
    }
}

#[test]
fn range_value_is_inclusive() {
    let v = range_request_value(0, 8).expect("valid range");
    assert_eq!(v, "bytes=0-7");
    let v = range_request_value(8, 16).expect("valid range");
    assert_eq!(v, "bytes=8-23");
    match range_request_value(5, 0) {
        Err(FetchError::BadRange) => {}
        _ => panic!("expected a range error for an empty span"),
    }
    match range_request_value(u64::MAX, 2) {
        Err(FetchError::BadRange) => {}
        _ => panic!("expected a range error past the largest offset"),
    }
}

#[test]
fn short_reads_are_rejected() {
    match check_fetched(8, vec![1, 2, 3]) {
        Err(FetchError::TruncatedFetch { expected: 8, got: 3 }) => {}
        _ => panic!("expected a truncation error"),
    }
    assert_eq!(check_fetched(3, vec![1, 2, 3]).expect("exact read"), vec![1, 2, 3]);
}

#[test]
fn download_url_shape() {
    assert_eq!(
        get_download_url_from_model_id("org/model", "a.safetensors"),
        "https://huggingface.co/org/model/resolve/main/a.safetensors?download=true"
    );
}

#[test]
fn hashes_paths_shape() {
    let (dir, path) = hashes_file_dir_and_path("/work", "org", "model");
    assert_eq!(dir, "/work/results/org/model");
    assert_eq!(path, "/work/results/org/model/hashes.json");
}

#[test]
fn export_reassembles_exact_spans() {
    let h = two_tensor_header();
    let blobs = vec![
        ("t1".to_string(), vec![1u8; 8]),
        ("t2".to_string(), vec![2u8; 8]),
    ];
    let out = assemble_container(&h, &blobs).expect("complete blobs assemble");
    let header_bytes = serialize_header(&h);
    let hlen = header_bytes.len();
    assert_eq!(&out[..hlen], header_bytes.as_slice());
    assert_eq!(&out[hlen..hlen + 8], &[1u8; 8]);
    assert_eq!(&out[hlen + 8..hlen + 16], &[2u8; 8]);
    assert_eq!(out.len(), hlen + 16);
    let (back, n) = parse_header(&out).expect("output starts with a valid header");
    assert_eq!(back.tensors.len(), 2);
    assert_eq!(out.len() as u64, 8 + n + 16);
}

#[test]
fn export_fails_on_missing_blob() {
    let h = two_tensor_header();
    let blobs = vec![("t1".to_string(), vec![1u8; 8])];
    match assemble_container(&h, &blobs) {
        Err(ExportError::MissingBlob { name }) => assert_eq!(name, "t2"),
        _ => panic!("expected a missing blob error"),
    }
}

#[test]
fn export_fails_on_wrong_size_blob() {
    let h = two_tensor_header();
    let blobs = vec![
        ("t1".to_string(), vec![1u8; 8]),
        ("t2".to_string(), vec![2u8; 3]),
    ];
    match assemble_container(&h, &blobs) {
        Err(ExportError::WrongSizeBlob { name }) => assert_eq!(name, "t2"),
        _ => panic!("expected a wrong size error"),
    }
}

#[test]
fn export_fails_on_gapped_layout() {
    let h = ContainerHeader {
        metadata: None,
        tensors: vec![
            ("t1".to_string(), tensor("F32", &[1], 0, 4)),
            ("t2".to_string(), tensor("F32", &[1], 5, 9)),
        ],
    };
    let blobs = vec![
        ("t1".to_string(), vec![1u8; 4]),
        ("t2".to_string(), vec![2u8; 4]),
    ];
    match assemble_container(&h, &blobs) {
        Err(ExportError::BadLayout { name }) => assert_eq!(name, "t2"),
        _ => panic!("expected a layout error"),
    }
}

#[test]
fn compare_slices_counts_matches() {
    assert_eq!(compare_slices(&[1, 2, 3], &[1, 9, 3]), (2, false));
    assert_eq!(compare_slices(&[1, 2, 3], &[1, 2, 3]), (3, true));
    assert_eq!(compare_slices(&[1, 2], &[1, 2, 3]), (0, false));
    assert_eq!(compare_slices(&[], &[]), (0, true));
}

#[test]
fn common_hashes_are_counted_with_multiplicity() {
    let a = vec!["x".to_string(), "y".to_string(), "x".to_string()];
    let b = vec!["x".to_string(), "z".to_string()];
    assert_eq!(count_common_hashes(&a, &b), 2);
    assert_eq!(count_common_hashes(&b, &a), 1);
}

#[test]
fn manifest_filter_by_file() {
    let entries = vec![
        ManifestEntry {
            name: "t1".to_string(),
            file_name: "a.safetensors".to_string(),
            hash: "h1".to_string(),
        },
        ManifestEntry {
            name: "t2".to_string(),
            file_name: "b.safetensors".to_string(),
            hash: "h2".to_string(),
        },
        ManifestEntry {
            name: "t3".to_string(),
            file_name: "a.safetensors".to_string(),
            hash: "h3".to_string(),
        },
    ];
    let pairs = manifest_entries_for_file(&entries, &"a.safetensors".to_string());
    assert_eq!(
        pairs,
        vec![
            ("t1".to_string(), "h1".to_string()),
            ("t3".to_string(), "h3".to_string()),
        ]
    );
}

#[test]
fn merge_keeps_last_binding() {
    let pairs = vec![
        ("t1".to_string(), "old".to_string()),
        ("t2".to_string(), "h2".to_string()),
        ("t1".to_string(), "new".to_string()),
    ];
    let merged = merge_pairs(&pairs);
    assert_eq!(merged.len(), 2);
    let t1 = merged.iter().find(|p| p.0 == "t1").expect("t1 kept");
    assert_eq!(t1.1, "new");
}

#[test]
fn model_hashes_merge_across_files() {
    let per_file = vec![
        vec![
            ("t1".to_string(), "h1".to_string()),
            ("t2".to_string(), "h2".to_string()),
        ],
        vec![("t2".to_string(), "h2b".to_string())],
    ];
    let merged = get_model_hashes_by_model_id(&per_file);
    assert_eq!(merged.len(), 2);
    let t2 = merged.iter().find(|p| p.0 == "t2").expect("t2 kept");
    assert_eq!(t2.1, "h2b");
}

#[test]
fn container_files_are_selected_by_suffix() {
    let names = vec![
        "model-00001.safetensors".to_string(),
        "README.md".to_string(),
        "weights.safetensors".to_string(),
        "safetensors".to_string(),
    ];
    let picked = safetensors_file_names(&names);
    assert_eq!(
        picked,
        vec![
            "model-00001.safetensors".to_string(),
            "weights.safetensors".to_string(),
        ]
    );
}

#[test]
fn empty_available_set_is_empty() {
    let entries: Vec<String> = Vec::new();
    assert!(!is_cached(&"anything".to_string(), &entries));
    let manifest = vec![("t".to_string(), "h".to_string())];
    assert_eq!(plan_layer_downloads(&manifest, &entries), vec!["t".to_string()]);
}

#[test]
fn empty_header_round_trips() {
    let h = ContainerHeader { metadata: None, tensors: Vec::new() };
    let bytes = serialize_header(&h);
    let (back, _) = parse_header(bytes.as_slice()).expect("empty header parses");
    assert!(back.tensors.is_empty());
    assert!(back.metadata.is_none());
}

#[test]
fn hash_results_document_shape() {
    let h = two_tensor_header();
    let layers = build_layers(&h, None);
    let bytes: Vec<u8> = vec![9u8; 8];
    let hl = process_fetched_layer(&layers[0], &bytes).expect("exact length accepted");
    let hash = hl.hash.clone();
    let doc = cake::manifest::hash_results_bytes(&vec![(hl, "a.safetensors".to_string())])
        .expect("plain names serialize");
    let expected = format!(
        "{{\"t1\":{{\"data_offsets\":[0,8],\"hash\":\"{}\",\"size\":8,\"file_name\":\"a.safetensors\"}}}}",
        hash
    );
    assert_eq!(doc, expected.as_bytes());
}

#[test]
fn round_trip_largest_offsets() {
    let h = ContainerHeader {
        metadata: None,
        tensors: vec![("t".to_string(), tensor("F64", &[0, 1, 10], 0, u64::MAX))],
    };
    let bytes = serialize_header(&h);
    let (back, _) = parse_header(bytes.as_slice()).expect("largest offsets parse");
    assert_eq!(back.tensors[0].1.offset_end, u64::MAX);
    assert_eq!(back.tensors[0].1.shape, vec![0, 1, 10]);
}

#[test]
fn round_trip_metadata_only_header() {
    let h = ContainerHeader {
        metadata: Some(vec![
            ("format".to_string(), "pt".to_string()),
            ("origin".to_string(), "export".to_string()),
        ]),
        tensors: Vec::new(),
    };
    let bytes = serialize_header(&h);
    let (back, _) = parse_header(bytes.as_slice()).expect("metadata-only header parses");
    assert_eq!(back.metadata.unwrap().len(), 2);
    assert!(back.tensors.is_empty());
}

#[test]
fn parse_rejects_offset_overflow() {
    let body =
        br#"{"t":{"dtype":"F32","shape":[1],"data_offsets":[0,18446744073709551616]}}"#;
    let mut bytes = (body.len() as u64).to_le_bytes().to_vec();
    bytes.extend_from_slice(body);
    match parse_header(bytes.as_slice()) {
        Err(FormatError::BadTensor { name }) => assert_eq!(name, "t"),
        _ => panic!("expected a bad tensor error for an overflowing offset"),
    }
}

#[test]
fn parse_rejects_metadata_key_as_tensor() {
    let body = br#"{"__metadata__":{"a":"b"},"__metadata__":{"c":"d"}}"#;
    let mut bytes = (body.len() as u64).to_le_bytes().to_vec();
    bytes.extend_from_slice(body);
    assert!(parse_header(bytes.as_slice()).is_err());
}

#[test]
fn plainness_gate_on_results_document() {
    let h = two_tensor_header();
    let layers = build_layers(&h, None);
    let bytes: Vec<u8> = vec![0; 8];
    let mut hl = process_fetched_layer(&layers[0], &bytes).expect("exact length accepted");
    hl.name = "bad\"name".to_string();
    assert!(cake::manifest::hash_results_bytes(&vec![(hl, "a.safetensors".to_string())]).is_none());
    assert!(cake::header::str_is_plain("plain-name.safetensors"));
    assert!(!cake::header::str_is_plain("with\"quote"));
    assert!(!cake::header::str_is_plain("with\\backslash"));
}

#[test]
fn cache_index_membership() {
    let mut index = CacheIndex::new();
    assert!(!index.contains_hash(&"h1".to_string()));
    index.record("h1".to_string());
    assert!(index.contains_hash(&"h1".to_string()));
    index.record("h2".to_string());
    index.record("h1".to_string());
    assert_eq!(index.hashes.len(), 2);
}

#[test]
fn layer_selection_uses_manifest_when_present() {
    let h = two_tensor_header();
    let manifest = vec![
        ("t1".to_string(), "h1".to_string()),
        ("t2".to_string(), "h2".to_string()),
    ];
    let available = vec!["h1".to_string()];
    let layers = cake::layers::select_layers_to_fetch(&h, &manifest, &available);
    assert_eq!(layers.len(), 1);
    assert_eq!(layers[0].name, "t2");
    let empty: Vec<(String, String)> = Vec::new();
    let layers = cake::layers::select_layers_to_fetch(&h, &empty, &available);
    assert_eq!(layers.len(), 2);
}
