use abi_cache::codec::{decode_records, encode_records};
use abi_cache::fetch::{fetch_step, start_fetch, FetchEvent, FetchState};
use abi_cache::hexstr::decode_selector;
use abi_cache::keys::derive_cache_key;
use abi_cache::normalize::{build_signature, normalize, sanitize_name, RawFunction, RawStructure};
use abi_cache::records::{FetchError, InterfaceRecord};

fn raw_fn(name: &str, inputs: &[&str], mutability: &str) -> RawStructure {
    RawStructure::Function(RawFunction {
        name: name.to_string(),
        inputs: inputs.iter().map(|s| s.to_string()).collect(),
        state_mutability: mutability.to_string(),
    })
}

fn records_equal(a: &[InterfaceRecord], b: &[InterfaceRecord]) -> bool {
    a.len() == b.len()
        && a.iter().zip(b.iter()).all(|(x, y)| {
            x.signature == y.signature
                && x.selector == y.selector
                && x.name == y.name
                && x.is_static == y.is_static
                && x.is_payable == y.is_payable
                && x.is_constructor == y.is_constructor
        })
}

#[test]
fn name_sanitization_and_selector() {
    let raw = vec![raw_fn("Unresolved_a9059cbb", &["uint256", "bytes", "address"], "view")];
    let out = normalize(&raw).unwrap();
    assert_eq!(out.len(), 1);
    assert_eq!(out[0].name, "a9059cbb");
    assert_eq!(out[0].selector, vec![0xa9, 0x05, 0x9c, 0xbb]);
    assert_eq!(out[0].selector.len(), 4);
    assert_eq!(out[0].signature, "(uint256,unknown,address)");
    assert!(out[0].is_static);
    assert!(!out[0].is_payable);
    assert!(!out[0].is_constructor);
}

#[test]
fn sanitize_removes_every_marker() {
    assert_eq!(sanitize_name("Unresolved_a9059cbb"), "a9059cbb");
    assert_eq!(sanitize_name("Unresolved_Unresolved_ab"), "ab");
    assert_eq!(sanitize_name("abUnresolved_cd"), "abcd");
    assert_eq!(sanitize_name("transfer"), "transfer");
    assert_eq!(sanitize_name(""), "");
}

#[test]
fn signature_substitutes_bytes_only() {
    assert_eq!(build_signature(&vec![]), "()");
    assert_eq!(build_signature(&vec!["bytes".to_string()]), "(unknown)");
    let inputs = vec!["uint256".to_string(), "bytes".to_string(), "address".to_string()];
    assert_eq!(build_signature(&inputs), "(uint256,unknown,address)");
    let inputs2 = vec!["bytes32".to_string(), "bytes".to_string()];
    assert_eq!(build_signature(&inputs2), "(bytes32,unknown)");
}

#[test]
fn mutability_mapping() {
    let raw = vec![
        raw_fn("a9059cbb", &[], "view"),
        raw_fn("095ea7b3", &[], "payable"),
        raw_fn("23b872dd", &[], "nonpayable"),
        raw_fn("70a08231", &[], "pure"),
    ];
    let out = normalize(&raw).unwrap();
    assert!(out[0].is_static && !out[0].is_payable);
    assert!(!out[1].is_static && out[1].is_payable);
    assert!(!out[2].is_static && !out[2].is_payable);
    assert!(!out[3].is_static && !out[3].is_payable);
}

#[test]
fn filtering_drops_non_functions() {
    let raw = vec![
        RawStructure::Event,
        raw_fn("a9059cbb", &["address"], "view"),
        RawStructure::Error,
        RawStructure::Constructor,
        raw_fn("095ea7b3", &[], "payable"),
    ];
    let out = normalize(&raw).unwrap();
    assert_eq!(out.len(), 2);
    assert!(out.len() <= raw.len());
    assert_eq!(out[0].name, "a9059cbb");
    assert_eq!(out[1].name, "095ea7b3");
    let only_noise = vec![RawStructure::Event, RawStructure::Error];
    assert_eq!(normalize(&only_noise).unwrap().len(), 0);
    assert_eq!(normalize(&vec![]).unwrap().len(), 0);
}

#[test]
fn malformed_selector_is_reported() {
    let raw = vec![raw_fn("xyz", &[], "view")];
    assert_eq!(normalize(&raw).unwrap_err(), FetchError::MalformedSelector);
    let raw2 = vec![raw_fn("a9059cbb00", &[], "view")];
    assert_eq!(normalize(&raw2).unwrap_err(), FetchError::MalformedSelector);
    let raw3 = vec![raw_fn("a9059cb", &[], "view")];
    assert_eq!(normalize(&raw3).unwrap_err(), FetchError::MalformedSelector);
    let raw4 = vec![raw_fn("a9059cbb", &[], "view"), raw_fn("bad", &[], "view")];
    assert_eq!(normalize(&raw4).unwrap_err(), FetchError::MalformedSelector);
}

#[test]
fn selector_decoding() {
    assert_eq!(decode_selector("00ff10ab"), Some(vec![0x00, 0xff, 0x10, 0xab]));
    assert_eq!(decode_selector("A9059CBB"), Some(vec![0xa9, 0x05, 0x9c, 0xbb]));
    assert_eq!(decode_selector("a9059cb"), None);
    assert_eq!(decode_selector("zz059cbb"), None);
    assert_eq!(decode_selector(""), None);
    assert_eq!(decode_selector("a9059cbb00"), None);
}

#[test]
fn normalization_is_deterministic() {
    let raw = vec![
        raw_fn("Unresolved_db006a75", &["uint256"], "nonpayable"),
        raw_fn("a9059cbb", &["address", "uint256"], "view"),
    ];
    let out1 = normalize(&raw).unwrap();
    let out2 = normalize(&raw).unwrap();
    assert!(records_equal(&out1, &out2));
}

#[test]
fn codec_round_trip() {
    let raw = vec![
        raw_fn("Unresolved_db006a75", &["uint256", "bytes"], "payable"),
        raw_fn("a9059cbb", &[], "view"),
        raw_fn("23b872dd", &["address", "address", "uint256"], "nonpayable"),
    ];
    let records = normalize(&raw).unwrap();
    let text = encode_records(&records);
    let back = decode_records(&text).unwrap();
    assert!(records_equal(&records, &back));
}

#[test]
fn codec_rejects_corrupt_text() {
    assert!(decode_records("garbage").is_none());
    assert!(decode_records("12:").is_none());
    assert!(decode_records("1:a").is_none());
    assert!(decode_records("999999999999999999999999999999:x").is_none());
    assert_eq!(decode_records("").unwrap().len(), 0);
}

#[test]
fn key_stability_and_format() {
    let bytecode = "6080604052600436106101395760003560e01c8063715018a6";
    let k1 = derive_cache_key(bytecode);
    let k2 = derive_cache_key(bytecode);
    assert_eq!(k1, k2);
    assert!(k1.ends_with(".json"));
    assert_eq!(derive_cache_key(""), "14695981039346656037.json");
    assert_eq!(derive_cache_key("a"), "12638187200555641996.json");
    assert_ne!(derive_cache_key("00"), derive_cache_key("01"));
}

#[test]
fn fetch_miss_path_then_hit_equals_miss() {
    let bytecode = "60806040";
    let st = start_fetch(bytecode);
    let key = match &st {
        FetchState::Lookup { key } => key.clone(),
        _ => panic!("expected a lookup state"),
    };
    assert!(key.ends_with(".json"));

    let st = fetch_step(st, FetchEvent::LookupMiss);
    assert!(matches!(st, FetchState::Decompile { .. }));

    let raw = vec![
        raw_fn("Unresolved_a9059cbb", &["address", "uint256"], "nonpayable"),
        RawStructure::Event,
    ];
    let st = fetch_step(st, FetchEvent::Decompiled { raw });
    let (persist_key, payload, miss_records) = match st {
        FetchState::Persist { key, payload, records } => (key, payload, records),
        _ => panic!("expected a persist state"),
    };
    assert_eq!(persist_key, key);

    let st = fetch_step(
        FetchState::Persist {
            key: persist_key,
            payload: payload.clone(),
            records: miss_records,
        },
        FetchEvent::PersistOk,
    );
    let returned = match st {
        FetchState::Done { result: Ok(records) } => records,
        _ => panic!("expected a finished fetch"),
    };
    assert_eq!(returned.len(), 1);
    assert_eq!(returned[0].name, "a9059cbb");
    assert_eq!(returned[0].signature, "(address,uint256)");

    let hit = fetch_step(start_fetch(bytecode), FetchEvent::LookupHit { text: payload });
    let hit_records = match hit {
        FetchState::Done { result: Ok(records) } => records,
        _ => panic!("expected a successful hit"),
    };
    assert!(records_equal(&returned, &hit_records));
}

#[test]
fn fetch_error_paths() {
    let st = fetch_step(start_fetch("00"), FetchEvent::LookupMiss);
    let st2 = fetch_step(st, FetchEvent::EngineFailed);
    assert!(matches!(
        st2,
        FetchState::Done { result: Err(FetchError::DecompileFailed) }
    ));

    let st = fetch_step(start_fetch("00"), FetchEvent::LookupMiss);
    let st3 = fetch_step(st, FetchEvent::Decompiled { raw: vec![raw_fn("nothex", &[], "view")] });
    assert!(matches!(
        st3,
        FetchState::Done { result: Err(FetchError::MalformedSelector) }
    ));

    let corrupt = fetch_step(
        start_fetch("00"),
        FetchEvent::LookupHit { text: "not a stored record list".to_string() },
    );
    assert!(matches!(
        corrupt,
        FetchState::Done { result: Err(FetchError::StoreReadFailed) }
    ));

    let st = fetch_step(start_fetch("00"), FetchEvent::LookupMiss);
    let st4 = fetch_step(st, FetchEvent::Decompiled { raw: vec![raw_fn("a9059cbb", &[], "view")] });
    let failed = fetch_step(st4, FetchEvent::PersistFailed);
    assert!(matches!(
        failed,
        FetchState::Done { result: Err(FetchError::StoreWriteFailed) }
    ));
}
