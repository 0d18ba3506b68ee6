use evm_fork_cache::block::{BlockId, BlockNumberOrTag};
use evm_fork_cache::bytes::Bytes;
use evm_fork_cache::cache::trace::{
    block_number_or_tag_param, parse_block_state_diff_trace, parse_trace_address,
    parse_trace_bytes, parse_trace_u256, parse_trace_u256_str, parse_trace_u64,
    trace_rpc_method_and_params, BlockStateStorageDiff, Json,
};
use evm_fork_cache::errors::TraceFault;
use evm_fork_cache::primitives::{Address, B256, U256};

fn word(n: u64) -> U256 {
    U256::from_u64(n)
}

fn convert(value: &serde_json::Value) -> Json {
    match value {
        serde_json::Value::Null => Json::Null,
        serde_json::Value::Bool(value) => Json::Bool(*value),
        serde_json::Value::Number(number) => Json::Number {
            text: number.to_string(),
            unsigned: number.as_u64(),
        },
        serde_json::Value::String(text) => Json::Text(text.clone()),
        serde_json::Value::Array(items) => Json::Array(items.iter().map(convert).collect()),
        serde_json::Value::Object(members) => Json::Object(
            members.iter().map(|(name, value)| (name.clone(), convert(value))).collect(),
        ),
    }
}

fn json(text: &str) -> Json {
    convert(&serde_json::from_str::<serde_json::Value>(text).expect("valid JSON"))
}

#[test]
fn parses_prestate_diff_trace_values_and_cleared_slots() {
    let trace = json(
        r#"[{"result": {
            "pre": {"0x4242424242424242424242424242424242424242": {
                "storage": {"0x01": "0x05", "0x02": "0x06"}}},
            "post": {"0x4242424242424242424242424242424242424242": {
                "balance": 10, "nonce": "0x0a", "code": "0x6001",
                "storage": {"0x01": "0x0b"}}}
        }}]"#,
    );

    let diff = parse_block_state_diff_trace(&trace).unwrap();

    assert_eq!(diff.accounts.len(), 1);
    let account = &diff.accounts[0];
    assert_eq!(account.address, Address::repeat_byte(0x42));
    assert_eq!(account.balance, Some(word(10)));
    assert_eq!(account.nonce, Some(10));
    assert_eq!(account.code, Some(Bytes::from_vec(vec![0x60, 0x01])));
    assert_eq!(
        account.storage,
        vec![
            BlockStateStorageDiff { slot: word(1), value: word(11) },
            BlockStateStorageDiff { slot: word(2), value: U256::zero() },
        ]
    );
}

#[test]
fn parses_prestate_diff_trace_account_deletion() {
    let trace = json(
        r#"[{"result": {
            "pre": {
                "0x4242424242424242424242424242424242424242": {
                    "balance": "0x64", "nonce": "0x01", "code": "0x6001",
                    "storage": {"0x01": "0x05"}},
                "0x1111111111111111111111111111111111111111": {"balance": "0x0a"}
            },
            "post": {}
        }}]"#,
    );

    let diff = parse_block_state_diff_trace(&trace).unwrap();
    assert_eq!(diff.accounts.len(), 2);

    let bare = &diff.accounts[0];
    assert_eq!(bare.address, Address::repeat_byte(0x11));
    assert_eq!(bare.balance, Some(U256::zero()));
    assert_eq!(bare.nonce, Some(0));
    assert_eq!(bare.code, Some(Bytes::new()));
    assert!(bare.storage.is_empty());

    let stored = &diff.accounts[1];
    assert_eq!(stored.address, Address::repeat_byte(0x42));
    assert_eq!(stored.balance, Some(U256::zero()));
    assert_eq!(stored.nonce, Some(0));
    assert_eq!(stored.code, Some(Bytes::new()));
    assert_eq!(
        stored.storage,
        vec![BlockStateStorageDiff { slot: word(1), value: U256::zero() }]
    );
}

#[test]
fn parses_prestate_diff_trace_deletion_then_recreation_keeps_final_state() {
    let trace = json(
        r#"[
            {"result": {
                "pre": {"0x4242424242424242424242424242424242424242": {"balance": "0x64"}},
                "post": {}
            }},
            {"result": {
                "pre": {},
                "post": {"0x4242424242424242424242424242424242424242": {
                    "balance": "0x07", "nonce": "0x01", "code": "0x6002"}}
            }}
        ]"#,
    );

    let diff = parse_block_state_diff_trace(&trace).unwrap();
    assert_eq!(diff.accounts.len(), 1);
    let account = &diff.accounts[0];
    assert_eq!(account.balance, Some(word(7)));
    assert_eq!(account.nonce, Some(1));
    assert_eq!(account.code, Some(Bytes::from_vec(vec![0x60, 0x02])));
}

#[test]
fn a_single_trace_needs_no_list_and_half_a_trace_tells_nothing() {
    let single = json(
        r#"{"pre": {}, "post": {"0x1111111111111111111111111111111111111111": {"nonce": 3}}}"#,
    );
    let diff = parse_block_state_diff_trace(&single).unwrap();
    assert_eq!(diff.accounts[0].nonce, Some(3));
    let half = json(r#"{"post": {"0x1111111111111111111111111111111111111111": {"nonce": 3}}}"#);
    assert!(parse_block_state_diff_trace(&half).unwrap().accounts.is_empty());
    assert!(parse_block_state_diff_trace(&json("null")).unwrap().accounts.is_empty());
}

#[test]
fn the_first_malformed_part_is_reported() {
    let bad_address = json(r#"{"pre": {}, "post": {"0x12": {}}}"#);
    assert_eq!(
        parse_block_state_diff_trace(&bad_address),
        Err(TraceFault::InvalidAddress { text: "0x12".to_string() })
    );
    let account = |members: &str| {
        json(&format!(
            r#"{{"pre": {{}}, "post": {{"0x1111111111111111111111111111111111111111": {members}}}}}"#
        ))
    };
    let fault = |members: &str| parse_block_state_diff_trace(&account(members)).unwrap_err();
    assert_eq!(fault(r#"{"balance": true, "nonce": true}"#), TraceFault::ExpectedU256);
    assert_eq!(
        fault(r#"{"balance": "0xzz"}"#),
        TraceFault::InvalidU256 { text: "0xzz".to_string() }
    );
    assert_eq!(fault(r#"{"nonce": []}"#), TraceFault::ExpectedU64);
    assert_eq!(fault(r#"{"nonce": -1}"#), TraceFault::InvalidU64 { text: "-1".to_string() });
    assert_eq!(
        fault(r#"{"nonce": "0x10000000000000000"}"#),
        TraceFault::InvalidU64 { text: "0x10000000000000000".to_string() }
    );
    assert_eq!(fault(r#"{"code": 5}"#), TraceFault::ExpectedCode);
    assert_eq!(
        fault(r#"{"code": "0x6"}"#),
        TraceFault::InvalidCode { text: "0x6".to_string() }
    );
}

#[test]
fn words_are_hexadecimal_after_the_mark_and_decimal_without() {
    let parse = |text: &str| parse_trace_u256_str(&text.to_string());
    assert_eq!(parse("0xff"), Ok(word(255)));
    assert_eq!(parse("0xFf"), Ok(word(255)));
    assert_eq!(parse("0x"), Ok(U256::zero()));
    assert_eq!(parse(""), Ok(U256::zero()));
    assert_eq!(parse("42"), Ok(word(42)));
    assert_eq!(parse("1_000"), Ok(word(1000)));
    let most = format!("0x{}", "f".repeat(64));
    assert_eq!(parse(&most), Ok(U256::max_value()));
    let more = format!("0x1{}", "0".repeat(64));
    assert!(parse(&more).is_err());
    assert!(parse("ff").is_err());
    assert_eq!(parse_trace_u256(&json("7")), Ok(word(7)));
}

#[test]
fn counts_addresses_and_code_are_parsed() {
    assert_eq!(parse_trace_u64(&json("7")), Ok(7));
    assert_eq!(parse_trace_u64(&json(r#""""#)), Ok(0));
    assert_eq!(parse_trace_u64(&json(r#""0x""#)), Ok(0));
    assert_eq!(parse_trace_u64(&json(r#""12""#)), Ok(12));
    assert_eq!(parse_trace_u64(&json(r#""0x1f""#)), Ok(31));
    let bare = "11".repeat(20);
    assert_eq!(parse_trace_address(&bare), Ok(Address::repeat_byte(0x11)));
    assert_eq!(parse_trace_address(&format!("0x{bare}")), Ok(Address::repeat_byte(0x11)));
    assert_eq!(
        parse_trace_bytes(&json(r#""6001""#)),
        Ok(Bytes::from_vec(vec![0x60, 0x01]))
    );
    assert_eq!(parse_trace_bytes(&json(r#""0x""#)), Ok(Bytes::new()));
}

#[test]
fn traces_are_asked_for_by_height_name_or_hash() {
    assert_eq!(block_number_or_tag_param(BlockNumberOrTag::Number(0)), "0x0");
    assert_eq!(block_number_or_tag_param(BlockNumberOrTag::Number(4095)), "0xfff");
    assert_eq!(block_number_or_tag_param(BlockNumberOrTag::Latest), "latest");
    assert_eq!(block_number_or_tag_param(BlockNumberOrTag::Finalized), "finalized");
    assert_eq!(block_number_or_tag_param(BlockNumberOrTag::Safe), "safe");
    assert_eq!(block_number_or_tag_param(BlockNumberOrTag::Earliest), "earliest");
    assert_eq!(block_number_or_tag_param(BlockNumberOrTag::Pending), "pending");

    let tracer = r#"{"tracer": "prestateTracer", "tracerConfig": {"diffMode": true}}"#;
    let (method, params) = trace_rpc_method_and_params(BlockId::number(16));
    assert_eq!(method, "debug_traceBlockByNumber");
    assert_eq!(params, json(&format!(r#"["0x10", {tracer}]"#)));

    let by_hash =
        BlockId::Hash { block_hash: B256::repeat_byte(0xab), require_canonical: None };
    let (method, params) = trace_rpc_method_and_params(by_hash);
    assert_eq!(method, "debug_traceBlockByHash");
    assert_eq!(params, json(&format!(r#"["0x{}", {tracer}]"#, "ab".repeat(32))));
}
