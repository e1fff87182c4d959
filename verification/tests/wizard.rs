use token_wizard::deposit_met;
use token_wizard::derive_record;
use token_wizard::encode_state;
use token_wizard::net_first_slot;
use token_wizard::parse_account_address;
use token_wizard::parse_state;
use token_wizard::parse_token_address;
use token_wizard::parse_wallet_pubkey;
use token_wizard::polls_until_funded;
use token_wizard::split_native_units;
use token_wizard::CodecError;
use token_wizard::MetadataParams;
use token_wizard::ParseError;
use token_wizard::Step;
use token_wizard::TxDetail;
use token_wizard::WorkflowState;
use token_wizard::MIN_DEPOSIT_BASE_UNITS;

#[test]
fn missing_state_file_yields_start() {
    let st = WorkflowState::initial();
    assert_eq!(st.step, Step::Start);
    assert_eq!(st.pubkey, None);
    assert_eq!(st.token_name, None);
    assert_eq!(st.token_symbol, None);
    assert_eq!(st.token_address, None);
    assert_eq!(st.account_address, None);
}

#[test]
fn load_then_save_is_byte_identical() {
    let bytes = b"step=await_deposit\npubkey=A\ntoken_name\ntoken_symbol\ntoken_address\naccount_address\n"
        .to_vec();
    let st = parse_state(&bytes).expect("a well-formed record must load");
    assert_eq!(st.step, Step::AwaitDeposit);
    assert_eq!(st.pubkey, Some(b"A".to_vec()));
    let saved = encode_state(&st);
    assert_eq!(saved, bytes);
}

#[test]
fn save_then_load_returns_the_state() {
    let mut st = WorkflowState::initial();
    st.set_wallet(b"9XyzPubKey111".to_vec());
    st.confirm_deposit();
    let bytes = encode_state(&st);
    let loaded = parse_state(&bytes).expect("a saved record must load");
    assert_eq!(loaded, st);
    assert_eq!(encode_state(&loaded), bytes);
}

#[test]
fn completed_state_round_trips() {
    let mut st = WorkflowState::initial();
    st.set_wallet(b"wallet".to_vec());
    st.confirm_deposit();
    st.complete_token(
        b"My Token".to_vec(),
        b"MTK".to_vec(),
        b"tokenaddr".to_vec(),
        b"accountaddr".to_vec(),
    );
    assert_eq!(st.step, Step::Done);
    let bytes = encode_state(&st);
    let loaded = parse_state(&bytes).expect("a saved record must load");
    assert_eq!(loaded, st);
}

#[test]
fn malformed_records_are_errors_not_resets() {
    // no trailing newline
    assert_eq!(
        parse_state(&b"step=start".to_vec()),
        Err(CodecError::Malformed)
    );
    // empty file
    assert_eq!(parse_state(&Vec::new()), Err(CodecError::Malformed));
    // wrong number of lines
    assert_eq!(
        parse_state(&b"step=start\npubkey\n".to_vec()),
        Err(CodecError::Malformed)
    );
    // unknown step word
    assert_eq!(
        parse_state(
            &b"step=paused\npubkey\ntoken_name\ntoken_symbol\ntoken_address\naccount_address\n"
                .to_vec()
        ),
        Err(CodecError::Malformed)
    );
    // wrong key on a field line
    assert_eq!(
        parse_state(
            &b"step=start\nwallet\ntoken_name\ntoken_symbol\ntoken_address\naccount_address\n"
                .to_vec()
        ),
        Err(CodecError::Malformed)
    );
    // a deposit-awaiting record must name the wallet
    assert_eq!(
        parse_state(
            &b"step=await_deposit\npubkey\ntoken_name\ntoken_symbol\ntoken_address\naccount_address\n"
                .to_vec()
        ),
        Err(CodecError::Malformed)
    );
    // a done record must name everything it created
    assert_eq!(
        parse_state(
            &b"step=done\npubkey=A\ntoken_name\ntoken_symbol\ntoken_address\naccount_address\n"
                .to_vec()
        ),
        Err(CodecError::Malformed)
    );
}

#[test]
fn watcher_polls_exactly_three_times() {
    // readings of 0, 0.001 and 0.0025 native units, in base units
    let readings = vec![0u64, 1_000_000, 2_500_000];
    // a threshold of 0.002 native units, in base units
    let threshold = (0.002f64 * 1_000_000_000.0) as u64;
    assert_eq!(threshold, MIN_DEPOSIT_BASE_UNITS);
    assert_eq!(polls_until_funded(&readings, threshold), Some(3));
    assert!(!deposit_met(readings[0], threshold));
    assert!(!deposit_met(readings[1], threshold));
    assert!(deposit_met(readings[2], threshold));
}

#[test]
fn watcher_never_funded_keeps_polling() {
    let readings = vec![0u64, 1_999_999];
    assert_eq!(polls_until_funded(&readings, MIN_DEPOSIT_BASE_UNITS), None);
    assert_eq!(polls_until_funded(&Vec::new(), MIN_DEPOSIT_BASE_UNITS), None);
}

#[test]
fn empty_output_has_no_marker() {
    assert_eq!(parse_token_address(&Vec::new()), Err(ParseError::MarkerNotFound));
    assert_eq!(parse_wallet_pubkey(&Vec::new()), Err(ParseError::MarkerNotFound));
}

#[test]
fn unterminated_last_line_still_parses() {
    let out = b"Creating token AAA".to_vec();
    assert_eq!(parse_token_address(&out), Ok(b"AAA".to_vec()));
}

#[test]
fn threshold_is_inclusive_in_base_units() {
    // a balance of exactly 0.002 * 10^9 base units satisfies the threshold
    assert!(deposit_met(2_000_000, MIN_DEPOSIT_BASE_UNITS));
    assert!(!deposit_met(1_999_999, MIN_DEPOSIT_BASE_UNITS));
}

#[test]
fn net_amount_of_first_slot() {
    let pre = vec![5_000_000_000u64];
    let post = vec![5_002_000_000u64];
    let net = net_first_slot(&pre, &post);
    assert_eq!(net, 2_000_000);
    // in native units that is 0.002
    assert_eq!(net as f64 / 1_000_000_000.0, 0.002);
}

#[test]
fn net_amount_can_be_negative() {
    let pre = vec![5_000_000_000u64, 7u64];
    let post = vec![4_000_000_000u64, 7u64];
    assert_eq!(net_first_slot(&pre, &post), -1_000_000_000);
}

#[test]
fn token_creation_output_parses() {
    let out = b"Creating token 4k3DyjU...Ns4TmG\nSigners:\n".to_vec();
    assert_eq!(
        parse_token_address(&out),
        Ok(b"4k3DyjU...Ns4TmG".to_vec())
    );
}

#[test]
fn missing_marker_fails_explicitly() {
    let out = b"Nothing of interest here\n".to_vec();
    assert_eq!(parse_token_address(&out), Err(ParseError::MarkerNotFound));
    assert_eq!(parse_account_address(&out), Err(ParseError::MarkerNotFound));
    assert_eq!(parse_wallet_pubkey(&out), Err(ParseError::MarkerNotFound));
}

#[test]
fn short_marker_line_fails_explicitly() {
    let out = b"Creating token\n".to_vec();
    assert_eq!(parse_token_address(&out), Err(ParseError::AddressMissing));
}

#[test]
fn account_creation_output_parses() {
    let out = b"Creating account 3zxA2d9t7N3e\nDone\n".to_vec();
    assert_eq!(parse_account_address(&out), Ok(b"3zxA2d9t7N3e".to_vec()));
}

#[test]
fn wallet_output_yields_last_word_of_pubkey_line() {
    let out =
        b"Generating a new keypair\npubkey: 9XyzPubKey111\nSave this seed phrase\n".to_vec();
    assert_eq!(parse_wallet_pubkey(&out), Ok(b"9XyzPubKey111".to_vec()));
}

#[test]
fn first_marked_line_wins() {
    let out = b"Creating token AAA\nCreating token BBB\n".to_vec();
    assert_eq!(parse_token_address(&out), Ok(b"AAA".to_vec()));
}

#[test]
fn fresh_run_persists_and_resumes() {
    // fresh run: no record, so the wizard starts at the first step
    let mut st = WorkflowState::initial();
    assert_eq!(st.step, Step::Start);
    // the user chooses an existing wallet and supplies its address
    st.set_wallet(b"A".to_vec());
    assert_eq!(st.step, Step::AwaitDeposit);
    // the watcher observes a funded balance
    assert!(deposit_met(2_500_000, MIN_DEPOSIT_BASE_UNITS));
    st.confirm_deposit();
    assert_eq!(st.step, Step::CreateToken);
    // the record is persisted now
    let bytes = encode_state(&st);
    // a second process must load that exact state and resume at create_token
    let resumed = parse_state(&bytes).expect("the persisted record must load");
    assert_eq!(resumed, st);
    assert_eq!(resumed.step, Step::CreateToken);
    assert_eq!(resumed.pubkey, Some(b"A".to_vec()));
}

#[test]
fn block_time_renders_as_utc_text() {
    let tx = TxDetail {
        signatures: vec![b"sig1".to_vec()],
        pre_balances: vec![5_000_000_000],
        post_balances: vec![5_002_000_000],
        block_time: Some(1_431_648_000),
    };
    let rec = derive_record(&tx).expect("a finalized transaction yields a row");
    assert_eq!(rec.datetime, b"2015-05-15 00:00:00 UTC".to_vec());
    assert_eq!(rec.signature, b"sig1".to_vec());
    assert_eq!(rec.net_base_units, 2_000_000);
}

#[test]
fn unfinalized_transaction_yields_no_row() {
    let tx = TxDetail {
        signatures: vec![b"sig1".to_vec()],
        pre_balances: vec![1],
        post_balances: vec![2],
        block_time: None,
    };
    assert!(derive_record(&tx).is_none());
}

#[test]
fn base_units_split_for_display() {
    assert_eq!(split_native_units(2_000_000), (0, 2_000_000));
    assert_eq!(split_native_units(1_500_000_000), (1, 500_000_000));
    assert_eq!(split_native_units(0), (0, 0));
}

#[test]
fn metadata_defaults_are_fixed() {
    let p = MetadataParams::new(b"My Token".to_vec(), b"MTK".to_vec(), b"https://u".to_vec());
    assert_eq!(p.name, b"My Token".to_vec());
    assert_eq!(p.symbol, b"MTK".to_vec());
    assert_eq!(p.uri, b"https://u".to_vec());
    assert_eq!(p.seller_fee_basis_points, 0);
    assert!(p.is_mutable);
}
