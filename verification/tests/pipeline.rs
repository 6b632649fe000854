use galoy_client::Batch;
use galoy_client::BatchOutcome;
use galoy_client::Decimal;
use galoy_client::LoadError;
use galoy_client::Outcome;
use galoy_client::Stage;
use galoy_client::batch::ConvertError;
use galoy_client::convert::ConvertErrorKind;
use galoy_client::decimal::parse_decimal;
use galoy_client::loader::RowError;

fn price(mantissa: u128, scale: u32) -> Decimal {
    Decimal::new(false, mantissa, scale).expect("price in range")
}

fn load(input: &str, p: Decimal) -> Batch {
    Batch::load(input.as_bytes(), p).expect("load should succeed")
}

fn all_handles(batch: &Batch) -> Vec<Option<Vec<u8>>> {
    batch
        .identities()
        .iter()
        .map(|id| {
            let mut h = b"wallet-".to_vec();
            h.extend_from_slice(id);
            Some(h)
        })
        .collect()
}

#[test]
fn load_keeps_row_count_and_order() {
    let batch = load("alice,1.5\nbob,2\ncarol,0.25,lunch\n", price(20000, 0));
    assert_eq!(batch.len(), 3);
    let records = batch.preview();
    assert_eq!(records[0].recipient_identity, b"alice".to_vec());
    assert_eq!(records[1].recipient_identity, b"bob".to_vec());
    assert_eq!(records[2].recipient_identity, b"carol".to_vec());
    assert_eq!(records[2].memo, Some(b"lunch".to_vec()));
    assert_eq!(records[0].memo, None);
    assert_eq!(records[0].human_amount, Decimal { negative: false, mantissa: 15, scale: 1 });
    assert!(records.iter().all(|r| r.wallet_handle.is_none() && r.atomic_amount.is_none()));
}

#[test]
fn empty_file_runs_the_whole_pipeline_trivially() {
    let mut batch = load("", price(20000, 0));
    assert_eq!(batch.len(), 0);
    assert!(batch.preview().is_empty());
    batch.resolve(Vec::new()).expect("empty resolve");
    batch.convert().expect("empty convert");
    assert!(batch.next_payment().is_none());
    batch.finish_execution();
    assert_eq!(batch.stage(), Stage::Executed);
    match batch.outcome_summary() {
        BatchOutcome::AllSucceeded { count } => assert_eq!(count, 0),
        _ => panic!("empty batch must succeed trivially"),
    }
}

#[test]
fn header_only_file_yields_empty_batch() {
    let batch = load("username,amount\n", price(20000, 0));
    assert_eq!(batch.len(), 0);
    let batch = load("username,amount,memo\r\n\n", price(20000, 0));
    assert_eq!(batch.len(), 0);
}

#[test]
fn header_fixes_columns_in_any_order() {
    let batch = load("amount,memo,username\n2.5,hi,alice\n", price(20000, 0));
    assert_eq!(batch.len(), 1);
    let records = batch.preview();
    assert_eq!(records[0].recipient_identity, b"alice".to_vec());
    assert_eq!(records[0].human_amount, Decimal { negative: false, mantissa: 25, scale: 1 });
    assert_eq!(records[0].memo, Some(b"hi".to_vec()));
}

#[test]
fn bad_headers_are_rejected() {
    let r = Batch::load(b"username,amount,extra\nalice,1\n", price(20000, 0));
    assert!(matches!(r, Err(LoadError::BadHeader)));
    let r = Batch::load(b"username,username,amount\na,b,1\n", price(20000, 0));
    assert!(matches!(r, Err(LoadError::BadHeader)));
    let r = Batch::load(b"username,memo\nalice,hi\n", price(20000, 0));
    assert!(matches!(r, Err(LoadError::BadHeader)));
}

#[test]
fn malformed_rows_fail_the_whole_load() {
    let r = Batch::load(b"alice,1\nbob\n", price(20000, 0));
    assert!(matches!(r, Err(LoadError::Row { row: 1, kind: RowError::MissingField })));
    let r = Batch::load(b"alice,abc\n", price(20000, 0));
    assert!(matches!(r, Err(LoadError::Row { row: 0, kind: RowError::BadAmount })));
    let r = Batch::load(b",1\n", price(20000, 0));
    assert!(matches!(r, Err(LoadError::Row { row: 0, kind: RowError::EmptyIdentity })));
    let r = Batch::load(b"alice,1,memo,extra\n", price(20000, 0));
    assert!(matches!(r, Err(LoadError::Row { row: 0, kind: RowError::ExtraField })));
    let r = Batch::load(b"username,amount\nalice,1,stray\n", price(20000, 0));
    assert!(matches!(r, Err(LoadError::Row { row: 1, kind: RowError::ExtraField })));
}

#[test]
fn blank_lines_and_carriage_returns_are_tolerated() {
    let batch = load("\r\nalice,1\r\n\nbob,2\r\n\n", price(20000, 0));
    assert_eq!(batch.len(), 2);
    let records = batch.preview();
    assert_eq!(records[0].recipient_identity, b"alice".to_vec());
    assert_eq!(records[1].recipient_identity, b"bob".to_vec());
}

#[test]
fn decimal_parsing_is_exact() {
    assert_eq!(
        parse_decimal(b"0.0001"),
        Some(Decimal { negative: false, mantissa: 1, scale: 4 })
    );
    assert_eq!(
        parse_decimal(b"-3.50"),
        Some(Decimal { negative: true, mantissa: 350, scale: 2 })
    );
    assert_eq!(parse_decimal(b"20000"), Some(Decimal { negative: false, mantissa: 20000, scale: 0 }));
    // the sign of zero is canonicalized away
    assert_eq!(parse_decimal(b"-0.0"), Some(Decimal { negative: false, mantissa: 0, scale: 1 }));
    assert_eq!(parse_decimal(b""), None);
    assert_eq!(parse_decimal(b"1..2"), None);
    assert_eq!(parse_decimal(b".5"), None);
    assert_eq!(parse_decimal(b"5."), None);
    assert_eq!(parse_decimal(b"1e3"), None);
}

#[test]
fn decimal_parsing_agrees_with_the_reference_library() {
    for text in ["0.0001", "20000", "1.25", "42", "0.5"] {
        let ours = parse_decimal(text.as_bytes()).expect("parse");
        let theirs = <rust_decimal::Decimal as std::str::FromStr>::from_str(text)
            .expect("reference parse");
        assert_eq!(ours.mantissa, theirs.mantissa() as u128);
        assert_eq!(ours.scale, theirs.scale());
        assert_eq!(ours.negative, theirs.is_sign_negative());
    }
}

#[test]
fn decimal_constructor_enforces_the_range() {
    assert!(Decimal::new(false, 1, 29).is_none());
    assert!(Decimal::new(false, 1u128 << 96, 0).is_none());
    assert!(Decimal::new(false, (1u128 << 96) - 1, 28).is_some());
    // the sign of zero is canonicalized
    assert_eq!(Decimal::new(true, 0, 0), Some(Decimal { negative: false, mantissa: 0, scale: 0 }));
}

#[test]
fn resolution_is_all_or_nothing_and_names_the_offender() {
    let mut batch = load("alice,1\nbob,2\ncarol,3\n", price(20000, 0));
    let handles = vec![Some(b"w-alice".to_vec()), None, Some(b"w-carol".to_vec())];
    let err = batch.resolve(handles).expect_err("unknown recipient must fail the stage");
    assert_eq!(err.row, 1);
    assert_eq!(err.identity, b"bob".to_vec());
    assert_eq!(batch.stage(), Stage::Loaded);
    assert!(batch.preview().iter().all(|r| r.wallet_handle.is_none()));
}

#[test]
fn resolution_fills_every_handle() {
    let mut batch = load("alice,1\nbob,2\n", price(20000, 0));
    let handles = all_handles(&batch);
    batch.resolve(handles).expect("resolve");
    assert_eq!(batch.stage(), Stage::Resolved);
    let records = batch.preview();
    assert_eq!(records[0].wallet_handle, Some(b"wallet-alice".to_vec()));
    assert_eq!(records[1].wallet_handle, Some(b"wallet-bob".to_vec()));
}

#[test]
fn conversion_pins_the_documented_convention() {
    // price 20000 per coin of 10^8 atomic units: 0.0001 converts to
    // 0.0001 / 20000 * 10^8 = 0.5, which rounds half up to 1.
    let mut batch = load("alice,0.0001\nbob,1\ncarol,0.00005\ndave,0.00015\n", price(20000, 0));
    let handles = all_handles(&batch);
    batch.resolve(handles).expect("resolve");
    batch.convert().expect("convert");
    let records = batch.preview();
    assert_eq!(records[0].atomic_amount, Some(1)); // 0.5 rounds up
    assert_eq!(records[1].atomic_amount, Some(5000)); // exact
    assert_eq!(records[2].atomic_amount, Some(0)); // 0.25 rounds down; zero is a valid amount
    assert_eq!(records[3].atomic_amount, Some(1)); // 0.75 rounds up
}

#[test]
fn conversion_is_reproducible() {
    let run = || {
        let mut batch = load("alice,0.0001\n", price(20000, 0));
        let handles = all_handles(&batch);
        batch.resolve(handles).expect("resolve");
        batch.convert().expect("convert");
        batch.preview()[0].atomic_amount
    };
    assert_eq!(run(), run());
    assert_eq!(run(), Some(1));
}

#[test]
fn conversion_rejects_negative_amounts_and_bad_prices() {
    let mut batch = load("alice,1\nbob,-2\n", price(20000, 0));
    let handles = all_handles(&batch);
    batch.resolve(handles).expect("resolve");
    let err = batch.convert().expect_err("negative amount must fail the stage");
    assert!(matches!(
        err,
        ConvertError::Row { row: 1, kind: ConvertErrorKind::NegativeAmount }
    ));
    assert_eq!(batch.stage(), Stage::Resolved);
    assert!(batch.preview().iter().all(|r| r.atomic_amount.is_none()));

    let mut batch = load("alice,1\n", price(0, 0));
    let handles = all_handles(&batch);
    batch.resolve(handles).expect("resolve");
    let err = batch.convert().expect_err("zero price is invalid");
    assert!(matches!(err, ConvertError::InvalidPrice));
}

#[test]
fn conversion_rejects_amounts_beyond_the_machine_range() {
    // 10^28 at price 1 would be 10^36 atomic units, far past u64.
    let mut batch = load("alice,10000000000000000000000000000\n", price(1, 0));
    let handles = all_handles(&batch);
    batch.resolve(handles).expect("resolve");
    let err = batch.convert().expect_err("the atomic amount cannot fit");
    assert!(matches!(
        err,
        ConvertError::Row { row: 0, kind: ConvertErrorKind::Overflow }
    ));
    assert_eq!(batch.stage(), Stage::Resolved);
}

#[test]
fn execution_fails_fast_after_the_first_rejection() {
    let mut batch = load("alice,1\nbob,2\ncarol,3\n", price(20000, 0));
    let handles = all_handles(&batch);
    batch.resolve(handles).expect("resolve");
    batch.convert().expect("convert");

    let mut submissions: usize = 0;
    while batch.stage() == Stage::Converted {
        match batch.next_payment() {
            None => batch.finish_execution(),
            Some(order) => {
                submissions += 1;
                if order.recipient_identity == b"bob".to_vec() {
                    batch.apply_failure(b"insufficient funds".to_vec());
                } else {
                    batch.apply_success();
                }
            },
        }
    }
    assert_eq!(submissions, 2, "the third record must never be submitted");
    let records = batch.preview();
    assert!(matches!(records[0].outcome, Outcome::Succeeded));
    assert!(matches!(records[1].outcome, Outcome::Failed(ref r) if r == b"insufficient funds"));
    assert!(matches!(records[2].outcome, Outcome::NotAttempted));
    match batch.outcome_summary() {
        BatchOutcome::FailedAt { row, identity, reason, completed, not_attempted } => {
            assert_eq!(row, 1);
            assert_eq!(identity, b"bob".to_vec());
            assert_eq!(reason, b"insufficient funds".to_vec());
            assert_eq!(completed, 1);
            assert_eq!(not_attempted, 1);
        },
        _ => panic!("a failed batch must report the first failure"),
    }
}

#[test]
fn execution_reports_full_success() {
    let mut batch = load("alice,1\nbob,2\n", price(20000, 0));
    let handles = all_handles(&batch);
    batch.resolve(handles).expect("resolve");
    batch.convert().expect("convert");
    while batch.stage() == Stage::Converted {
        match batch.next_payment() {
            None => batch.finish_execution(),
            Some(_) => batch.apply_success(),
        }
    }
    let records = batch.preview();
    assert!(records.iter().all(|r| matches!(r.outcome, Outcome::Succeeded)));
    match batch.outcome_summary() {
        BatchOutcome::AllSucceeded { count } => assert_eq!(count, 2),
        _ => panic!("all payments were accepted"),
    }
}

#[test]
fn preview_is_idempotent_and_read_only() {
    let mut batch = load("alice,1\nbob,2\n", price(20000, 0));
    let first: Vec<Vec<u8>> = batch.preview().iter().map(|r| r.recipient_identity.clone()).collect();
    let second: Vec<Vec<u8>> = batch.preview().iter().map(|r| r.recipient_identity.clone()).collect();
    assert_eq!(first, second);
    assert_eq!(batch.stage(), Stage::Loaded);
    // the pipeline still runs after any number of previews
    for _ in 0..3 {
        let _ = batch.preview();
    }
    let handles = all_handles(&batch);
    batch.resolve(handles).expect("resolve");
    assert_eq!(batch.stage(), Stage::Resolved);
}

#[test]
fn human_amounts_survive_the_round_trip() {
    let input = "alice,1.5\nbob,0.0001\ncarol,42,memo\n";
    let loaded = load(input, price(20000, 0));
    let originals: Vec<Decimal> = loaded.preview().iter().map(|r| r.human_amount).collect();

    let mut batch = load(input, price(20000, 0));
    let handles = all_handles(&batch);
    batch.resolve(handles).expect("resolve");
    batch.convert().expect("convert");
    let after: Vec<Decimal> = batch.preview().iter().map(|r| r.human_amount).collect();
    assert_eq!(originals, after);
    let memos: Vec<Option<Vec<u8>>> = batch.preview().iter().map(|r| r.memo.clone()).collect();
    assert_eq!(memos, vec![None, None, Some(b"memo".to_vec())]);
}

#[test]
fn positional_rows_accept_an_optional_memo() {
    let batch = load("alice,1,note\nbob,2\ncarol,3,\n", price(20000, 0));
    let records = batch.preview();
    assert_eq!(records[0].memo, Some(b"note".to_vec()));
    assert_eq!(records[1].memo, None);
    // an empty memo field means no memo
    assert_eq!(records[2].memo, None);
}
