use payments_engine::normalize::normalize_text;
use payments_engine::structures::TransactionType;

#[test]
fn from_str_accepts_the_five_names_in_any_case() {
    assert_eq!(TransactionType::from_str("deposit"), Ok(TransactionType::Deposit));
    assert_eq!(TransactionType::from_str("DEPOSIT"), Ok(TransactionType::Deposit));
    assert_eq!(TransactionType::from_str("withdrawal"), Ok(TransactionType::Withdrawal));
    assert_eq!(TransactionType::from_str("Dispute"), Ok(TransactionType::Dispute));
    assert_eq!(TransactionType::from_str("resolve"), Ok(TransactionType::Resolve));
    assert_eq!(TransactionType::from_str("ChargeBack"), Ok(TransactionType::Chargeback));
}

#[test]
fn from_str_hands_back_an_unknown_name() {
    assert_eq!(TransactionType::from_str("transfer"), Err("transfer".to_string()));
    assert_eq!(TransactionType::from_str(""), Err("".to_string()));
    // the explicit end-of-stream signal has no external name
    assert_eq!(TransactionType::from_str("terminate"), Err("terminate".to_string()));
}

#[test]
fn normalize_text_formats_numbers_with_four_decimals() {
    assert_eq!(normalize_text("1"), "1.0000");
    assert_eq!(normalize_text("2.5"), "2.5000");
    assert_eq!(normalize_text("-3"), "-3.0000");
    assert_eq!(normalize_text("4.55555"), "4.5555");
    assert_eq!(normalize_text("0.0000"), "0.0000");
}

#[test]
fn normalize_text_leaves_other_tokens_alone() {
    assert_eq!(normalize_text("client,available"), "client,available");
    assert_eq!(normalize_text("true"), "true");
    assert_eq!(normalize_text("1.2.3"), "1.2.3");
    assert_eq!(normalize_text("-"), "-");
    assert_eq!(normalize_text("1."), "1.");
}

#[test]
fn normalize_text_edge_cases() {
    assert_eq!(normalize_text(""), "");
    assert_eq!(normalize_text("\n\n"), "");
    assert_eq!(normalize_text("-0.00001"), "-0.0000");
    // a leading plus is not part of the plain-number grammar
    assert_eq!(normalize_text("+5"), "+5");
}

#[test]
fn normalize_text_trims_tokens_and_drops_blank_lines() {
    let raw = "client,available\r\n1, 2.5 ,  ok\n\n   \t\n2,0.1\n";
    let expected = "client,available\n1.0000,2.5000,ok\n2.0000,0.1000";
    assert_eq!(normalize_text(raw), expected);
}

#[test]
fn normalize_text_matches_differently_padded_reports() {
    let a = "client,available,held,total,locked\n1,5.0,0,5.0,false\n";
    let b = "client,available,held,total,locked\r\n1,5.0000,0.0000,5.0000,false";
    assert_eq!(normalize_text(a), normalize_text(b));
}
