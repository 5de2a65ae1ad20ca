use payments_engine::engine::{process_transaction, Engine};
use payments_engine::reports::{final_report, render_report};
use payments_engine::structures::{TransactionMessage, TransactionType};

fn deposit(client: u16, tx: u32, units: u64) -> TransactionMessage {
    TransactionMessage { tx_type: TransactionType::Deposit, client, tx, amount: Some(units) }
}

#[test]
fn report_is_sorted_by_client_and_complete() {
    let mut engine = Engine::new();
    let msgs = vec![
        deposit(42, 1, 10_000),
        deposit(3, 2, 25_000),
        deposit(17, 3, 5),
        TransactionMessage {
            tx_type: TransactionType::Dispute,
            client: 3,
            tx: 2,
            amount: None,
        },
    ];
    process_transaction(&mut engine, &msgs);

    let rows = final_report(&engine);
    assert_eq!(rows.len(), 3);
    assert_eq!(rows[0].client, 3);
    assert_eq!(rows[1].client, 17);
    assert_eq!(rows[2].client, 42);

    assert_eq!(rows[0].available, 0);
    assert_eq!(rows[0].held, 25_000);
    assert_eq!(rows[0].total, 25_000);
    assert!(!rows[0].locked);

    assert_eq!(rows[1].total, 5);
    assert_eq!(rows[2].total, 10_000);
}

#[test]
fn report_of_an_untouched_engine_is_empty() {
    let engine = Engine::new();
    let rows = final_report(&engine);
    assert_eq!(rows.len(), 0);
}

#[test]
fn rendering_uses_exactly_four_decimal_places() {
    let mut engine = Engine::new();
    let msgs = vec![deposit(1, 1, 10_000), deposit(2, 2, 123_456_789)];
    process_transaction(&mut engine, &msgs);

    let rows = final_report(&engine);
    let text = render_report(&rows);
    assert_eq!(
        text,
        "client,available,held,total,locked\n\
         1,1.0000,0.0000,1.0000,false\n\
         2,12345.6789,0.0000,12345.6789,false\n"
    );
}

#[test]
fn rendering_shows_the_lock_flag() {
    let mut engine = Engine::new();
    let msgs = vec![
        deposit(1, 1, 5),
        TransactionMessage {
            tx_type: TransactionType::Dispute,
            client: 1,
            tx: 1,
            amount: None,
        },
        TransactionMessage {
            tx_type: TransactionType::Chargeback,
            client: 1,
            tx: 1,
            amount: None,
        },
    ];
    process_transaction(&mut engine, &msgs);

    let rows = final_report(&engine);
    let text = render_report(&rows);
    assert_eq!(text, "client,available,held,total,locked\n1,0.0000,0.0000,0.0000,true\n");
}
