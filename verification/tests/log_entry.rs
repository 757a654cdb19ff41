//! Log entries and the state machine of their status.

use match_risk_engine::core_types::commands::{InboundCommand, OrderType, TimeInForce};
use match_risk_engine::core_types::crc32::crc32;
use match_risk_engine::core_types::ids::{AccountId, ClientOrderId, OrderId, Symbol};
use match_risk_engine::core_types::log_entry::LogEntry;
use match_risk_engine::core_types::order_status::OrderStatus;
use match_risk_engine::core_types::price::Price;
use match_risk_engine::core_types::qty::Qty;
use match_risk_engine::core_types::side::Side;

fn sample_cmd() -> InboundCommand {
    InboundCommand::NewOrder {
        account: AccountId(1),
        client_order_id: ClientOrderId::new(42),
        symbol: Symbol(0),
        side: Side::Buy,
        price: Price(100_00000000),
        qty: Qty(10_00000000),
        order_type: OrderType::Limit,
        time_in_force: TimeInForce::Gtc,
    }
}

#[test]
fn new_entry_starts_pending() {
    let entry = LogEntry::new(1, 1000, sample_cmd());
    assert_eq!(entry.load_status(), OrderStatus::Pending);
    assert_eq!(entry.handled_by, 0);
}

#[test]
fn try_claim_pending_to_addressed_succeeds_once() {
    let mut entry = LogEntry::new(1, 1000, sample_cmd());

    // First claim succeeds
    assert!(entry.try_claim(OrderStatus::Pending, OrderStatus::Addressed));
    assert_eq!(entry.load_status(), OrderStatus::Addressed);

    // Second claim fails (already Addressed, not Pending)
    assert!(!entry.try_claim(OrderStatus::Pending, OrderStatus::Addressed));
}

#[test]
fn try_claim_pending_to_unaddressed_succeeds_once() {
    let mut entry = LogEntry::new(1, 1000, sample_cmd());

    assert!(entry.try_claim(OrderStatus::Pending, OrderStatus::Unaddressed));
    assert_eq!(entry.load_status(), OrderStatus::Unaddressed);

    // Cannot re-escalate
    assert!(!entry.try_claim(OrderStatus::Pending, OrderStatus::Unaddressed));
}

#[test]
fn unaddressed_to_finally_handled() {
    let mut entry = LogEntry::new(1, 1000, sample_cmd());

    // Sorter escalates
    assert!(entry.try_claim(OrderStatus::Pending, OrderStatus::Unaddressed));
    // Second Engine claims
    assert!(entry.try_claim(OrderStatus::Unaddressed, OrderStatus::FinallyHandled));
    assert_eq!(entry.load_status(), OrderStatus::FinallyHandled);
}

#[test]
fn primary_and_sorter_race_only_one_wins() {
    let mut entry = LogEntry::new(1, 1000, sample_cmd());

    // Simulate race: both try to claim from Pending
    let primary_wins = entry.try_claim(OrderStatus::Pending, OrderStatus::Addressed);
    let sorter_wins = entry.try_claim(OrderStatus::Pending, OrderStatus::Unaddressed);

    // Exactly one must win
    assert!(primary_wins ^ sorter_wins, "exactly one must win the CAS");
}

#[test]
fn checksum_verification() {
    let entry = LogEntry::new(1, 1000, sample_cmd());
    assert!(entry.verify_checksum());
}

#[test]
fn changed_command_fails_the_checksum() {
    let mut entry = LogEntry::new(1, 1000, sample_cmd());
    entry.cmd = InboundCommand::Cancel { account: AccountId(1), order_id: OrderId(42) };
    assert!(!entry.verify_checksum());
    entry.cmd = sample_cmd();
    assert!(entry.verify_checksum());
    entry.checksum ^= 1;
    assert!(!entry.verify_checksum());
}

#[test]
fn checksums_of_different_commands_differ() {
    let commands = [
        sample_cmd(),
        InboundCommand::Cancel { account: AccountId(1), order_id: OrderId(2) },
        InboundCommand::Liquidate { symbol: Symbol(3), account: AccountId(1) },
        InboundCommand::FreezeAccount { account: AccountId(1) },
    ];
    for (i, a) in commands.iter().enumerate() {
        assert_eq!(LogEntry::new(1, 0, *a).checksum, LogEntry::new(9, 5, *a).checksum);
        for b in commands.iter().skip(i + 1) {
            assert_ne!(LogEntry::new(1, 0, *a).checksum, LogEntry::new(1, 0, *b).checksum);
        }
    }
}

#[test]
fn record_fill_stores_atomically() {
    let mut entry = LogEntry::new(1, 1000, sample_cmd());
    entry.record_fill(1, 2000, 100_00000000, 10_00000000);

    assert_eq!(entry.handled_by, 1);
    assert_eq!(entry.timestamp_out, 2000);
    assert_eq!(entry.fill_price, 100_00000000);
    assert_eq!(entry.filled_qty, 10_00000000);
}

#[test]
fn age_calculation() {
    let entry = LogEntry::new(1, 1000, sample_cmd());
    assert_eq!(entry.age_ns(1500), 500);
    assert_eq!(entry.age_ns(500), 0); // saturating
}

#[test]
fn unknown_status_byte_counts_as_pending() {
    let mut entry = LogEntry::new(1, 1000, sample_cmd());
    entry.status = 200;
    assert_eq!(entry.load_status(), OrderStatus::Pending);
    assert!(!entry.try_claim(OrderStatus::Pending, OrderStatus::Addressed));
}

#[test]
fn crc32_has_the_known_values() {
    assert_eq!(crc32(b""), 0);
    assert_eq!(crc32(b"a"), 0xE8B7_BE43);
    assert_eq!(crc32(b"123456789"), 0xCBF4_3926);
    assert_eq!(
        crc32(b"The quick brown fox jumps over the lazy dog"),
        0x414F_A339
    );
}

#[test]
fn checksum_is_the_crc32_of_the_serialised_command() {
    let mut bytes: Vec<u8> = Vec::new();
    bytes.extend_from_slice(&0u32.to_le_bytes()); // new order
    bytes.extend_from_slice(&1u64.to_le_bytes()); // account
    bytes.extend_from_slice(&42u64.to_le_bytes()); // client order id
    bytes.extend_from_slice(&0u16.to_le_bytes()); // symbol
    bytes.extend_from_slice(&0u32.to_le_bytes()); // buy
    bytes.extend_from_slice(&100_00000000i64.to_le_bytes()); // price
    bytes.extend_from_slice(&10_00000000u64.to_le_bytes()); // quantity
    bytes.extend_from_slice(&0u32.to_le_bytes()); // limit
    bytes.extend_from_slice(&0u32.to_le_bytes()); // good till cancel
    assert_eq!(LogEntry::new(1, 0, sample_cmd()).checksum, crc32(&bytes));

    let freeze = InboundCommand::FreezeAccount { account: AccountId(9) };
    let mut bytes = 3u32.to_le_bytes().to_vec();
    bytes.extend_from_slice(&9u64.to_le_bytes());
    assert_eq!(LogEntry::new(1, 0, freeze).checksum, crc32(&bytes));
}

#[test]
fn one_corrupted_byte_is_noticed() {
    let mut entry = LogEntry::new(1, 0, sample_cmd());
    for bit in 0..64 {
        if let InboundCommand::NewOrder { qty, .. } = &mut entry.cmd {
            *qty = Qty(10_00000000 ^ (1 << bit));
        }
        assert!(!entry.verify_checksum(), "bit {bit}");
    }
}
