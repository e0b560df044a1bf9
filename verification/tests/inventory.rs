use statmm::inventory::InventoryTracker;
use statmm::strategy::{OrderFill, Side};

fn fill(side: Side, size: i64) -> OrderFill {
    OrderFill { id: uuid::Uuid::nil(), side, entry_price: 0, exit_price: 0, size, pnl: 0 }
}

#[test]
fn fills_add_up() {
    let mut t = InventoryTracker::new();
    assert_eq!(t.position, 0);
    t.on_fill(&fill(Side::Buy, 500_000_000));
    assert_eq!(t.position, 500_000_000);
    t.on_fill(&fill(Side::Sell, 200_000_000));
    assert_eq!(t.position, 300_000_000);
    t.on_fill(&fill(Side::Sell, 900_000_000));
    assert_eq!(t.position, -600_000_000);
}

#[test]
fn position_is_held_at_the_ends() {
    let mut t = InventoryTracker { position: i64::MAX - 1 };
    t.on_fill(&fill(Side::Buy, 10));
    assert_eq!(t.position, i64::MAX);
    let mut t = InventoryTracker { position: i64::MIN + 1 };
    t.on_fill(&fill(Side::Sell, 10));
    assert_eq!(t.position, i64::MIN);
}
