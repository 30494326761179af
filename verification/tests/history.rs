use epochoxide::history::{recency_bonus, UsageHistory};
use epochoxide::types::{action_map, ActionCapability, Item, ItemType};

#[test]
fn recency_bonus_prefers_recent_items() {
    let now = 1_800_000_000u64;
    assert!(recency_bonus(now, now) > recency_bonus(now.saturating_sub(3_000_000), now));
    assert_eq!(recency_bonus(now - 3600, now), 10_000);
    assert_eq!(recency_bonus(now - 3601, now), 5_000);
    assert_eq!(recency_bonus(now - 86_401, now), 2_000);
    assert_eq!(recency_bonus(now - 604_801, now), 750);
    assert_eq!(recency_bonus(now - 2_592_001, now), 100);
    assert_eq!(recency_bonus(now + 5, now), 10_000);
}

#[test]
fn use_raises_the_score() {
    let mut history = UsageHistory::new();
    history.record("apps", "firefox", 100);
    history.record("apps", "firefox", 200);
    let mut item = Item::new("apps", "firefox", "Firefox");
    history.apply(&mut item, "fire", 200);
    // 2 * 250 + 10000 + 500
    assert_eq!(item.score, 11_000);
    assert_eq!(item.state, vec!["history"]);
    let mut other = Item::new("apps", "chromium", "Chromium");
    history.apply(&mut other, "", 200);
    assert_eq!(other.score, 0);
    assert!(other.state.is_empty());
    let mut calm = Item::new("apps", "firefox", "Firefox");
    history.apply(&mut calm, "", 200);
    assert_eq!(calm.score, 10_500);
}

#[test]
fn use_counts_for_no_more_than_fifty_times() {
    let mut history = UsageHistory::new();
    for _ in 0..60 {
        history.record("apps", "x", 0);
    }
    let mut item = Item::new("apps", "x", "X");
    history.apply(&mut item, "", 10_000_000);
    assert_eq!(item.score, 50 * 250 + 100);
}

#[test]
fn an_item_begins_plain() {
    let item = Item::new("apps", "id", "Text");
    assert_eq!(item.provider, "apps");
    assert_eq!(item.item_type, ItemType::Regular);
    assert!(item.actions.is_empty());
    assert!(item.icon_path.is_none());
}

#[test]
fn actions_are_described() {
    let destructive = ActionCapability::new("Remove").destructive();
    assert!(destructive.destructive && destructive.confirmation);
    let args = ActionCapability::new("Run").needs_args();
    assert!(args.needs_args && !args.destructive);
    assert!(ActionCapability::new("Go").async_action().async_action);
    let map = action_map(vec![
        ("a", ActionCapability::new("first")),
        ("a", ActionCapability::new("second")),
    ]);
    assert_eq!(map.get("a").unwrap().label, "second");
    assert!(map.get("b").is_none());
}
