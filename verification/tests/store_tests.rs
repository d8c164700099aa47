use achievements::records::{AchievementData, StoredAchievement};
use achievements::store::{record_fits, AchievementStore};

fn submission(user: &str, achievement: &str, required: u32, current: u32) -> AchievementData {
    AchievementData {
        user_id: user.to_string(),
        achievement_id: achievement.to_string(),
        achievement_name: "Some achievement".to_string(),
        required_visits: required,
        current_visits: current,
        timestamp: "2024-01-01T00:00:00Z".to_string(),
        wallet_address: "wallet".to_string(),
    }
}

#[test]
fn scenario_first_visit_is_recorded_once() {
    let mut store = AchievementStore::new();
    let data = submission("alice", "first_visit", 1, 1);
    assert!(store.validate_achievement(data.clone()));
    assert!(!store.validate_achievement(data));
    let listed = store.get_user_achievements("alice".to_string());
    assert_eq!(listed.len(), 1);
    assert_eq!(listed[0].achievement_id, "first_visit");
    assert!(listed[0].verified);
    assert_eq!(
        listed[0],
        StoredAchievement {
            achievement_id: "first_visit".to_string(),
            user_id: "alice".to_string(),
            unlocked_at: "2024-01-01T00:00:00Z".to_string(),
            verified: true,
        }
    );
}

#[test]
fn scenario_below_threshold_is_rejected() {
    let mut store = AchievementStore::new();
    assert!(!store.validate_achievement(submission("bob", "five_visits", 5, 2)));
    assert!(store.get_user_achievements("bob".to_string()).is_empty());
}

#[test]
fn scenario_user_a_does_not_see_user_ab() {
    let mut store = AchievementStore::new();
    assert!(store.validate_achievement(submission("a", "x", 1, 1)));
    assert!(store.validate_achievement(submission("ab", "x", 1, 1)));
    let of_a = store.get_user_achievements("a".to_string());
    assert_eq!(of_a.len(), 1);
    assert_eq!(of_a[0].user_id, "a");
    let of_ab = store.get_user_achievements("ab".to_string());
    assert_eq!(of_ab.len(), 1);
    assert_eq!(of_ab[0].user_id, "ab");
}

#[test]
fn new_store_lists_nothing() {
    let store = AchievementStore::new();
    assert!(store.get_user_achievements("alice".to_string()).is_empty());
    assert!(store.get_user_achievements(String::new()).is_empty());
    assert!(store.get_achievement_history("alice".to_string()).is_empty());
}

#[test]
fn stores_do_not_share_records() {
    let mut first = AchievementStore::new();
    let second = AchievementStore::new();
    assert!(first.validate_achievement(submission("alice", "a", 1, 1)));
    assert!(second.get_user_achievements("alice".to_string()).is_empty());
}

#[test]
fn second_submission_is_always_rejected() {
    let mut store = AchievementStore::new();
    let data = submission("carol", "ten_visits", 10, 12);
    assert!(store.validate_achievement(data.clone()));
    for _ in 0..3 {
        assert!(!store.validate_achievement(data.clone()));
    }
    assert_eq!(store.get_user_achievements("carol".to_string()).len(), 1);
}

#[test]
fn resubmission_keeps_the_first_record() {
    let mut store = AchievementStore::new();
    let first = submission("carol", "ten_visits", 10, 10);
    let mut later = first.clone();
    later.timestamp = "2030-12-31T23:59:59Z".to_string();
    later.current_visits = 50;
    assert!(store.validate_achievement(first));
    assert!(!store.validate_achievement(later));
    let listed = store.get_user_achievements("carol".to_string());
    assert_eq!(listed.len(), 1);
    assert_eq!(listed[0].unlocked_at, "2024-01-01T00:00:00Z");
}

#[test]
fn threshold_gate_holds_whatever_is_stored() {
    let mut store = AchievementStore::new();
    assert!(!store.validate_achievement(submission("dave", "a", 3, 2)));
    assert!(store.validate_achievement(submission("dave", "a", 3, 3)));
    assert!(!store.validate_achievement(submission("dave", "a", 3, 2)));
    assert!(!store.validate_achievement(submission("dave", "b", u32::MAX, u32::MAX - 1)));
    assert!(!store.validate_achievement(submission("dave", "c", 1, 0)));
    let listed = store.get_user_achievements("dave".to_string());
    assert_eq!(listed.len(), 1);
    assert_eq!(listed[0].achievement_id, "a");
}

#[test]
fn threshold_is_inclusive_and_zero_is_allowed() {
    let mut store = AchievementStore::new();
    assert!(store.validate_achievement(submission("erin", "exact", 7, 7)));
    assert!(store.validate_achievement(submission("erin", "more", 7, 8)));
    assert!(store.validate_achievement(submission("erin", "none", 0, 0)));
    assert!(store.validate_achievement(submission("erin", "max", u32::MAX, u32::MAX)));
    assert_eq!(store.get_user_achievements("erin".to_string()).len(), 4);
}

#[test]
fn rejected_submission_can_be_accepted_later() {
    let mut store = AchievementStore::new();
    assert!(!store.validate_achievement(submission("frank", "five", 5, 4)));
    assert!(store.get_user_achievements("frank".to_string()).is_empty());
    assert!(store.validate_achievement(submission("frank", "five", 5, 5)));
    assert_eq!(store.get_user_achievements("frank".to_string()).len(), 1);
}

#[test]
fn listing_is_in_key_order() {
    let mut store = AchievementStore::new();
    for achievement in ["m", "b", "z", "a", "ab", "B"] {
        assert!(store.validate_achievement(submission("gina", achievement, 1, 1)));
    }
    let listed = store.get_user_achievements("gina".to_string());
    let ids: Vec<&str> = listed.iter().map(|r| r.achievement_id.as_str()).collect();
    assert_eq!(ids, vec!["B", "a", "ab", "b", "m", "z"]);
}

#[test]
fn listing_can_be_taken_again() {
    let mut store = AchievementStore::new();
    assert!(store.validate_achievement(submission("hal", "a", 1, 1)));
    assert!(store.validate_achievement(submission("hal", "b", 1, 1)));
    let first = store.get_user_achievements("hal".to_string());
    let second = store.get_user_achievements("hal".to_string());
    assert_eq!(first, second);
    assert_eq!(first.len(), 2);
}

#[test]
fn listing_holds_only_the_users_records() {
    let mut store = AchievementStore::new();
    for user in ["alice", "bob", "al", "alicia", "Alice"] {
        assert!(store.validate_achievement(submission(user, "one", 1, 1)));
        assert!(store.validate_achievement(submission(user, "two", 1, 1)));
    }
    for user in ["alice", "bob", "al", "alicia", "Alice"] {
        let listed = store.get_user_achievements(user.to_string());
        assert_eq!(listed.len(), 2);
        assert!(listed.iter().all(|r| r.user_id == user));
    }
    assert!(store.get_user_achievements("ali".to_string()).is_empty());
}

#[test]
fn many_records_survive_node_splits() {
    let mut store = AchievementStore::new();
    for n in 0..200 {
        let user = if n % 2 == 0 { "even" } else { "odd" };
        assert!(store.validate_achievement(submission(user, &format!("{:03}", n), 1, 1)));
    }
    let even = store.get_user_achievements("even".to_string());
    assert_eq!(even.len(), 100);
    for (i, record) in even.iter().enumerate() {
        assert_eq!(record.achievement_id, format!("{:03}", 2 * i));
    }
    assert_eq!(store.get_user_achievements("odd".to_string()).len(), 100);
    assert!(!store.validate_achievement(submission("even", "004", 1, 1)));
}

#[test]
fn separator_in_a_user_id_lets_records_bleed() {
    let mut store = AchievementStore::new();
    assert!(store.validate_achievement(submission("a:b", "x", 1, 1)));
    let of_a = store.get_user_achievements("a".to_string());
    assert_eq!(of_a.len(), 1);
    assert_eq!(of_a[0].user_id, "a:b");
    assert!(!store.validate_achievement(submission("a", "b:x", 1, 1)));
}

#[test]
fn oversized_identifiers_are_truncated_not_refused() {
    let mut store = AchievementStore::new();
    let user = "u".repeat(70);
    assert!(store.validate_achievement(submission(&user, "one", 1, 1)));
    assert!(!store.validate_achievement(submission(&user, "two", 1, 1)));
    let listed = store.get_user_achievements(user.clone());
    assert_eq!(listed.len(), 1);
    assert_eq!(listed[0].user_id, user);
    assert_eq!(listed[0].achievement_id, "one");
    let same_head = format!("{}{}", "u".repeat(64), "other");
    assert_eq!(store.get_user_achievements(same_head).len(), 1);
}

#[test]
fn record_keeps_identifiers_and_timestamp_in_full() {
    let mut store = AchievementStore::new();
    let mut data = submission("zoë", "achievement with a long name ".repeat(20).as_str(), 2, 9);
    data.timestamp = "2024-02-29T12:34:56.789Z".to_string();
    assert!(store.validate_achievement(data.clone()));
    let listed = store.get_user_achievements("zoë".to_string());
    assert_eq!(listed.len(), 1);
    assert_eq!(listed[0].achievement_id, data.achievement_id);
    assert_eq!(listed[0].user_id, "zoë");
    assert_eq!(listed[0].unlocked_at, "2024-02-29T12:34:56.789Z");
    assert!(listed[0].verified);
}

#[test]
fn empty_identifiers_are_a_pair_like_any_other() {
    let mut store = AchievementStore::new();
    assert!(store.validate_achievement(submission("", "", 0, 0)));
    assert!(!store.validate_achievement(submission("", "", 0, 0)));
    assert!(store.validate_achievement(submission("", "x", 0, 0)));
    assert_eq!(store.get_user_achievements(String::new()).len(), 2);
}

#[test]
fn history_reshapes_records_with_placeholders() {
    let mut store = AchievementStore::new();
    let mut data = submission("ivy", "first_visit", 3, 4);
    data.achievement_name = "First visit".to_string();
    data.wallet_address = "So1anaWa11et".to_string();
    assert!(store.validate_achievement(data));
    let history = store.get_achievement_history("ivy".to_string());
    assert_eq!(history.len(), 1);
    assert_eq!(
        history[0],
        AchievementData {
            user_id: "ivy".to_string(),
            achievement_id: "first_visit".to_string(),
            achievement_name: "Achievement".to_string(),
            required_visits: 0,
            current_visits: 0,
            timestamp: "2024-01-01T00:00:00Z".to_string(),
            wallet_address: String::new(),
        }
    );
}

#[test]
fn history_follows_the_listing() {
    let mut store = AchievementStore::new();
    for achievement in ["c", "a", "b"] {
        assert!(store.validate_achievement(submission("jo", achievement, 1, 1)));
    }
    assert!(store.validate_achievement(submission("joe", "a", 1, 1)));
    let listed = store.get_user_achievements("jo".to_string());
    let history = store.get_achievement_history("jo".to_string());
    assert_eq!(history.len(), 3);
    for (record, entry) in listed.iter().zip(history.iter()) {
        assert_eq!(record.achievement_id, entry.achievement_id);
        assert_eq!(record.user_id, entry.user_id);
        assert_eq!(record.unlocked_at, entry.timestamp);
    }
    let ids: Vec<&str> = history.iter().map(|e| e.achievement_id.as_str()).collect();
    assert_eq!(ids, vec!["a", "b", "c"]);
}

#[test]
fn ordinary_records_fit() {
    assert!(record_fits(&submission("alice", "first_visit", 1, 1)));
    assert!(record_fits(&submission("", "", 0, 0)));
    assert!(record_fits(&submission(&"u".repeat(5000), &"a".repeat(5000), 0, 0)));
}
