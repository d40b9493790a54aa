//! Presence store semantics: the time-to-live window, refresh, and batch
//! queries.

use chat_core::presence::{combine_presence, PresenceStore};

#[test]
fn online_flag_expires_after_ttl() {
    let mut store = PresenceStore::new();
    store.set_online(7, 100);
    assert!(store.is_online(7, 100));
    assert!(store.is_online(7, 159));
    assert!(!store.is_online(7, 160), "the flag dies when the window closes");
}

#[test]
fn refresh_extends_only_a_live_flag() {
    let mut store = PresenceStore::new();
    store.set_online(7, 100);

    store.refresh(7, 150);
    assert!(store.is_online(7, 200), "a refreshed flag lives on");

    store.refresh(7, 500);
    assert!(!store.is_online(7, 501), "refreshing an expired flag revives nothing");

    store.refresh(8, 100);
    assert!(!store.is_online(8, 100), "refreshing an absent flag creates nothing");
}

#[test]
fn offline_transition_clears_flag_and_records_last_seen() {
    let mut store = PresenceStore::new();
    store.set_online(7, 100);
    store.set_offline(7, "2024-05-01T00:00:00+00:00".to_string());
    assert!(!store.is_online(7, 101));
    assert_eq!(store.get_last_seen(7), Some("2024-05-01T00:00:00+00:00".to_string()));
    assert_eq!(store.get_last_seen(8), None, "no stamp was ever recorded");
}

#[test]
fn batch_reports_online_without_stamp_and_offline_with_it() {
    let mut store = PresenceStore::new();
    // Five users: two online, one offline with a stamp, two never seen.
    store.set_online(1, 100);
    store.set_online(2, 100);
    store.set_online(3, 100);
    store.set_offline(3, "2024-05-01T00:00:00+00:00".to_string());

    let batch = store.get_batch(&vec![1, 2, 3, 4, 5], 120);
    assert_eq!(batch.len(), 5);

    let online: Vec<u128> =
        batch.iter().filter(|p| p.is_online).map(|p| p.user_id).collect();
    assert_eq!(online, vec![1, 2], "exactly the users whose flag is live report online");

    for p in &batch {
        if p.is_online {
            assert_eq!(p.last_seen, None);
        }
    }
    assert_eq!(batch[2].last_seen, Some("2024-05-01T00:00:00+00:00".to_string()));
    assert_eq!(batch[3].last_seen, None);
    assert_eq!(batch[4].last_seen, None);
}

#[test]
fn combine_pairs_offline_users_with_their_fetched_stamps() {
    let user_ids = vec![10, 11, 12, 13];
    let flags = vec![true, false, false, true];
    let stamps = vec![Some("first".to_string()), None];

    let combined = combine_presence(&user_ids, &flags, &stamps);
    assert_eq!(combined.len(), 4);

    assert_eq!(combined[0].user_id, 10);
    assert!(combined[0].is_online);
    assert_eq!(combined[0].last_seen, None);

    assert!(!combined[1].is_online);
    assert_eq!(combined[1].last_seen, Some("first".to_string()));

    assert!(!combined[2].is_online);
    assert_eq!(combined[2].last_seen, None, "the second offline user had no stamp");

    assert!(combined[3].is_online);
    assert_eq!(combined[3].last_seen, None);
}

#[test]
fn combine_with_empty_input_is_empty() {
    let combined = combine_presence(&vec![], &vec![], &vec![]);
    assert!(combined.is_empty());
}
