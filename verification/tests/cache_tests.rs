use homepage_core::cache::{Cache, CacheState};
use std::cell::RefCell;

#[test]
fn fresh_value_served_without_fetch() {
    let cache: Cache<String> = Cache::new(1000);
    let calls = RefCell::new(0u32);
    let r1 = cache.get_or_update_at(0, || {
        *calls.borrow_mut() += 1;
        Some("A".to_string())
    });
    assert_eq!(r1.as_deref(), Some(&"A".to_string()));
    assert_eq!(*calls.borrow(), 1);

    // Within the ttl the stored value is served and the fetcher never runs.
    let r2 = cache.get_or_update_at(500, || {
        *calls.borrow_mut() += 1;
        Some("B".to_string())
    });
    assert_eq!(r2.as_deref(), Some(&"A".to_string()));
    assert_eq!(*calls.borrow(), 1);
}

#[test]
fn ttl_scenario_second_fetch_after_expiry() {
    // ttl of one second; fetch answers "A" then "B".
    let cache: Cache<String> = Cache::new(1000);
    let calls = RefCell::new(0u32);
    let fetch = |v: &str| {
        *calls.borrow_mut() += 1;
        Some(v.to_string())
    };
    let r1 = cache.get_or_update_at(0, || fetch("A"));
    assert_eq!(r1.as_deref(), Some(&"A".to_string()));
    let r2 = cache.get_or_update_at(500, || fetch("B"));
    assert_eq!(r2.as_deref(), Some(&"A".to_string()));
    assert_eq!(*calls.borrow(), 1);
    let r3 = cache.get_or_update_at(1200, || fetch("B"));
    assert_eq!(r3.as_deref(), Some(&"B".to_string()));
    assert_eq!(*calls.borrow(), 2);
}

#[test]
fn single_flight_within_window() {
    // Once one caller refreshes a stale slot, callers arriving anywhere in
    // the same window get that value and never fetch.
    let cache: Cache<u64> = Cache::new(1000);
    let calls = RefCell::new(0u32);
    let r1 = cache.get_or_update_at(2000, || {
        *calls.borrow_mut() += 1;
        Some(41)
    });
    assert_eq!(r1.as_deref(), Some(&41));
    for now in [2000u64, 2001, 2500, 2999] {
        let r = cache.get_or_update_at(now, || {
            *calls.borrow_mut() += 1;
            Some(99)
        });
        assert_eq!(r.as_deref(), Some(&41));
    }
    assert_eq!(*calls.borrow(), 1);
}

#[test]
fn failed_fetch_keeps_stale_value_and_timestamp() {
    let cache: Cache<String> = Cache::new(1000);
    let calls = RefCell::new(0u32);
    let r1 = cache.get_or_update_at(0, || {
        *calls.borrow_mut() += 1;
        Some("A".to_string())
    });
    assert_eq!(r1.as_deref(), Some(&"A".to_string()));

    // The fetch fails after expiry: the old value comes back unchanged.
    let r2 = cache.get_or_update_at(1500, || {
        *calls.borrow_mut() += 1;
        None
    });
    assert_eq!(r2.as_deref(), Some(&"A".to_string()));
    assert_eq!(*calls.borrow(), 2);

    // The failure did not advance the refresh instant: the next call still
    // sees a stale slot and fetches again.
    let r3 = cache.get_or_update_at(1600, || {
        *calls.borrow_mut() += 1;
        Some("B".to_string())
    });
    assert_eq!(r3.as_deref(), Some(&"B".to_string()));
    assert_eq!(*calls.borrow(), 3);
}

#[test]
fn empty_slot_failed_fetch_yields_nothing() {
    let cache: Cache<String> = Cache::new(1000);
    let r = cache.get_or_update_at(0, || None);
    assert!(r.is_none());
}

#[test]
fn state_caches_carry_their_ttls() {
    let lastfm = homepage_core::state::LastfmCache::new();
    assert_eq!(lastfm.now_playing.ttl(), 60_000);
    assert_eq!(lastfm.top_artists.ttl(), 216_000_000);
    assert_eq!(lastfm.top_tracks.ttl(), 3_600_000);
    assert_eq!(lastfm.top_albums.ttl(), 3_600_000);
    assert_eq!(lastfm.user_stats.ttl(), 300_000);
    let wttr = homepage_core::state::WttrCache::new();
    assert_eq!(wttr.weather.ttl(), 900_000);
}

#[test]
fn exclusive_section_follows_the_slot_step() {
    let mut slot: CacheState<String> = CacheState { data: None, last_updated: 0 };
    let r = slot.refresh_with(1000, 5, || Some("A".to_string()));
    assert_eq!(r.as_deref(), Some(&"A".to_string()));
    assert_eq!(slot.last_updated, 5);
    // Fresh: the fetcher is not consulted and the slot stays.
    let r = slot.refresh_with(1000, 600, || Some("B".to_string()));
    assert_eq!(r.as_deref(), Some(&"A".to_string()));
    assert_eq!(slot.last_updated, 5);
    // Stale and failing: the slot and its timestamp stay.
    let r = slot.refresh_with(1000, 2000, || None);
    assert_eq!(r.as_deref(), Some(&"A".to_string()));
    assert_eq!(slot.last_updated, 5);
}

#[test]
fn wall_clock_entry_point_runs() {
    let cache: Cache<u8> = Cache::new(60_000);
    let r = cache.get_or_update(|| Some(7));
    assert_eq!(r.as_deref(), Some(&7));
    // The slot was refreshed just now, so a second call serves it without
    // consulting the fetcher.
    let r = cache.get_or_update(|| Some(9));
    assert_eq!(r.as_deref(), Some(&7));
}
