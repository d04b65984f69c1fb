use wallpaper::state::{Cache, CacheOutcome, Config, ConfigOutcome, CACHE_VERSION};
use wallpaper::table::Table;
use wallpaper::{Monitors, State};

fn cache_with(version: usize, last_update: u128, images: &[(&str, &str)]) -> Cache {
    let mut c = Cache::with_version(version, last_update);
    for (m, i) in images {
        c.last_images.insert(m.to_string(), i.to_string());
        c.last_transitions.insert(m.to_string(), String::from("fade"));
    }
    c
}

fn image_of(state: &State, monitor: &str) -> Option<String> {
    state.cache.last_images.get(monitor).cloned()
}

#[test]
fn first_reload_merges_cache() {
    let mut s = State::new();
    let r = s.reload(Some(cache_with(CACHE_VERSION, 42, &[("DP-1", "/a.png")])), None);
    assert_eq!(r, (CacheOutcome::Merged, ConfigOutcome::Absent));
    assert_eq!(image_of(&s, "DP-1"), Some(String::from("/a.png")));
    assert_eq!(s.cache.last_update, 42);
}

#[test]
fn second_reload_with_same_content_changes_nothing() {
    let mut s = State::new();
    let mut config = Config::default();
    config.fps = 60;
    s.reload(Some(cache_with(CACHE_VERSION, 42, &[("DP-1", "/a.png")])), Some(config));
    // changes in memory that a repeated read must not undo
    s.cache.update(String::from("DP-1"), String::from("/b.png"), String::from("wipe"), 99);
    s.config.fps = 10;
    let mut again = Config::default();
    again.fps = 60;
    let r = s.reload(Some(cache_with(CACHE_VERSION, 42, &[("DP-1", "/a.png")])), Some(again));
    assert_eq!(r, (CacheOutcome::Unchanged, ConfigOutcome::Unchanged));
    assert_eq!(image_of(&s, "DP-1"), Some(String::from("/b.png")));
    assert_eq!(s.cache.last_update, 99);
    assert_eq!(s.config.fps, 10);
}

#[test]
fn cache_only_time_change_is_no_change() {
    let mut s = State::new();
    s.reload(Some(cache_with(CACHE_VERSION, 42, &[("DP-1", "/a.png")])), None);
    let r = s.reload(Some(cache_with(CACHE_VERSION, 77, &[("DP-1", "/a.png")])), None);
    assert_eq!(r.0, CacheOutcome::Unchanged);
    assert_eq!(s.cache.last_update, 42);
}

#[test]
fn forced_reload_merges_again() {
    let mut s = State::new();
    s.reload(Some(cache_with(CACHE_VERSION, 42, &[("DP-1", "/a.png")])), None);
    s.cache.update(String::from("DP-1"), String::from("/b.png"), String::from("wipe"), 99);
    let r = s.force_reload(Some(cache_with(CACHE_VERSION, 42, &[("DP-1", "/a.png")])), None);
    assert_eq!(r.0, CacheOutcome::Merged);
    assert_eq!(image_of(&s, "DP-1"), Some(String::from("/a.png")));
    assert_eq!(s.cache.last_update, 42);
}

#[test]
fn other_version_is_never_merged() {
    let mut s = State::new();
    s.cache.update(String::from("DP-1"), String::from("/keep.png"), String::from("fade"), 5);
    let r = s.reload(Some(cache_with(CACHE_VERSION + 1, 42, &[("DP-1", "/a.png"), ("DP-2", "/c.png")])), None);
    assert_eq!(r.0, CacheOutcome::VersionMismatch(CACHE_VERSION + 1));
    assert_eq!(image_of(&s, "DP-1"), Some(String::from("/keep.png")));
    assert_eq!(image_of(&s, "DP-2"), None);
    assert_eq!(s.cache.last_update, 5);
    let r = s.force_reload(Some(cache_with(CACHE_VERSION + 1, 42, &[("DP-1", "/a.png")])), None);
    assert_eq!(r.0, CacheOutcome::VersionMismatch(CACHE_VERSION + 1));
    assert_eq!(image_of(&s, "DP-1"), Some(String::from("/keep.png")));
}

#[test]
fn unchosen_monitors_are_not_merged() {
    let mut s = State::new();
    s.cache.update(String::from("HDMI-1"), String::from("/old.png"), String::from("fade"), 5);
    s.config.monitors = Monitors::Listed(vec![String::from("DP-1")]);
    let loaded = cache_with(CACHE_VERSION, 42, &[("DP-1", "/a.png"), ("HDMI-1", "/h.png"), ("DP-2", "/c.png")]);
    s.reload(Some(loaded), None);
    assert_eq!(image_of(&s, "DP-1"), Some(String::from("/a.png")));
    assert_eq!(image_of(&s, "HDMI-1"), Some(String::from("/old.png")));
    assert_eq!(image_of(&s, "DP-2"), None);
}

#[test]
fn config_replaces_wholesale() {
    let mut s = State::new();
    let mut config = Config::default();
    config.transitions = vec![String::from("grow")];
    config.image_dir = String::from("/pics");
    let r = s.reload(None, Some(config));
    assert_eq!(r, (CacheOutcome::Absent, ConfigOutcome::Replaced));
    assert_eq!(s.config.transitions, vec![String::from("grow")]);
    assert_eq!(s.config.image_dir, "/pics");
}

#[test]
fn first_read_is_always_taken() {
    let mut s = State::new();
    let r = s.reload(Some(cache_with(CACHE_VERSION, 7, &[])), Some(Config::default()));
    assert_eq!(r, (CacheOutcome::Merged, ConfigOutcome::Replaced));
    assert_eq!(s.cache.last_update, 7);
    let r = s.reload(Some(cache_with(CACHE_VERSION, 7, &[])), Some(Config::default()));
    assert_eq!(r, (CacheOutcome::Unchanged, ConfigOutcome::Unchanged));
}

#[test]
fn entry_order_is_no_change() {
    let mut s = State::new();
    s.reload(Some(cache_with(CACHE_VERSION, 1, &[("DP-1", "/a.png"), ("DP-2", "/b.png")])), None);
    let r = s.reload(Some(cache_with(CACHE_VERSION, 2, &[("DP-2", "/b.png"), ("DP-1", "/a.png")])), None);
    assert_eq!(r.0, CacheOutcome::Unchanged);
    assert_eq!(s.cache.last_update, 1);
}

#[test]
fn version_change_is_a_change() {
    let mut s = State::new();
    s.reload(Some(cache_with(CACHE_VERSION, 1, &[])), None);
    let r = s.reload(Some(cache_with(CACHE_VERSION + 1, 1, &[])), None);
    assert_eq!(r.0, CacheOutcome::VersionMismatch(CACHE_VERSION + 1));
}

#[test]
fn defaults_hold_documented_values() {
    let c = Config::default();
    assert_eq!(c.check_interval, 300_000_000_000);
    assert_eq!(c.update_interval, 3_600_000_000_000);
    assert_eq!(c.fps, 30);
    assert!(matches!(c.monitors, Monitors::All));
    let k = Cache::default();
    assert_eq!(k.version, CACHE_VERSION);
    assert_eq!(k.last_update, 0);
}

#[test]
fn record_skips_presenting_same_image() {
    let mut c = Cache::default();
    assert!(c.record(String::from("DP-1"), String::from("/a.png"), String::from("fade"), 10));
    assert!(!c.record(String::from("DP-1"), String::from("/a.png"), String::from("wipe"), 20));
    assert_eq!(c.last_update, 20);
    assert_eq!(c.last_transitions.get("DP-1"), Some(&String::from("wipe")));
    assert!(c.record(String::from("DP-1"), String::from("/b.png"), String::from("wipe"), 30));
}

#[test]
fn table_insert_replaces_in_place() {
    let mut t: Table<String> = Table::new();
    t.insert(String::from("a"), String::from("1"));
    t.insert(String::from("b"), String::from("2"));
    t.insert(String::from("a"), String::from("3"));
    assert_eq!(t.len(), 2);
    assert_eq!(t.entries[0], (String::from("a"), String::from("3")));
    assert_eq!(t.find("b"), Some(1));
    assert_eq!(t.find("c"), None);
}
