use wallpaper::monitors::PassError;
use wallpaper::select::{
    all_images, pick_transition, shown_images, valid_images, ImageSearch, Pass,
    DEFAULT_TRANSITION, FALLBACK_IMAGE,
};
use wallpaper::state::{Cache, Config};
use wallpaper::time::TimeOfDay;
use wallpaper::{Monitors, ValidTime};

fn at(h: u32) -> TimeOfDay {
    TimeOfDay::new(h * 3600, 0).unwrap()
}

fn day_and_night_config() -> Config {
    let mut c = Config::default();
    c.images.insert(String::from("a.png"), vec![ValidTime::parse("9-17").unwrap()]);
    c.images.insert(String::from("b.png"), vec![ValidTime::parse("*").unwrap()]);
    c
}

fn sorted(mut v: Vec<String>) -> Vec<String> {
    v.sort();
    v
}

#[test]
fn morning_first_tier_holds_both_images() {
    let c = day_and_night_config();
    let search = ImageSearch::new(&c, &Vec::new(), &at(10));
    assert_eq!(search.tier(), 1);
    assert_eq!(sorted(search.candidates().clone()), vec![String::from("a.png"), String::from("b.png")]);
}

#[test]
fn evening_first_tier_holds_only_all_day_image() {
    let c = day_and_night_config();
    let mut search = ImageSearch::new(&c, &Vec::new(), &at(20));
    assert_eq!(search.candidates(), &vec![String::from("b.png")]);
    assert_eq!(search.propose(), Some(String::from("b.png")));
}

#[test]
fn tiers_come_in_order() {
    let c = day_and_night_config();
    let shown = vec![String::from("b.png")];
    let mut search = ImageSearch::new(&c, &shown, &at(20));
    // tier one is empty: b.png is shown and a.png is not valid at 20:00
    assert_eq!(search.propose(), Some(String::from("b.png")));
    assert_eq!(search.tier(), 2);
    let third: Vec<String> = vec![search.propose().unwrap(), search.propose().unwrap()];
    assert_eq!(search.tier(), 3);
    assert_eq!(sorted(third), vec![String::from("a.png"), String::from("b.png")]);
    assert_eq!(search.propose(), Some(String::from(FALLBACK_IMAGE)));
    assert_eq!(search.tier(), 4);
    assert_eq!(search.propose(), None);
}

#[test]
fn images_join_the_image_directory() {
    let mut c = day_and_night_config();
    c.image_dir = String::from("/pics");
    assert_eq!(valid_images(&c, &at(20)), vec![String::from("/pics/b.png")]);
    assert_eq!(all_images(&c), vec![String::from("/pics/a.png"), String::from("/pics/b.png")]);
    c.image_dir = String::from("/pics/");
    assert_eq!(valid_images(&c, &at(20)), vec![String::from("/pics/b.png")]);
}

#[test]
fn absolute_images_ignore_the_image_directory() {
    let mut c = Config::default();
    c.image_dir = String::from("/other");
    c.select_images(&vec![String::from("/pics/one.png")], false);
    assert_eq!(all_images(&c), vec![String::from("/pics/one.png")]);
}

#[test]
fn shown_images_cover_every_monitor() {
    let mut cache = Cache::default();
    cache.update(String::from("DP-1"), String::from("/x.png"), String::from("fade"), 1);
    cache.update(String::from("DP-2"), String::from("/y.png"), String::from("fade"), 2);
    assert_eq!(shown_images(&cache), vec![String::from("/x.png"), String::from("/y.png")]);
}

#[test]
fn two_monitors_share_the_pre_pass_exclusion() {
    // with one valid image and nothing shown before the pass, both monitors
    // draw it from the first tier: exclusion is taken once before the pass
    let mut c = Config::default();
    c.images.insert(String::from("only.png"), vec![ValidTime::all()]);
    let mut cache = Cache::default();
    let connected = vec![String::from("DP-1"), String::from("DP-2")];
    let mut pass = Pass::start(&cache, &Monitors::All, &connected).unwrap();
    let mut got = Vec::new();
    while let Some(monitor) = pass.current() {
        let mut search = pass.search(&c, &at(12));
        let image = search.propose().unwrap();
        assert_eq!(search.tier(), 1);
        assert!(pass.serve(&mut cache, image.clone(), String::from("fade"), 7));
        got.push((monitor, image));
    }
    assert_eq!(
        got,
        vec![
            (String::from("DP-1"), String::from("only.png")),
            (String::from("DP-2"), String::from("only.png")),
        ]
    );
    assert_eq!(cache.last_images.get("DP-2"), Some(&String::from("only.png")));
    assert_eq!(cache.last_update, 7);
}

#[test]
fn pass_leaves_out_images_shown_before() {
    let c = day_and_night_config();
    let mut cache = Cache::default();
    cache.update(String::from("DP-1"), String::from("b.png"), String::from("fade"), 1);
    let pass = Pass::start(&cache, &Monitors::All, &vec![String::from("DP-1")]).unwrap();
    let search = pass.search(&c, &at(10));
    assert_eq!(search.candidates(), &vec![String::from("a.png")]);
}

#[test]
fn pass_without_valid_monitor_fails() {
    let cache = Cache::default();
    let choice = Monitors::Listed(vec![String::from("DP-1")]);
    let r = Pass::start(&cache, &choice, &vec![String::from("HDMI-1")]);
    assert_eq!(r.unwrap_err(), PassError::NoValidMonitor);
}

#[test]
fn empty_transitions_use_default() {
    assert_eq!(pick_transition(&Vec::new()), DEFAULT_TRANSITION);
    assert_eq!(DEFAULT_TRANSITION, "simple");
}

#[test]
fn transition_is_one_configured() {
    let t = vec![String::from("grow"), String::from("wipe")];
    for _ in 0..20 {
        let p = pick_transition(&t);
        assert!(t.contains(&p));
    }
}

#[test]
fn select_replaces_images() {
    let mut c = day_and_night_config();
    c.select_images(&vec![String::from("/pics/one.png")], false);
    assert_eq!(c.images.len(), 1);
    assert_eq!(c.images.entries[0], (String::from("/pics/one.png"), vec![ValidTime::all()]));
}

#[test]
fn select_keeping_old_images_extends() {
    let mut c = day_and_night_config();
    c.select_images(&vec![String::from("/pics/one.png"), String::from("a.png")], true);
    assert_eq!(c.images.len(), 3);
    assert_eq!(c.images.get("a.png"), Some(&vec![ValidTime::all()]));
    assert_eq!(c.images.get("b.png"), Some(&vec![ValidTime::all()]));
    assert_eq!(c.images.get("/pics/one.png"), Some(&vec![ValidTime::all()]));
}
