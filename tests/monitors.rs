use wallpaper::monitors::{target_monitors, PassError};
use wallpaper::Monitors;

fn names(v: &[&str]) -> Vec<String> {
    v.iter().map(|s| s.to_string()).collect()
}

#[test]
fn all_includes_any_monitor() {
    assert!(Monitors::All.includes(&String::from("DP-1")));
}

#[test]
fn listed_includes_only_named() {
    let m = Monitors::Listed(names(&["DP-1", "HDMI-1"]));
    assert!(m.includes(&String::from("HDMI-1")));
    assert!(!m.includes(&String::from("DP-2")));
}

#[test]
fn all_targets_every_connected_monitor() {
    let t = target_monitors(&Monitors::All, &names(&["DP-1", "HDMI-1"])).unwrap();
    assert_eq!(t, names(&["DP-1", "HDMI-1"]));
}

#[test]
fn listed_targets_connected_ones_in_order() {
    let choice = Monitors::Listed(names(&["HDMI-1", "DP-9", "DP-1"]));
    let t = target_monitors(&choice, &names(&["DP-1", "HDMI-1"])).unwrap();
    assert_eq!(t, names(&["HDMI-1", "DP-1"]));
}

#[test]
fn unconnected_choice_has_no_valid_monitor() {
    let choice = Monitors::Listed(names(&["DP-1"]));
    let r = target_monitors(&choice, &names(&["HDMI-1"]));
    assert_eq!(r, Err(PassError::NoValidMonitor));
}

#[test]
fn nothing_connected_has_no_valid_monitor() {
    assert_eq!(target_monitors(&Monitors::All, &Vec::new()), Err(PassError::NoValidMonitor));
    let choice = Monitors::Listed(names(&["DP-1"]));
    assert_eq!(target_monitors(&choice, &Vec::new()), Err(PassError::NoValidMonitor));
}

#[test]
fn switch_choice_names_one_monitor() {
    match Monitors::for_switch(Some(String::from("DP-1"))) {
        Monitors::Listed(v) => assert_eq!(v, names(&["DP-1"])),
        Monitors::All => panic!("expected one monitor"),
    }
    assert!(matches!(Monitors::for_switch(None), Monitors::All));
}

#[test]
fn presenter_answer_gives_names() {
    let out = "DP-1: 1920x1080, scale: 1\nHDMI-1: 2560x1440\n";
    assert_eq!(wallpaper::monitors::monitor_names(out), Ok(names(&["DP-1", "HDMI-1"])));
    assert_eq!(wallpaper::monitors::monitor_names("eDP-1:x"), Ok(names(&["eDP-1"])));
    assert_eq!(wallpaper::monitors::monitor_names(""), Ok(Vec::new()));
}

#[test]
fn presenter_line_without_colon_is_refused() {
    let out = "DP-1: ok\nbroken line\nHDMI-1: ok\n";
    assert_eq!(wallpaper::monitors::monitor_names(out), Err(String::from("broken line")));
    assert_eq!(wallpaper::monitors::monitor_names("DP-1:a\n\n"), Err(String::new()));
}

#[test]
fn missing_monitors_are_listed_in_order() {
    let choice = Monitors::Listed(names(&["DP-9", "DP-1", "HDMI-3"]));
    let m = wallpaper::monitors::missing_monitors(&choice, &names(&["DP-1"]));
    assert_eq!(m, names(&["DP-9", "HDMI-3"]));
    assert!(wallpaper::monitors::missing_monitors(&Monitors::All, &Vec::new()).is_empty());
}
