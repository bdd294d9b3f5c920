use ml2::play::{
    ml2_play_dir, parse_load_order, render_load_order, AudioSettings, Binary, BugFixes,
    KeyBindings, LoadMod, LoadOrder, Playlunky, ScriptSettings, SpriteSettings, Version,
};

fn entry(enabled: bool, id: &str) -> LoadMod {
    LoadMod { enabled, id: id.to_string() }
}

#[test]
fn play_dir_under_manager_path() {
    assert_eq!(ml2_play_dir("/opt/ml2", "nightly"), "/opt/ml2/playlunky/nightly");
}

#[test]
fn binary_dirs_by_version() {
    let b = Binary::new("/games/s2", "/opt/ml2", Version::Nightly);
    assert_eq!(b.play_dir, "/opt/ml2/playlunky/nightly");
    assert_eq!(b.install_dir, "/games/s2");
    let b = Binary::new("/games/s2", "/opt/ml2", Version::Stable);
    assert_eq!(b.play_dir, "/opt/ml2/playlunky/stable");
    let b = Binary::new("/games/s2", "/opt/ml2", Version::Local("/my/build".to_string()));
    assert_eq!(b.play_dir, "/my/build");
}

#[test]
fn config_paths() {
    assert_eq!(Playlunky::new("/games/s2").path, "/games/s2/playlunky.ini");
    assert_eq!(LoadOrder::new("/games/s2").path, "/games/s2/Mods\\Packs\\load_order.txt");
}

#[test]
fn load_order_parse() {
    let order = parse_load_order("alpha\n--beta\r\ngamma");
    assert_eq!(order, vec![entry(true, "alpha"), entry(false, "beta"), entry(true, "gamma")]);
    assert_eq!(parse_load_order(""), vec![]);
    assert_eq!(parse_load_order("a\n\nb\n"), vec![entry(true, "a"), entry(true, ""), entry(true, "b")]);
    assert_eq!(parse_load_order("-x"), vec![entry(true, "-x")]);
}

#[test]
fn load_order_render() {
    let order = vec![entry(true, "alpha"), entry(false, "beta")];
    assert_eq!(render_load_order(&order), "alpha\n--beta\n");
    assert_eq!(render_load_order(&vec![]), "");
    assert_eq!(parse_load_order(&render_load_order(&order)), order);
}

#[test]
fn settings_defaults() {
    let s = ScriptSettings::default();
    assert_eq!(s.console_history_size, 20);
    assert!(!s.enable_developer_mode);
    let a = AudioSettings::default();
    assert!(a.enable_loose_audio_files && a.synchronous_update && !a.cache_decoded_audio_files);
    let sp = SpriteSettings::default();
    assert_eq!(sp.sprite_hot_load_delay, 400);
    assert!(sp.link_related_files && !sp.random_character_select);
    let b = BugFixes::default();
    assert!(b.out_of_bounds_liquids && b.missing_thorns && !b.missing_pipes);
    let k = KeyBindings::default();
    assert_eq!((k.console, k.console_alt, k.console_close), (0xc0, 0xdc, 0x1b));
}
