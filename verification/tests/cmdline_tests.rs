use layeredfs::cmdline::CommandLine;

fn sample() -> CommandLine {
    CommandLine::from_args(
        "game".to_string(),
        vec![
            "-width".to_string(),
            "1280".to_string(),
            "+fullscreen".to_string(),
            "-map".to_string(),
            "de_dust".to_string(),
            "-map".to_string(),
            "de_nuke".to_string(),
            "-verbose".to_string(),
        ],
    )
}

#[test]
fn cmdline_parses_pairs() {
    let cl = sample();
    assert_eq!(cl.executable(), "game");
    let params = cl.get_params();
    assert_eq!(params.len(), 5);
    assert_eq!(params[0].get_key(), "-width");
    assert!(params[0].has_value());
    assert_eq!(params[0].get_value(), "1280");
    assert_eq!(params[1].get_key(), "+fullscreen");
    assert!(!params[1].has_value());
    assert_eq!(params[4].get_key(), "-verbose");
    assert!(!params[4].has_value());
}

#[test]
fn cmdline_flag_and_option() {
    let cl = sample();
    assert!(cl.flag("+fullscreen"));
    assert!(cl.flag("-verbose"));
    assert!(!cl.flag("-absent"));
    assert_eq!(cl.option("-width").map(|s| s.as_str()), Some("1280"));
    assert_eq!(cl.option("-map").map(|s| s.as_str()), Some("de_dust"));
    assert!(cl.option("-absent").is_none());
    assert!(cl.option("-verbose").is_none());
}

#[test]
fn cmdline_option_many_and_all() {
    let cl = sample();
    let maps = cl.option_many("-map");
    assert_eq!(maps, vec!["de_dust".to_string(), "de_nuke".to_string()]);
    assert_eq!(cl.all().len(), 8);
    assert_eq!(cl.all()[0], "-width");
}
