use sim_core::cli::{parse_args, parse_decimal, parse_diff_args, parse_load_args, Args, DiffArgs, LoadArgs};

fn strings(raw: &[&str]) -> Vec<String> {
    raw.iter().map(|s| s.to_string()).collect()
}

#[test]
fn parses_flags_in_any_order() {
    let raw = vec![
        "--years".to_string(),
        "10".to_string(),
        "--seed".to_string(),
        "7".to_string(),
        "--json".to_string(),
    ];
    let args = parse_args(&raw).unwrap();
    assert_eq!(args.seed, 7);
    assert_eq!(args.years, 10);
    assert!(args.json);
}

#[test]
fn no_flags_gives_the_defaults() {
    assert_eq!(parse_args(&[]), Ok(Args { seed: 42, years: 1, json: false, system_count: 3, save_path: None }));
}

#[test]
fn each_malformed_flag_has_its_own_error() {
    assert_eq!(parse_args(&strings(&["--seed"])), Err("--seed requires a value".to_string()));
    assert_eq!(parse_args(&strings(&["--seed", "x"])), Err("--seed must be a u64".to_string()));
    assert_eq!(parse_args(&strings(&["--years"])), Err("--years requires a value".to_string()));
    assert_eq!(parse_args(&strings(&["--years", "4294967296"])), Err("--years must be a u32".to_string()));
    assert_eq!(parse_args(&strings(&["--fast"])), Err("unrecognized argument: --fast".to_string()));
}

#[test]
fn a_later_flag_overrides_an_earlier_one() {
    let args = parse_args(&strings(&["--seed", "1", "--seed", "+18446744073709551615"])).unwrap();
    assert_eq!(args.seed, u64::MAX);
}

#[test]
fn decimal_parsing_follows_unsigned_from_str() {
    assert_eq!(parse_decimal("0", u64::MAX), Some(0));
    assert_eq!(parse_decimal("+12", u64::MAX), Some(12));
    assert_eq!(parse_decimal("007", u64::MAX), Some(7));
    assert_eq!(parse_decimal("18446744073709551615", u64::MAX), Some(u64::MAX));
    assert_eq!(parse_decimal("18446744073709551616", u64::MAX), None);
    assert_eq!(parse_decimal("4294967295", u32::MAX as u64), Some(4294967295));
    assert_eq!(parse_decimal("4294967296", u32::MAX as u64), None);
    for bad in ["", "+", "-1", " 1", "1 ", "1_000", "١"] {
        assert_eq!(parse_decimal(bad, u64::MAX), None, "{bad:?} should not parse");
        assert!(bad.parse::<u64>().is_err());
    }
}

#[test]
fn a_preset_sets_the_seed_and_the_system_count() {
    let args = parse_args(&strings(&["--preset", "sprawling", "--years", "5"])).unwrap();
    assert_eq!(args, Args { seed: 200, years: 5, json: false, system_count: 6, save_path: None });
    let args = parse_args(&strings(&["--preset", "tutorial", "--seed", "7"])).unwrap();
    assert_eq!((args.seed, args.system_count), (7, 2));
}

#[test]
fn an_unknown_preset_lists_the_known_ones() {
    assert_eq!(
        parse_args(&strings(&["--preset", "tutoral"])),
        Err("unknown preset: tutoral (expected one of: tutorial, resource-poor, sprawling, single-system, prosperous)"
            .to_string())
    );
    assert_eq!(parse_args(&strings(&["--preset"])), Err("--preset requires a name".to_string()));
}

#[test]
fn run_can_name_a_save_file() {
    let args = parse_args(&strings(&["--save", "out.json", "--seed", "3"])).unwrap();
    assert_eq!(args.save_path.as_deref(), Some("out.json"));
    assert_eq!(args.seed, 3);
    assert_eq!(parse_args(&strings(&["--save"])), Err("--save requires a path".to_string()));
}

#[test]
fn load_needs_a_path_and_takes_years_and_json() {
    assert_eq!(
        parse_load_args(&strings(&["--years", "4", "--path", "save.json", "--json"])),
        Ok(LoadArgs { path: "save.json".to_string(), years: 4, json: true })
    );
    assert_eq!(
        parse_load_args(&strings(&["--path", "s.json"])),
        Ok(LoadArgs { path: "s.json".to_string(), years: 1, json: false })
    );
    assert_eq!(parse_load_args(&strings(&["--years", "2"])), Err("--path is required".to_string()));
    assert_eq!(parse_load_args(&strings(&["--path"])), Err("--path requires a value".to_string()));
    assert_eq!(parse_load_args(&strings(&["--seed", "1"])), Err("unrecognized argument: --seed".to_string()));
}

#[test]
fn diff_needs_both_documents() {
    assert_eq!(
        parse_diff_args(&strings(&["--b", "after.json", "--a", "before.json"])),
        Ok(DiffArgs { a: "before.json".to_string(), b: "after.json".to_string(), json: false })
    );
    assert_eq!(parse_diff_args(&strings(&["--b", "x"])), Err("--a is required".to_string()));
    assert_eq!(parse_diff_args(&strings(&["--a", "x", "--json"])), Err("--b is required".to_string()));
    assert_eq!(parse_diff_args(&strings(&["--a"])), Err("--a requires a path".to_string()));
}
