use pecrab::env::{
    global_mem_limit_from_env, parse_si_bytes, resolve_ledger_dir, LedgerDir, MemLimitError, Setting, SiBytesError,
    DEFAULT_GLOBAL_MEMORY_LIMIT, GLOBAL_MEMORY_ENV, LEDGER_DIR_ENV,
};

#[test]
fn parse_si_bytes_plain_number() {
    assert_eq!(parse_si_bytes("1024").unwrap(), 1024);
}

#[test]
fn parse_si_bytes_kilobytes() {
    assert_eq!(parse_si_bytes("1K").unwrap(), 1_000);
    assert_eq!(parse_si_bytes("1KB").unwrap(), 1_000);
    assert_eq!(parse_si_bytes("1kb").unwrap(), 1_000);
}

#[test]
fn parse_si_bytes_megabytes() {
    assert_eq!(parse_si_bytes("500M").unwrap(), 500_000_000);
    assert_eq!(parse_si_bytes("500MB").unwrap(), 500_000_000);
    assert_eq!(parse_si_bytes("500mb").unwrap(), 500_000_000);
}

#[test]
fn parse_si_bytes_gigabytes() {
    assert_eq!(parse_si_bytes("2G").unwrap(), 2_000_000_000);
    assert_eq!(parse_si_bytes("2GB").unwrap(), 2_000_000_000);
}

#[test]
fn parse_si_bytes_terabytes() {
    assert_eq!(parse_si_bytes("1T").unwrap(), 1_000_000_000_000);
    assert_eq!(parse_si_bytes("1TB").unwrap(), 1_000_000_000_000);
}

#[test]
fn parse_si_bytes_invalid_returns_err() {
    assert!(parse_si_bytes("abc").is_err());
    assert!(parse_si_bytes("MB").is_err());
}

#[test]
fn white_space_and_plus_sign_are_accepted() {
    assert_eq!(parse_si_bytes(" \t12 MB\u{a0}\u{3000}").unwrap(), 12_000_000);
    assert_eq!(parse_si_bytes("+7k").unwrap(), 7_000);
    assert_eq!(parse_si_bytes("5B").unwrap(), 5);
    assert_eq!(parse_si_bytes("0T").unwrap(), 0);
    assert_eq!(parse_si_bytes("18446744073709551615").unwrap(), u64::MAX);
}

fn prefix_of(text: &str) -> String {
    match parse_si_bytes(text) {
        Err(SiBytesError::InvalidNumber { prefix }) => prefix,
        other => panic!("unexpected {:?}", other),
    }
}

#[test]
fn invalid_number_reports_the_part_before_the_suffix() {
    assert_eq!(prefix_of("abc"), "abc");
    assert_eq!(prefix_of("MB"), "");
    assert_eq!(prefix_of(" 1x K "), "1x ");
    assert_eq!(prefix_of("-1G"), "-1");
    assert_eq!(prefix_of("+"), "+");
    assert_eq!(prefix_of("1KBB"), "1KB");
    assert_eq!(prefix_of("18446744073709551616"), "18446744073709551616");
    assert_eq!(prefix_of("99999999999999999999M"), "99999999999999999999");
    assert_eq!(prefix_of("1_000"), "1_000");
    assert_eq!(prefix_of("\u{661}"), "\u{661}");
}

#[test]
fn product_beyond_64_bits_overflows() {
    assert!(matches!(parse_si_bytes("18446744073709551615K"), Err(SiBytesError::Overflow)));
    assert!(matches!(parse_si_bytes("18446745T"), Err(SiBytesError::Overflow)));
    assert_eq!(parse_si_bytes("18446744T").unwrap(), 18_446_744_000_000_000_000);
}

#[test]
fn memory_limit_follows_the_setting() {
    assert_eq!(
        global_mem_limit_from_env(Setting::Unset, DEFAULT_GLOBAL_MEMORY_LIMIT).unwrap(),
        2_000_000_000
    );
    assert_eq!(
        global_mem_limit_from_env(Setting::Text("500M".to_owned()), 1).unwrap(),
        500_000_000
    );
    assert!(matches!(
        global_mem_limit_from_env(Setting::NotUnicode, 1),
        Err(MemLimitError::NotUnicode)
    ));
    match global_mem_limit_from_env(Setting::Text("lots".to_owned()), 1) {
        Err(MemLimitError::Invalid { value, cause }) => {
            assert_eq!(value, "lots");
            assert!(matches!(cause, SiBytesError::InvalidNumber { .. }));
        }
        other => panic!("unexpected {:?}", other),
    }
    match global_mem_limit_from_env(Setting::Text("99999999T".to_owned()), 1) {
        Err(MemLimitError::Invalid { cause, .. }) => assert!(matches!(cause, SiBytesError::Overflow)),
        other => panic!("unexpected {:?}", other),
    }
    let widest = global_mem_limit_from_env(Setting::Text(u64::MAX.to_string()), 1);
    if usize::MAX as u64 == u64::MAX {
        assert_eq!(widest.unwrap(), usize::MAX);
    } else {
        assert!(matches!(widest, Err(MemLimitError::TooLarge)));
    }
}

#[test]
fn ledger_directory_is_chosen_in_order() {
    assert_eq!(resolve_ledger_dir(true, true), LedgerDir::Override);
    assert_eq!(resolve_ledger_dir(true, false), LedgerDir::Override);
    assert_eq!(resolve_ledger_dir(false, true), LedgerDir::VarTmp);
    assert_eq!(resolve_ledger_dir(false, false), LedgerDir::TempDir);
    assert_eq!(LEDGER_DIR_ENV, "PECRAB_LEDGER_DIR");
    assert_eq!(GLOBAL_MEMORY_ENV, "PECRAB_GLOBAL_MEMORY_LIMIT");
}
