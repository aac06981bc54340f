use memster::config::{readable_size, ConfigError, MemsterConfig, SizeError};

fn config_with(pre_allocated: &str) -> MemsterConfig {
    MemsterConfig {
        _pre_allocated: pre_allocated.to_owned(),
        port: 1337,
        host: "localhost".to_owned(),
        ttl: 60,
        pre_allocted_bytes: 0,
        json_logging: false,
        num_shards: Some(8),
    }
}

fn loaded_bytes(pre_allocated: &str) -> Result<usize, ConfigError> {
    assert!(readable_size(pre_allocated));
    let loaded = MemsterConfig::load(config_with(pre_allocated));
    loaded.map(|config| config.pre_allocted_bytes)
}

#[test]
fn default_config() {
    let config = MemsterConfig::default();
    assert_eq!(8080, config.port);
    assert_eq!("none", config._pre_allocated);
    assert_eq!("0.0.0.0", config.host);
    assert_eq!(0, config.pre_allocted_bytes);
    assert_eq!(30 * 24 * 60 * 60, config.ttl);
    assert_eq!(None, config.num_shards);
    assert!(config.json_logging);
    assert_eq!("0.0.0.0:8080", config.address());
}

#[test]
fn load_reads_the_size() {
    assert_eq!(Ok(0), loaded_bytes("0"));
    assert_eq!(Ok(512), loaded_bytes("512"));
    assert_eq!(Ok(10_000), loaded_bytes("10 KB"));
    assert_eq!(Ok(1 << 20), loaded_bytes("1 MiB"));
    assert_eq!(Ok(209_715), loaded_bytes("0.2 MiB"));
    assert_eq!(Ok(1_420_000_000), loaded_bytes("14.2e+8"));
}

#[test]
fn load_keeps_the_other_settings() {
    let config = MemsterConfig::load(config_with("1 KiB")).unwrap();
    assert_eq!("1 KiB", config._pre_allocated);
    assert_eq!(1337, config.port);
    assert_eq!("localhost", config.host);
    assert_eq!(60, config.ttl);
    assert_eq!(1024, config.pre_allocted_bytes);
    assert!(!config.json_logging);
    assert_eq!(Some(8), config.num_shards);
    assert_eq!("localhost:1337", config.address());
}

#[test]
fn load_refuses_what_is_not_a_size() {
    assert_eq!(
        Err(ConfigError::PreAllocated(SizeError::Empty)),
        loaded_bytes("")
    );
    assert_eq!(
        Err(ConfigError::PreAllocated(SizeError::InvalidDigit)),
        loaded_bytes("none")
    );
    assert_eq!(
        Err(ConfigError::PreAllocated(SizeError::PosOverflow)),
        loaded_bytes("18446744073709551616")
    );
}

#[test]
fn size_decides_what_is_loaded() {
    let config = config_with("ignored").with_size(Ok(5)).unwrap();
    assert_eq!(5, config.pre_allocted_bytes);
    assert_eq!("ignored", config._pre_allocated);
    let error = config_with("5").with_size(Err(SizeError::Empty)).unwrap_err();
    assert_eq!(ConfigError::PreAllocated(SizeError::Empty), error);
    let loaded = config_with("5").with_size(Ok(u64::MAX));
    if usize::BITS >= 64 {
        assert_eq!(usize::MAX, loaded.unwrap().pre_allocted_bytes);
    } else {
        assert_eq!(ConfigError::TooLarge, loaded.unwrap_err());
    }
}

#[test]
fn errors_say_what_is_wrong() {
    assert_eq!(
        "Failed to parse pre_allocated field cannot parse integer from empty string",
        ConfigError::PreAllocated(SizeError::Empty).message()
    );
    assert_eq!(
        "Failed to parse pre_allocated field invalid digit found in string",
        ConfigError::PreAllocated(SizeError::InvalidDigit).message()
    );
    assert_eq!(
        "Failed to parse pre_allocated field number too large to fit in target type",
        ConfigError::PreAllocated(SizeError::PosOverflow).message()
    );
    assert_eq!(
        "out of range integral type conversion attempted",
        ConfigError::TooLarge.message()
    );
    assert_eq!(
        parse_size::Error::Empty.to_string(),
        SizeError::Empty.message()
    );
    assert_eq!(
        parse_size::Error::InvalidDigit.to_string(),
        SizeError::InvalidDigit.message()
    );
    assert_eq!(
        parse_size::Error::PosOverflow.to_string(),
        SizeError::PosOverflow.message()
    );
}

#[test]
fn sizes_that_round_up_the_maximum_are_not_readable() {
    for text in [
        "184467440737095516155",
        "18446744073709551615.5",
        "18_446_744_073_709_551_615 9 KB",
        "001.84467440737095516157",
    ] {
        assert!(!readable_size(text));
        assert!(MemsterConfig::load_if_readable(config_with(text)).is_none());
    }
}

#[test]
fn other_sizes_are_readable() {
    for text in [
        "",
        "none",
        "10 KB",
        "18446744073709551615",
        "18446744073709551614.5",
        "184467440737095516154",
        "1844674407370955161545",
        "18446744073709551615e-5",
        "18446744073709551615B",
        ".184467440737095516155",
        "1.8446.744073709551615 5",
        "x184467440737095516155",
    ] {
        assert!(readable_size(text));
        assert!(MemsterConfig::load_if_readable(config_with(text)).is_some());
    }
    let loaded = MemsterConfig::load_if_readable(config_with("2 KB")).unwrap();
    assert_eq!(2_000, loaded.unwrap().pre_allocted_bytes);
}
