//! Limits and delays.

use xwayclip::config::{config_from_args, Config, ConfigError, ReconnectDelay};

fn error_of(result: Result<Config, ConfigError>) -> ConfigError {
    match result {
        Ok(_) => panic!("the limits were accepted"),
        Err(error) => error,
    }
}

#[test]
fn limits_are_kept() {
    let Ok(config) = Config::new(10, 25, 7) else {
        panic!("the limits were refused");
    };

    assert_eq!(config.max_target_bytes(), 10);
    assert_eq!(config.max_total_bytes(), 25);
    assert_eq!(config.transfer_timeout_nanos(), 7);
}

#[test]
fn zero_limits_are_refused() {
    assert_eq!(error_of(Config::new(0, 0, 0)), ConfigError::ZeroTargetSize);
    assert_eq!(error_of(Config::new(1, 0, 0)), ConfigError::ZeroTotalSize);
    assert_eq!(error_of(Config::new(1, 1, 0)), ConfigError::ZeroTimeout);
    assert_eq!(
        ConfigError::ZeroTargetSize.message(),
        "max target size must be greater than zero"
    );
    assert_eq!(
        ConfigError::ZeroTotalSize.message(),
        "max total size must be greater than zero"
    );
    assert_eq!(
        ConfigError::ZeroTimeout.message(),
        "transfer timeout must be greater than zero"
    );
}

#[test]
fn target_limit_is_the_smaller_of_both_limits() {
    let Ok(config) = Config::new(10, 25, 1) else {
        panic!("the limits were refused");
    };

    assert_eq!(config.target_limit(0), 10);
    assert_eq!(config.target_limit(15), 10);
    assert_eq!(config.target_limit(16), 9);
    assert_eq!(config.target_limit(25), 0);
}

#[test]
fn arguments_are_converted() {
    let Ok(config) = config_from_args(256, 512, 5_000) else {
        panic!("the arguments were refused");
    };

    assert_eq!(config.max_target_bytes(), 268_435_456);
    assert_eq!(config.max_total_bytes(), 536_870_912);
    assert_eq!(config.transfer_timeout_nanos(), 5_000_000_000);
}

#[test]
fn oversized_arguments_are_refused() {
    assert_eq!(
        error_of(config_from_args(usize::MAX, usize::MAX, 0)),
        ConfigError::TargetSizeTooLarge
    );
    assert_eq!(
        error_of(config_from_args(1, usize::MAX / 1_048_576 + 1, 1)),
        ConfigError::TotalSizeTooLarge
    );
    assert!(config_from_args(1, usize::MAX / 1_048_576, u64::MAX).is_ok());
    assert_eq!(error_of(config_from_args(0, 1, 1)), ConfigError::ZeroTargetSize);
    assert_eq!(error_of(config_from_args(1, 1, 0)), ConfigError::ZeroTimeout);
    assert_eq!(
        ConfigError::TargetSizeTooLarge.message(),
        "--max-target-size-mib is too large"
    );
    assert_eq!(
        ConfigError::TotalSizeTooLarge.message(),
        "--max-total-size-mib is too large"
    );
}

#[test]
fn delay_doubles_up_to_its_limit() {
    let mut delay = ReconnectDelay::new();
    let mut seconds = Vec::new();
    for _ in 0..7 {
        seconds.push(delay.seconds());
        delay.back_off();
    }
    assert_eq!(seconds, [1, 2, 4, 8, 16, 30, 30]);

    delay.reset();
    assert_eq!(delay.seconds(), 1);
}
