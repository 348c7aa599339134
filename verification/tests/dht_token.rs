use superseedr_core::dht::token::{TokenConfig, TokenService};
use superseedr_core::dht::InfoHash;

fn info_hash(byte: u8) -> InfoHash {
    [byte; 20]
}

const LOCALHOST: [u8; 4] = [127, 0, 0, 1];

#[test]
fn tokens_are_scoped_to_info_hash() {
    let now = 50_000;
    let mut service = TokenService::new(TokenConfig::default(), now);
    let token = service.mint_for(&LOCALHOST, &info_hash(1), now);

    assert!(service.validate_for(&LOCALHOST, &info_hash(1), &token, now));
    assert!(!service.validate_for(&LOCALHOST, &info_hash(2), &token, now));
}

#[test]
fn previous_secret_acceptance_keeps_info_hash_scope() {
    let now = 50_000;
    let config = TokenConfig {
        rotation_period: 1_000,
        acceptance_window: 10_000,
    };
    let mut service = TokenService::new(config, now);
    let token = service.mint_for(&LOCALHOST, &info_hash(1), now);
    let later = now + 2_000;

    assert!(service.validate_for(&LOCALHOST, &info_hash(1), &token, later));
    assert!(!service.validate_for(&LOCALHOST, &info_hash(2), &token, later));
}

#[test]
fn tokens_expire_after_the_acceptance_window() {
    let config = TokenConfig {
        rotation_period: 1_000,
        acceptance_window: 3_000,
    };
    let mut service = TokenService::new(config, 0);
    let token = service.mint_for(&LOCALHOST, &info_hash(1), 0);
    assert_eq!(token.len(), 20);
    assert!(service.validate_for(&LOCALHOST, &info_hash(1), &token, 2_000));
    assert!(!service.validate_for(&LOCALHOST, &info_hash(1), &token, 3_500));
}

#[test]
fn tokens_are_scoped_to_address() {
    let mut service = TokenService::new(TokenConfig::default(), 0);
    let token = service.mint_for(&LOCALHOST, &info_hash(1), 0);
    assert!(!service.validate_for(&[10, 0, 0, 1], &info_hash(1), &token, 0));
    let again = service.mint_for(&LOCALHOST, &info_hash(1), 10);
    assert_eq!(token, again);
}

#[test]
fn default_config_rotates_every_five_minutes() {
    let config = TokenConfig::default();
    assert_eq!(config.rotation_period, 300_000);
    assert_eq!(config.acceptance_window, 600_000);
    let service = TokenService::new(config, 0);
    assert_eq!(*service.config(), config);
}
