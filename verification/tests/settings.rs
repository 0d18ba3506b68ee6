use evm_fork_cache::access_list::l1_data_gas_for_bytes;
use evm_fork_cache::bundle::{BundleOptions, RevertPolicy};
use evm_fork_cache::cache::config::SharedMemoryCapacity as Cap;
use evm_fork_cache::cache::context::unix_timestamp_secs_saturating;

#[test]
fn l1_gas_for_zero_bytes_is_cheap() {
    let key = [0u8; 32];
    assert_eq!(l1_data_gas_for_bytes(&key), 128);
}

#[test]
fn default_is_fixed_64k() {
    assert_eq!(Cap::default(), Cap::Fixed(64 * 1024));
}

#[test]
fn fixed_ignores_loaded_slots() {
    assert_eq!(Cap::Fixed(8_192).resolve(10_000_000), 8_192);
    assert_eq!(Cap::Fixed(0).resolve(123), 0);
}

#[test]
fn auto_floors_clamps_and_scales() {
    assert_eq!(Cap::Auto.resolve(0), Cap::MIN_AUTO);
    assert_eq!(Cap::Auto.resolve(1_000), Cap::MIN_AUTO);
    assert_eq!(Cap::Auto.resolve(10_000), 160_000);
    assert_eq!(Cap::Auto.resolve(100_000), 1_600_000);
    assert_eq!(Cap::Auto.resolve(usize::MAX), Cap::MAX_AUTO);
    assert_eq!(Cap::Auto.resolve(262_144), Cap::MAX_AUTO);
}

#[test]
fn revert_policy_defaults_to_atomic() {
    assert!(matches!(RevertPolicy::default(), RevertPolicy::Atomic));
}

#[test]
fn bundle_options_default_is_evaluate_only_atomic() {
    let opts = BundleOptions::default();
    assert!(matches!(opts.revert_policy, RevertPolicy::Atomic));
    assert!(!opts.commit, "default must not persist");
}

#[test]
fn unix_timestamp_secs_saturating_handles_pre_epoch() {
    let before_epoch = std::time::UNIX_EPOCH - std::time::Duration::from_secs(5);
    assert_eq!(
        unix_timestamp_secs_saturating(before_epoch),
        0,
        "pre-epoch system times must saturate instead of panicking"
    );
}
