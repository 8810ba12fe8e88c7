use evm_loader::account::legacy::{is_legacy_tag, TAG_HOLDER_DEPRECATED};
use evm_loader::account::{TAG_HOLDER, TAG_STATE};
use evm_loader::machine::{ExitStatus, Reason};
use evm_loader::precompile::{bn256_add, bn256_pairing, bn256_scalar_mul, is_precompile_address};
use evm_loader::types::Address;
use evm_loader::utils::checked_next_multiple_of_32;

#[test]
fn next_multiple_of_32() {
    assert_eq!(checked_next_multiple_of_32(0), Some(0));
    assert_eq!(checked_next_multiple_of_32(1), Some(32));
    assert_eq!(checked_next_multiple_of_32(32), Some(32));
    assert_eq!(checked_next_multiple_of_32(33), Some(64));
    assert_eq!(checked_next_multiple_of_32(usize::MAX - 31), Some(usize::MAX - 31));
    assert_eq!(checked_next_multiple_of_32(usize::MAX - 30), None);
}

#[test]
fn precompile_addresses() {
    let mut a = [0u8; 20];
    for last in 1..=9u8 {
        a[19] = last;
        assert!(is_precompile_address(&Address(a)));
    }
    a[19] = 0;
    assert!(!is_precompile_address(&Address(a)));
    a[19] = 10;
    assert!(!is_precompile_address(&Address(a)));
    a[19] = 1;
    a[0] = 0xff;
    assert!(!is_precompile_address(&Address(a)));
}

#[test]
fn exit_status_outcomes() {
    assert_eq!(ExitStatus::Stop.status(), "succeed");
    assert_eq!(ExitStatus::Return(vec![1]).status(), "succeed");
    assert_eq!(ExitStatus::Suicide.status(), "succeed");
    assert_eq!(ExitStatus::Revert(vec![]).status(), "revert");
    assert_eq!(ExitStatus::StepLimit.status(), "step limit exceeded");

    assert_eq!(ExitStatus::Stop.is_succeed(), Some(true));
    assert_eq!(ExitStatus::Revert(vec![]).is_succeed(), Some(false));
    assert_eq!(ExitStatus::StepLimit.is_succeed(), None);

    assert_eq!(ExitStatus::Return(vec![1, 2]).into_result(), Some(vec![1, 2]));
    assert_eq!(ExitStatus::Revert(vec![3]).into_result(), Some(vec![3]));
    assert_eq!(ExitStatus::Suicide.into_result(), None);
    assert_ne!(Reason::Call, Reason::Create);
}

#[test]
fn legacy_tags() {
    for tag in [12u8, 42, 51, 31, 22, 23] {
        assert!(is_legacy_tag(tag));
    }
    assert!(is_legacy_tag(TAG_HOLDER_DEPRECATED));
    assert!(!is_legacy_tag(TAG_HOLDER));
    assert!(!is_legacy_tag(0));
    // the current state tag shares its value with the one before revisions
    assert!(is_legacy_tag(TAG_STATE));
}

fn bn256_generator() -> Vec<u8> {
    let mut g = vec![0u8; 64];
    g[31] = 1;
    g[63] = 2;
    g
}

#[test]
fn bn256_point_arithmetic() {
    let g = bn256_generator();
    assert_eq!(bn256_add(&[]), vec![0u8; 64]);
    let mut g_plus_zero = g.clone();
    g_plus_zero.extend_from_slice(&[0u8; 64]);
    assert_eq!(bn256_add(&g_plus_zero), g);
    let mut g_plus_g = g.clone();
    g_plus_g.extend_from_slice(&g);
    let doubled = bn256_add(&g_plus_g);
    assert_eq!(doubled.len(), 64);
    let mut g_times_two = g.clone();
    let mut two = [0u8; 32];
    two[31] = 2;
    g_times_two.extend_from_slice(&two);
    assert_eq!(bn256_scalar_mul(&g_times_two), doubled);
    assert!(bn256_add(&[1u8; 129]).is_empty());
    let mut off_curve = vec![0u8; 64];
    off_curve[31] = 1;
    off_curve[63] = 3;
    assert!(bn256_add(&off_curve).is_empty());
    let mut one = [0u8; 32];
    one[31] = 1;
    assert_eq!(bn256_pairing(&[]), one.to_vec());
}
