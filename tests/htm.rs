use lever::htm::aarch64;
use lever::htm::x86_64;

#[test]
fn rtm_status_decoding() {
    let started = x86_64::HwTxBeginCode(0xFFFF_FFFF);
    assert!(started.started());
    assert!(!started.abort());
    assert!(!started.conflict());

    let conflict = x86_64::HwTxBeginCode(0b0110);
    assert!(!conflict.started());
    assert!(conflict.retry());
    assert!(conflict.conflict());
    assert!(!conflict.capacity());
    assert!(!conflict.debug());

    let explicit = x86_64::HwTxBeginCode((2 << 24) | 1);
    assert!(explicit.abort());
    assert_eq!(explicit.abort_code(), 2);
    assert!(x86_64::HTM::aborted_with(&explicit, x86_64::HwTxAbortCode::UserlandAbort));
    assert!(!x86_64::HTM::aborted_with(&explicit, x86_64::HwTxAbortCode::Overhaul));

    assert!(x86_64::HwTxTestCode(1).in_txn());
    assert_eq!(x86_64::HwTxTestCode(3).depth(), 3);
}

#[test]
fn tme_status_decoding() {
    let started = aarch64::HwTxBeginCode(0);
    assert!(started.started());
    assert!(!started.retry());

    let failed = aarch64::HwTxBeginCode((1 << 15) | (1 << 20) | (1 << 23));
    assert!(!failed.started());
    assert!(failed.retry());
    assert!(failed.capacity());
    assert!(failed.interrupted());
    assert!(!failed.abort());
    assert!(!failed.conflict());
    assert!(!failed.nest_exceeded());
    assert!(!failed.trivial_exec());
    assert!(!failed.non_permissible());
    assert!(!failed.fallback_failure());
    assert!(!failed.debug());

    assert_eq!(aarch64::HTM::_tcancel_code(2, true), 0x8002);
    assert_eq!(aarch64::HTM::_tcancel_code(0x1_0001, false), 1);
    assert_eq!(aarch64::HwTxAbortCode::Overhaul.code(), 1);
    assert!(!aarch64::HwTxTestCode(0).in_txn());
}
