use lib::accounting::{
    accounting, entity_stats, expat_malloc_bytes, AccountVerdict, HeapVerdict, XML_Account, MALLOC_TRACKER,
    EXPAT_ALLOC_TRACKER_ACTIVATION_THRESHOLD_DEFAULT, EXPAT_BILLION_LAUGHS_ATTACK_PROTECTION_ACTIVATION_THRESHOLD_DEFAULT,
    XML_TOK_NONE, XML_TOK_PARTIAL,
};

#[test]
fn test_entity_tracking_open_close() {
    let mut s = entity_stats::new(0);
    s.entityTrackingOnOpen();
    s.entityTrackingOnOpen();
    assert_eq!((s.countEverOpened, s.currentDepth, s.maximumDepthSeen), (2, 2, 2));
    s.entityTrackingOnClose();
    s.entityTrackingOnOpen();
    assert_eq!((s.countEverOpened, s.currentDepth, s.maximumDepthSeen), (3, 2, 2));
    s.entityTrackingOnClose();
    s.entityTrackingOnClose();
    assert_eq!(s.currentDepth, 0);
    assert_eq!(s.maximumDepthSeen, 2);
}

#[test]
fn test_accounting_direct_and_indirect() {
    let mut a = accounting::new(0);
    assert_eq!(a.activationThresholdBytes, EXPAT_BILLION_LAUGHS_ATTACK_PROTECTION_ACTIVATION_THRESHOLD_DEFAULT);
    assert_eq!(a.accountingDiffTolerated(1, XML_Account::XML_ACCOUNT_DIRECT, true, 10), AccountVerdict::Tolerated);
    assert_eq!(a.accountingDiffTolerated(1, XML_Account::XML_ACCOUNT_DIRECT, false, 7), AccountVerdict::Tolerated);
    assert_eq!(
        a.accountingDiffTolerated(1, XML_Account::XML_ACCOUNT_ENTITY_EXPANSION, true, 5),
        AccountVerdict::Tolerated
    );
    assert_eq!(a.testingAccountingGetCountBytesDirect(), 10);
    assert_eq!(a.testingAccountingGetCountBytesIndirect(), 12);
}

#[test]
fn test_accounting_ignores_partial_tokens_and_none() {
    let mut a = accounting::new(0);
    assert_eq!(a.accountingDiffTolerated(XML_TOK_PARTIAL, XML_Account::XML_ACCOUNT_DIRECT, true, 10), AccountVerdict::Tolerated);
    assert_eq!(a.accountingDiffTolerated(XML_TOK_NONE, XML_Account::XML_ACCOUNT_DIRECT, true, 10), AccountVerdict::Tolerated);
    assert_eq!(a.accountingDiffTolerated(1, XML_Account::XML_ACCOUNT_NONE, true, 10), AccountVerdict::Tolerated);
    assert_eq!(a.testingAccountingGetCountBytesDirect(), 0);
}

#[test]
fn test_accounting_threshold_and_overflow() {
    let mut a = accounting::new(0);
    a.activationThresholdBytes = 100;
    assert_eq!(a.accountingDiffTolerated(1, XML_Account::XML_ACCOUNT_DIRECT, true, 99), AccountVerdict::Tolerated);
    assert_eq!(
        a.accountingDiffTolerated(1, XML_Account::XML_ACCOUNT_DIRECT, true, 1),
        AccountVerdict::CheckAmplification
    );
    assert_eq!(
        a.accountingDiffTolerated(1, XML_Account::XML_ACCOUNT_DIRECT, true, u64::MAX),
        AccountVerdict::Overflow
    );
    assert_eq!(a.testingAccountingGetCountBytesDirect(), 100);
}

#[test]
fn test_malloc_bytes() {
    assert_eq!(expat_malloc_bytes(10), Some(18));
    assert_eq!(expat_malloc_bytes(usize::MAX), None);
}

#[test]
fn test_heap_tracker() {
    let mut t = MALLOC_TRACKER::new(2);
    assert_eq!(t.activationThresholdBytes, EXPAT_ALLOC_TRACKER_ACTIVATION_THRESHOLD_DEFAULT);
    assert_eq!(t.expat_heap_increase_tolerable(100), HeapVerdict::Tolerated);
    t.record_malloc(100);
    t.record_realloc(100, 300);
    assert_eq!(t.bytesAllocated, 300);
    assert_eq!(t.peakBytesAllocated, 300);
    t.record_free(300);
    assert_eq!(t.bytesAllocated, 0);
    assert_eq!(t.peakBytesAllocated, 300);
    t.activationThresholdBytes = 50;
    assert_eq!(t.expat_heap_increase_tolerable(60), HeapVerdict::CheckAmplification(60));
    t.record_malloc(10);
    assert_eq!(t.expat_heap_increase_tolerable(u64::MAX), HeapVerdict::Overflow);
}

#[test]
fn test_peak_kept_only_when_debugging() {
    let mut t = MALLOC_TRACKER::new(0);
    t.record_malloc(40);
    assert_eq!(t.peakBytesAllocated, 0);
}
