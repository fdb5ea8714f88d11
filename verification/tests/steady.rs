use downstream::dstream::steady_algo::_assign_storage_site;
use downstream::dstream::steady_algo::assign_storage_site;
use downstream::dstream::steady_algo::has_ingest_capacity;

#[test]
fn steady_algo_test_smoke_has_ingest_capacity() {
    has_ingest_capacity::<u32>(16, 101);
}

#[test]
fn steady_algo_test_smoke_impl_assign_storage_site() {
    _assign_storage_site::<u32>(16, 101);
}

#[test]
fn steady_algo_test_smoke_assign_storage_site() {
    assign_storage_site::<u32>(16, 101);
}

#[test]
fn steady_capacity_independent_of_time() {
    // capacity depends only on the buffer size being a power of two > 1
    for t in [0u64, 1, 2, 3, 100, 101, 65535, 1 << 40, u64::MAX] {
        assert!(has_ingest_capacity::<u64>(16, t));
        assert!(!has_ingest_capacity::<u64>(15, t));
        assert!(!has_ingest_capacity::<u64>(1, t));
        assert!(!has_ingest_capacity::<u64>(0, t));
    }
    for t in 0..=255u8 {
        assert!(has_ingest_capacity::<u8>(16, t));
    }
}

#[test]
fn steady_time_zero_takes_slot_zero() {
    assert_eq!(assign_storage_site::<u64>(16, 0), Some(0));
    assert_eq!(assign_storage_site::<u8>(16, 0), Some(0));
}

#[test]
fn steady_sites_stay_in_bounds() {
    for t in 0..4096u64 {
        if let Some(k) = assign_storage_site::<u64>(16, t) {
            assert!(k < 16);
        }
        if let Some(k) = assign_storage_site::<u64>(64, t) {
            assert!(k < 64);
        }
    }
}

#[test]
fn steady_discard_matches_raw_sentinel() {
    // the optional form returns None exactly when the raw form names S
    for t in 0..4096u32 {
        let raw = _assign_storage_site::<u32>(32, t);
        match assign_storage_site::<u32>(32, t) {
            Some(k) => assert_eq!(k, raw),
            None => assert_eq!(raw, 32),
        }
    }
}

#[test]
fn steady_cross_width_agreement() {
    // S and T representable at u8 must give the same answers as u64
    for t in 0..=255u8 {
        assert_eq!(
            has_ingest_capacity::<u8>(16, t),
            has_ingest_capacity::<u64>(16, t as u64)
        );
        assert_eq!(
            assign_storage_site::<u8>(16, t).map(u64::from),
            assign_storage_site::<u64>(16, t as u64)
        );
    }
    for t in 0..4096u16 {
        assert_eq!(
            assign_storage_site::<u16>(64, t).map(u64::from),
            assign_storage_site::<u64>(64, t as u64)
        );
        assert_eq!(
            assign_storage_site::<u16>(64, t).map(u32::from),
            assign_storage_site::<u32>(64, t as u32)
        );
    }
    assert_eq!(
        has_ingest_capacity::<u8>(16, 101),
        has_ingest_capacity::<u64>(16, 101)
    );
    assert_eq!(
        assign_storage_site::<u8>(16, 101).map(u64::from),
        assign_storage_site::<u64>(16, 101)
    );
}
