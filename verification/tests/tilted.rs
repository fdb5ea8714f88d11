use downstream::dstream::tilted_algo::_assign_storage_site;
use downstream::dstream::tilted_algo::assign_storage_site;
use downstream::dstream::tilted_algo::has_ingest_capacity;

#[test]
fn tilted_algo_test_smoke_has_ingest_capacity() {
    has_ingest_capacity::<u32>(16, 101);
}

#[test]
fn tilted_algo_test_smoke_impl_assign_storage_site() {
    _assign_storage_site::<u32>(16, 101);
}

#[test]
fn tilted_algo_test_smoke_assign_storage_site() {
    assign_storage_site::<u32>(16, 101);
}

#[test]
fn tilted_capacity_horizon() {
    // capacity runs out once T reaches the horizon of 2^S - 1 ingest steps
    assert!(has_ingest_capacity::<u64>(16, 0));
    assert!(has_ingest_capacity::<u64>(16, 101));
    assert!(has_ingest_capacity::<u64>(16, 65534));
    assert!(!has_ingest_capacity::<u64>(16, 65535));
    assert!(!has_ingest_capacity::<u64>(16, 65536));
    assert!(!has_ingest_capacity::<u64>(16, u64::MAX));
    // the wraparound correction keeps the answer right at the top of u16
    assert!(has_ingest_capacity::<u16>(16, 65534));
    assert!(!has_ingest_capacity::<u16>(16, 65535));
    // non-power-of-two and degenerate sizes never have capacity
    assert!(!has_ingest_capacity::<u64>(15, 0));
    assert!(!has_ingest_capacity::<u64>(1, 0));
    assert!(!has_ingest_capacity::<u64>(0, 0));
}

#[test]
fn tilted_time_zero_takes_slot_zero() {
    assert_eq!(assign_storage_site::<u64>(16, 0), Some(0));
    assert_eq!(assign_storage_site::<u8>(16, 0), Some(0));
}

#[test]
fn tilted_sites_stay_in_bounds() {
    // tilted curation never discards while capacity lasts
    for t in 0..4096u64 {
        let k = assign_storage_site::<u64>(16, t).unwrap();
        assert!(k < 16);
        let k = assign_storage_site::<u64>(64, t).unwrap();
        assert!(k < 64);
    }
}

#[test]
fn tilted_cross_width_agreement() {
    // S and T representable at the narrow width must agree with u64
    for t in 0..=254u8 {
        assert_eq!(
            has_ingest_capacity::<u8>(16, t),
            has_ingest_capacity::<u64>(16, t as u64)
        );
        assert_eq!(
            assign_storage_site::<u8>(16, t).map(u64::from),
            assign_storage_site::<u64>(16, t as u64)
        );
    }
    for t in 0..4096u16 {
        assert_eq!(
            assign_storage_site::<u16>(64, t).map(u64::from),
            assign_storage_site::<u64>(64, t as u64)
        );
        assert_eq!(
            assign_storage_site::<u16>(64, t).map(u32::from),
            assign_storage_site::<u32>(64, t as u32)
        );
    }
}
