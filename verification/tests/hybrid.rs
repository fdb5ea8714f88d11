use downstream::dstream::hybrid_0_steady_1_tilted_2_algo::_assign_storage_site;
use downstream::dstream::hybrid_0_steady_1_tilted_2_algo::assign_storage_site;
use downstream::dstream::hybrid_0_steady_1_tilted_2_algo::has_ingest_capacity;

#[test]
fn hybrid_0_steady_1_tilted_2_algo_test_smoke_has_ingest_capacity() {
    has_ingest_capacity::<u32>(16, 101);
}

#[test]
fn hybrid_0_steady_1_tilted_2_algo_test_smoke_assign_storage_site() {
    assign_storage_site::<u32>(16, 101);
}

#[test]
fn hybrid_0_steady_1_tilted_2_algo_test_smoke_impl_assign_storage_site() {
    _assign_storage_site::<u32>(16, 101);
}

#[test]
fn hybrid_capacity_follows_halves() {
    // the steady half accepts any time; the tilted half bounds the horizon
    assert!(has_ingest_capacity::<u64>(16, 0));
    assert!(has_ingest_capacity::<u64>(16, 101));
    // the tilted half sees (T - 1) / 2 against a half buffer of 8
    assert!(has_ingest_capacity::<u64>(16, 509));
    assert!(!has_ingest_capacity::<u64>(16, 511));
    assert!(!has_ingest_capacity::<u64>(15, 0));
    assert!(!has_ingest_capacity::<u64>(2, 0));
}

#[test]
fn hybrid_routing_splits_halves() {
    // even times land in the low half, odd times always in the high half
    for t in 0..500u64 {
        match assign_storage_site::<u64>(16, t) {
            Some(k) => {
                if t % 2 == 0 {
                    assert!(k < 8);
                } else {
                    assert!((8..16).contains(&k));
                }
            }
            None => assert!(t % 2 == 0),
        }
    }
}

#[test]
fn hybrid_time_zero_takes_slot_zero() {
    assert_eq!(assign_storage_site::<u64>(16, 0), Some(0));
}

#[test]
fn hybrid_cross_width_agreement() {
    for t in 0..=255u8 {
        assert_eq!(
            has_ingest_capacity::<u8>(16, t),
            has_ingest_capacity::<u64>(16, t as u64)
        );
    }
    for t in 0..500u16 {
        assert_eq!(
            assign_storage_site::<u16>(16, t).map(u64::from),
            assign_storage_site::<u64>(16, t as u64)
        );
    }
}
