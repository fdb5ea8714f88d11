use downstream::_auxlib::bit_floor;
use downstream::_auxlib::bit_length;
use downstream::_auxlib::bit_size_of;
use downstream::_auxlib::can_type_fit_value;
use downstream::_auxlib::clz;
use downstream::_auxlib::ctz;
use downstream::_auxlib::floor_subtract;
use downstream::_auxlib::from_bool;
use downstream::_auxlib::modpow2;
use downstream::_auxlib::overflow_shl;
use downstream::_auxlib::overflow_shr;
use downstream::_auxlib::popcount;
use downstream::_auxlib::shl;
use downstream::_auxlib::shr;

#[test]
fn test_bit_size_of() {
    assert_eq!(bit_size_of::<u8>(), 8);
    assert_eq!(bit_size_of::<u16>(), 16);
    assert_eq!(bit_size_of::<u32>(), 32);
    assert_eq!(bit_size_of::<u64>(), 64);
}

#[test]
fn test_bit_length() {
    assert_eq!(bit_length::<u32>(0), 0);
    assert_eq!(bit_length::<u32>(1), 1); // binary: 1
    assert_eq!(bit_length::<u32>(2), 2); // binary: 10
    assert_eq!(bit_length::<u32>(3), 2); // binary: 11
    assert_eq!(bit_length::<u32>(4), 3); // binary: 100
    assert_eq!(bit_length::<u64>(0xFFFF_FFFF_FFFF_FFFF), 64);
}

#[test]
fn test_bit_floor() {
    assert_eq!(bit_floor::<u32>(0), 0);
    assert_eq!(bit_floor::<u32>(1), 1); // power of 2 <= 1 is 1
    assert_eq!(bit_floor::<u32>(2), 2); // power of 2 <= 2 is 2
    assert_eq!(bit_floor::<u32>(3), 2); // power of 2 <= 3 is 2
    assert_eq!(bit_floor::<u32>(4), 4); // power of 2 <= 4 is 4
    assert_eq!(bit_floor::<u32>(5), 4); // power of 2 <= 5 is 4
    assert_eq!(bit_floor::<u64>(0xFFFF_FFFF_FFFF_FFFF), 1 << 63);
}

#[test]
fn test_clz() {
    assert_eq!(clz::<u32>(0), 32);
    assert_eq!(clz::<u32>(1), 31);
    assert_eq!(clz::<u32>(2), 30);
    assert_eq!(clz::<u32>(3), 30);
    assert_eq!(clz::<u32>(4), 29);
    assert_eq!(clz::<u64>(0xFFFF_FFFF_FFFF_FFFF), 0);
}

#[test]
fn test_ctz() {
    assert_eq!(ctz::<u32>(0), 32);
    assert_eq!(ctz::<u32>(1), 0);
    assert_eq!(ctz::<u32>(2), 1);
    assert_eq!(ctz::<u32>(3), 0);
    assert_eq!(ctz::<u32>(4), 2);
    assert_eq!(ctz::<u64>(0xFFFF_FFFF_FFFF_FFFF), 0);
}

#[test]
fn test_can_type_fit_value() {
    assert!(can_type_fit_value::<u8>(0));
    assert!(can_type_fit_value::<u8>(255));
    assert!(!can_type_fit_value::<u8>(256));

    assert!(can_type_fit_value::<u16>(0));
    assert!(can_type_fit_value::<u16>(65535));
    assert!(!can_type_fit_value::<u16>(65536));

    assert!(can_type_fit_value::<u32>(0));
    assert!(can_type_fit_value::<u32>(4294967295));
    assert!(!can_type_fit_value::<u32>(4294967296));

    assert!(can_type_fit_value::<u64>(0));
    assert!(can_type_fit_value::<u64>(18446744073709551615));
}

#[test]
fn test_floor_subtract() {
    assert_eq!(floor_subtract::<u32>(10, 5), 5); // 10 - 5 = 5
    assert_eq!(floor_subtract::<u32>(5, 10), 0); // 5 - 10 = 0
    assert_eq!(floor_subtract::<u32>(0, 0), 0);
    assert_eq!(floor_subtract::<u32>(100, 100), 0);
    assert_eq!(floor_subtract::<u32>(100, 101), 0);
    assert_eq!(floor_subtract::<u32>(100, 99), 1); // 100 - 99 = 1
}

#[test]
fn test_from_bool() {
    assert_eq!(from_bool::<u32>(false), 0);
    assert_eq!(from_bool::<u32>(true), 1);
    assert_eq!(from_bool::<u16>(true), 1);
}

#[test]
fn test_modpow2() {
    assert_eq!(modpow2::<u32>(0, 1), 0);
    assert_eq!(modpow2::<u32>(1, 1), 0);
    assert_eq!(modpow2::<u32>(2, 1), 0);
    assert_eq!(modpow2::<u32>(0, 2), 0);
    assert_eq!(modpow2::<u32>(1, 2), 1);
    assert_eq!(modpow2::<u32>(2, 2), 0);
    assert_eq!(modpow2::<u32>(3, 2), 1);
    assert_eq!(modpow2::<u64>(42, 0x8000_0000_0000_0000), 42);
}

#[test]
fn test_modpow2_matches_mask() {
    // reducing modulo 2^k masks to the low k bits
    for k in 0..16u32 {
        let divisor: u64 = 1u64 << k;
        for x in [0u64, 1, 2, 3, 41, 42, 1000, 65535, 0xFFFF_FFFF_FFFF_FFFF] {
            assert_eq!(modpow2::<u64>(x, divisor), x & (divisor - 1));
        }
    }
}

#[test]
fn test_bit_floor_idempotent() {
    for x in 0..2048u32 {
        assert_eq!(bit_floor::<u32>(bit_floor::<u32>(x)), bit_floor::<u32>(x));
    }
    assert_eq!(
        bit_floor::<u64>(bit_floor::<u64>(0xFFFF_FFFF_FFFF_FFFF)),
        bit_floor::<u64>(0xFFFF_FFFF_FFFF_FFFF)
    );
}

#[test]
fn test_overflow_shl() {
    assert_eq!(overflow_shl::<u32>(1, 0), 1);
    assert_eq!(overflow_shl::<u32>(1, 1), 2);
    assert_eq!(overflow_shl::<u64>(1, 63), 1 << 63);
    assert_eq!(overflow_shl::<u32>(1, 64), 0);
    assert_eq!(overflow_shl::<u32>(2, 70), 0);
}

#[test]
fn test_overflow_shr() {
    assert_eq!(overflow_shr::<u32>(2, 1), 1);
    assert_eq!(overflow_shr::<u32>(2, 2), 0);
    assert_eq!(overflow_shr::<u32>(2, 3), 0);
    assert_eq!(overflow_shr::<u64>(1 << 63, 63), 1);
    assert_eq!(overflow_shr::<u32>(1, 64), 0);
    assert_eq!(overflow_shr::<u32>(2, 70), 0);
}

#[test]
fn test_popcount() {
    assert_eq!(popcount::<u32>(0), 0);
    assert_eq!(popcount::<u32>(1), 1);
    assert_eq!(popcount::<u32>(2), 1);
    assert_eq!(popcount::<u32>(3), 2);
    assert_eq!(popcount::<u32>(4), 1);
    assert_eq!(popcount::<u32>(5), 2);
    assert_eq!(popcount::<u32>(6), 2);
}

#[test]
fn test_shl() {
    assert_eq!(shl::<u32>(1, 0), 1);
    assert_eq!(shl::<u32>(1, 1), 2);
    assert_eq!(shl::<u64>(1, 63), 1 << 63);
}

#[test]
fn test_shr() {
    assert_eq!(shr::<u32>(2, 1), 1);
    assert_eq!(shr::<u32>(2, 2), 0);
    assert_eq!(shr::<u32>(2, 3), 0);
    assert_eq!(shr::<u64>(1 << 63, 63), 1);
}

#[test]
fn it_works() {
    let result = downstream::add(2, 2);
    assert_eq!(result, 4);
}
