use aftershock::bit_get::bits_for;
use aftershock::bit_get::U32C;
use aftershock::BitGet;
use aftershock::BitGetError;

#[test]
fn new_bit_reader_stands_at_the_first_bit() {
    let bits = BitGet::new(vec![1, 2]);
    assert_eq!(bits.position(), (0, 0));
    assert_eq!(bits.len(), 2);
}

#[test]
fn bits_are_read_least_significant_first() {
    let mut bits = BitGet::new(vec![0b1010_0101, 0b0000_0001]);
    let expected = [
        true, false, true, false, false, true, false, true, true, false,
    ];
    for (i, wanted) in expected.iter().enumerate() {
        assert_eq!(bits.position(), (i / 8, i % 8));
        assert_eq!(bits.get_bool(), Ok(*wanted));
    }
    assert_eq!(bits.position(), (1, 2));
}

#[test]
fn bit_read_past_the_end_fails() {
    let mut bits = BitGet::new(vec![0xff]);
    for _ in 0..8 {
        assert_eq!(bits.get_bool(), Ok(true));
    }
    assert_eq!(bits.position(), (1, 0));
    assert_eq!(
        bits.get_bool(),
        Err(BitGetError::IndexOutOfBounds { index: 1, len: 1 })
    );
    assert_eq!(bits.position(), (1, 0));
    let mut bits = BitGet::new(vec![]);
    assert_eq!(
        bits.get_bool(),
        Err(BitGetError::IndexOutOfBounds { index: 0, len: 0 })
    );
}

#[test]
fn aligned_integers_are_the_bytes() {
    let mut bits = BitGet::new(vec![0xa5, 0x34, 0x12, 0x78, 0x56, 0x34, 0x12, 0x80]);
    assert_eq!(bits.get_u8(), Ok(0xa5));
    assert_eq!(bits.get_u16(), Ok(0x1234));
    assert_eq!(bits.get_u32(), Ok(0x1234_5678));
    assert_eq!(bits.get_i8(), Ok(-128));
    assert_eq!(bits.position(), (8, 0));
}

#[test]
fn first_bit_read_is_bit_zero() {
    let mut bits = BitGet::new(vec![0b0000_0001]);
    assert_eq!(bits.get_u8(), Ok(1));
    let mut bits = BitGet::new(vec![0b1000_0000]);
    assert_eq!(bits.get_u8(), Ok(128));
}

#[test]
fn unaligned_integers_straddle_bytes() {
    let mut bits = BitGet::new(vec![0b1010_1011, 0b0000_0110, 0xff, 0xff, 0x01]);
    assert_eq!(bits.get_bool(), Ok(true));
    assert_eq!(bits.get_u8(), Ok(0b0101_0101));
    assert_eq!(bits.position(), (1, 1));
    assert_eq!(bits.get_u16(), Ok(0xff83));
    assert_eq!(bits.position(), (3, 1));
    assert_eq!(bits.get_i8(), Ok(-1));
    assert_eq!(bits.position(), (4, 1));
}

#[test]
fn unaligned_u32() {
    let mut bits = BitGet::new(vec![0xf0, 0xff, 0xff, 0xff, 0x0f]);
    for _ in 0..4 {
        assert_eq!(bits.get_bool(), Ok(false));
    }
    assert_eq!(bits.get_u32(), Ok(0xffff_ffff));
    assert_eq!(bits.position(), (4, 4));
    let mut bits = BitGet::new(vec![0x20, 0x00, 0x00, 0x00, 0x10]);
    for _ in 0..4 {
        assert_eq!(bits.get_bool(), Ok(false));
    }
    assert_eq!(bits.get_u32(), Ok(0x0000_0002));
    assert_eq!(bits.get_bool(), Ok(true));
}

#[test]
fn short_integer_bits_fail() {
    let mut bits = BitGet::new(vec![0xff]);
    assert_eq!(bits.get_bool(), Ok(true));
    assert_eq!(
        bits.get_u8(),
        Err(BitGetError::IndexOutOfBounds { index: 1, len: 1 })
    );
    let mut bits = BitGet::new(vec![1, 2, 3]);
    assert_eq!(
        bits.get_u32(),
        Err(BitGetError::IndexOutOfBounds { index: 3, len: 3 })
    );
    let mut bits = BitGet::new(vec![1]);
    assert_eq!(
        bits.get_u16(),
        Err(BitGetError::IndexOutOfBounds { index: 1, len: 1 })
    );
    let mut bits = BitGet::new(vec![]);
    assert_eq!(
        bits.get_i8(),
        Err(BitGetError::IndexOutOfBounds { index: 0, len: 0 })
    );
}

#[test]
fn bits_for_is_the_ceiling_of_the_logarithm() {
    let expected: [(u32, u32); 14] = [
        (0, 0),
        (1, 0),
        (2, 1),
        (3, 2),
        (4, 2),
        (5, 3),
        (8, 3),
        (9, 4),
        (19, 5),
        (1023, 10),
        (1024, 10),
        (1025, 11),
        (0x8000_0000, 31),
        (0xffff_ffff, 32),
    ];
    for (limit, bits) in expected {
        assert_eq!(bits_for(limit), bits);
    }
    assert_eq!(bits_for(0x0200_0001), 26);
    assert_eq!(bits_for(0x8000_0001), 32);
}

#[test]
fn serialized_int_bound() {
    let mut bits = BitGet::new(vec![0b0001_0001]);
    assert_eq!(
        bits.get_u32c(19),
        Ok(U32C {
            limit: 19,
            value: 17
        })
    );
    assert_eq!(bits.position(), (0, 5));
}

#[test]
fn serialized_int_stops_when_the_next_step_would_pass_the_limit() {
    let mut bits = BitGet::new(vec![0b0001_1111]);
    assert_eq!(
        bits.get_u32c(19),
        Ok(U32C {
            limit: 19,
            value: 15
        })
    );
    assert_eq!(bits.position(), (0, 4));
    let mut bits = BitGet::new(vec![0b0001_0011]);
    assert_eq!(
        bits.get_u32c(19),
        Ok(U32C {
            limit: 19,
            value: 19
        })
    );
    assert_eq!(bits.position(), (0, 5));
    let mut bits = BitGet::new(vec![0b0001_0100]);
    assert_eq!(
        bits.get_u32c(19),
        Ok(U32C {
            limit: 19,
            value: 4
        })
    );
    assert_eq!(bits.position(), (0, 4));
}

#[test]
fn serialized_int_under_a_power_of_two_has_its_logarithm_of_bits() {
    let mut bits = BitGet::new(vec![0b0000_0000, 0xff]);
    assert_eq!(bits.get_u32c(8), Ok(U32C { limit: 8, value: 0 }));
    assert_eq!(bits.position(), (0, 3));
    let mut bits = BitGet::new(vec![0b1111_1111]);
    assert_eq!(bits.get_u32c(8), Ok(U32C { limit: 8, value: 7 }));
    assert_eq!(bits.position(), (0, 3));
    let mut bits = BitGet::new(vec![0xff, 0xff]);
    assert_eq!(
        bits.get_u32c(1023),
        Ok(U32C {
            limit: 1023,
            value: 1023
        })
    );
    assert_eq!(bits.position(), (1, 2));
}

#[test]
fn serialized_int_under_zero_or_one_takes_no_bits() {
    let mut bits = BitGet::new(vec![]);
    assert_eq!(bits.get_u32c(0), Ok(U32C { limit: 0, value: 0 }));
    assert_eq!(bits.position(), (0, 0));
    assert_eq!(bits.get_u32c(1), Ok(U32C { limit: 1, value: 0 }));
    assert_eq!(bits.position(), (0, 0));
    let mut bits = BitGet::new(vec![0xff]);
    assert_eq!(bits.get_u32c(0), Ok(U32C { limit: 0, value: 0 }));
    assert_eq!(bits.get_u32c(2), Ok(U32C { limit: 2, value: 1 }));
    assert_eq!(bits.position(), (0, 1));
}

#[test]
fn serialized_int_under_the_greatest_limit() {
    let mut bits = BitGet::new(vec![0xff, 0xff, 0xff, 0xff, 0xff]);
    assert_eq!(
        bits.get_u32c(0xffff_ffff),
        Ok(U32C {
            limit: 0xffff_ffff,
            value: 0xffff_ffff
        })
    );
    assert_eq!(bits.position(), (4, 0));
    let mut bits = BitGet::new(vec![0x00, 0x00, 0x00, 0x80, 0xff]);
    assert_eq!(
        bits.get_u32c(0xffff_ffff),
        Ok(U32C {
            limit: 0xffff_ffff,
            value: 0x8000_0000
        })
    );
    assert_eq!(bits.position(), (4, 0));
}

#[test]
fn serialized_int_cut_short_fails() {
    let mut bits = BitGet::new(vec![0x00]);
    assert_eq!(
        bits.get_u32c(1023),
        Err(BitGetError::IndexOutOfBounds { index: 1, len: 1 })
    );
    let mut bits = BitGet::new(vec![]);
    assert_eq!(
        bits.get_u32c(2),
        Err(BitGetError::IndexOutOfBounds { index: 0, len: 0 })
    );
}

#[test]
fn serialized_int_never_passes_its_limit() {
    let mut state: u32 = 0x2545_f491;
    for round in 0..2000u32 {
        let mut bytes = Vec::new();
        for _ in 0..6 {
            state ^= state << 13;
            state ^= state >> 17;
            state ^= state << 5;
            bytes.push((state >> 11) as u8);
        }
        state ^= state << 13;
        state ^= state >> 17;
        state ^= state << 5;
        let limit = match round % 4 {
            0 => state % 40,
            1 => state % 5000,
            2 => 1u32 << (state % 32),
            _ => state,
        };
        let mut bits = BitGet::new(bytes);
        let got = bits.get_u32c(limit).unwrap();
        assert_eq!(got.limit, limit);
        assert!(got.value <= limit);
        let (byte, bit) = bits.position();
        assert!((byte * 8 + bit) as u32 <= bits_for(limit));
    }
}

#[test]
fn bit_option_reads_only_when_asked() {
    let mut bits = BitGet::new(vec![0x81, 0x00, 0x00, 0x00, 0x80]);
    assert_eq!(bits.get_option::<i8>(false), Ok(None));
    assert_eq!(bits.position(), (0, 0));
    assert_eq!(bits.get_option::<i8>(true), Ok(Some(-127)));
    assert_eq!(bits.position(), (1, 0));
    assert_eq!(bits.get_option::<u32>(false), Ok(None));
    assert_eq!(bits.get_option::<u32>(true), Ok(Some(0x8000_0000)));
    assert_eq!(bits.position(), (5, 0));
    assert_eq!(
        bits.get_option::<i8>(true),
        Err(BitGetError::IndexOutOfBounds { index: 5, len: 5 })
    );
    assert_eq!(bits.get_option::<i8>(false), Ok(None));
}
