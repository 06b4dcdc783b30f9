use hypergrib::numeric_id::{NumericId, NumericIdBuilder};

/// The identifier whose packed bytes are `bytes`, byte 0 being the right-most one.
fn from_bytes(bytes: [u8; 8]) -> NumericId {
    NumericId::new(
        bytes[7],
        bytes[6],
        bytes[5],
        bytes[4],
        ((bytes[3] as u16) << 8) | (bytes[2] as u16),
        bytes[1],
        bytes[0],
    )
}

#[test]
fn numeric_id_test_extract_nth_byte_all_zero() {
    let numeric_id = from_bytes([0; 8]);
    assert_eq!(numeric_id.as_u64(), 0x00_00_00_00_00_00_00_00);
    for i in 0..8 {
        assert_eq!(numeric_id.extract_nth_byte(i), 0);
    }
}

#[test]
fn numeric_id_test_extract_nth_byte_all_ones() {
    let numeric_id = from_bytes([0xFF; 8]);
    assert_eq!(numeric_id.as_u64(), 0xFF_FF_FF_FF_FF_FF_FF_FF);
    for i in 0..8 {
        assert_eq!(numeric_id.extract_nth_byte(i), 0xFF);
    }
}

#[test]
fn numeric_id_test_extract_nth_ff_byte() {
    for n in 0..8 {
        let mut bytes = [0u8; 8];
        bytes[n as usize] = 0xFF;
        let numeric_id = from_bytes(bytes);
        assert_eq!(numeric_id.as_u64(), (0xFF as u64) << (8 * n));
        println!("{n} = {:#018x}", numeric_id.as_u64());
        for i in 0..8 {
            if i == n {
                assert_eq!(numeric_id.extract_nth_byte(n), 0xFF);
            } else {
                assert_eq!(numeric_id.extract_nth_byte(i), 0);
            }
        }
    }
}

#[test]
fn numeric_id_test_numeric_id() {
    // Six of the fields; the subcenter is left missing.
    let mut builder = NumericIdBuilder::new(0, 1, 2);
    builder.set_master_table_version(3);
    builder.set_originating_center(400);
    builder.set_local_table_version(5);
    let numeric_id = builder.build();
    assert_eq!(numeric_id.product_discipline(), 0);
    assert_eq!(numeric_id.parameter_category(), 1);
    assert_eq!(numeric_id.parameter_number(), 2);
    assert_eq!(numeric_id.master_table_version(), 3);
    assert_eq!(numeric_id.originating_center(), 400);
    assert_eq!(numeric_id.local_table_version(), 5);
}

#[test]
fn test_extract_nth_byte_all_zero() {
    let numeric_id = NumericId::new(0, 0, 0, 0, 0, 0, 0);
    for i in 0..8 {
        assert_eq!(numeric_id.extract_nth_byte(i), 0);
    }
}

#[test]
fn test_extract_nth_byte_all_ones() {
    let numeric_id = NumericId::new(0xFF, 0xFF, 0xFF, 0xFF, 0xFFFF, 0xFF, 0xFF);
    for i in 0..8 {
        assert_eq!(numeric_id.extract_nth_byte(i), 0xFF);
    }
}

#[test]
fn test_extract_nth_ff_byte() {
    for n in 0..8u64 {
        let packed = (0xFF as u64) << (8 * n);
        let byte = |k: u64| ((packed >> (8 * k)) & 0xFF) as u8;
        let numeric_id = NumericId::new(
            byte(7),
            byte(6),
            byte(5),
            byte(4),
            ((byte(3) as u16) << 8) | byte(2) as u16,
            byte(1),
            byte(0),
        );
        println!("{n} = {:#018x}", numeric_id.as_u64());
        for i in 0..8 {
            if i == n {
                assert_eq!(numeric_id.extract_nth_byte(n), 0xFF);
            } else {
                assert_eq!(numeric_id.extract_nth_byte(i), 0);
            }
        }
    }
}

#[test]
fn test_numeric_id() {
    let numeric_id = NumericId::new(0, 1, 2, 3, 400, 20, 5);
    assert_eq!(numeric_id.product_discipline(), 0);
    assert_eq!(numeric_id.parameter_category(), 1);
    assert_eq!(numeric_id.parameter_number(), 2);
    assert_eq!(numeric_id.master_table_version(), 3);
    assert_eq!(numeric_id.originating_center(), 400);
    assert_eq!(numeric_id.subcenter(), 20);
    assert_eq!(numeric_id.local_table_version(), 5);
}

#[test]
fn packed_layout_is_exact() {
    let numeric_id = NumericId::new(0x01, 0x02, 0x03, 0x04, 0x0506, 0x07, 0x08);
    assert_eq!(numeric_id.as_u64(), 0x01_02_03_04_05_06_07_08);
}

#[test]
fn builder_defaults_to_missing_fields() {
    let numeric_id = NumericIdBuilder::new(10, 0, 73).build();
    assert_eq!(numeric_id.product_discipline(), 10);
    assert_eq!(numeric_id.parameter_category(), 0);
    assert_eq!(numeric_id.parameter_number(), 73);
    assert_eq!(numeric_id.master_table_version(), 0xFF);
    assert_eq!(numeric_id.originating_center(), 0xFFFF);
    assert_eq!(numeric_id.subcenter(), 0xFF);
    assert_eq!(numeric_id.local_table_version(), 0xFF);
}

#[test]
fn builder_overrides_fields() {
    let mut builder = NumericIdBuilder::new(0, 0, 192);
    builder.set_master_table_version(30);
    builder.set_originating_center(7);
    builder.set_subcenter(14);
    builder.set_local_table_version(1);
    let numeric_id = builder.build();
    assert_eq!(numeric_id, NumericId::new(0, 0, 192, 30, 7, 14, 1));
}

#[test]
fn round_trip_at_boundary_values() {
    let values = [0x00u8, 0x01, 0xFE, 0xFF];
    for &d in &values {
        for &c in &values {
            for &o in &[0x0000u16, 0x0001, 0x00FF, 0x0100, 0xFEFF, 0xFFFE, 0xFFFF] {
                let id = NumericId::new(d, c, d, c, o, d, c);
                assert_eq!(id.product_discipline(), d);
                assert_eq!(id.parameter_category(), c);
                assert_eq!(id.parameter_number(), d);
                assert_eq!(id.master_table_version(), c);
                assert_eq!(id.originating_center(), o);
                assert_eq!(id.subcenter(), d);
                assert_eq!(id.local_table_version(), c);
            }
        }
    }
}

#[test]
fn distinct_fields_give_distinct_ids() {
    let a = NumericId::new(0, 0, 0, 0, 0x00FF, 0, 0);
    let b = NumericId::new(0, 0, 0, 0, 0xFF00, 0, 0);
    let c = NumericId::new(0, 0, 0, 0, 0, 0xFF, 0);
    let d = NumericId::new(0, 0, 0, 0, 0x0001, 0, 0);
    assert_ne!(a, b);
    assert_ne!(a, c);
    assert_ne!(c, d);
}

#[test]
fn order_groups_by_discipline_then_category() {
    let low = NumericId::new(0, 1, 255, 255, 0xFFFF, 255, 255);
    let high = NumericId::new(0, 2, 0, 0, 0, 0, 0);
    assert!(low.as_u64() < high.as_u64());
    let other_discipline = NumericId::new(1, 0, 0, 0, 0, 0, 0);
    assert!(high.as_u64() < other_discipline.as_u64());
}
