use dozer::errors::CacheError;
use dozer::fields::{
    field_eq, field_le_exec, is_orderable_exec, is_wf_exec, DateField, DecimalField, Field,
    PointField,
};

fn dec(num: i64, scale: u32) -> Field {
    Field::Decimal(DecimalField { num, scale })
}

#[test]
fn test_decimal_order_across_scales() {
    // 1.5 < 2, although the mantissa 15 is larger than 2
    assert!(field_le_exec(&dec(15, 1), &dec(2, 0)));
    assert!(!field_le_exec(&dec(2, 0), &dec(15, 1)));
    // 0.50 == 0.5 numerically: each side is at most the other
    assert!(field_le_exec(&dec(50, 2), &dec(5, 1)));
    assert!(field_le_exec(&dec(5, 1), &dec(50, 2)));
    // negative values
    assert!(field_le_exec(&dec(-25, 1), &dec(-2, 0)));
    assert!(!field_le_exec(&dec(-2, 0), &dec(-25, 1)));
}

#[test]
fn test_field_order_variants() {
    assert!(field_le_exec(&Field::Int(-3), &Field::Int(4)));
    assert!(field_le_exec(&Field::UInt(3), &Field::UInt(4)));
    assert!(field_le_exec(&Field::Boolean(false), &Field::Boolean(true)));
    assert!(field_le_exec(&Field::Timestamp(-10), &Field::Timestamp(0)));
    assert!(field_le_exec(
        &Field::Date(DateField {
            year: 2015,
            month: 10,
            day: 4
        }),
        &Field::Date(DateField {
            year: 2015,
            month: 10,
            day: 8
        }),
    ));
    assert!(field_le_exec(
        &Field::Point(PointField { x: 1, y: 9 }),
        &Field::Point(PointField { x: 2, y: 0 }),
    ));
}

#[test]
fn test_field_equality() {
    assert!(field_eq(
        &Field::String("abc".to_string()),
        &Field::String("abc".to_string()),
    ));
    assert!(!field_eq(
        &Field::String("abc".to_string()),
        &Field::String("abd".to_string()),
    ));
    assert!(field_eq(&Field::Binary(vec![1, 2]), &Field::Binary(vec![1, 2])));
    assert!(!field_eq(&Field::Binary(vec![1, 2]), &Field::Binary(vec![1])));
    assert!(field_eq(&Field::Null, &Field::Null));
    assert!(!field_eq(&Field::Int(1), &Field::UInt(1)));
}

#[test]
fn test_orderable_and_wf() {
    assert!(is_orderable_exec(&Field::Int(1)));
    assert!(!is_orderable_exec(&Field::String("x".to_string())));
    assert!(!is_orderable_exec(&Field::Null));
    assert!(is_wf_exec(&dec(1, 18)));
    assert!(!is_wf_exec(&dec(1, 19)));
}

#[test]
fn test_cache_error_text() {
    assert_eq!(CacheError::NotFound.describe(), "key not found");
    assert_eq!(CacheError::DuplicateKey.describe(), "duplicate primary key");
}
