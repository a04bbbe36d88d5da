use neural::label::{first_max_index, total_order_key_of, Label, LABEL_COUNT};

fn bits(values: &[f64]) -> Vec<u64> {
    values.iter().map(|v| v.to_bits()).collect()
}

#[test]
fn label_bits_larger_first_entry_is_real() {
    assert_eq!(Label::from_bits(&bits(&[0.9, 0.1])), Label::Real);
}

#[test]
fn label_bits_larger_second_entry_is_fake() {
    assert_eq!(Label::from_bits(&bits(&[0.2, 0.8])), Label::Fake);
}

#[test]
fn label_tie_goes_to_first_index() {
    assert_eq!(Label::from_bits(&bits(&[0.5, 0.5])), Label::Real);
}

#[test]
fn label_orders_negative_values() {
    assert_eq!(Label::from_bits(&bits(&[-2.0, -1.0])), Label::Fake);
    assert_eq!(Label::from_bits(&bits(&[-1.0, -2.0])), Label::Real);
    assert_eq!(Label::from_bits(&bits(&[-3.5, 0.25])), Label::Fake);
}

#[test]
fn label_negative_zero_below_positive_zero() {
    assert_eq!(Label::from_bits(&bits(&[-0.0, 0.0])), Label::Fake);
    assert_eq!(Label::from_bits(&bits(&[0.0, -0.0])), Label::Real);
}

#[test]
fn label_count_is_two() {
    assert_eq!(LABEL_COUNT, 2);
}

#[test]
fn one_hot_encodings() {
    assert_eq!(Label::Real.one_hot(), vec![1u8, 0u8]);
    assert_eq!(Label::Fake.one_hot(), vec![0u8, 1u8]);
}

#[test]
fn total_order_keys_follow_total_cmp() {
    let values = [-f64::INFINITY, -2.5, -1.0, -0.0, 0.0, 1e-300, 1.0, 3.0, f64::INFINITY];
    for a in values.iter() {
        for b in values.iter() {
            let ka = total_order_key_of(a.to_bits());
            let kb = total_order_key_of(b.to_bits());
            assert_eq!(ka.cmp(&kb), a.total_cmp(b));
        }
    }
    assert_eq!(total_order_key_of(0), 0);
    assert_eq!(total_order_key_of(0x8000_0000_0000_0000), -1);
    assert_eq!(total_order_key_of(u64::MAX), i64::MIN);
}

#[test]
fn first_max_index_keeps_earliest_of_ties() {
    assert_eq!(first_max_index(&bits(&[1.0, 3.0, 2.0, 3.0])), 1);
    assert_eq!(first_max_index(&bits(&[7.0])), 0);
    assert_eq!(first_max_index(&bits(&[-1.0, -1.0, -1.0])), 0);
    assert_eq!(first_max_index(&bits(&[-4.0, -1.0, -3.0])), 1);
}
