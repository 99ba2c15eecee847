use pmanga::chapter_number::{float_less, order_key};

#[test]
fn order_key_follows_total_cmp() {
    let values = [f32::NEG_INFINITY, -2.5, -0.0, 0.0, 1.0, 1.5, 2.0, f32::INFINITY, f32::NAN, -f32::NAN];
    for a in values {
        for b in values {
            assert_eq!(
                order_key(a.to_bits()).cmp(&order_key(b.to_bits())),
                a.total_cmp(&b),
                "{a} vs {b}"
            );
        }
    }
}

#[test]
fn float_less_is_ieee_less() {
    let values = [f32::NEG_INFINITY, -2.5, -0.0, 0.0, 1.0, 1.5, f32::INFINITY, f32::NAN];
    for a in values {
        for b in values {
            assert_eq!(float_less(a.to_bits(), b.to_bits()), a < b, "{a} < {b}");
        }
    }
}
