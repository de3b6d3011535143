use cry_image::half::{
    float_bits_to_half, half_to_float_bits, quantize_bc6h_half, unquantize_bc6h_half,
};

fn half_value(h: u16) -> f32 {
    f32::from_bits(half_to_float_bits(h))
}

#[test]
fn half_bits_widen_to_the_same_value() {
    assert_eq!(half_to_float_bits(0x3C00), 0x3F80_0000);
    assert_eq!(half_value(0xC000), -2.0);
    assert_eq!(half_to_float_bits(0x8000), 0x8000_0000);
    assert_eq!(half_to_float_bits(0x0000), 0);
    assert_eq!(half_value(0x7BFF), 65504.0);
    assert_eq!(half_to_float_bits(0x7C00), 0x7F80_0000);
    assert_eq!(half_to_float_bits(0xFC00), 0xFF80_0000);
    assert!(half_value(0x7E00).is_nan());
}

#[test]
fn subnormal_halves_become_normal_floats() {
    assert_eq!(half_to_float_bits(0x0001), 0x3380_0000);
    assert_eq!(half_value(0x0001), 2f32.powi(-24));
    assert_eq!(half_to_float_bits(0x03FF), 0x387F_C000);
    assert_eq!(half_value(0x03FF), 1023.0 * 2f32.powi(-24));
    assert_eq!(half_value(0x8200), -512.0 * 2f32.powi(-24));
}

#[test]
fn floats_narrow_to_halves() {
    assert_eq!(float_bits_to_half(1.0f32.to_bits()), 0x3C00);
    assert_eq!(float_bits_to_half((-2.0f32).to_bits()), 0xC000);
    assert_eq!(float_bits_to_half(65504.0f32.to_bits()), 0x7BFF);
    assert_eq!(float_bits_to_half(65536.0f32.to_bits()), 0x7C00);
    assert_eq!(float_bits_to_half((-1.0e9f32).to_bits()), 0xFC00);
    assert_eq!(float_bits_to_half(f32::INFINITY.to_bits()), 0x7C00);
    // Values below 2^-14 flush to +0, negative ones too.
    assert_eq!(float_bits_to_half(1.0e-5f32.to_bits()), 0);
    assert_eq!(float_bits_to_half((-1.0e-5f32).to_bits()), 0);
    // The mantissa is cut, not rounded.
    assert_eq!(float_bits_to_half(1.0009765f32.to_bits()), 0x3C00);
}

#[test]
fn half_round_trips_through_float_bits() {
    for h in [0x3C00u16, 0x0400, 0x7BFF, 0xC000, 0x1234, 0xB555] {
        assert_eq!(float_bits_to_half(half_to_float_bits(h)), h);
    }
}

#[test]
fn bc6h_unquantization() {
    assert_eq!(unquantize_bc6h_half(0, 10, false), 0);
    assert_eq!(unquantize_bc6h_half(1023, 10, false), 31743);
    assert_eq!(unquantize_bc6h_half(512, 10, false), 15887);
    assert_eq!(unquantize_bc6h_half(1, 1, false), 31743);
    assert_eq!(unquantize_bc6h_half(-5, 8, true), 33450);
    assert_eq!(unquantize_bc6h_half(5, 8, true), 682);
    assert_eq!(unquantize_bc6h_half(200, 8, true), 15871);
    assert_eq!(unquantize_bc6h_half(0x1234, 16, false), 0x1234);
    assert_eq!(unquantize_bc6h_half(0x1234, 15, false), 0x2468);
    assert_eq!(unquantize_bc6h_half(-1, 15, true), 0xFFFE);
    assert_eq!(unquantize_bc6h_half(77, 0, true), 0);
}

#[test]
fn bc6h_quantization() {
    assert_eq!(quantize_bc6h_half(0x3C00, false, 10, false), 495);
    assert_eq!(quantize_bc6h_half(0x7BFF, false, 16, false), 0x7BFF);
    assert_eq!(quantize_bc6h_half(0x7BFF, false, 15, false), 15871);
    assert_eq!(quantize_bc6h_half(0x3C00, true, 8, true), -123);
    assert_eq!(quantize_bc6h_half(0x3C00, false, 8, true), 123);
    assert_eq!(quantize_bc6h_half(0x3C00, true, 16, true), 48128);
    assert_eq!(quantize_bc6h_half(0x7FFF, false, 14, false), 16383);
    assert_eq!(quantize_bc6h_half(0x1000, false, 6, false), 8);
    assert_eq!(quantize_bc6h_half(0x1234, true, 0, true), 0);
}
