use namagiri::posit::Posit;

fn to_f32(p: Posit<8, 1>) -> f32 {
    match p.to_scaled() {
        None => f32::INFINITY,
        Some((sig, exp)) => (sig as f32) * 2f32.powf(exp as f32),
    }
}

fn from_f32(f: f32) -> Posit<8, 1> {
    Posit::<8, 1>::from_f32_bits(f.to_bits())
}

#[test]
fn posit_test_to_from_test() {
    for i in 0..0b100000000 {
        let a = Posit::<8, 1>(i);
        let f: f32 = to_f32(a);
        let af = from_f32(f);
        assert_eq!(a, af);
    }
}
