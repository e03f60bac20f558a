use namagiri::posit::Posit;
use namagiri::quire::Quire;

#[test]
fn quire_test_to_from_test() {
    for i in 0..0b100000000 {
        let a = Posit::<8, 1>(i);
        let q = Quire::from_posit(a);
        let aq = q.to_posit();
        if !a.is_nar() {
            assert_eq!(a, aq);
        }
    }
}
