use namagiri::flquire::FLQuire;
use namagiri::posit::Posit;

#[test]
fn flquire_test_to_from_test() {
    for i in 0..0b100000000 {
        let a = Posit::<8, 1>(i);
        let q = FLQuire::<8, 1, 20>::from_posit(a);
        let aq = q.to_posit();
        if !a.is_nar() {
            assert_eq!(a, aq);
        }
    }
}

fn op_test<P, Q>(p: P, q: Q)
where
    P: Fn(Posit<8, 1>, Posit<8, 1>) -> Posit<8, 1>,
    Q: Fn(FLQuire<8, 1, 20>, FLQuire<8, 1, 20>) -> FLQuire<8, 1, 20>,
{
    for i in 0..0b100000000 {
        let a = Posit::<8, 1>(i);
        let qa = FLQuire::<8, 1, 20>::from_posit(a);
        for j in 0..0b100000000 {
            let b = Posit::<8, 1>(j);
            let qb = FLQuire::<8, 1, 20>::from_posit(b);
            let c = p(a, b);
            let qc: Posit<8, 1> = q(qa, qb).to_posit();

            if a.is_nar() || b.is_nar() {
                continue;
            }
            assert_eq!(c, qc);
        }
    }
}

#[test]
fn mul_test() {
    op_test(|x, y| x.mul(y), |x, y| x.mul(y))
}

#[test]
fn add_test() {
    op_test(|x, y| x.add(y), |x, y| x.add(y))
}
