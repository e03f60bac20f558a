use namagiri::flquire::FLQuire;
use namagiri::posit::Posit;
use namagiri::quire::Quire;
use std::cmp::Ordering;

type Byte = Posit<8, 1>;

fn all() -> Vec<Byte> {
    (0..256u32).map(|i| Byte::new(i)).collect()
}

fn signed(p: Byte) -> i32 {
    (p.0 as u8 as i8) as i32
}

#[test]
fn exact_values() {
    let one = Byte::one();
    assert_eq!(one.0, 0x40);
    assert_eq!(one.add(one).0, 0x50);
    assert_eq!(Byte::new(0x50).mul(Byte::new(0x50)).0, 0x60);
    assert_eq!(one.neg().0, 0xc0);
    assert_eq!(Byte::new(0x50).sub(one).0, 0x40);
    assert_eq!(Byte::maxpos().0, 0x7f);
    assert_eq!(Byte::nar().0, 0x80);
    assert_eq!(Byte::minpos().0, 0x01);
}

#[test]
fn scaled_values() {
    assert_eq!(Byte::one().to_scaled(), Some((16, -4)));
    assert_eq!(Byte::maxpos().to_scaled(), Some((16, 8)));
    assert_eq!(Byte::minpos().to_scaled(), Some((16, -16)));
    assert_eq!(Byte::zero().to_scaled(), Some((0, 0)));
    assert_eq!(Byte::nar().to_scaled(), None);
    assert_eq!(Byte::one().neg().to_scaled(), Some((-16, -4)));
}

#[test]
fn from_float_bits() {
    assert_eq!(Byte::from_f32_bits(1.0f32.to_bits()).0, 0x40);
    assert_eq!(Byte::from_f32_bits(3.0f32.to_bits()).0, 0x58);
    assert_eq!(Byte::from_f32_bits((-1.0f32).to_bits()).0, 0xc0);
    assert_eq!(Byte::from_f32_bits(0.0f32.to_bits()).0, 0);
    assert_eq!(Byte::from_f32_bits((-0.0f32).to_bits()).0, 0);
    assert_eq!(Byte::from_f32_bits(f32::INFINITY.to_bits()).0, 0x80);
    assert_eq!(Byte::from_f32_bits(f32::NAN.to_bits()).0, 0x80);
    assert_eq!(Byte::from_f32_bits(1.0e30f32.to_bits()).0, 0x7f);
    assert_eq!(Byte::from_f32_bits(1.0e-30f32.to_bits()).0, 0x01);
    assert_eq!(Byte::from_f32_bits((-1.0e-30f32).to_bits()).0, 0xff);
}

#[test]
fn order_follows_signed_integers() {
    for a in all() {
        for b in all() {
            let c = a.partial_cmp(&b);
            if a.is_nar() || b.is_nar() {
                assert_eq!(c, None);
            } else {
                assert_eq!(c, Some(signed(a).cmp(&signed(b))));
            }
        }
    }
    assert_eq!(Byte::nar().partial_cmp(&Byte::nar()), None);
    assert_eq!(Byte::one().partial_cmp(&Byte::one().neg()), Some(Ordering::Greater));
}

#[test]
fn identities_hold() {
    for x in all() {
        if x.is_nar() {
            continue;
        }
        assert_eq!(x.add(Byte::zero()), x);
        assert_eq!(x.mul(Byte::one()), x);
        assert_eq!(x.mul(Byte::zero()), Byte::zero());
        assert_eq!(x.add(x.neg()), Byte::zero());
        assert_eq!(x.sub(x), Byte::zero());
    }
}

#[test]
fn nar_absorbs() {
    for x in all() {
        assert!(x.add(Byte::nar()).is_nar());
        assert!(Byte::nar().mul(x).is_nar());
        assert!(x.sub(Byte::nar()).is_nar());
        assert!(x.div(Byte::nar()).is_nar());
    }
}

#[test]
fn division_and_remainder_are_zero() {
    let two = Byte::new(0x50);
    let three = Byte::new(0x58);
    assert_eq!(three.div(two), Byte::zero());
    assert_eq!(three.rem(two), Byte::zero());
    assert_eq!(two.div(Byte::zero()), Byte::zero());
    assert_eq!(Byte::zero().div(two), Byte::zero());
    assert_eq!(three.div(Byte::one()), Byte::zero());
    assert_eq!(Byte::one().div(three), Byte::zero());
    assert_eq!(Byte::new(0x50).div(Byte::new(0x48)), Byte::zero());
    for a in all() {
        for b in all() {
            assert_eq!(a.rem(b), Byte::zero());
            if a.is_nar() || b.is_nar() {
                assert!(a.div(b).is_nar());
            } else {
                assert_eq!(a.div(b), Byte::zero());
            }
        }
    }
}

#[test]
fn products_saturate() {
    assert_eq!(Byte::minpos().mul(Byte::minpos()), Byte::minpos());
    assert_eq!(Byte::minpos().neg().mul(Byte::minpos()), Byte::minpos().neg());
    for a in all() {
        for b in all() {
            if a.is_nar() || b.is_nar() || a.is_zero() || b.is_zero() {
                continue;
            }
            assert!(!a.mul(b).is_zero());
        }
    }
}

#[test]
fn sign_helpers() {
    let two = Byte::new(0x50);
    assert_eq!(two.neg().abs(), two);
    assert_eq!(two.abs(), two);
    assert_eq!(two.signum(), Byte::one());
    assert_eq!(two.neg().signum(), Byte::one().neg());
    assert_eq!(Byte::nar().signum(), Byte::nar());
    assert_eq!(Byte::zero().signum(), Byte::zero());
    assert!(two.is_positive() && !two.is_negative());
    assert!(two.neg().is_negative());
    assert_eq!(Byte::one().abs_sub(&two), Byte::zero());
    assert_eq!(two.abs_sub(&Byte::one()), Byte::one());
    let mut acc = Byte::one();
    acc.add_assign(Byte::one());
    assert_eq!(acc, two);
}

#[test]
fn quire_sums_match_posit_sums() {
    for a in all() {
        let qa = Quire::<8, 1>::from_posit(a);
        for b in all() {
            if a.is_nar() || b.is_nar() {
                continue;
            }
            let qb = Quire::<8, 1>::from_posit(b);
            assert_eq!(qa.add(qb).to_posit(), a.add(b));
        }
    }
}

#[test]
fn quire_products_match_posit_products() {
    for a in all() {
        let qa = Quire::<8, 1>::from_posit(a);
        for b in all() {
            if a.is_nar() || b.is_nar() {
                continue;
            }
            let qb = Quire::<8, 1>::from_posit(b);
            assert_eq!(qa.mul(qb).to_posit(), a.mul(b), "{:?} {:?}", a, b);
        }
    }
}

#[test]
fn quire_registers() {
    assert_eq!(Quire::<8, 1>::bias(), 24);
    assert_eq!(Quire::<8, 1>::from_posit(Byte::one()), Quire::<8, 1>::one());
    assert_eq!(Quire::<8, 1>::one().0, 1u128 << 25);
    assert_eq!(Quire::<8, 1>::from_posit(Byte::nar()), Quire::<8, 1>::zero());
    let q = Quire::<8, 1>::from_posit(Byte::one());
    assert_eq!(q.neg().0, (1u128 << 25).wrapping_neg());
    assert_eq!(q.sub(q), Quire::<8, 1>::zero());
    assert_eq!(q.div(q), Quire::<8, 1>::zero());
    assert_eq!(Quire::<8, 1>::new(0).to_posit(), Byte::zero());
    let wide = Quire::<8, 1>::new(1u128 << 64);
    assert_eq!(wide.mul(wide).0, 1u128 << 103);
    assert_eq!(wide.neg().mul(wide).0, (1u128 << 103).wrapping_neg());
    let odd = Quire::<8, 1>::new(3);
    assert_eq!(odd.neg().mul(Quire::new(5)).0, (1u128).wrapping_neg());
    assert_eq!(Quire::<8, 1>::one().mul(odd), odd);
}

#[test]
fn flquire_registers() {
    type F = FLQuire<8, 1, 20>;
    let q = F::from_posit(Byte::one());
    assert_eq!((q.quire, q.sf), (1u128 << 17, 0));
    let m = F::from_posit(Byte::one().neg());
    assert_eq!((m.quire, m.sf), ((1u128 << 17).wrapping_neg(), 0));
    let two = q.add(q);
    assert_eq!((two.quire, two.sf), (1u128 << 17, 1));
    assert_eq!(two.to_posit(), Byte::new(0x50));
    assert_eq!(q.sub(q).to_posit(), Byte::zero());
    assert_eq!(q.div(q), F::zero());
    assert_eq!(F::one(), F::new(1u128 << 17, 0));
    assert!(F::one().is_one());
    assert_eq!(F::one(), F::from_posit(Byte::one()));
    assert_eq!(F::one().to_posit(), Byte::one());
    let three = F::from_posit(Byte::new(0x58));
    assert_eq!(three.mul(F::one()), three);
    assert_eq!(F::from_posit(Byte::nar()), F::zero());
    let mut acc = q;
    acc.add_assign(q);
    assert_eq!(acc, two);
}

#[test]
fn other_widths_round_trip() {
    for i in 0..(1u32 << 16) {
        let a = Posit::<16, 2>::new(i);
        let back = match a.to_scaled() {
            None => Posit::<16, 2>::from_f32_bits(f32::INFINITY.to_bits()),
            Some((sig, exp)) => {
                Posit::<16, 2>::from_f32_bits(((sig as f32) * 2f32.powf(exp as f32)).to_bits())
            }
        };
        assert_eq!(a, back);
    }
}

#[test]
fn accumulators_round_trip_other_widths() {
    for i in 0..(1u32 << 8) {
        let a = Posit::<8, 2>::new(i);
        if !a.is_nar() {
            assert_eq!(Quire::<8, 2>::from_posit(a).to_posit(), a);
        }
    }
    for i in 0..(1u32 << 10) {
        let a = Posit::<10, 1>::new(i);
        if !a.is_nar() {
            assert_eq!(Quire::<10, 1>::from_posit(a).to_posit(), a);
        }
    }
    for i in 0..(1u32 << 12) {
        let a = Posit::<12, 2>::new(i);
        if !a.is_nar() {
            assert_eq!(FLQuire::<12, 2, 24>::from_posit(a).to_posit(), a);
        }
    }
}

#[test]
fn quire_dot_product_rounds_once() {
    // maxpos - maxpos + minpos: the exact sum is minpos.
    let big = Byte::maxpos();
    let mut acc = Quire::<8, 1>::zero();
    acc = acc.add(Quire::from_posit(big));
    acc = acc.add(Quire::from_posit(big.neg()));
    acc = acc.add(Quire::from_posit(Byte::minpos()));
    assert_eq!(acc.to_posit(), Byte::minpos());
}

fn round_trip<const N: u8, const ES: u8>(a: Posit<N, ES>) -> Posit<N, ES> {
    match a.to_scaled() {
        None => Posit::<N, ES>::from_f32_bits(f32::INFINITY.to_bits()),
        Some((sig, exp)) => Posit::<N, ES>::from_f32_bits(((sig as f32) * 2f32.powf(exp as f32)).to_bits()),
    }
}

#[test]
fn zero_exponent_field() {
    type Z = Posit<8, 0>;
    for i in 0..256u32 {
        let a = Z::new(i);
        assert_eq!(round_trip(a), a);
        if !a.is_nar() {
            assert_eq!(a.add(Z::zero()), a);
            assert_eq!(a.mul(Z::one()), a);
            assert_eq!(a.sub(a), Z::zero());
        }
    }
    assert_eq!(Z::one().to_scaled(), Some((32, -5)));
    assert_eq!(Z::one().add(Z::one()).to_scaled(), Some((32, -4)));
    assert_eq!(Z::from_f32_bits(3.0f32.to_bits()).to_scaled(), Some((48, -4)));
}

#[test]
fn thirty_two_bit_words() {
    type W = Posit<32, 2>;
    assert_eq!(W::one().0, 0x4000_0000);
    assert_eq!(W::nar().0, 0x8000_0000);
    assert_eq!(W::maxpos().0, 0x7fff_ffff);
    assert_eq!(W::from_f32_bits(1.5f32.to_bits()).0, 0x4400_0000);
    assert_eq!(W::one().add(W::one()).0, W::from_f32_bits(2.0f32.to_bits()).0);
    assert_eq!(W::one().neg().0, 0xc000_0000);
    assert_eq!(W::one().partial_cmp(&W::one().neg()), Some(Ordering::Greater));
    // Patterns whose fraction fits the 24-bit significand of an f32.
    for i in [0u32, 1, 0x7fff_ffff, 0x8000_0001, 0xffff_ffff, 0x4000_0000, 0x1234_5678, 0xdead_be00] {
        let a = W::new(i);
        assert_eq!(round_trip(a), a, "{:#x}", i);
    }
    assert_eq!(W::from_f32_bits(f32::MAX.to_bits()), W::maxpos());
    assert_eq!(W::from_f32_bits(f32::MIN_POSITIVE.to_bits()), W::minpos());
}

#[test]
fn eighteen_bit_products() {
    type H = Posit<18, 2>;
    let two = H::from_f32_bits(2.0f32.to_bits());
    let three = H::from_f32_bits(3.0f32.to_bits());
    let six = H::from_f32_bits(6.0f32.to_bits());
    assert_eq!(two.mul(three), six);
    assert_eq!(two.neg().mul(three), six.neg());
    assert_eq!(H::minpos().mul(H::minpos()), H::minpos());
}
