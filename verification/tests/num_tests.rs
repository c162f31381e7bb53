use cii::num::Num;

#[test]
fn construction_normalizes() {
    assert_eq!(Num::new(3210, 1), Num::new(321, 0));
    assert_eq!(Num::new(2500000000, 9), Num::new(25, 1));
    assert_eq!(Num::new(0, 5), Num::new(0, 0));
    assert_eq!(Num::from_int(7), Num::new(7, 0));
}

#[test]
fn addition_aligns_scales() {
    let a = Num::new(15, 1);
    let b = Num::new(5, 1);
    assert_eq!(a.add(&b).unwrap(), Num::new(2, 0));
    let c = Num::new(1, 0);
    let d = Num::new(25, 2);
    assert_eq!(c.add(&d).unwrap(), Num::new(125, 2));
}

#[test]
fn subtraction_and_negation() {
    let a = Num::new(1, 0);
    let b = Num::new(25, 1);
    assert_eq!(a.sub(&b).unwrap(), Num::new(-15, 1));
    assert_eq!(b.neg(), Num::new(-25, 1));
}

#[test]
fn multiplication_is_exact() {
    let a = Num::new(15, 1);
    let b = Num::new(4, 0);
    assert_eq!(a.mul(&b).unwrap(), Num::new(6, 0));
}

#[test]
fn multiplication_overflow_reports_none() {
    let a = Num::new(i64::MAX, 0);
    let b = Num::new(10, 0);
    assert!(a.mul(&b).is_none());
}

#[test]
fn division_truncates_toward_zero() {
    let a = Num::new(1, 0);
    let b = Num::new(3, 0);
    assert_eq!(a.div(&b).unwrap(), Num::new(333333333, 9));
    let c = Num::new(-1, 0);
    assert_eq!(c.div(&b).unwrap(), Num::new(-333333333, 9));
    let d = Num::new(10, 0);
    let e = Num::new(4, 0);
    assert_eq!(d.div(&e).unwrap(), Num::new(25, 1));
}

#[test]
fn ordering_compares_values_across_scales() {
    let a = Num::new(25, 1);
    let b = Num::new(3, 0);
    assert!(a.lt(&b));
    assert!(!b.lt(&a));
    assert!(a.le(&a));
    assert!(Num::new(-1, 0).lt(&Num::new(1, 9)));
}

#[test]
fn equality_is_by_value() {
    assert!(Num::new(10, 1).eq_num(&Num::new(1, 0)));
    assert!(!Num::new(1, 1).eq_num(&Num::new(1, 0)));
    assert!(Num::new(0, 0).is_zero());
    assert!(!Num::new(1, 2).is_zero());
}

#[test]
fn rendering_matches_decimal_text() {
    let chars: String = Num::new(-45, 1).to_chars().into_iter().collect();
    assert_eq!(chars, "-4.5");
    let chars2: String = Num::new(1, 3).to_chars().into_iter().collect();
    assert_eq!(chars2, "0.001");
    let chars3: String = Num::new(120, 0).to_chars().into_iter().collect();
    assert_eq!(chars3, "120");
}
