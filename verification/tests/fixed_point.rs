use aicaramba::Fixed;
use aicaramba::Mat;
use aicaramba::MatElem;
use aicaramba::FIXED_ONE;

#[test]
fn fixed_one_is_the_unit() {
    assert_eq!(Fixed::from_int(1).raw, FIXED_ONE);
    assert_eq!(Fixed::from_int(0).raw, 0);
    assert_eq!(Fixed::from_int(-2).raw, -2 * FIXED_ONE);
}

#[test]
fn fixed_arithmetic_is_exact_on_small_values() {
    let two = Fixed::from_int(2);
    let three = Fixed::from_int(3);
    let half = Fixed { raw: FIXED_ONE / 2 };
    assert_eq!(two.add_elem(three), Fixed::from_int(5));
    assert_eq!(two.sub_elem(three), Fixed::from_int(-1));
    assert_eq!(two.mul_elem(three), Fixed::from_int(6));
    assert_eq!(three.mul_elem(half), Fixed { raw: FIXED_ONE + FIXED_ONE / 2 });
    assert_eq!(Fixed::zero_elem(), Fixed { raw: 0 });
}

#[test]
fn fixed_negative_products_keep_their_sign() {
    let minus_two = Fixed::from_int(-2);
    let three = Fixed::from_int(3);
    assert_eq!(minus_two.mul_elem(three), Fixed::from_int(-6));
    assert_eq!(minus_two.mul_elem(minus_two), Fixed::from_int(4));
}

#[test]
fn fixed_matrices_compose() {
    let a = Mat::new(2, 2, vec![
        Fixed::from_int(1),
        Fixed::from_int(2),
        Fixed::from_int(3),
        Fixed::from_int(4),
    ])
    .unwrap();
    let v = Mat::new(2, 1, vec![Fixed::from_int(1), Fixed::from_int(1)]).unwrap();
    let p = a.dot(&v).unwrap();
    assert_eq!(*p.at(0, 0), Fixed::from_int(3));
    assert_eq!(*p.at(1, 0), Fixed::from_int(7));
}
