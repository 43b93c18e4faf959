use concurrency::{dot_product, Error, Numeric, Vector};

#[test]
fn dot_product_adds_the_products() {
    let r = dot_product(Vector::new(vec![1, 2, 3]), Vector::new(vec![1, 3, 5]));
    assert_eq!(r, Ok(22));
    let r = dot_product(Vector::new(vec![4i64, 5, 6]), Vector::new(vec![2i64, 4, 6]));
    assert_eq!(r, Ok(64));
}

#[test]
fn dot_product_of_nothing_is_zero() {
    let r = dot_product(Vector::<i32>::new(vec![]), Vector::<i32>::new(vec![]));
    assert_eq!(r, Ok(0));
}

#[test]
fn dot_product_refuses_different_lengths() {
    let r = dot_product(Vector::new(vec![1, 2, 3]), Vector::new(vec![1, 2]));
    assert_eq!(r, Err(Error::LengthMismatch));
    let r = dot_product(Vector::<u8>::new(vec![]), Vector::new(vec![1u8]));
    assert_eq!(r, Err(Error::LengthMismatch));
}

#[test]
fn dot_product_wraps_at_every_step_as_at_the_end() {
    let a = vec![i8::MAX, i8::MAX, -3, 100];
    let b = vec![2i8, 3, i8::MIN, 100];
    let exact: i64 = a.iter().zip(b.iter()).map(|(x, y)| (*x as i64) * (*y as i64)).sum();
    let r = dot_product(Vector::new(a), Vector::new(b));
    assert_eq!(r, Ok(exact as i8));
}

#[test]
fn vector_keeps_its_elements() {
    let v = Vector::new(vec![3u16, 1, 2]);
    assert_eq!(v.len(), 3);
    assert_eq!(v.as_slice(), &[3u16, 1, 2]);
}

#[test]
fn numeric_operations_wrap() {
    assert_eq!(<i32 as Numeric>::zero(), 0);
    assert_eq!(Numeric::plus(i32::MAX, 1), i32::MIN);
    assert_eq!(Numeric::times(1i32 << 16, 1i32 << 16), 0);
    assert_eq!(Numeric::plus(250u8, 10u8), 4u8);
    assert_eq!(Numeric::times(16u8, 17u8), 16u8);
    assert_eq!(Numeric::plus(-5i64, 7i64), 2i64);
    assert_eq!(Numeric::times(u64::MAX, 2u64), u64::MAX - 1);
    assert_eq!(Numeric::times(i16::MIN, -1i16), i16::MIN);
    assert_eq!(Numeric::plus(u16::MAX, 1u16), 0u16);
    assert_eq!(Numeric::times(u32::MAX, u32::MAX), 1u32);
    assert_eq!(Numeric::plus(i128::MIN, -1i128), i128::MAX);
    assert_eq!(Numeric::times(u128::MAX, 3u128), u128::MAX - 2);
    assert_eq!(Numeric::plus(usize::MAX, 2usize), 1usize);
    assert_eq!(Numeric::times(isize::MIN, 3isize), isize::MIN);
    assert_eq!(Numeric::plus(isize::MAX, 1isize), isize::MIN);
    assert_eq!(Numeric::plus(-3isize, -4isize), -7isize);
}

#[test]
fn numeric_text_is_decimal() {
    assert_eq!(Numeric::text(&0i32), "0");
    assert_eq!(Numeric::text(&-12i8), "-12");
    assert_eq!(Numeric::text(&255u8), "255");
    assert_eq!(Numeric::text(&i16::MIN), "-32768");
    assert_eq!(Numeric::text(&65535u16), "65535");
    assert_eq!(Numeric::text(&4000000000u32), "4000000000");
    assert_eq!(Numeric::text(&i64::MAX), "9223372036854775807");
    assert_eq!(Numeric::text(&u64::MAX), "18446744073709551615");
    assert_eq!(Numeric::text(&i64::MIN), "-9223372036854775808");
    assert_eq!(Numeric::text(&i8::MIN), "-128");
    assert_eq!(Numeric::text(&-1i32), "-1");
    assert_eq!(Numeric::text(&10u8), "10");
    assert_eq!(Numeric::text(&1002003isize), "1002003");
    assert_eq!(Numeric::text(&usize::MIN), "0");
    assert_eq!(
        Numeric::text(&i128::MIN),
        "-170141183460469231731687303715884105728"
    );
    assert_eq!(
        Numeric::text(&u128::MAX),
        "340282366920938463463374607431768211455"
    );
}

#[test]
fn numeric_text_agrees_with_the_standard_notation() {
    for v in -300i32..300 {
        assert_eq!(Numeric::text(&v), format!("{}", v));
    }
    for v in [i32::MIN, i32::MIN + 1, -1000000007, 99, 100, 101, 999999999, i32::MAX] {
        assert_eq!(Numeric::text(&v), format!("{}", v));
    }
    for v in 0u8..=255 {
        assert_eq!(Numeric::text(&v), format!("{}", v));
    }
}
