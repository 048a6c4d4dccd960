fn chars(s: &str) -> Vec<char> {
    s.chars().collect()
}

#[test]
fn str_to_i64() {
    let cases: [(&str, i64, usize); 6] = [
        ("64adifghjwerghwrgh", 64, 1),
        ("64adifghjwerghwrgh", 64, 1),
        ("-1", -1, 1),
        ("+10hola", 10, 2),
        ("+100hola", 100, 3),
        ("100h123ola", 100, 2),
    ];
    for (text, value, ridx) in cases {
        let mut idx: usize = 0;
        let vc: Vec<char> = chars(text);
        let res = evert::str_to_i64(&vc, &mut idx, 10).unwrap();
        assert_eq!(value, res, "str_to_i64(\"{text}\", &mut idx, 10) -> {res}");
        assert_eq!(ridx, idx, "idx should have been {ridx}, but returned {idx}");
    }
}

#[test]
fn str_to_i64_sign_without_digits_fails() {
    let mut idx: usize = 7;
    assert!(evert::str_to_i64(&chars("+x"), &mut idx, 10).is_err());
    assert_eq!(idx, 0);
    let mut idx: usize = 7;
    assert!(evert::str_to_i64(&chars("-"), &mut idx, 10).is_err());
    assert_eq!(idx, 0);
}

#[test]
fn str_to_i64_other_radix() {
    let mut idx: usize = 0;
    assert_eq!(evert::str_to_i64(&chars("777z"), &mut idx, 8).unwrap(), 511);
    assert_eq!(idx, 2);
    let mut idx: usize = 5;
    assert!(evert::str_to_i64(&chars("19"), &mut idx, 8).is_err());
    assert_eq!(idx, 0);
    let mut idx: usize = 0;
    assert_eq!(evert::str_to_i64(&chars("-101b"), &mut idx, 2).unwrap(), -5);
    assert_eq!(idx, 3);
}

#[test]
fn str_to_i64_limits() {
    let mut idx: usize = 0;
    assert_eq!(evert::str_to_i64(&chars("-9223372036854775808"), &mut idx, 10).unwrap(), i64::MIN);
    assert_eq!(idx, 19);
    let mut idx: usize = 0;
    assert_eq!(evert::str_to_i64(&chars("9223372036854775807,"), &mut idx, 10).unwrap(), i64::MAX);
    assert_eq!(idx, 18);
    let mut idx: usize = 3;
    assert!(evert::str_to_i64(&chars("9223372036854775808"), &mut idx, 10).is_err());
    assert_eq!(idx, 0);
}
