use ray_tracer::vec3::Vec3;

#[test]
fn parses_whole_numbers() {
    let v = Vec3::new_from_str_array(&["1", "2", "-3"]).unwrap();
    assert_eq!(v.x().raw(), 65536);
    assert_eq!(v.y().raw(), 131072);
    assert_eq!(v.z().raw(), -196608);
}

#[test]
fn parses_fractions() {
    let v = Vec3::new_from_str_array(&["0.5", "-2.75", "+3"]).unwrap();
    assert_eq!(v.x().raw(), 32768);
    assert_eq!(v.y().raw(), -180224);
    assert_eq!(v.z().raw(), 196608);
}

#[test]
fn parses_bare_point_forms() {
    let v = Vec3::new_from_str_array(&[".5", "5.", "0.25"]).unwrap();
    assert_eq!(v.x().raw(), 32768);
    assert_eq!(v.y().raw(), 5 * 65536);
    assert_eq!(v.z().raw(), 16384);
}

#[test]
fn fraction_truncates_toward_zero() {
    // 0.7 is not representable: its raw count truncates to 45875.
    let v = Vec3::new_from_str_array(&["0.7", "-0.7", "0.1"]).unwrap();
    assert_eq!(v.x().raw(), 45875);
    assert_eq!(v.y().raw(), -45875);
    assert_eq!(v.z().raw(), 6553);
}

#[test]
fn rejects_malformed_numbers() {
    assert!(Vec3::new_from_str_array(&["abc", "1", "2"]).is_err());
    assert!(Vec3::new_from_str_array(&["1", "", "2"]).is_err());
    assert!(Vec3::new_from_str_array(&["1", "2", "1.2.3"]).is_err());
    assert!(Vec3::new_from_str_array(&["inf", "0", "0"]).is_err());
    assert!(Vec3::new_from_str_array(&["1e3", "0", "0"]).is_err());
    assert!(Vec3::new_from_str_array(&[".", "0", "0"]).is_err());
    assert!(Vec3::new_from_str_array(&["-", "0", "0"]).is_err());
    assert!(Vec3::new_from_str_array(&["1 ", "0", "0"]).is_err());
}

#[test]
fn rejects_out_of_range_numbers() {
    // More than nine digits before the point lies outside the model.
    assert!(Vec3::new_from_str_array(&["1234567890", "0", "0"]).is_err());
    let v = Vec3::new_from_str_array(&["123456789", "0", "0"]).unwrap();
    assert_eq!(v.x().raw(), 123456789 * 65536);
}

#[test]
fn ignores_fraction_digits_beyond_resolution() {
    // The tenth fraction digit lies far below 1/65536.
    let a = Vec3::new_from_str_array(&["0.1234567891", "0", "0"]).unwrap();
    let b = Vec3::new_from_str_array(&["0.123456789", "0", "0"]).unwrap();
    assert_eq!(a.x().raw(), b.x().raw());
}
