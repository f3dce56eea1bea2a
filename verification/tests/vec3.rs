use cyclone::Vec3;

#[test]
fn invert() {
    let v = Vec3(1, 2, 3);
    assert_eq!(v.invert(), Vec3(-1, -2, -3));
}

#[test]
fn invert_twice_gives_original() {
    let v = Vec3(7, -11, 0);
    assert_eq!(v.invert().invert(), v);
}

#[test]
fn mag() {
    assert_eq!(Vec3(0, 2, 0).mag(), 2);
    // sqrt(9 + 1 + 1) = sqrt(11) = 3.316..., which floors to 3.
    assert_eq!(Vec3(3, 1, 1).mag(), 3);
}

#[test]
fn mag_squared() {
    assert_eq!(Vec3(0, 2, 0).mag_squared(), 4);
    assert_eq!(Vec3(3, 1, 1).mag_squared(), 11);
}

#[test]
fn mag_is_floor_root_of_mag_squared() {
    for v in [Vec3(0, 0, 0), Vec3(1, 2, 3), Vec3(-4, 5, -6), Vec3(1000000, -999999, 123456)] {
        let m = v.mag();
        let sq = v.mag_squared();
        assert!(m * m <= sq);
        assert!(sq < (m + 1) * (m + 1));
    }
}

#[test]
fn norm() {
    assert_eq!(Vec3(0, 2, 0).norm(), Vec3(0, 1, 0));
    // The magnitude of (3, 1, 1) floors to 3, and each component divides by
    // it, truncating toward zero.
    assert_eq!(Vec3(3, 1, 1).norm(), Vec3(1, 0, 0));
    assert_eq!(Vec3(0, 0, 0).norm(), Vec3(0, 0, 0));
}

#[test]
fn norm_of_zero_is_zero() {
    assert_eq!(Vec3(0, 0, 0).norm(), Vec3(0, 0, 0));
}

#[test]
fn norm_of_axis_is_unit() {
    assert_eq!(Vec3(0, 0, -9).norm(), Vec3(0, 0, -1));
    assert_eq!(Vec3(12, 0, 0).norm(), Vec3(1, 0, 0));
}

#[test]
fn dot() {
    let a = Vec3(1, 2, 3);
    let b = Vec3(4, -5, 6);
    assert_eq!(a.dot(b), 12);
}

#[test]
fn dot_is_symmetric() {
    let a = Vec3(3, -7, 2);
    let b = Vec3(-1, 9, 14);
    assert_eq!(a.dot(b), b.dot(a));
}

#[test]
fn cross() {
    let a = Vec3(2, 3, 4);
    let b = Vec3(5, 6, 7);
    assert_eq!(a.cross(b), Vec3(-3, 6, -3));
}

#[test]
fn cross_is_anticommutative() {
    let a = Vec3(2, 3, 4);
    let b = Vec3(5, 6, 7);
    assert_eq!(a.cross(b), b.cross(a).invert());
}

#[test]
fn basis() {
    let a = Vec3(1, 0, 0);
    let b = Vec3(1, 99, 0);
    let (basis_x, basis_y, basis_z) = a.basis(b).unwrap();
    assert_eq!(basis_x, Vec3(1, 0, 0));
    assert_eq!(basis_y, Vec3(0, 1, 0));
    assert_eq!(basis_z, Vec3(0, 0, 1));
    assert_eq!(a.basis(a), None);
}

#[test]
fn basis_absent_for_zero_input() {
    let a = Vec3(0, 0, 0);
    assert_eq!(a.basis(Vec3(1, 2, 3)), None);
    assert_eq!(Vec3(1, 2, 3).basis(a), None);
}

#[test]
fn ops() {
    let a = Vec3(1, 1, 1);
    let b = Vec3(0, 1, 2);
    assert_eq!(a.add(b), Vec3(1, 2, 3));
    assert_eq!(a.sub(b), Vec3(1, 0, -1));
    assert_eq!(a.mul(b), Vec3(0, 1, 2));
    assert_eq!(a.scale(2), Vec3(2, 2, 2));
    // Scalar division truncates toward zero.
    assert_eq!(a.div(2), Vec3(0, 0, 0));
    let mut add = a;
    let mut sub = a;
    let mut mul = a;
    let mut scale = a;
    let mut div = a;
    add.add_assign(b);
    sub.sub_assign(b);
    mul.mul_assign(b);
    scale.scale_assign(2);
    div.div_assign(2);
    assert_eq!(add, Vec3(1, 2, 3));
    assert_eq!(sub, Vec3(1, 0, -1));
    assert_eq!(mul, Vec3(0, 1, 2));
    assert_eq!(scale, Vec3(2, 2, 2));
    assert_eq!(div, Vec3(0, 0, 0));
}

#[test]
fn in_place_forms_agree_with_pure_forms() {
    let a = Vec3(6, -14, 25);
    let b = Vec3(-3, 7, 5);
    let mut v = a;
    v.add_assign(b);
    assert_eq!(v, a.add(b));
    let mut v = a;
    v.sub_assign(b);
    assert_eq!(v, a.sub(b));
    let mut v = a;
    v.mul_assign(b);
    assert_eq!(v, a.mul(b));
    let mut v = a;
    v.scale_assign(-4);
    assert_eq!(v, a.scale(-4));
    let mut v = a;
    v.div_assign(-4);
    assert_eq!(v, a.div(-4));
}

#[test]
fn scalar_division_truncates_toward_zero() {
    assert_eq!(Vec3(7, -7, 8).div(2), Vec3(3, -3, 4));
    assert_eq!(Vec3(7, -7, 8).div(-2), Vec3(-3, 3, -4));
}
