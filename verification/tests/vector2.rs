use linestring2d::rational::Rat;
use linestring2d::vector2::Vector2;

fn r(n: i64) -> Rat {
    Rat::from_i64(n)
}

fn rq(n: i64, d: i64) -> Rat {
    Rat::new(n, d)
}

#[test]
fn lib_create_vector() {
    let v = Vector2::new(r(1), r(2));
    assert_eq!(v.x, r(1));
    assert_eq!(v.y, r(2));
}

#[test]
fn lib_equality_derived() {
    let v1 = Vector2::new(r(1), r(2));
    let v2 = Vector2::new(r(1), r(2));
    let v3 = Vector2::new(rq(10001, 10000), r(2));
    assert_eq!(v1, v2);
    assert_ne!(v1, v3);
}

#[test]
fn lib_clone_derived() {
    let v1 = Vector2::new(r(1), r(2));
    let v2 = v1.dup();
    assert_eq!(v1, v2);
}

#[test]
fn lib_magnitude_squared() {
    let v1 = Vector2::new(r(3), r(4));
    assert_eq!(v1.magnitude_squared(), r(25));
}

#[test]
fn lib_magnitude() {
    let v1 = Vector2::new(r(3), r(4));
    assert_eq!(v1.magnitude(), r(5));
}

#[test]
fn lib_sub() {
    let v1 = Vector2::new(r(3), r(4));
    let v2 = Vector2::new(r(1), r(1));
    let v3 = v1.sub(&v2);
    assert_eq!(v3.x, r(2));
    assert_eq!(v3.y, r(3));
}

#[test]
fn lib_add() {
    let v1 = Vector2::new(r(3), r(4));
    let v2 = Vector2::new(r(1), r(1));
    let v3 = v1.add(&v2);
    assert_eq!(v3.x, r(4));
    assert_eq!(v3.y, r(5));
}

#[test]
fn lib_neg() {
    let v1 = Vector2::new(r(3), r(4));
    let v2 = v1.neg();
    assert_eq!(v2.x, r(-3));
    assert_eq!(v2.y, r(-4));
}

#[test]
fn lib_mul() {
    let v1 = Vector2::new(r(3), r(4));
    let v3 = v1.mul(&r(2));
    assert_eq!(v3.x, r(6));
    assert_eq!(v3.y, r(8));
}

#[test]
fn lib_div() {
    let v1 = Vector2::new(r(3), r(4));
    let v3 = v1.div(&r(2));
    assert_eq!(v3.x, rq(3, 2));
    assert_eq!(v3.y, r(2));
}

#[test]
fn lib_dot() {
    let v1 = Vector2::new(r(3), r(4));
    let v2 = Vector2::new(r(5), r(6));
    assert_eq!(v1.dot(&v2), r(3 * 5 + 4 * 6));
}

#[test]
fn lib_cross() {
    let v1 = Vector2::new(r(3), r(4));
    let v2 = Vector2::new(r(5), r(6));
    assert_eq!(v1.cross(&v2), r(3 * 6 - 4 * 5));
}

#[test]
fn lib_left() {
    let v1 = Vector2::new(r(3), r(4));
    let v2 = v1.left();
    assert_eq!(v2.x, r(-4));
    assert_eq!(v2.y, r(3));
}

#[test]
fn lib_right() {
    let v1 = Vector2::new(r(3), r(4));
    let v2 = v1.right();
    assert_eq!(v2.x, r(4));
    assert_eq!(v2.y, r(-3));
}

#[test]
fn lib_unit() {
    let v1 = Vector2::new(r(3), r(4));
    let v2 = v1.unit();
    let v3 = v2.mul(&v1.magnitude());
    assert_eq!(v2.magnitude(), r(1));
    assert_eq!(v3.x, r(3));
    assert_eq!(v3.y, r(4));
}

#[test]
fn vector2_create_vector() {
    let v = Vector2::new(r(1), r(2));
    assert_eq!(v.x, r(1));
    assert_eq!(v.y, r(2));
}

#[test]
fn vector2_equality_derived() {
    let v1 = Vector2::new(r(1), r(2));
    let v2 = Vector2::new(r(1), r(2));
    let v3 = Vector2::new(rq(10001, 10000), r(2));
    assert_eq!(v1, v2);
    assert_ne!(v1, v3);
}

#[test]
fn vector2_clone_derived() {
    let v1 = Vector2::new(r(1), r(2));
    let v2 = v1.dup();
    assert_eq!(v1, v2);
}

#[test]
fn vector2_magnitude_squared() {
    let v1 = Vector2::new(r(3), r(4));
    assert_eq!(v1.magnitude_squared(), r(25));
}

#[test]
fn vector2_magnitude() {
    let v1 = Vector2::new(r(3), r(4));
    assert_eq!(v1.magnitude(), r(5));
}

#[test]
fn vector2_sub() {
    let v1 = Vector2::new(r(3), r(4));
    let v2 = Vector2::new(r(1), r(1));
    let v3 = v1.sub(&v2);
    assert_eq!(v3.x, r(2));
    assert_eq!(v3.y, r(3));
}

#[test]
fn vector2_add() {
    let v1 = Vector2::new(r(3), r(4));
    let v2 = Vector2::new(r(1), r(1));
    let v3 = v1.add(&v2);
    assert_eq!(v3.x, r(4));
    assert_eq!(v3.y, r(5));
}

#[test]
fn vector2_neg() {
    let v1 = Vector2::new(r(3), r(4));
    let v2 = v1.neg();
    assert_eq!(v2.x, r(-3));
    assert_eq!(v2.y, r(-4));
}

#[test]
fn vector2_mul() {
    let v1 = Vector2::new(r(3), r(4));
    let v3 = v1.mul(&r(2));
    assert_eq!(v3.x, r(6));
    assert_eq!(v3.y, r(8));
}

#[test]
fn vector2_div() {
    let v1 = Vector2::new(r(3), r(4));
    let v3 = v1.div(&r(2));
    assert_eq!(v3.x, rq(3, 2));
    assert_eq!(v3.y, r(2));
}

#[test]
fn vector2_dot() {
    let v1 = Vector2::new(r(3), r(4));
    let v2 = Vector2::new(r(5), r(6));
    assert_eq!(v1.dot(&v2), r(3 * 5 + 4 * 6));
}

#[test]
fn vector2_cross() {
    let v1 = Vector2::new(r(3), r(4));
    let v2 = Vector2::new(r(5), r(6));
    assert_eq!(v1.cross(&v2), r(3 * 6 - 4 * 5));
}

#[test]
fn vector2_left() {
    let v1 = Vector2::new(r(3), r(4));
    let v2 = v1.left();
    assert_eq!(v2.x, r(-4));
    assert_eq!(v2.y, r(3));
}

#[test]
fn vector2_right() {
    let v1 = Vector2::new(r(3), r(4));
    let v2 = v1.right();
    assert_eq!(v2.x, r(4));
    assert_eq!(v2.y, r(-3));
}

#[test]
fn vector2_unit() {
    let v1 = Vector2::new(r(3), r(4));
    let v2 = v1.unit();
    let v3 = v2.mul(&v1.magnitude());
    assert_eq!(v2.magnitude(), r(1));
    assert_eq!(v3.x, r(3));
    assert_eq!(v3.y, r(4));
}

