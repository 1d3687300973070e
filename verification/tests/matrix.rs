use rasterizer::matrix::vector::{Vector2, Vector3};
use rasterizer::matrix::{Matrix3, MatrixNMT, MatrixNT};
use rasterizer::rational::Rational;

fn whole(i: i64) -> Rational {
    Rational::from_int(i)
}

fn filled<const N: usize, const M: usize>(values: [[i64; M]; N]) -> MatrixNMT<Rational, N, M> {
    let mut m = MatrixNMT::<Rational, N, M>::zero();
    for i in 0..N {
        for j in 0..M {
            m.set(i, j, whole(values[i][j]));
        }
    }
    m
}

fn assert_entries<const N: usize, const M: usize>(
    m: &MatrixNMT<Rational, N, M>,
    values: [[i64; M]; N],
) {
    for i in 0..N {
        for j in 0..M {
            assert_eq!(m.get(i, j), whole(values[i][j]), "row {} column {}", i, j);
        }
    }
}

#[test]
fn zero_matrix_holds_zeros() {
    let m = MatrixNMT::<Rational, 2, 3>::zero();
    assert_entries(&m, [[0, 0, 0], [0, 0, 0]]);
}

#[test]
fn identity_matrix_has_ones_on_the_diagonal() {
    let m = Matrix3::identity();
    assert_entries(&m, [[1, 0, 0], [0, 1, 0], [0, 0, 1]]);
}

#[test]
fn matrices_add_element_by_element() {
    let a = filled([[1, 2], [3, 4]]);
    let b = filled([[10, 20], [30, 40]]);
    assert_entries(&(a + b), [[11, 22], [33, 44]]);
}

#[test]
fn matrices_subtract_element_by_element() {
    let a = filled([[10, 20], [30, 40]]);
    let b = filled([[1, 2], [3, 5]]);
    assert_entries(&(a - b), [[9, 18], [27, 35]]);
}

#[test]
fn matrices_multiply_rows_by_columns() {
    let a = filled([[1, 2, 3], [4, 5, 6]]);
    let b = filled([[7, 8], [9, 10], [11, 12]]);
    assert_entries(&(a * b), [[58, 64], [139, 154]]);
}

#[test]
fn identity_is_neutral_for_the_product() {
    let a = filled([[1, -2, 3], [4, 5, -6]]);
    let left = MatrixNT::<Rational, 2>::identity() * a;
    let right = a * MatrixNT::<Rational, 3>::identity();
    assert_entries(&left, [[1, -2, 3], [4, 5, -6]]);
    assert_entries(&right, [[1, -2, 3], [4, 5, -6]]);
}

#[test]
fn identity_is_neutral_for_fractions() {
    let mut a = MatrixNMT::<Rational, 2, 2>::zero();
    a.set(0, 0, Rational::new(1, 3));
    a.set(0, 1, Rational::new(-2, 7));
    a.set(1, 0, Rational::new(5, 11));
    a.set(1, 1, Rational::new(13, 4));
    let p = MatrixNT::<Rational, 2>::identity() * a;
    for i in 0..2 {
        for j in 0..2 {
            assert_eq!(p.get(i, j), a.get(i, j));
        }
    }
}

#[test]
fn rows_can_be_indexed() {
    let mut a = filled([[1, 2], [3, 4]]);
    assert_eq!(a[1][0], whole(3));
    assert_eq!(a[0], [whole(1), whole(2)]);
    a[1][0] = whole(9);
    assert_entries(&a, [[1, 2], [9, 4]]);
}

#[test]
fn set_replaces_one_element() {
    let mut a = filled([[1, 2], [3, 4]]);
    a.set(0, 1, whole(7));
    assert_entries(&a, [[1, 7], [3, 4]]);
}

#[test]
fn vector3_has_named_axes() {
    let mut v = Vector3::new3(whole(1), whole(2), whole(3));
    assert_eq!(*v.x(), whole(1));
    assert_eq!(*v.y(), whole(2));
    assert_eq!(*v.z(), whole(3));
    *v.x_mut() = whole(4);
    *v.y_mut() = whole(5);
    *v.z_mut() = whole(6);
    assert_eq!(*v.x(), whole(4));
    assert_eq!(*v.y(), whole(5));
    assert_eq!(*v.z(), whole(6));
}

#[test]
fn vector2_has_named_axes() {
    let mut v = Vector2::new2(whole(1), whole(2));
    assert_eq!(*v.x(), whole(1));
    assert_eq!(*v.y(), whole(2));
    *v.x_mut() = whole(4);
    *v.y_mut() = whole(5);
    assert_eq!(*v.x(), whole(4));
    assert_eq!(*v.y(), whole(5));
}

#[test]
fn vector2_drops_the_third_axis() {
    let v = Vector3::new3(whole(1), whole(2), whole(3));
    let p = Vector2::from_vector3(&v);
    assert_eq!(*p.x(), whole(1));
    assert_eq!(*p.y(), whole(2));
}
