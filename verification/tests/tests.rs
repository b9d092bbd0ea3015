use dezero::graph::Graph;
use dezero::shape::shape_after_broadcast;
use dezero::tensor::Tensor;
use dezero::Error;

fn scalar(g: &mut Graph, v: i64) -> usize {
    g.leaf(Tensor::scalar(v))
}

fn tensor(data: Vec<i64>, shape: Vec<usize>) -> Tensor {
    Tensor::new(data, shape).unwrap()
}

fn square(g: &mut Graph, x: usize) -> usize {
    g.mul(x, x).unwrap()
}

#[test]
fn square_backward_test() {
    let mut g = Graph::new();
    let x = scalar(&mut g, 3);
    let y = square(&mut g, x);
    g.backward(y).unwrap();
    assert_eq!(g.get_grad(x).unwrap().get_data(), &vec![6]);
}

#[test]
fn add_test() {
    let mut g = Graph::new();
    let x0 = scalar(&mut g, 2);
    let x1 = scalar(&mut g, 3);
    let y = g.add(x0, x1).unwrap();
    assert_eq!(g.get_array(y).get_data(), &vec![5]);
}

#[test]
fn square_add_test() {
    let mut g = Graph::new();
    let x = scalar(&mut g, 2);
    let y = scalar(&mut g, 3);
    let sx = square(&mut g, x);
    let sy = square(&mut g, y);
    let z = g.add(sx, sy).unwrap();
    g.backward(z).unwrap();
    assert_eq!(g.get_array(z).get_data(), &vec![13]);
    assert_eq!(g.get_grad(x).unwrap().get_data(), &vec![4]);
    assert_eq!(g.get_grad(y).unwrap().get_data(), &vec![6]);
}

#[test]
fn add_backward_test() {
    let mut g = Graph::new();
    let x = scalar(&mut g, 3);
    let y = g.add(x, x).unwrap();
    g.backward(y).unwrap();
    assert_eq!(g.get_grad(x).unwrap().get_data(), &vec![2]);
}

#[test]
fn clear_grad_test() {
    let mut g = Graph::new();
    let x = scalar(&mut g, 3);
    let y = g.add(x, x).unwrap();
    g.backward(y).unwrap();
    assert_eq!(g.get_grad(x).unwrap().get_data(), &vec![2]);

    g.clear_grad(x);
    let t = g.add(x, x).unwrap();
    let y2 = g.add(t, x).unwrap();
    g.backward(y2).unwrap();
    assert_eq!(g.get_grad(x).unwrap().get_data(), &vec![3]);
}

#[test]
fn complex_graph_test() {
    let mut g = Graph::new();
    let x = scalar(&mut g, 2);
    let a = square(&mut g, x);
    let sa1 = square(&mut g, a);
    let sa2 = square(&mut g, a);
    let y = g.add(sa1, sa2).unwrap();
    g.backward(y).unwrap();

    assert_eq!(g.get_array(y).get_data(), &vec![32]);
    assert_eq!(g.get_grad(x).unwrap().get_data(), &vec![64]);
}

#[test]
fn grad_drop_test() {
    let mut g = Graph::new();
    let x0 = scalar(&mut g, 1);
    let x1 = scalar(&mut g, 1);

    let t = g.add(x0, x1).unwrap();
    let y = g.add(x0, t).unwrap();

    g.backward(y).unwrap();

    assert!(g.get_option_grad(y).is_none());
    assert!(g.get_option_grad(t).is_none());
    assert_eq!(g.get_option_grad(x0).unwrap().get_data(), &vec![2]);
    assert_eq!(g.get_option_grad(x1).unwrap().get_data(), &vec![1]);
}

#[test]
fn overload_test() {
    let mut g = Graph::new();
    let a = scalar(&mut g, 3);
    let b = scalar(&mut g, 2);
    let c = scalar(&mut g, 1);

    let ab = g.mul(a, b).unwrap();
    let y = g.add(ab, c).unwrap();
    g.backward(y).unwrap();

    assert_eq!(g.get_array(y).get_data(), &vec![7]);
    assert_eq!(g.get_grad(a).unwrap().get_data(), &vec![2]);
    assert_eq!(g.get_grad(b).unwrap().get_data(), &vec![3]);
}

#[test]
fn sphere_test() {
    let mut g = Graph::new();
    let x = scalar(&mut g, 1);
    let y = scalar(&mut g, 1);
    let px = g.powi(x, 2);
    let py = g.powi(y, 2);
    let z = g.add(px, py).unwrap();

    g.backward(z).unwrap();

    assert_eq!(g.get_grad(x).unwrap().get_data(), &vec![2]);
    assert_eq!(g.get_grad(y).unwrap().get_data(), &vec![2]);
}

#[test]
fn goldstein_prince_test() {
    // (1 + (x+y+1)^2 (19 - 14x + 3x^2 - 14y + 6xy + 3y^2))
    //   * (30 + (2x-3y)^2 (18 - 32x + 12x^2 + 48y - 36xy + 27y^2)) at (1, 1)
    let mut g = Graph::new();
    let x = scalar(&mut g, 1);
    let y = scalar(&mut g, 1);

    let k = |g: &mut Graph, v: i64| g.leaf(Tensor::scalar(v));
    let one = k(&mut g, 1);
    let s1 = g.add(x, y).unwrap();
    let s1 = g.add(s1, one).unwrap();
    let s1 = g.powi(s1, 2);
    let c19 = k(&mut g, 19);
    let c14 = k(&mut g, 14);
    let c3 = k(&mut g, 3);
    let c6 = k(&mut g, 6);
    let t14x = g.mul(c14, x).unwrap();
    let x2 = g.powi(x, 2);
    let t3x2 = g.mul(c3, x2).unwrap();
    let t14y = g.mul(c14, y).unwrap();
    let xy = g.mul(x, y).unwrap();
    let t6xy = g.mul(c6, xy).unwrap();
    let y2 = g.powi(y, 2);
    let t3y2 = g.mul(c3, y2).unwrap();
    let p = g.sub(c19, t14x).unwrap();
    let p = g.add(p, t3x2).unwrap();
    let p = g.sub(p, t14y).unwrap();
    let p = g.add(p, t6xy).unwrap();
    let p = g.add(p, t3y2).unwrap();
    let left = g.mul(s1, p).unwrap();
    let left = g.add(one, left).unwrap();

    let c30 = k(&mut g, 30);
    let c2 = k(&mut g, 2);
    let c3b = k(&mut g, 3);
    let t2x = g.mul(c2, x).unwrap();
    let t3y = g.mul(c3b, y).unwrap();
    let s2 = g.sub(t2x, t3y).unwrap();
    let s2 = g.powi(s2, 2);
    let c18 = k(&mut g, 18);
    let c32 = k(&mut g, 32);
    let c12 = k(&mut g, 12);
    let c48 = k(&mut g, 48);
    let c36 = k(&mut g, 36);
    let c27 = k(&mut g, 27);
    let t32x = g.mul(c32, x).unwrap();
    let x2b = g.powi(x, 2);
    let t12x2 = g.mul(c12, x2b).unwrap();
    let t48y = g.mul(c48, y).unwrap();
    let xyb = g.mul(x, y).unwrap();
    let t36xy = g.mul(c36, xyb).unwrap();
    let y2b = g.powi(y, 2);
    let t27y2 = g.mul(c27, y2b).unwrap();
    let q = g.sub(c18, t32x).unwrap();
    let q = g.add(q, t12x2).unwrap();
    let q = g.add(q, t48y).unwrap();
    let q = g.sub(q, t36xy).unwrap();
    let q = g.add(q, t27y2).unwrap();
    let right = g.mul(s2, q).unwrap();
    let right = g.add(c30, right).unwrap();

    let z = g.mul(left, right).unwrap();
    g.backward(z).unwrap();

    assert!(g.get_grad(x).unwrap().all_close(&Tensor::scalar(-5376), 1));
    assert!(g.get_grad(y).unwrap().all_close(&Tensor::scalar(8064), 1));
    assert_eq!(g.get_grad(x).unwrap().get_data(), &vec![-5376]);
    assert_eq!(g.get_grad(y).unwrap().get_data(), &vec![8064]);
}

#[test]
fn matyas_scaled_test() {
    // the Matyas surface scaled by 100 to exact integers:
    // 26 (x^2 + y^2) - 48 x y, whose gradients at (1, 1) are 4 and 4
    let mut g = Graph::new();
    let x = scalar(&mut g, 1);
    let y = scalar(&mut g, 1);
    let c26 = scalar(&mut g, 26);
    let c48 = scalar(&mut g, 48);
    let x2 = g.powi(x, 2);
    let y2 = g.powi(y, 2);
    let ss = g.add(x2, y2).unwrap();
    let left = g.mul(c26, ss).unwrap();
    let xy = g.mul(x, y).unwrap();
    let right = g.mul(c48, xy).unwrap();
    let z = g.sub(left, right).unwrap();
    g.backward(z).unwrap();

    assert_eq!(g.get_array(z).get_data(), &vec![4]);
    assert_eq!(g.get_grad(x).unwrap().get_data(), &vec![4]);
    assert_eq!(g.get_grad(y).unwrap().get_data(), &vec![4]);
}

#[test]
fn div_backward_test() {
    // quotient rule in exact arithmetic: z = x / y at (12, 1)
    let mut g = Graph::new();
    let x = scalar(&mut g, 12);
    let y = scalar(&mut g, 1);
    let z = g.div(x, y).unwrap();
    g.backward(z).unwrap();
    assert_eq!(g.get_array(z).get_data(), &vec![12]);
    // dz/dx = 1 / y = 1; dz/dy = -x / y^2 = -12
    assert_eq!(g.get_grad(x).unwrap().get_data(), &vec![1]);
    assert_eq!(g.get_grad(y).unwrap().get_data(), &vec![-12]);
}

#[test]
fn div_broadcast_test() {
    let mut g = Graph::new();
    let x = g.leaf(tensor(vec![10, 20, 30, 40], vec![2, 2]));
    let y = g.leaf(tensor(vec![10, 4], vec![2]));
    let z = g.div(x, y).unwrap();
    g.backward(z).unwrap();
    assert_eq!(g.get_array(z).get_data(), &vec![1, 5, 3, 10]);
    // dz/dx = 1/y truncated, summed over nothing
    assert_eq!(g.get_grad(x).unwrap().get_data(), &vec![0, 0, 0, 0]);
    // dz/dy = -x/y^2 truncated, summed down the broadcast rows
    assert_eq!(g.get_grad(y).unwrap().get_data(), &vec![0, -3]);
}

#[test]
fn recording_guard_test() {
    let mut g = Graph::new();
    let x = scalar(&mut g, 3);
    let guard = g.pause_recording();
    assert!(!g.is_recording());
    let y = g.add(x, x).unwrap();
    assert!(g.get_creator(y).is_none());
    g.restore_recording(guard);
    assert!(g.is_recording());
    let z = g.add(x, x).unwrap();
    assert!(g.get_creator(z).is_some());
}

#[test]
fn reshape_test() {
    let mut g = Graph::new();
    let x = g.leaf(tensor(vec![0, 1, 2, 3, 4, 5], vec![2, 3]));
    let y = g.reshape(x, vec![6]).unwrap();
    g.backward(y).unwrap();
    let grad = g.get_grad(x).unwrap();
    assert_eq!(grad.get_data(), &vec![1, 1, 1, 1, 1, 1]);
    assert_eq!(grad.get_shape(), &vec![2, 3]);
    let yv = g.get_array(y);
    assert_eq!(yv.get_data(), &vec![0, 1, 2, 3, 4, 5]);
    assert_eq!(yv.get_shape(), &vec![6]);
}

#[test]
fn transpose_test() {
    let mut g = Graph::new();
    let x = g.leaf(tensor(vec![1, 2, 3, 4, 5, 6], vec![2, 3]));
    let y = g.transpose(x).unwrap();
    g.backward(y).unwrap();
    let grad = g.get_grad(x).unwrap();
    assert_eq!(grad.get_data(), &vec![1, 1, 1, 1, 1, 1]);
    assert_eq!(grad.get_shape(), &vec![2, 3]);
    let yv = g.get_array(y);
    assert_eq!(yv.get_data(), &vec![1, 4, 2, 5, 3, 6]);
    assert_eq!(yv.get_shape(), &vec![3, 2]);
}

#[test]
fn linear_test() {
    let mut g = Graph::new();
    let x = g.leaf(tensor((0..12).collect(), vec![3, 4]));
    let w = g.leaf(tensor((0..16).collect(), vec![4, 4]));
    let b = g.leaf(tensor((0..4).collect(), vec![4]));
    let z = g.linear(x, w, Some(b)).unwrap();
    g.backward(z).unwrap();

    let zv = g.get_array(z);
    assert_eq!(
        zv.get_data(),
        &vec![
            56 + 0,
            62 + 1,
            68 + 2,
            74 + 3,
            152 + 0,
            174 + 1,
            196 + 2,
            218 + 3,
            248 + 0,
            286 + 1,
            324 + 2,
            362 + 3
        ]
    );
    assert_eq!(
        g.get_grad(x).unwrap().get_data(),
        &vec![6, 22, 38, 54, 6, 22, 38, 54, 6, 22, 38, 54]
    );
    assert_eq!(
        g.get_grad(w).unwrap().get_data(),
        &vec![12, 12, 12, 12, 15, 15, 15, 15, 18, 18, 18, 18, 21, 21, 21, 21]
    );
    assert_eq!(g.get_grad(b).unwrap().get_data(), &vec![3, 3, 3, 3]);
}

#[test]
fn mse_test() {
    let mut g = Graph::new();
    let x = g.leaf(tensor((0..5).collect(), vec![5]));
    let y = g.leaf(tensor((5..10).collect(), vec![5]));

    let z = g.mean_squared_error(x, y).unwrap();
    g.backward(z).unwrap();

    assert_eq!(g.get_array(z).get_data(), &vec![25]);
    assert_eq!(g.get_grad(x).unwrap().get_data(), &vec![-2, -2, -2, -2, -2]);
    assert_eq!(g.get_grad(y).unwrap().get_data(), &vec![2, 2, 2, 2, 2]);
}

#[test]
fn broadcast_test() {
    let x = tensor(vec![0, 1], vec![2]);
    let y = x.broadcast_to(&vec![2, 2]).unwrap();
    assert_eq!(y.get_data(), &vec![0, 1, 0, 1]);
    assert_eq!(y.get_shape(), &vec![2, 2]);
}

#[test]
fn relu_backward_test() {
    let mut g = Graph::new();
    let x = g.leaf(tensor(vec![-2, -1, 0, 1, 2], vec![5]));
    let y = g.relu(x);
    g.backward(y).unwrap();
    assert_eq!(g.get_array(y).get_data(), &vec![0, 0, 0, 1, 2]);
    assert_eq!(g.get_grad(x).unwrap().get_data(), &vec![0, 0, 0, 1, 1]);
}

#[test]
fn sum_backward_test() {
    let mut g = Graph::new();
    let x = g.leaf(tensor(vec![1, 2, 3, 4, 5, 6], vec![2, 3]));
    let y = g.sum(x);
    g.backward(y).unwrap();
    assert_eq!(g.get_array(y).get_data(), &vec![21]);
    let grad = g.get_grad(x).unwrap();
    assert_eq!(grad.get_data(), &vec![1, 1, 1, 1, 1, 1]);
    assert_eq!(grad.get_shape(), &vec![2, 3]);
}

#[test]
fn broadcast_add_backward_test() {
    // a row vector broadcast over two rows gets each contribution summed back
    let mut g = Graph::new();
    let x = g.leaf(tensor(vec![1, 2, 3, 4, 5, 6], vec![2, 3]));
    let b = g.leaf(tensor(vec![10, 20, 30], vec![3]));
    let y = g.add(x, b).unwrap();
    g.backward(y).unwrap();
    assert_eq!(g.get_array(y).get_data(), &vec![11, 22, 33, 14, 25, 36]);
    assert_eq!(g.get_grad(x).unwrap().get_data(), &vec![1, 1, 1, 1, 1, 1]);
    assert_eq!(g.get_grad(b).unwrap().get_data(), &vec![2, 2, 2]);
}

#[test]
fn retain_grad_test() {
    let mut g = Graph::new();
    let x = scalar(&mut g, 3);
    let t = g.add(x, x).unwrap();
    let y = g.add(t, x).unwrap();
    g.backward_with_option(y, true).unwrap();
    assert_eq!(g.get_option_grad(t).unwrap().get_data(), &vec![1]);
    assert_eq!(g.get_option_grad(y).unwrap().get_data(), &vec![1]);
    assert_eq!(g.get_grad(x).unwrap().get_data(), &vec![3]);
}

#[test]
fn recording_off_test() {
    let mut g = Graph::new();
    let x = scalar(&mut g, 3);
    let prev = g.set_recording(false);
    assert!(prev);
    let y = g.add(x, x).unwrap();
    assert_eq!(g.get_array(y).get_data(), &vec![6]);
    assert!(g.get_creator(y).is_none());
    assert_eq!(g.backward(y), Err(Error::GraphStateError));
    let restored = g.set_recording(prev);
    assert!(!restored);
    let z = g.add(x, x).unwrap();
    assert!(g.get_creator(z).is_some());
}

#[test]
fn error_cases_test() {
    let mut g = Graph::new();
    let a = g.leaf(tensor(vec![1, 2, 3], vec![3]));
    let b = g.leaf(tensor(vec![1, 2], vec![2]));
    assert_eq!(g.add(a, b), Err(Error::ShapeError));

    let c = g.leaf(tensor(vec![0; 8], vec![2, 2, 2]));
    assert_eq!(g.transpose(c), Err(Error::UnsupportedOperation));

    assert_eq!(g.backward(a), Err(Error::GraphStateError));
    assert!(matches!(g.get_grad(a), Err(Error::UninitializedGradient)));

    assert!(matches!(
        Tensor::new(vec![1, 2, 3], vec![2]),
        Err(Error::ShapeError)
    ));
    let big = Tensor::scalar(7);
    assert!(matches!(
        big.broadcast_to(&vec![usize::MAX, 2]),
        Err(Error::SizeOverflow)
    ));
}

#[test]
fn sum_to_broadcast_round_trip_test() {
    // expanding and reducing back scales each element by the copy count...
    let t = tensor(vec![1, 2], vec![2]);
    let big = t.broadcast_to(&vec![3, 2]).unwrap();
    let back = big.sum_to(&vec![2]).unwrap();
    assert_eq!(back.get_shape(), &vec![2]);
    assert_eq!(back.get_data(), &vec![3, 6]);

    // ...so when only size-1 axes were added the round trip is the identity
    let lifted = t.broadcast_to(&vec![1, 2]).unwrap();
    let same = lifted.sum_to(&vec![2]).unwrap();
    assert_eq!(same.get_data(), t.get_data());
    assert_eq!(same.get_shape(), t.get_shape());
}

#[test]
fn shape_after_broadcast_test() {
    assert_eq!(
        shape_after_broadcast(&vec![2, 1, 3], &vec![4, 1]),
        Some(vec![2, 4, 3])
    );
    assert_eq!(shape_after_broadcast(&vec![], &vec![5]), Some(vec![5]));
    assert_eq!(shape_after_broadcast(&vec![2, 3], &vec![3]), Some(vec![2, 3]));
    assert_eq!(shape_after_broadcast(&vec![2, 3], &vec![2]), None);
}

#[test]
fn elementwise_tensor_test() {
    let a = tensor(vec![1, -2, 3], vec![3]);
    let b = tensor(vec![10, 20, -30], vec![3]);
    assert_eq!(a.add(&b).unwrap().get_data(), &vec![11, 18, -27]);
    assert_eq!(a.sub(&b).unwrap().get_data(), &vec![-9, -22, 33]);
    assert_eq!(a.mul(&b).unwrap().get_data(), &vec![10, -40, -90]);
    assert_eq!(b.div(&a).unwrap().get_data(), &vec![10, -10, -10]);
    let zeros = tensor(vec![0, 0, 0], vec![3]);
    assert_eq!(b.div(&zeros).unwrap().get_data(), &vec![0, 0, 0]);
    assert_eq!(a.neg().get_data(), &vec![-1, 2, -3]);
    assert_eq!(a.powi(3).get_data(), &vec![1, -8, 27]);
    assert_eq!(a.relu_max(0).get_data(), &vec![1, 0, 3]);
    assert_eq!(a.clip(-1, 2).get_data(), &vec![1, -1, 2]);
    assert_eq!(
        a.relu_mask(&b, 0).unwrap().get_data(),
        &vec![10, 0, -30]
    );
    assert_eq!(a.sum().get_data(), &vec![2]);
    let mut c = tensor(vec![0, 0, 0], vec![3]);
    c.set_data(&a);
    assert_eq!(c.get_data(), &vec![1, -2, 3]);
    assert_eq!(c.size(), 3);
}

#[test]
fn map_test() {
    let a = tensor(vec![1, -2, 3], vec![3]);
    let doubled = a.map(&|v: i64| v.wrapping_mul(2));
    assert_eq!(doubled.get_data(), &vec![2, -4, 6]);
    assert_eq!(doubled.get_shape(), &vec![3]);
    assert!(a.all_close_f(3, 1));
    assert!(!a.all_close_f(2, 1));
}

#[test]
fn sum_with_axis_test() {
    let a = tensor(vec![1, 2, 3, 4, 5, 6], vec![2, 3]);
    let s0 = a.sum_with_axis(0).unwrap();
    assert_eq!(s0.get_shape(), &vec![1, 3]);
    assert_eq!(s0.get_data(), &vec![5, 7, 9]);
    let s1 = a.sum_with_axis(1).unwrap();
    assert_eq!(s1.get_shape(), &vec![2, 1]);
    assert_eq!(s1.get_data(), &vec![6, 15]);
}

#[test]
fn max_axis_test() {
    let a = tensor(vec![1, 9, 3, 7, 5, 6], vec![2, 3]);
    let m0 = a.max(0).unwrap();
    assert_eq!(m0.get_shape(), &vec![1, 3]);
    assert_eq!(m0.get_data(), &vec![7, 9, 6]);
    let m1 = a.max(1).unwrap();
    assert_eq!(m1.get_shape(), &vec![2, 1]);
    assert_eq!(m1.get_data(), &vec![9, 7]);
    assert!(matches!(a.max(2), Err(Error::ShapeError)));
}

#[test]
fn powi_zero_exponent_test() {
    let mut g = Graph::new();
    let x = scalar(&mut g, 5);
    let y = g.powi(x, 0);
    g.backward(y).unwrap();
    assert_eq!(g.get_array(y).get_data(), &vec![1]);
    assert_eq!(g.get_grad(x).unwrap().get_data(), &vec![0]);
}

#[test]
fn zeros_ones_test() {
    let z = Tensor::zeros(vec![2, 2]).unwrap();
    assert_eq!(z.get_data(), &vec![0, 0, 0, 0]);
    let o = Tensor::ones(vec![3]).unwrap();
    assert_eq!(o.get_data(), &vec![1, 1, 1]);
    assert!(matches!(
        Tensor::zeros(vec![usize::MAX, 2]),
        Err(Error::SizeOverflow)
    ));
}
