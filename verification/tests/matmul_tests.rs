use dezero::tensor::Tensor;

fn arange(n: i64, shape: Vec<usize>) -> Tensor {
    Tensor::new((0..n).collect(), shape).unwrap()
}

#[test]
fn matmul1() {
    let x = arange(16, vec![8, 2]);
    let y = arange(4, vec![2, 2]);

    let z = x.matmul(&y).unwrap();
    assert_eq!(
        z.get_data(),
        &vec![2, 3, 6, 11, 10, 19, 14, 27, 18, 35, 22, 43, 26, 51, 30, 59]
    );
    assert_eq!(z.get_shape(), &vec![8, 2]);
}

#[test]
fn matmul2() {
    let x = arange(16, vec![2, 4, 2]);
    let y = arange(4, vec![2, 2]);

    let z = x.matmul(&y).unwrap();
    assert_eq!(
        z.get_data(),
        &vec![2, 3, 6, 11, 10, 19, 14, 27, 18, 35, 22, 43, 26, 51, 30, 59]
    );
    assert_eq!(z.get_shape(), &vec![2, 4, 2]);
}

#[test]
fn matmul3() {
    let x = Tensor::new(vec![1, 2, 3, 4, 5], vec![5]).unwrap();
    let z = x.matmul(&x).unwrap();
    assert_eq!(z.get_data(), &vec![55]);
    assert_eq!(z.get_shape(), &Vec::<usize>::new());
}

#[test]
fn matmul4() {
    let a = Tensor::ones(vec![9, 5, 7, 4]).unwrap();
    let c = Tensor::ones(vec![9, 5, 4, 3]).unwrap();

    let z = a.matmul(&c).unwrap();
    assert_eq!(z.get_shape(), &vec![9, 5, 7, 3]);
}

#[test]
fn matmul_vector_matrix_test() {
    // a bare vector is one row on the left and one column on the right
    let v = Tensor::new(vec![1, 2], vec![2]).unwrap();
    let m = Tensor::new(vec![1, 2, 3, 4, 5, 6], vec![2, 3]).unwrap();
    let row = v.matmul(&m).unwrap();
    assert_eq!(row.get_shape(), &vec![3]);
    assert_eq!(row.get_data(), &vec![9, 12, 15]);

    let w = Tensor::new(vec![1, 1, 1], vec![3]).unwrap();
    let col = m.matmul(&w).unwrap();
    assert_eq!(col.get_shape(), &vec![2]);
    assert_eq!(col.get_data(), &vec![6, 15]);
}

#[test]
fn matmul_scalar_test() {
    // a scalar operand multiplies the other operand elementwise
    let k = Tensor::scalar(2);
    let v = Tensor::new(vec![1, 2, 3], vec![3]).unwrap();
    let left = k.matmul(&v).unwrap();
    assert_eq!(left.get_data(), &vec![2, 4, 6]);
    assert_eq!(left.get_shape(), &vec![3]);
    let m = Tensor::new(vec![1, 2, 3, 4], vec![2, 2]).unwrap();
    let right = m.matmul(&k).unwrap();
    assert_eq!(right.get_data(), &vec![2, 4, 6, 8]);
    assert_eq!(right.get_shape(), &vec![2, 2]);
    let both = k.matmul(&Tensor::scalar(5)).unwrap();
    assert_eq!(both.get_data(), &vec![10]);
}

#[test]
fn dot_backward_test() {
    let mut g = dezero::graph::Graph::new();
    let x = g.leaf(arange(6, vec![2, 3]));
    let w = g.leaf(arange(6, vec![3, 2]));
    let y = g.dot(x, w).unwrap();
    let s = g.sum(y);
    g.backward(s).unwrap();
    assert_eq!(g.get_array(y).get_data(), &vec![10, 13, 28, 40]);
    // d(sum(x.w))/dx sums the rows of w transposed
    assert_eq!(g.get_grad(x).unwrap().get_data(), &vec![1, 5, 9, 1, 5, 9]);
    assert_eq!(g.get_grad(w).unwrap().get_data(), &vec![3, 3, 5, 5, 7, 7]);
}
