use ndtensor::concat::cat;
use rand::SeedableRng;
use ndtensor::random::{random, Distribution};
use ndtensor::tensor::{from_data, into_data, to_data, zeros, Data, Device, Tensor, TensorError};

fn tensor(values: Vec<i64>, dims: Vec<usize>) -> Tensor {
    from_data(Data { values, dims }, &Device::Cpu).unwrap()
}

#[test]
fn data_round_trip() {
    let d = Data { values: vec![1, 2, 3, 4, 5, 6], dims: vec![2, 3] };
    let t = from_data(Data { values: d.values.clone(), dims: d.dims.clone() }, &Device::Cpu)
        .unwrap();
    let out = to_data(&t);
    assert_eq!(out.values, d.values);
    assert_eq!(out.dims, d.dims);
    let back = into_data(t);
    assert_eq!(back.values, d.values);
    assert_eq!(back.dims, d.dims);
}

#[test]
fn from_data_rejects_bad_count() {
    let r = from_data(Data { values: vec![1, 2, 3], dims: vec![2, 2] }, &Device::Cpu);
    assert_eq!(r.unwrap_err(), TensorError::BadElementCount);
    let r = from_data(Data { values: vec![], dims: vec![0] }, &Device::Cpu);
    assert_eq!(r.unwrap_err(), TensorError::BadElementCount);
}

#[test]
fn reshape_round_trip() {
    let t = tensor(vec![1, 2, 3, 4, 5, 6], vec![2, 3]);
    let r1 = ndtensor::tensor::reshape(t, vec![3, 2]).unwrap();
    assert_eq!(r1.dims, vec![3, 2]);
    let r2 = ndtensor::tensor::reshape(r1, vec![2, 3]).unwrap();
    assert_eq!(r2.dims, vec![2, 3]);
    assert_eq!(r2.values, vec![1, 2, 3, 4, 5, 6]);
}

#[test]
fn reshape_rejects_wrong_count() {
    let t = tensor(vec![1, 2, 3, 4], vec![2, 2]);
    let r = ndtensor::tensor::reshape(t, vec![3, 2]);
    assert_eq!(r.unwrap_err(), TensorError::BadElementCount);
}

#[test]
fn add_and_commutativity() {
    let a = tensor(vec![1, 2, 3], vec![3]);
    let b = tensor(vec![10, -20, 30], vec![3]);
    let r1 = a.add(&b).unwrap();
    let r2 = b.add(&a).unwrap();
    assert_eq!(r1.values, vec![11, -18, 33]);
    assert_eq!(r1.values, r2.values);
    assert_eq!(r1.dims, r2.dims);
}

#[test]
fn add_wraps_at_the_edge() {
    let a = tensor(vec![i64::MAX], vec![1]);
    let r = a.add_scalar(1);
    assert_eq!(r.values, vec![i64::MIN]);
}

#[test]
fn add_rejects_shape_mismatch() {
    let a = tensor(vec![1, 2, 3], vec![3]);
    let b = tensor(vec![1, 2, 3], vec![3, 1]);
    assert_eq!(a.add(&b).unwrap_err(), TensorError::ShapeMismatch);
}

#[test]
fn sub_is_add_of_neg() {
    let a = tensor(vec![5, -7, 0, i64::MIN], vec![4]);
    let b = tensor(vec![3, 4, i64::MIN, -1], vec![4]);
    let r1 = a.sub(&b).unwrap();
    let r2 = a.add(&b.neg()).unwrap();
    assert_eq!(r1.values, r2.values);
    assert_eq!(r1.values, vec![2, -11, i64::MIN, i64::MIN + 1]);
}

#[test]
fn mul_and_div_truncate() {
    let a = tensor(vec![6, -7, 7, i64::MIN], vec![4]);
    let b = tensor(vec![3, 2, -2, -1], vec![4]);
    let p = a.mul(&b).unwrap();
    assert_eq!(p.values, vec![18, -14, -14, i64::MIN]);
    let q = a.div(&b).unwrap();
    // truncating division; i64::MIN / -1 wraps back to i64::MIN
    assert_eq!(q.values, vec![2, -3, -3, i64::MIN]);
    let s = a.div_scalar(2);
    assert_eq!(s.values, vec![3, -3, 3, i64::MIN / 2]);
}

#[test]
fn neg_and_relu() {
    let a = tensor(vec![3, -4, 0], vec![3]);
    assert_eq!(a.neg().values, vec![-3, 4, 0]);
    assert_eq!(a.relu().values, vec![3, 0, 0]);
}

#[test]
fn scalar_arithmetic() {
    let a = tensor(vec![1, 2, 3], vec![3]);
    assert_eq!(a.add_scalar(5).values, vec![6, 7, 8]);
    assert_eq!(a.sub_scalar(1).values, vec![0, 1, 2]);
    assert_eq!(a.mul_scalar(-2).values, vec![-2, -4, -6]);
}

#[test]
fn comparisons() {
    let a = tensor(vec![1, 5, 3], vec![3]);
    let b = tensor(vec![2, 5, 1], vec![3]);
    assert_eq!(a.equal(&b).unwrap().values, vec![false, true, false]);
    assert_eq!(a.greater(&b).unwrap().values, vec![false, false, true]);
    assert_eq!(a.greater_equal(&b).unwrap().values, vec![false, true, true]);
    assert_eq!(a.lower(&b).unwrap().values, vec![true, false, false]);
    assert_eq!(a.lower_equal(&b).unwrap().values, vec![true, true, false]);
    assert_eq!(a.equal_scalar(5).values, vec![false, true, false]);
    assert_eq!(a.greater_scalar(2).values, vec![false, true, true]);
    assert_eq!(a.greater_equal_scalar(3).values, vec![false, true, true]);
    assert_eq!(a.lower_scalar(3).values, vec![true, false, false]);
    assert_eq!(a.lower_equal_scalar(3).values, vec![true, false, true]);
}

#[test]
fn comparison_shape_mismatch() {
    let a = tensor(vec![1, 2], vec![2]);
    let b = tensor(vec![1, 2, 3], vec![3]);
    assert_eq!(a.equal(&b).unwrap_err(), TensorError::ShapeMismatch);
}

#[test]
fn mask_fill_selects() {
    let a = tensor(vec![1, 2, 3], vec![3]);
    let mask = ndtensor::tensor::BoolTensor { values: vec![false, true, false], dims: vec![3] };
    let r = a.mask_fill(&mask, 9).unwrap();
    assert_eq!(r.values, vec![1, 9, 3]);
    assert_eq!(r.dims, vec![3]);
}

#[test]
fn mask_fill_rejects_mismatch() {
    let a = tensor(vec![1, 2, 3], vec![3]);
    let mask = ndtensor::tensor::BoolTensor { values: vec![false, true], dims: vec![2] };
    assert_eq!(a.mask_fill(&mask, 9).unwrap_err(), TensorError::ShapeMismatch);
}

#[test]
fn argmax_first_occurrence_wins() {
    let t = tensor(vec![3, 5, 5, 2], vec![4]);
    let r = t.argmax(0).unwrap();
    assert_eq!(r.values, vec![1]);
    assert_eq!(r.dims, vec![1]);
}

#[test]
fn argmin_first_occurrence_wins() {
    let t = tensor(vec![3, 1, 1, 2], vec![4]);
    let r = t.argmin(0).unwrap();
    assert_eq!(r.values, vec![1]);
}

#[test]
fn argmax_rows() {
    let t = tensor(vec![1, 9, 2, 7, 7, 3], vec![2, 3]);
    let r = t.argmax(1).unwrap();
    assert_eq!(r.dims, vec![2, 1]);
    assert_eq!(r.values, vec![1, 0]);
}

#[test]
fn argmax_rejects_bad_axis() {
    let t = tensor(vec![1, 2], vec![2]);
    assert_eq!(t.argmax(1).unwrap_err(), TensorError::BadAxis);
}

#[test]
fn sum_and_mean() {
    let t = tensor(vec![1, 2, 3, 4], vec![2, 2]);
    let s = t.sum();
    assert_eq!(s.values, vec![10]);
    assert_eq!(s.dims, vec![1]);
    let m = t.mean();
    assert_eq!(m.values, vec![2]);
    // the mean truncates toward zero
    let u = tensor(vec![-1, -2], vec![2]);
    assert_eq!(u.mean().values, vec![-1]);
}

#[test]
fn sum_dim_keeps_rank() {
    let mut values = Vec::new();
    for i in 0..24 {
        values.push(i as i64);
    }
    let t = tensor(values, vec![2, 3, 4]);
    let r = t.sum_dim(1).unwrap();
    assert_eq!(r.dims, vec![2, 1, 4]);
    // each output cell sums the three cells along axis 1
    assert_eq!(r.values, vec![12, 15, 18, 21, 48, 51, 54, 57]);
}

#[test]
fn mean_dim_divides_by_the_extent() {
    let t = tensor(vec![1, 2, 3, 4, 5, 6], vec![2, 3]);
    let r = t.mean_dim(1).unwrap();
    assert_eq!(r.dims, vec![2, 1]);
    assert_eq!(r.values, vec![2, 5]);
}

#[test]
fn sum_dim_rejects_bad_axis() {
    let t = tensor(vec![1, 2], vec![2]);
    assert_eq!(t.sum_dim(3).unwrap_err(), TensorError::BadAxis);
}

#[test]
fn matmul_batches_stay_independent() {
    // batch 0: identity; batch 1: twice the identity
    let lhs = tensor(vec![1, 0, 0, 1, 2, 0, 0, 2], vec![2, 2, 2]);
    let rhs = tensor(vec![1, 2, 3, 4, 5, 6, 7, 8], vec![2, 2, 2]);
    let r = lhs.matmul(&rhs).unwrap();
    assert_eq!(r.dims, vec![2, 2, 2]);
    assert_eq!(r.values, vec![1, 2, 3, 4, 10, 12, 14, 16]);
}

#[test]
fn matmul_plain_two_by_two() {
    let a = tensor(vec![1, 2, 3, 4], vec![2, 2]);
    let b = tensor(vec![5, 6, 7, 8], vec![2, 2]);
    let r = a.matmul(&b).unwrap();
    assert_eq!(r.values, vec![19, 22, 43, 50]);
}

#[test]
fn matmul_broadcasts_a_single_batch() {
    // a single right-hand matrix against a batch of two
    let lhs = tensor(vec![1, 0, 0, 1, 0, 1, 1, 0], vec![2, 2, 2]);
    let rhs = tensor(vec![1, 2, 3, 4], vec![1, 2, 2]);
    let r = lhs.matmul(&rhs).unwrap();
    assert_eq!(r.dims, vec![2, 2, 2]);
    assert_eq!(r.values, vec![1, 2, 3, 4, 3, 4, 1, 2]);
}

#[test]
fn matmul_rejects_inner_mismatch() {
    let a = tensor(vec![1, 2, 3, 4, 5, 6], vec![2, 3]);
    let b = tensor(vec![1, 2, 3, 4], vec![2, 2]);
    assert_eq!(a.matmul(&b).unwrap_err(), TensorError::ShapeMismatch);
}

#[test]
fn cat_keeps_input_order() {
    let t1 = tensor(vec![1, 2, 3, 4, 5, 6], vec![2, 3]);
    let t2 = tensor(vec![7, 8, 9, 10, 11, 12], vec![2, 3]);
    let r = cat(&vec![t1, t2], 0).unwrap();
    assert_eq!(r.dims, vec![4, 3]);
    assert_eq!(r.values, vec![1, 2, 3, 4, 5, 6, 7, 8, 9, 10, 11, 12]);
}

#[test]
fn cat_along_inner_axis() {
    let t1 = tensor(vec![1, 2, 3, 4], vec![2, 2]);
    let t2 = tensor(vec![5, 6], vec![2, 1]);
    let r = cat(&vec![t1, t2], 1).unwrap();
    assert_eq!(r.dims, vec![2, 3]);
    assert_eq!(r.values, vec![1, 2, 5, 3, 4, 6]);
}

#[test]
fn cat_rejects_disagreeing_axes() {
    let t1 = tensor(vec![1, 2, 3, 4, 5, 6], vec![2, 3]);
    let t2 = tensor(vec![1, 2, 3, 4], vec![2, 2]);
    assert_eq!(cat(&vec![t1, t2], 0).unwrap_err(), TensorError::ShapeMismatch);
}

#[test]
fn cat_rejects_empty_and_bad_axis() {
    assert_eq!(cat(&vec![], 0).unwrap_err(), TensorError::EmptyInput);
    let t1 = tensor(vec![1, 2], vec![2]);
    assert_eq!(cat(&vec![t1], 1).unwrap_err(), TensorError::BadAxis);
}

#[test]
fn index_slices_ranges() {
    let t = tensor(vec![1, 2, 3, 4, 5, 6], vec![2, 3]);
    let r = t.index(&vec![(0, 1), (1, 3)]).unwrap();
    assert_eq!(r.dims, vec![1, 2]);
    assert_eq!(r.values, vec![2, 3]);
    // a partial range list leaves trailing axes whole
    let r2 = t.index(&vec![(1, 2)]).unwrap();
    assert_eq!(r2.dims, vec![1, 3]);
    assert_eq!(r2.values, vec![4, 5, 6]);
}

#[test]
fn index_rejects_out_of_bounds() {
    let t = tensor(vec![1, 2, 3, 4, 5, 6], vec![2, 3]);
    assert_eq!(t.index(&vec![(0, 3)]).unwrap_err(), TensorError::OutOfRange);
    assert_eq!(t.index(&vec![(1, 1)]).unwrap_err(), TensorError::OutOfRange);
    assert_eq!(
        t.index(&vec![(0, 1), (0, 1), (0, 1)]).unwrap_err(),
        TensorError::BadAxis
    );
}

#[test]
fn index_assign_writes_the_region() {
    let t = tensor(vec![1, 2, 3, 4, 5, 6], vec![2, 3]);
    let v = tensor(vec![8, 9], vec![1, 2]);
    let r = t.index_assign(&vec![(1, 2), (0, 2)], &v).unwrap();
    assert_eq!(r.dims, vec![2, 3]);
    assert_eq!(r.values, vec![1, 2, 3, 8, 9, 6]);
}

#[test]
fn index_assign_rejects_wrong_value_shape() {
    let t = tensor(vec![1, 2, 3, 4, 5, 6], vec![2, 3]);
    let v = tensor(vec![8, 9], vec![2, 1]);
    assert_eq!(
        t.index_assign(&vec![(1, 2), (0, 2)], &v).unwrap_err(),
        TensorError::ShapeMismatch
    );
}

#[test]
fn swap_dims_transposes() {
    let t = tensor(vec![1, 2, 3, 4, 5, 6], vec![2, 3]);
    let r = t.swap_dims(0, 1).unwrap();
    assert_eq!(r.dims, vec![3, 2]);
    assert_eq!(r.values, vec![1, 4, 2, 5, 3, 6]);
}

#[test]
fn swap_dims_rejects_bad_axis() {
    let t = tensor(vec![1, 2], vec![2]);
    assert_eq!(t.swap_dims(0, 1).unwrap_err(), TensorError::BadAxis);
}

#[test]
fn zeros_and_device() {
    let t = zeros(vec![2, 2], &Device::Cpu).unwrap();
    assert_eq!(t.values, vec![0, 0, 0, 0]);
    assert_eq!(ndtensor::tensor::device(&t), Device::Cpu);
    let t = ndtensor::tensor::to_device(t, &Device::Cpu);
    let t = ndtensor::tensor::detach(t);
    assert_eq!(t.shape(), vec![2, 2]);
    let e = ndtensor::tensor::empty(vec![3], &Device::Cpu).unwrap();
    assert_eq!(e.values.len(), 3);
}

#[test]
fn random_uniform_stays_in_range() {
    let mut rng = rand::rngs::StdRng::seed_from_u64(42);
    let t = random(vec![4, 5], Distribution::Uniform(-3, 9), &mut rng, &Device::Cpu).unwrap();
    assert_eq!(t.dims, vec![4, 5]);
    assert_eq!(t.values.len(), 20);
    for v in &t.values {
        assert!(-3 <= *v && *v < 9);
    }
    // the generator advances: two draws differ somewhere with overwhelming
    // probability for this seed
    let t2 = random(vec![4, 5], Distribution::Uniform(-3, 9), &mut rng, &Device::Cpu).unwrap();
    assert_ne!(t.values, t2.values);
    // the sequence is deterministic for a fixed seed
    let mut rng2 = rand::rngs::StdRng::seed_from_u64(42);
    let t3 = random(vec![4, 5], Distribution::Uniform(-3, 9), &mut rng2, &Device::Cpu).unwrap();
    assert_eq!(t.values, t3.values);
}

#[test]
fn random_standard_has_the_shape() {
    let mut rng = rand::rngs::StdRng::seed_from_u64(7);
    let t = random(vec![6], Distribution::Standard, &mut rng, &Device::Cpu).unwrap();
    assert_eq!(t.dims, vec![6]);
    assert_eq!(t.values.len(), 6);
}

#[test]
fn random_rejects_zero_extent() {
    let mut rng = rand::rngs::StdRng::seed_from_u64(7);
    let r = random(vec![2, 0], Distribution::Standard, &mut rng, &Device::Cpu);
    assert_eq!(r.unwrap_err(), TensorError::BadElementCount);
}
