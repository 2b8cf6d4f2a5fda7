use hadamard_product_gpu::cpu::{combine_cpu, hp_on_cpu};
use hadamard_product_gpu::kernel::{combine_kernel, dispatch_grid};
use hadamard_product_gpu::layout::{decode_flat_buffer, flatten, reshape, vec_to_flat_u8_vec};
use hadamard_product_gpu::pipeline::{combine, combine_tiled, gather_output, plan_launch, Backend};
use hadamard_product_gpu::shape::{
    check_rectangular, matrix_dimensions, reconcile_shape, CombineError, Shape,
};
use hadamard_product_gpu::tiling::{floor_sqrt, schedule_tiles, DeviceLimits, TileGeometry};
use rand::distributions::{Distribution, Uniform};
use rand::rngs::StdRng;
use rand::SeedableRng;

fn limits() -> DeviceLimits {
    DeviceLimits {
        max_units_per_group: 256,
        max_groups_x: 65535,
        max_groups_y: 65535,
        max_groups_z: 65535,
    }
}

fn random_matrix(rows: usize, cols: usize, seed: u64) -> Vec<Vec<i64>> {
    let mut rng = StdRng::seed_from_u64(seed);
    let distr = Uniform::from(0i64..=10);
    (0..rows)
        .map(|_| (0..cols).map(|_| distr.sample(&mut rng)).collect())
        .collect()
}

#[test]
fn small_scenario_cpu() {
    let a = vec![vec![1, 2], vec![3, 4]];
    let b = vec![vec![10]];
    assert_eq!(combine_cpu(&a, &b), Ok(vec![vec![11, 2], vec![3, 4]]));
}

#[test]
fn small_scenario_tiled() {
    let a = vec![vec![1, 2], vec![3, 4]];
    let b = vec![vec![10]];
    assert_eq!(combine_tiled(&a, &b, limits()), Ok(vec![vec![11, 2], vec![3, 4]]));
}

#[test]
fn random_34_by_32_and_54_by_32() {
    let a = random_matrix(34, 32, 1);
    let b = random_matrix(54, 32, 2);
    let c = combine_cpu(&a, &b).unwrap();
    assert_eq!(c.len(), 54);
    assert!(c.iter().all(|row| row.len() == 32));
    for i in 0..34 {
        for j in 0..32 {
            assert_eq!(c[i][j], a[i][j] + b[i][j]);
        }
    }
    for i in 34..54 {
        assert_eq!(c[i], b[i]);
    }
    assert_eq!(combine_tiled(&a, &b, limits()), Ok(c));
}

#[test]
fn empty_operands_are_invalid() {
    let a: Vec<Vec<i64>> = vec![];
    let b: Vec<Vec<i64>> = vec![];
    assert_eq!(combine_cpu(&a, &b), Err(CombineError::InvalidMatrix));
    assert_eq!(combine_tiled(&a, &b, limits()), Err(CombineError::InvalidMatrix));
    let e = vec![Vec::<i64>::new()];
    assert_eq!(combine_cpu(&e, &vec![vec![1]]), Err(CombineError::InvalidMatrix));
    assert_eq!(matrix_dimensions(&e), Err(CombineError::InvalidMatrix));
}

#[test]
fn backends_agree_on_many_shapes() {
    let shapes = [(1, 1), (1, 7), (7, 1), (3, 5), (17, 16), (16, 17), (40, 3)];
    let mut seed = 10;
    for &(ar, ac) in shapes.iter() {
        for &(br, bc) in shapes.iter() {
            seed += 1;
            let a = random_matrix(ar, ac, seed);
            let b = random_matrix(br, bc, seed + 1000);
            let cpu = combine_cpu(&a, &b).unwrap();
            assert_eq!(cpu.len(), ar.max(br));
            assert!(cpu.iter().all(|row| row.len() == ac.max(bc)));
            assert_eq!(combine_tiled(&a, &b, limits()), Ok(cpu.clone()));
            let odd = DeviceLimits { max_units_per_group: 7, ..limits() };
            assert_eq!(combine_tiled(&a, &b, odd), Ok(cpu));
        }
    }
}

#[test]
fn zero_padding_of_smaller_operand() {
    let a = vec![vec![5, -6], vec![7, 8]];
    let b = vec![vec![-1]];
    let c = combine_cpu(&a, &b).unwrap();
    assert_eq!(c[1], a[1]);
    assert_eq!(c[0][1], a[0][1]);
    assert_eq!(c[0][0], 4);
}

#[test]
fn combine_is_commutative() {
    let a = random_matrix(6, 4, 3);
    let b = random_matrix(6, 4, 4);
    assert_eq!(combine_cpu(&a, &b), combine_cpu(&b, &a));
    let c = random_matrix(2, 9, 5);
    assert_eq!(combine_cpu(&a, &c), combine_cpu(&c, &a));
}

#[test]
fn sums_wrap_around() {
    let a = vec![vec![i64::MAX, i64::MIN]];
    let b = vec![vec![1, -1]];
    let want = vec![vec![i64::MIN, i64::MAX]];
    assert_eq!(combine_cpu(&a, &b), Ok(want.clone()));
    assert_eq!(combine_tiled(&a, &b, limits()), Ok(want));
}

#[test]
fn ragged_rows_on_each_path() {
    let a = vec![vec![1, 2, 3], vec![4]];
    let b = vec![vec![10, 20]];
    assert_eq!(hp_on_cpu(&a, &b), vec![vec![11, 22, 3], vec![4, 0, 0]]);
    assert_eq!(combine_tiled(&a, &b, limits()), Err(CombineError::InvalidMatrix));
    assert!(!check_rectangular(&a));
    assert!(check_rectangular(&b));
}

#[test]
fn flatten_then_reshape_round_trip() {
    let m = random_matrix(5, 3, 6);
    let flat = flatten(&m);
    assert_eq!(flat.len(), 15);
    assert_eq!(flat[4], m[1][1]);
    assert_eq!(reshape(&flat, 3), m);
}

#[test]
fn reshape_keeps_a_short_last_row() {
    let flat = vec![1, 2, 3, 4, 5];
    assert_eq!(reshape(&flat, 2), vec![vec![1, 2], vec![3, 4], vec![5]]);
    assert_eq!(reshape(&[], 4), Vec::<Vec<i64>>::new());
}

#[test]
fn byte_buffer_uses_native_order() {
    let m = vec![vec![1, -2], vec![300, i64::MAX]];
    let bytes = vec_to_flat_u8_vec(&m);
    let mut want = Vec::new();
    for x in [1i64, -2, 300, i64::MAX] {
        want.extend_from_slice(&x.to_ne_bytes());
    }
    assert_eq!(bytes, want);
    assert_eq!(decode_flat_buffer(&bytes), vec![1, -2, 300, i64::MAX]);
}

#[test]
fn decode_ignores_trailing_bytes() {
    let mut bytes = 7i64.to_ne_bytes().to_vec();
    bytes.push(9);
    assert_eq!(decode_flat_buffer(&bytes), vec![7]);
}

#[test]
fn gather_reassembles_rows() {
    let m = vec![vec![1, 2, 3], vec![4, 5, 6]];
    let bytes = vec_to_flat_u8_vec(&m);
    assert_eq!(gather_output(&bytes, Shape { rows: 2, cols: 3 }), Ok(m));
}

#[test]
fn gather_rejects_wrong_length() {
    let bytes = vec![0u8; 40];
    assert_eq!(
        gather_output(&bytes, Shape { rows: 2, cols: 3 }),
        Err(CombineError::DeviceTransferError)
    );
    assert_eq!(
        gather_output(&[], Shape { rows: 1, cols: 0 }),
        Err(CombineError::DeviceTransferError)
    );
}

#[test]
fn integer_square_roots() {
    assert_eq!(floor_sqrt(0), 0);
    assert_eq!(floor_sqrt(1), 1);
    assert_eq!(floor_sqrt(255), 15);
    assert_eq!(floor_sqrt(256), 16);
    assert_eq!(floor_sqrt(1024), 32);
    assert_eq!(floor_sqrt(u32::MAX), 65535);
}

#[test]
fn tiles_cover_the_output() {
    let g = schedule_tiles(Shape { rows: 54, cols: 32 }, limits()).unwrap();
    assert_eq!(
        g,
        TileGeometry { count_x: 2, count_y: 4, count_z: 1, size_x: 16, size_y: 16, size_z: 1 }
    );
    let none = DeviceLimits { max_units_per_group: 0, ..limits() };
    let g = schedule_tiles(Shape { rows: 3, cols: 2 }, none).unwrap();
    assert_eq!((g.size_x, g.count_x, g.count_y), (1, 2, 3));
}

#[test]
fn too_many_groups_is_an_error() {
    let tight = DeviceLimits { max_groups_y: 3, ..limits() };
    assert_eq!(
        schedule_tiles(Shape { rows: 54, cols: 32 }, tight),
        Err(CombineError::LaunchGeometryExceeded)
    );
    let a = random_matrix(54, 32, 7);
    let b = random_matrix(1, 1, 8);
    assert_eq!(combine_tiled(&a, &b, tight), Err(CombineError::LaunchGeometryExceeded));
    let flat = DeviceLimits { max_groups_z: 0, ..limits() };
    assert_eq!(
        schedule_tiles(Shape { rows: 1, cols: 1 }, flat),
        Err(CombineError::LaunchGeometryExceeded)
    );
}

#[test]
fn launch_plan_contents() {
    let a = vec![vec![1, 2], vec![3, 4]];
    let b = vec![vec![10]];
    let p = plan_launch(&a, &b, limits()).unwrap();
    assert_eq!(p.a_shape, Shape { rows: 2, cols: 2 });
    assert_eq!(p.b_shape, Shape { rows: 1, cols: 1 });
    assert_eq!(p.out_shape, Shape { rows: 2, cols: 2 });
    assert_eq!(p.a_bytes, vec_to_flat_u8_vec(&a));
    assert_eq!(p.b_bytes, 10i64.to_ne_bytes().to_vec());
    assert_eq!(p.out_bytes, 32);
    assert_eq!((p.geometry.count_x, p.geometry.count_y, p.geometry.size_x), (1, 1, 16));
    assert!(plan_launch(&a, &vec![vec![1], vec![2, 3]], limits()).is_err());
}

#[test]
fn kernel_reads_each_operand_by_its_own_shape() {
    let a = vec![1, 2, 3, 4, 5, 6];
    let b = vec![100];
    let mut out = vec![0i64; 6];
    let sa = Shape { rows: 2, cols: 3 };
    let sb = Shape { rows: 1, cols: 1 };
    combine_kernel(&a, sa, &b, sb, &mut out, sa, 2, 1);
    assert_eq!(out, vec![0, 0, 0, 0, 0, 6]);
    combine_kernel(&a, sa, &b, sb, &mut out, sa, 0, 0);
    assert_eq!(out, vec![101, 0, 0, 0, 0, 6]);
    combine_kernel(&a, sa, &b, sb, &mut out, sa, 3, 0);
    assert_eq!(out, vec![101, 0, 0, 0, 0, 6]);
}

#[test]
fn grid_that_falls_short_leaves_zeros() {
    let a = vec![1, 2, 3, 4];
    let s = Shape { rows: 2, cols: 2 };
    let g = TileGeometry { count_x: 1, count_y: 1, count_z: 1, size_x: 1, size_y: 2, size_z: 1 };
    assert_eq!(dispatch_grid(g, &a, s, &a, s, s), vec![2, 0, 6, 0]);
    let big = TileGeometry { count_x: 3, count_y: 2, count_z: 1, size_x: 2, size_y: 2, size_z: 1 };
    assert_eq!(dispatch_grid(big, &a, s, &a, s, s), vec![2, 4, 6, 8]);
}

#[test]
fn shapes_reconcile_per_axis() {
    let r = reconcile_shape(Shape { rows: 34, cols: 5 }, Shape { rows: 2, cols: 32 });
    assert_eq!(r, Shape { rows: 34, cols: 32 });
    assert_eq!(matrix_dimensions(&vec![vec![1, 2, 3]]), Ok(Shape { rows: 1, cols: 3 }));
}

#[test]
fn entry_point_dispatches_on_backend() {
    let a = vec![vec![1, 2], vec![3, 4]];
    let b = vec![vec![10]];
    let want = Ok(vec![vec![11, 2], vec![3, 4]]);
    assert_eq!(combine(&a, &b, Backend::Cpu), want);
    assert_eq!(combine(&a, &b, Backend::Tiled(limits())), want);
    let ragged = vec![vec![1, 2], vec![3]];
    assert_eq!(combine(&ragged, &b, Backend::Cpu), Ok(vec![vec![11, 2], vec![3, 0]]));
    assert_eq!(combine(&ragged, &b, Backend::Tiled(limits())), Err(CombineError::InvalidMatrix));
}
