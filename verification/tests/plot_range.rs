use autd3_link_visualizer::{field_plot, is_1d, is_2d, observe_points, Axis, FieldPlot, VisualizerError};

fn coord(p: (i32, i32, i32), axis: Axis) -> i32 {
    match axis {
        Axis::X => p.0,
        Axis::Y => p.1,
        Axis::Z => p.2,
    }
}

fn positions(xs: &[i32], ys: &[i32], zs: &[i32], axis: Axis) -> Vec<i32> {
    match axis {
        Axis::X => xs.to_vec(),
        Axis::Y => ys.to_vec(),
        Axis::Z => zs.to_vec(),
    }
}

#[test]
fn is_1d_when_two_axes_are_flat() {
    assert!(is_1d(101, 1, 1));
    assert!(is_1d(1, 61, 1));
    assert!(is_1d(1, 1, 76));
    assert!(is_1d(1, 1, 1));
    assert!(!is_1d(41, 61, 1));
    assert!(!is_1d(2, 2, 2));
}

#[test]
fn is_2d_when_exactly_one_axis_is_flat() {
    assert!(is_2d(41, 61, 1));
    assert!(is_2d(1, 31, 76));
    assert!(is_2d(31, 1, 76));
    assert!(!is_2d(101, 1, 1));
    assert!(!is_2d(1, 1, 1));
    assert!(!is_2d(2, 3, 4));
}

#[test]
fn field_plot_lines() {
    assert_eq!(field_plot(101, 1, 1), Ok(FieldPlot::Line(Axis::X)));
    assert_eq!(field_plot(1, 61, 1), Ok(FieldPlot::Line(Axis::Y)));
    assert_eq!(field_plot(1, 1, 76), Ok(FieldPlot::Line(Axis::Z)));
    assert_eq!(field_plot(1, 1, 1), Ok(FieldPlot::Line(Axis::X)));
}

#[test]
fn field_plot_planes() {
    assert_eq!(field_plot(41, 61, 1), Ok(FieldPlot::Plane(Axis::X, Axis::Y)));
    assert_eq!(field_plot(1, 31, 76), Ok(FieldPlot::Plane(Axis::Y, Axis::Z)));
    assert_eq!(field_plot(31, 1, 76), Ok(FieldPlot::Plane(Axis::Z, Axis::X)));
}

#[test]
fn field_plot_invalid_range() {
    assert_eq!(field_plot(2, 2, 2), Err(VisualizerError::InvalidPlotRange));
    assert_eq!(field_plot(3, 4, 5), Err(VisualizerError::InvalidPlotRange));
}

#[test]
fn axis_labels() {
    assert_eq!(Axis::X.label(), "x [mm]");
    assert_eq!(Axis::Y.label(), "y [mm]");
    assert_eq!(Axis::Z.label(), "z [mm]");
}

#[test]
fn observe_points_line_x() {
    let r = observe_points(&vec![1, 2, 3], &vec![10], &vec![20], 0, 7, 8);
    assert_eq!(r, vec![(1, 7, 8), (2, 7, 8), (3, 7, 8)]);
}

#[test]
fn observe_points_line_y() {
    let r = observe_points(&vec![10], &vec![1, 2, 3], &vec![20], 6, 0, 8);
    assert_eq!(r, vec![(6, 1, 8), (6, 2, 8), (6, 3, 8)]);
}

#[test]
fn observe_points_line_z() {
    let r = observe_points(&vec![10], &vec![20], &vec![1, 2], 6, 7, 0);
    assert_eq!(r, vec![(6, 7, 1), (6, 7, 2)]);
}

#[test]
fn observe_points_plane_xy_rows_along_x() {
    let r = observe_points(&vec![1, 2, 3], &vec![10, 20], &vec![0], 0, 0, 9);
    assert_eq!(
        r,
        vec![(1, 10, 9), (2, 10, 9), (3, 10, 9), (1, 20, 9), (2, 20, 9), (3, 20, 9)]
    );
}

#[test]
fn observe_points_plane_zx_rows_along_z() {
    let r = observe_points(&vec![1, 2], &vec![0], &vec![10, 20, 30], 0, 5, 0);
    assert_eq!(
        r,
        vec![(1, 5, 10), (1, 5, 20), (1, 5, 30), (2, 5, 10), (2, 5, 20), (2, 5, 30)]
    );
}

#[test]
fn observe_points_plane_yz_rows_along_y() {
    let r = observe_points(&vec![0], &vec![1, 2], &vec![10, 20, 30], 4, 0, 0);
    assert_eq!(
        r,
        vec![(4, 1, 10), (4, 2, 10), (4, 1, 20), (4, 2, 20), (4, 1, 30), (4, 2, 30)]
    );
}

#[test]
fn observe_points_volume_x_fastest() {
    let r = observe_points(&vec![1, 2], &vec![10, 20], &vec![100, 200], 0, 0, 0);
    assert_eq!(
        r,
        vec![
            (1, 10, 100),
            (2, 10, 100),
            (1, 20, 100),
            (2, 20, 100),
            (1, 10, 200),
            (2, 10, 200),
            (1, 20, 200),
            (2, 20, 200),
        ]
    );
}

#[test]
fn observe_points_empty_axis() {
    let r = observe_points(&vec![1, 2], &Vec::new(), &vec![3, 4, 5], 0, 0, 0);
    assert!(r.is_empty());
}

#[test]
fn observe_points_floats_along_x() {
    let xs: Vec<f64> = (0..101).map(|i| -50.0 + i as f64).collect();
    let r = observe_points(&xs, &vec![0.0], &vec![150.0], -50.0, 0.0, 150.0);
    assert_eq!(r.len(), 101);
    assert_eq!(r[0], (-50.0, 0.0, 150.0));
    assert_eq!(r[100], (50.0, 0.0, 150.0));
}

#[test]
fn point_count_is_product_of_positions() {
    for (nx, ny, nz) in [(1, 1, 1), (4, 1, 1), (1, 3, 1), (1, 1, 5), (4, 3, 1), (4, 1, 5), (1, 3, 5), (4, 3, 5)] {
        let xs: Vec<i32> = (0..nx).collect();
        let ys: Vec<i32> = (0..ny).collect();
        let zs: Vec<i32> = (0..nz).collect();
        let r = observe_points(&xs, &ys, &zs, 0, 0, 0);
        assert_eq!(r.len(), (nx * ny * nz) as usize);
    }
}

#[test]
fn plot_axes_line_up_with_points() {
    for (nx, ny, nz) in [(4, 1, 1), (1, 3, 1), (1, 1, 5), (4, 3, 1), (4, 1, 5), (1, 3, 5)] {
        let xs: Vec<i32> = (0..nx).map(|i| 1 + i).collect();
        let ys: Vec<i32> = (0..ny).map(|i| 100 + i).collect();
        let zs: Vec<i32> = (0..nz).map(|i| 1000 + i).collect();
        let (x0, y0, z0) = (-1, -2, -3);
        let pts = observe_points(&xs, &ys, &zs, x0, y0, z0);
        let start = |a: Axis| match a {
            Axis::X => x0,
            Axis::Y => y0,
            Axis::Z => z0,
        };
        match field_plot(xs.len(), ys.len(), zs.len()).unwrap() {
            FieldPlot::Line(a) => {
                let pa = positions(&xs, &ys, &zs, a);
                assert_eq!(pts.len(), pa.len());
                for (k, p) in pts.iter().enumerate() {
                    for b in [Axis::X, Axis::Y, Axis::Z] {
                        let expected = if b == a { pa[k] } else { start(b) };
                        assert_eq!(coord(*p, b), expected);
                    }
                }
            }
            FieldPlot::Plane(h, v) => {
                let ph = positions(&xs, &ys, &zs, h);
                let pv = positions(&xs, &ys, &zs, v);
                assert_ne!(h, v);
                assert_eq!(pts.len(), ph.len() * pv.len());
                for (k, p) in pts.iter().enumerate() {
                    for b in [Axis::X, Axis::Y, Axis::Z] {
                        let expected = if b == h {
                            ph[k % ph.len()]
                        } else if b == v {
                            pv[k / ph.len()]
                        } else {
                            start(b)
                        };
                        assert_eq!(coord(*p, b), expected);
                    }
                }
            }
        }
    }
}

#[test]
fn each_combination_of_positions_is_observed_once() {
    for (nx, ny, nz) in [(1, 1, 1), (4, 1, 1), (1, 3, 1), (1, 1, 5), (4, 3, 1), (4, 1, 5), (1, 3, 5), (4, 3, 5)] {
        let xs: Vec<i32> = (0..nx).map(|i| 10 + i).collect();
        let ys: Vec<i32> = (0..ny).map(|i| 100 + i).collect();
        let zs: Vec<i32> = (0..nz).map(|i| 1000 + i).collect();
        let pts = observe_points(&xs, &ys, &zs, xs[0], ys[0], zs[0]);
        let mut expected: Vec<(i32, i32, i32)> = Vec::new();
        for &x in &xs {
            for &y in &ys {
                for &z in &zs {
                    expected.push((x, y, z));
                }
            }
        }
        let mut seen = pts.clone();
        seen.sort();
        expected.sort();
        assert_eq!(seen, expected);
    }
}
