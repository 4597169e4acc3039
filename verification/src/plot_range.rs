//! The shape of a plot range: which points are observed, in which order, and how they are
//! drawn (as a line along one axis, or as a plane spanned by two).
//!
//! A range holds `nx`, `ny`, `nz` sample positions along the three axes. An axis with one
//! position is flat. The points are built from the positions of each axis; a flat axis takes
//! the start of its range.
use vstd::prelude::*;

use vstd::arithmetic::div_mod::{
    lemma_fundamental_div_mod, lemma_fundamental_div_mod_converse, lemma_mod_pos_bound,
};

use crate::error::VisualizerError;

verus! {

/// A coordinate axis.
#[derive(Clone, Copy, Debug, PartialEq, Eq, Structural)]
pub enum Axis {
    X,
    Y,
    Z,
}

/// How a plot range is drawn.
#[derive(Clone, Copy, Debug, PartialEq, Eq, Structural)]
pub enum FieldPlot {
    /// Along one axis.
    Line(Axis),
    /// On the plane of two axes: the horizontal one, then the vertical one.
    Plane(Axis, Axis),
}

/// The label of an axis on a plot.
pub open spec fn axis_label(axis: Axis) -> Seq<char> {
    match axis {
        Axis::X => "x [mm]"@,
        Axis::Y => "y [mm]"@,
        Axis::Z => "z [mm]"@,
    }
}

impl Axis {
    /// The label of the axis on a plot.
    pub fn label(&self) -> (r: &'static str)
        ensures
            r@ == axis_label(*self),
    {
        proof {
            reveal_strlit("x [mm]");
            reveal_strlit("y [mm]");
            reveal_strlit("z [mm]");
        }
        match self {
            Axis::X => "x [mm]",
            Axis::Y => "y [mm]",
            Axis::Z => "z [mm]",
        }
    }
}

/// At least two of the three axes are flat.
pub open spec fn spans_line(nx: int, ny: int, nz: int) -> bool {
    ||| ny == 1 && nz == 1
    ||| nx == 1 && nz == 1
    ||| nx == 1 && ny == 1
}

/// Exactly one of the three axes is flat.
pub open spec fn spans_plane(nx: int, ny: int, nz: int) -> bool {
    &&& !spans_line(nx, ny, nz)
    &&& (nx == 1 || ny == 1 || nz == 1)
}

/// How a range with these numbers of positions is drawn; a range that is neither a line nor
/// a plane cannot be drawn.
pub open spec fn field_plot_of(nx: int, ny: int, nz: int) -> Result<FieldPlot, VisualizerError> {
    if ny == 1 && nz == 1 {
        Ok(FieldPlot::Line(Axis::X))
    } else if nx == 1 && nz == 1 {
        Ok(FieldPlot::Line(Axis::Y))
    } else if nx == 1 && ny == 1 {
        Ok(FieldPlot::Line(Axis::Z))
    } else if nz == 1 {
        Ok(FieldPlot::Plane(Axis::X, Axis::Y))
    } else if nx == 1 {
        Ok(FieldPlot::Plane(Axis::Y, Axis::Z))
    } else if ny == 1 {
        Ok(FieldPlot::Plane(Axis::Z, Axis::X))
    } else {
        Err(VisualizerError::InvalidPlotRange)
    }
}

/// Point `k` of the x-y plane: rows run along x.
pub open spec fn xy_point<T>(xs: Seq<T>, ys: Seq<T>, z0: T, k: int) -> (T, T, T) {
    (xs[k % (xs.len() as int)], ys[k / (xs.len() as int)], z0)
}

/// Point `k` of the z-x plane: rows run along z.
pub open spec fn zx_point<T>(xs: Seq<T>, zs: Seq<T>, y0: T, k: int) -> (T, T, T) {
    (xs[k / (zs.len() as int)], y0, zs[k % (zs.len() as int)])
}

/// Point `k` of the y-z plane: rows run along y.
pub open spec fn yz_point<T>(ys: Seq<T>, zs: Seq<T>, x0: T, k: int) -> (T, T, T) {
    (x0, ys[k % (ys.len() as int)], zs[k / (ys.len() as int)])
}

/// Point `k` of a volume: x fastest, then y, then z.
pub open spec fn volume_point<T>(xs: Seq<T>, ys: Seq<T>, zs: Seq<T>, k: int) -> (T, T, T) {
    let nx = xs.len() as int;
    let ny = ys.len() as int;
    (xs[k % nx], ys[(k / nx) % ny], zs[(k / nx) / ny])
}

/// The observed points of a range, given the positions along each axis and the start of
/// each range.
///
/// A line lists its positions in order. A plane lists its rows one after another: on the
/// x-y plane a row runs along x, on the y-z plane along y, on the z-x plane along z. A volume
/// lists x fastest, then y, then z.
pub open spec fn observe_points_of<T>(
    xs: Seq<T>,
    ys: Seq<T>,
    zs: Seq<T>,
    x0: T,
    y0: T,
    z0: T,
) -> Seq<(T, T, T)> {
    let nx = xs.len() as int;
    let ny = ys.len() as int;
    let nz = zs.len() as int;
    if ny == 1 && nz == 1 {
        Seq::new(nx as nat, |k: int| (xs[k], y0, z0))
    } else if nx == 1 && nz == 1 {
        Seq::new(ny as nat, |k: int| (x0, ys[k], z0))
    } else if nx == 1 && ny == 1 {
        Seq::new(nz as nat, |k: int| (x0, y0, zs[k]))
    } else if nz == 1 {
        Seq::new((ny * nx) as nat, |k: int| xy_point(xs, ys, z0, k))
    } else if ny == 1 {
        Seq::new((nx * nz) as nat, |k: int| zx_point(xs, zs, y0, k))
    } else if nx == 1 {
        Seq::new((nz * ny) as nat, |k: int| yz_point(ys, zs, x0, k))
    } else {
        Seq::new((nz * ny * nx) as nat, |k: int| volume_point(xs, ys, zs, k))
    }
}

/// Whether a range with these numbers of positions is a line.
pub fn is_1d(nx: usize, ny: usize, nz: usize) -> (r: bool)
    ensures
        r == spans_line(nx as int, ny as int, nz as int),
        r == ((if nx == 1 { 1int } else { 0int }) + (if ny == 1 { 1int } else { 0int }) + (if nz
            == 1 { 1int } else { 0int }) >= 2),
{
    (ny == 1 && nz == 1) || (nx == 1 && nz == 1) || (nx == 1 && ny == 1)
}

/// Whether a range with these numbers of positions is a plane (and not a line).
pub fn is_2d(nx: usize, ny: usize, nz: usize) -> (r: bool)
    ensures
        r == spans_plane(nx as int, ny as int, nz as int),
        r == ((if nx == 1 { 1int } else { 0int }) + (if ny == 1 { 1int } else { 0int }) + (if nz
            == 1 { 1int } else { 0int }) == 1),
{
    if is_1d(nx, ny, nz) {
        return false;
    }
    nx == 1 || ny == 1 || nz == 1
}

/// How a range with these numbers of positions is drawn, or `InvalidPlotRange` when it is
/// neither a line nor a plane.
pub fn field_plot(nx: usize, ny: usize, nz: usize) -> (r: Result<FieldPlot, VisualizerError>)
    ensures
        r == field_plot_of(nx as int, ny as int, nz as int),
        ny == 1 && nz == 1 ==> r == Ok::<FieldPlot, VisualizerError>(FieldPlot::Line(Axis::X)),
        nx == 1 && nz == 1 && ny != 1 ==> r == Ok::<FieldPlot, VisualizerError>(
            FieldPlot::Line(Axis::Y),
        ),
        nx == 1 && ny == 1 && nz != 1 ==> r == Ok::<FieldPlot, VisualizerError>(
            FieldPlot::Line(Axis::Z),
        ),
        nz == 1 && nx != 1 && ny != 1 ==> r == Ok::<FieldPlot, VisualizerError>(
            FieldPlot::Plane(Axis::X, Axis::Y),
        ),
        nx == 1 && ny != 1 && nz != 1 ==> r == Ok::<FieldPlot, VisualizerError>(
            FieldPlot::Plane(Axis::Y, Axis::Z),
        ),
        ny == 1 && nx != 1 && nz != 1 ==> r == Ok::<FieldPlot, VisualizerError>(
            FieldPlot::Plane(Axis::Z, Axis::X),
        ),
        nx != 1 && ny != 1 && nz != 1 ==> r == Err::<FieldPlot, VisualizerError>(
            VisualizerError::InvalidPlotRange,
        ),
{
    if is_1d(nx, ny, nz) {
        if ny == 1 && nz == 1 {
            Ok(FieldPlot::Line(Axis::X))
        } else if nx == 1 && nz == 1 {
            Ok(FieldPlot::Line(Axis::Y))
        } else {
            Ok(FieldPlot::Line(Axis::Z))
        }
    } else if is_2d(nx, ny, nz) {
        let horizontal = if nz == 1 {
            Axis::X
        } else if nx == 1 {
            Axis::Y
        } else {
            Axis::Z
        };
        let vertical = if nz == 1 {
            Axis::Y
        } else if nx == 1 {
            Axis::Z
        } else {
            Axis::X
        };
        Ok(FieldPlot::Plane(horizontal, vertical))
    } else {
        Err(VisualizerError::InvalidPlotRange)
    }
}

/// `q * d + r` splits back into `q` and `r`.
proof fn lemma_split(q: int, d: int, r: int)
    requires
        d > 0,
        0 <= r < d,
    ensures
        (q * d + r) / d == q,
        (q * d + r) % d == r,
{
    lemma_fundamental_div_mod_converse(q * d + r, d, q, r);
}

/// The coordinate of a point along an axis.
pub open spec fn coordinate<T>(p: (T, T, T), axis: Axis) -> T {
    match axis {
        Axis::X => p.0,
        Axis::Y => p.1,
        Axis::Z => p.2,
    }
}

/// The positions along an axis.
pub open spec fn positions<T>(xs: Seq<T>, ys: Seq<T>, zs: Seq<T>, axis: Axis) -> Seq<T> {
    match axis {
        Axis::X => xs,
        Axis::Y => ys,
        Axis::Z => zs,
    }
}

/// The start of the range of an axis.
pub open spec fn start<T>(x0: T, y0: T, z0: T, axis: Axis) -> T {
    match axis {
        Axis::X => x0,
        Axis::Y => y0,
        Axis::Z => z0,
    }
}

/// The position, among the points of a plane, of the cell at `ih` along the horizontal axis
/// and `iv` along the vertical one.
pub open spec fn cell_index(nh: int, ih: int, iv: int) -> int {
    iv * nh + ih
}

/// The position, among the points of a volume, of the cell at `ix`, `iy`, `iz`.
pub open spec fn volume_index(nx: int, ny: int, ix: int, iy: int, iz: int) -> int {
    (iz * ny + iy) * nx + ix
}

/// A range is drawn as a line exactly when at least two axes are flat, as a plane exactly
/// when one axis is flat, and cannot be drawn otherwise; never as both.
pub proof fn lemma_plot_kinds(nx: int, ny: int, nz: int)
    ensures
        !(spans_line(nx, ny, nz) && spans_plane(nx, ny, nz)),
        field_plot_of(nx, ny, nz) is Ok <==> spans_line(nx, ny, nz) || spans_plane(nx, ny, nz),
        (field_plot_of(nx, ny, nz) matches Ok(FieldPlot::Line(_))) <==> spans_line(nx, ny, nz),
        (field_plot_of(nx, ny, nz) matches Ok(FieldPlot::Plane(_, _))) <==> spans_plane(nx, ny, nz),
        field_plot_of(nx, ny, nz) is Err ==> field_plot_of(nx, ny, nz) == Err::<FieldPlot, VisualizerError>(
            VisualizerError::InvalidPlotRange,
        ),
{
}

/// How a range is drawn depends only on which axes have one position. With two or three
/// such axes it is a line: along x when y and z are flat (whatever x holds), otherwise along
/// the axis that is not flat. With exactly one it is a plane of the other two: x-y when z is
/// flat, y-z when x is flat, z-x when y is flat. With none it cannot be drawn.
pub proof fn lemma_plot_kind_by_flat_axes(nx: int, ny: int, nz: int)
    ensures
        ({
            let flat = (if nx == 1 { 1int } else { 0int }) + (if ny == 1 { 1int } else { 0int }) + (
            if nz == 1 { 1int } else { 0int });
            &&& spans_line(nx, ny, nz) == (flat >= 2)
            &&& spans_plane(nx, ny, nz) == (flat == 1)
            &&& ny == 1 && nz == 1 ==> field_plot_of(nx, ny, nz) == Ok::<FieldPlot, VisualizerError>(
                FieldPlot::Line(Axis::X),
            )
            &&& nx == 1 && nz == 1 && ny != 1 ==> field_plot_of(nx, ny, nz) == Ok::<
                FieldPlot,
                VisualizerError,
            >(FieldPlot::Line(Axis::Y))
            &&& nx == 1 && ny == 1 && nz != 1 ==> field_plot_of(nx, ny, nz) == Ok::<
                FieldPlot,
                VisualizerError,
            >(FieldPlot::Line(Axis::Z))
            &&& nz == 1 && nx != 1 && ny != 1 ==> field_plot_of(nx, ny, nz) == Ok::<
                FieldPlot,
                VisualizerError,
            >(FieldPlot::Plane(Axis::X, Axis::Y))
            &&& nx == 1 && ny != 1 && nz != 1 ==> field_plot_of(nx, ny, nz) == Ok::<
                FieldPlot,
                VisualizerError,
            >(FieldPlot::Plane(Axis::Y, Axis::Z))
            &&& ny == 1 && nx != 1 && nz != 1 ==> field_plot_of(nx, ny, nz) == Ok::<
                FieldPlot,
                VisualizerError,
            >(FieldPlot::Plane(Axis::Z, Axis::X))
            &&& flat == 0 ==> field_plot_of(nx, ny, nz) == Err::<FieldPlot, VisualizerError>(
                VisualizerError::InvalidPlotRange,
            )
        }),
{
}

/// A range observes one point per combination of positions: `nx * ny * nz` points.
pub proof fn lemma_point_count<T>(xs: Seq<T>, ys: Seq<T>, zs: Seq<T>, x0: T, y0: T, z0: T)
    ensures
        observe_points_of(xs, ys, zs, x0, y0, z0).len() == xs.len() * ys.len() * zs.len(),
{
    let nx = xs.len() as int;
    let ny = ys.len() as int;
    let nz = zs.len() as int;
    assert(ny * nx == nx * ny * 1) by (nonlinear_arith);
    assert(nx * nz == nx * 1 * nz) by (nonlinear_arith);
    assert(nz * ny == 1 * ny * nz) by (nonlinear_arith);
    assert(nz * ny * nx == nx * ny * nz) by (nonlinear_arith);
}

/// What is plotted lines up with what is observed. On a line along axis `a`, point `k` lies
/// at the `k`-th position of `a`, and at the start of the other axes. On a plane with
/// horizontal axis `h` and vertical axis `v`, point `k` lies at position `k % nh` of `h`, at
/// position `k / nh` of `v`, and at the start of the third axis; so the points fill the plane
/// row by row, and each cell `(ih, iv)` of the plane is point `iv * nh + ih`.
pub proof fn lemma_plot_matches_points<T>(xs: Seq<T>, ys: Seq<T>, zs: Seq<T>, x0: T, y0: T, z0: T)
    ensures
        ({
            let pts = observe_points_of(xs, ys, zs, x0, y0, z0);
            match field_plot_of(xs.len() as int, ys.len() as int, zs.len() as int) {
                Ok(FieldPlot::Line(a)) => {
                    &&& pts.len() == positions(xs, ys, zs, a).len()
                    &&& forall|k: int, b: Axis|
                        0 <= k < pts.len() ==> #[trigger] coordinate(pts[k], b) == if b == a {
                            positions(xs, ys, zs, a)[k]
                        } else {
                            start(x0, y0, z0, b)
                        }
                },
                Ok(FieldPlot::Plane(h, v)) => {
                    let nh = positions(xs, ys, zs, h).len() as int;
                    let nv = positions(xs, ys, zs, v).len() as int;
                    &&& h != v
                    &&& pts.len() == nh * nv
                    &&& forall|k: int, b: Axis|
                        0 <= k < pts.len() ==> #[trigger] coordinate(pts[k], b) == if b == h {
                            positions(xs, ys, zs, h)[k % nh]
                        } else if b == v {
                            positions(xs, ys, zs, v)[k / nh]
                        } else {
                            start(x0, y0, z0, b)
                        }
                    &&& forall|ih: int, iv: int|
                        0 <= ih < nh && 0 <= iv < nv ==> {
                            &&& 0 <= #[trigger] cell_index(nh, ih, iv) < pts.len()
                            &&& coordinate(pts[cell_index(nh, ih, iv)], h) == positions(xs, ys, zs, h)[ih]
                            &&& coordinate(pts[cell_index(nh, ih, iv)], v) == positions(xs, ys, zs, v)[iv]
                        }
                },
                Err(_) => true,
            }
        }),
{
    let nx = xs.len() as int;
    let ny = ys.len() as int;
    let nz = zs.len() as int;
    let pts = observe_points_of(xs, ys, zs, x0, y0, z0);
    match field_plot_of(nx, ny, nz) {
        Ok(FieldPlot::Line(a)) => {
            assert forall|k: int, b: Axis| 0 <= k < pts.len() implies #[trigger] coordinate(
                pts[k],
                b,
            ) == if b == a {
                positions(xs, ys, zs, a)[k]
            } else {
                start(x0, y0, z0, b)
            } by {}
        },
        Ok(FieldPlot::Plane(h, v)) => {
            let nh = positions(xs, ys, zs, h).len() as int;
            let nv = positions(xs, ys, zs, v).len() as int;
            assert(pts.len() == nh * nv) by {
                assert(ny * nx == nx * ny) by (nonlinear_arith);
                assert(nx * nz == nz * nx) by (nonlinear_arith);
                assert(nz * ny == ny * nz) by (nonlinear_arith);
            }
            assert forall|k: int, b: Axis| 0 <= k < pts.len() implies #[trigger] coordinate(
                pts[k],
                b,
            ) == if b == h {
                positions(xs, ys, zs, h)[k % nh]
            } else if b == v {
                positions(xs, ys, zs, v)[k / nh]
            } else {
                start(x0, y0, z0, b)
            } by {}
            assert forall|ih: int, iv: int| 0 <= ih < nh && 0 <= iv < nv implies {
                &&& 0 <= #[trigger] cell_index(nh, ih, iv) < pts.len()
                &&& coordinate(pts[cell_index(nh, ih, iv)], h) == positions(xs, ys, zs, h)[ih]
                &&& coordinate(pts[cell_index(nh, ih, iv)], v) == positions(xs, ys, zs, v)[iv]
            } by {
                lemma_split(iv, nh, ih);
                assert(0 <= iv * nh + ih < nv * nh) by (nonlinear_arith)
                    requires
                        0 <= ih < nh,
                        0 <= iv < nv,
                ;
                assert(nv * nh == nh * nv) by (nonlinear_arith);
            }
        },
        _ => {},
    }
}

/// A range that cannot be drawn still observes every combination of positions: point
/// `(iz * ny + iy) * nx + ix` lies at position `ix` of x, `iy` of y and `iz` of z.
pub proof fn lemma_volume_cells<T>(xs: Seq<T>, ys: Seq<T>, zs: Seq<T>, x0: T, y0: T, z0: T)
    requires
        field_plot_of(xs.len() as int, ys.len() as int, zs.len() as int) is Err,
    ensures
        ({
            let pts = observe_points_of(xs, ys, zs, x0, y0, z0);
            let nx = xs.len() as int;
            let ny = ys.len() as int;
            forall|ix: int, iy: int, iz: int|
                0 <= ix < nx && 0 <= iy < ny && 0 <= iz < zs.len() ==> {
                    &&& 0 <= #[trigger] volume_index(nx, ny, ix, iy, iz) < pts.len()
                    &&& pts[volume_index(nx, ny, ix, iy, iz)] == (xs[ix], ys[iy], zs[iz])
                }
        }),
{
    let pts = observe_points_of(xs, ys, zs, x0, y0, z0);
    let nx = xs.len() as int;
    let ny = ys.len() as int;
    let nz = zs.len() as int;
    assert forall|ix: int, iy: int, iz: int|
        0 <= ix < nx && 0 <= iy < ny && 0 <= iz < zs.len() implies {
            &&& 0 <= #[trigger] volume_index(nx, ny, ix, iy, iz) < pts.len()
            &&& pts[volume_index(nx, ny, ix, iy, iz)] == (xs[ix], ys[iy], zs[iz])
        } by {
        lemma_split(iz * ny + iy, nx, ix);
        lemma_split(iz, ny, iy);
        assert(0 <= iz * ny + iy < nz * ny) by (nonlinear_arith)
            requires
                0 <= iy < ny,
                0 <= iz < nz,
        ;
        assert(0 <= (iz * ny + iy) * nx + ix < (nz * ny) * nx) by (nonlinear_arith)
            requires
                0 <= ix < nx,
                0 <= iz * ny + iy < nz * ny,
        ;
        assert(pts[(iz * ny + iy) * nx + ix] == volume_point(xs, ys, zs, (iz * ny + iy) * nx + ix));
    }
}

/// The position, among the observed points of a range with `nx`, `ny`, `nz` positions, of
/// the point that combines position `ix` of x, `iy` of y and `iz` of z.
pub open spec fn grid_index(nx: int, ny: int, nz: int, ix: int, iy: int, iz: int) -> int {
    if ny == 1 && nz == 1 {
        ix
    } else if nx == 1 && nz == 1 {
        iy
    } else if nx == 1 && ny == 1 {
        iz
    } else if nz == 1 {
        cell_index(nx, ix, iy)
    } else if ny == 1 {
        cell_index(nz, iz, ix)
    } else if nx == 1 {
        cell_index(ny, iy, iz)
    } else {
        volume_index(nx, ny, ix, iy, iz)
    }
}

/// The combination of positions that point `k` of a range with `nx`, `ny`, `nz` positions
/// takes: its position along x, along y and along z.
pub open spec fn grid_cell(nx: int, ny: int, nz: int, k: int) -> (int, int, int) {
    if ny == 1 && nz == 1 {
        (k, 0, 0)
    } else if nx == 1 && nz == 1 {
        (0, k, 0)
    } else if nx == 1 && ny == 1 {
        (0, 0, k)
    } else if nz == 1 {
        (k % nx, k / nx, 0)
    } else if ny == 1 {
        (k / nz, 0, k % nz)
    } else if nx == 1 {
        (0, k % ny, k / ny)
    } else {
        (k % nx, (k / nx) % ny, (k / nx) / ny)
    }
}

/// `k`, below `m * d`, splits into a quotient below `m` and a remainder below `d`.
proof fn lemma_unsplit(k: int, d: int, m: int)
    requires
        d >= 0,
        m >= 0,
        0 <= k < m * d,
    ensures
        d > 0,
        0 <= k / d < m,
        0 <= k % d < d,
        (k / d) * d + k % d == k,
{
    assert(d > 0) by (nonlinear_arith)
        requires
            d >= 0,
            m >= 0,
            0 <= k < m * d,
    ;
    lemma_fundamental_div_mod(k, d);
    lemma_mod_pos_bound(k, d);
    let q = k / d;
    let r = k % d;
    assert(0 <= q < m) by (nonlinear_arith)
        requires
            d > 0,
            k == d * q + r,
            0 <= r < d,
            0 <= k < m * d,
    ;
    assert(q * d == d * q) by (nonlinear_arith);
}

/// A range observes each combination of positions exactly once: point `k` combines the
/// positions `grid_cell(k)` of the three axes, every combination of positions is the point
/// at `grid_index` of it, and the two undo each other. An axis with one position contributes
/// the start of its range, which is then its one position.
pub proof fn lemma_each_combination_once<T>(xs: Seq<T>, ys: Seq<T>, zs: Seq<T>, x0: T, y0: T, z0: T)
    requires
        xs.len() == 1 ==> xs[0] == x0,
        ys.len() == 1 ==> ys[0] == y0,
        zs.len() == 1 ==> zs[0] == z0,
    ensures
        ({
            let pts = observe_points_of(xs, ys, zs, x0, y0, z0);
            let nx = xs.len() as int;
            let ny = ys.len() as int;
            let nz = zs.len() as int;
            &&& pts.len() == nx * ny * nz
            &&& forall|k: int|
                0 <= k < pts.len() ==> {
                    let c = #[trigger] grid_cell(nx, ny, nz, k);
                    &&& 0 <= c.0 < nx
                    &&& 0 <= c.1 < ny
                    &&& 0 <= c.2 < nz
                    &&& grid_index(nx, ny, nz, c.0, c.1, c.2) == k
                    &&& pts[k] == (xs[c.0], ys[c.1], zs[c.2])
                }
            &&& forall|ix: int, iy: int, iz: int|
                0 <= ix < nx && 0 <= iy < ny && 0 <= iz < nz ==> grid_cell(
                    nx,
                    ny,
                    nz,
                    #[trigger] grid_index(nx, ny, nz, ix, iy, iz),
                ) == (ix, iy, iz)
        }),
{
    let pts = observe_points_of(xs, ys, zs, x0, y0, z0);
    let nx = xs.len() as int;
    let ny = ys.len() as int;
    let nz = zs.len() as int;
    lemma_point_count(xs, ys, zs, x0, y0, z0);
    assert forall|k: int| 0 <= k < pts.len() implies {
        let c = #[trigger] grid_cell(nx, ny, nz, k);
        &&& 0 <= c.0 < nx
        &&& 0 <= c.1 < ny
        &&& 0 <= c.2 < nz
        &&& grid_index(nx, ny, nz, c.0, c.1, c.2) == k
        &&& pts[k] == (xs[c.0], ys[c.1], zs[c.2])
    } by {
        if ny == 1 && nz == 1 {
        } else if nx == 1 && nz == 1 {
        } else if nx == 1 && ny == 1 {
        } else if nz == 1 {
            lemma_unsplit(k, nx, ny);
        } else if ny == 1 {
            lemma_unsplit(k, nz, nx);
        } else if nx == 1 {
            lemma_unsplit(k, ny, nz);
        } else {
            lemma_unsplit(k, nx, nz * ny);
            lemma_unsplit(k / nx, ny, nz);
            assert(pts[k] == volume_point(xs, ys, zs, k));
        }
    }
    assert forall|ix: int, iy: int, iz: int|
        0 <= ix < nx && 0 <= iy < ny && 0 <= iz < nz implies grid_cell(
        nx,
        ny,
        nz,
        #[trigger] grid_index(nx, ny, nz, ix, iy, iz),
    ) == (ix, iy, iz) by {
        if ny == 1 && nz == 1 {
        } else if nx == 1 && nz == 1 {
        } else if nx == 1 && ny == 1 {
        } else if nz == 1 {
            lemma_split(iy, nx, ix);
        } else if ny == 1 {
            lemma_split(ix, nz, iz);
        } else if nx == 1 {
            lemma_split(iz, ny, iy);
        } else {
            lemma_split(iz * ny + iy, nx, ix);
            lemma_split(iz, ny, iy);
        }
    }
}

/// Where each combination of positions lands among the observed points, stated on the
/// numbers of positions. A line (two or three axes with one position) lists its positions in
/// order: along x when y and z are flat, otherwise along the axis that is not flat; the
/// other coordinates are the starts. A plane (one flat axis) lists rows: on the x-y plane
/// the cell `(ix, iy)` is point `iy * nx + ix`, on the y-z plane `(iy, iz)` is `iz * ny + iy`,
/// on the z-x plane `(iz, ix)` is `ix * nz + iz`; the flat axis takes its start. A volume
/// puts `(ix, iy, iz)` at `(iz * ny + iy) * nx + ix`.
pub proof fn lemma_point_layout<T>(xs: Seq<T>, ys: Seq<T>, zs: Seq<T>, x0: T, y0: T, z0: T)
    ensures
        observe_points_of(xs, ys, zs, x0, y0, z0).len() == xs.len() * ys.len() * zs.len(),
        ys.len() == 1 && zs.len() == 1 ==> forall|k: int|
            0 <= k < xs.len() ==> #[trigger] observe_points_of(xs, ys, zs, x0, y0, z0)[k] == (xs[k], y0, z0),
        xs.len() == 1 && zs.len() == 1 && ys.len() != 1 ==> forall|k: int|
            0 <= k < ys.len() ==> #[trigger] observe_points_of(xs, ys, zs, x0, y0, z0)[k] == (x0, ys[k], z0),
        xs.len() == 1 && ys.len() == 1 && zs.len() != 1 ==> forall|k: int|
            0 <= k < zs.len() ==> #[trigger] observe_points_of(xs, ys, zs, x0, y0, z0)[k] == (x0, y0, zs[k]),
        zs.len() == 1 && xs.len() != 1 && ys.len() != 1 ==> forall|ix: int, iy: int|
            0 <= ix < xs.len() && 0 <= iy < ys.len() ==> #[trigger] observe_points_of(xs, ys, zs, x0, y0, z0)[cell_index(
                xs.len() as int,
                ix,
                iy,
            )] == (xs[ix], ys[iy], z0),
        xs.len() == 1 && ys.len() != 1 && zs.len() != 1 ==> forall|iy: int, iz: int|
            0 <= iy < ys.len() && 0 <= iz < zs.len() ==> #[trigger] observe_points_of(xs, ys, zs, x0, y0, z0)[cell_index(
                ys.len() as int,
                iy,
                iz,
            )] == (x0, ys[iy], zs[iz]),
        ys.len() == 1 && xs.len() != 1 && zs.len() != 1 ==> forall|ix: int, iz: int|
            0 <= ix < xs.len() && 0 <= iz < zs.len() ==> #[trigger] observe_points_of(xs, ys, zs, x0, y0, z0)[cell_index(
                zs.len() as int,
                iz,
                ix,
            )] == (xs[ix], y0, zs[iz]),
        xs.len() != 1 && ys.len() != 1 && zs.len() != 1 ==> forall|ix: int, iy: int, iz: int|
            0 <= ix < xs.len() && 0 <= iy < ys.len() && 0 <= iz < zs.len() ==> #[trigger] observe_points_of(xs, ys, zs, x0, y0, z0)[volume_index(
                xs.len() as int,
                ys.len() as int,
                ix,
                iy,
                iz,
            )] == (xs[ix], ys[iy], zs[iz]),
{
    let pts = observe_points_of(xs, ys, zs, x0, y0, z0);
    let nx = xs.len() as int;
    let ny = ys.len() as int;
    let nz = zs.len() as int;
    lemma_point_count(xs, ys, zs, x0, y0, z0);
    if nz == 1 && nx != 1 && ny != 1 {
        assert forall|ix: int, iy: int| 0 <= ix < nx && 0 <= iy < ny implies #[trigger] pts[cell_index(
            nx,
            ix,
            iy,
        )] == (xs[ix], ys[iy], z0) by {
            lemma_split(iy, nx, ix);
            assert(0 <= iy * nx + ix < ny * nx) by (nonlinear_arith)
                requires
                    0 <= ix < nx,
                    0 <= iy < ny,
            ;
        }
    } else if nx == 1 && ny != 1 && nz != 1 {
        assert forall|iy: int, iz: int| 0 <= iy < ny && 0 <= iz < nz implies #[trigger] pts[cell_index(
            ny,
            iy,
            iz,
        )] == (x0, ys[iy], zs[iz]) by {
            lemma_split(iz, ny, iy);
            assert(0 <= iz * ny + iy < nz * ny) by (nonlinear_arith)
                requires
                    0 <= iy < ny,
                    0 <= iz < nz,
            ;
        }
    } else if ny == 1 && nx != 1 && nz != 1 {
        assert forall|ix: int, iz: int| 0 <= ix < nx && 0 <= iz < nz implies #[trigger] pts[cell_index(
            nz,
            iz,
            ix,
        )] == (xs[ix], y0, zs[iz]) by {
            lemma_split(ix, nz, iz);
            assert(0 <= ix * nz + iz < nx * nz) by (nonlinear_arith)
                requires
                    0 <= ix < nx,
                    0 <= iz < nz,
            ;
        }
    } else if nx != 1 && ny != 1 && nz != 1 {
        lemma_volume_cells(xs, ys, zs, x0, y0, z0);
    }
}

/// The observed points of a range, given the positions along each axis (`xs`, `ys`, `zs`)
/// and the start of each range (`x0`, `y0`, `z0`, taken by a flat axis).
pub fn observe_points<T: Copy>(
    xs: &Vec<T>,
    ys: &Vec<T>,
    zs: &Vec<T>,
    x0: T,
    y0: T,
    z0: T,
) -> (r: Vec<(T, T, T)>)
    ensures
        r@ == observe_points_of(xs@, ys@, zs@, x0, y0, z0),
        r@.len() == xs@.len() * ys@.len() * zs@.len(),
        ys@.len() == 1 && zs@.len() == 1 ==> forall|k: int|
            0 <= k < xs@.len() ==> #[trigger] r@[k] == (xs@[k], y0, z0),
        xs@.len() == 1 && zs@.len() == 1 && ys@.len() != 1 ==> forall|k: int|
            0 <= k < ys@.len() ==> #[trigger] r@[k] == (x0, ys@[k], z0),
        xs@.len() == 1 && ys@.len() == 1 && zs@.len() != 1 ==> forall|k: int|
            0 <= k < zs@.len() ==> #[trigger] r@[k] == (x0, y0, zs@[k]),
        zs@.len() == 1 && xs@.len() != 1 && ys@.len() != 1 ==> forall|ix: int, iy: int|
            0 <= ix < xs@.len() && 0 <= iy < ys@.len() ==> #[trigger] r@[cell_index(
                xs@.len() as int,
                ix,
                iy,
            )] == (xs@[ix], ys@[iy], z0),
        xs@.len() == 1 && ys@.len() != 1 && zs@.len() != 1 ==> forall|iy: int, iz: int|
            0 <= iy < ys@.len() && 0 <= iz < zs@.len() ==> #[trigger] r@[cell_index(
                ys@.len() as int,
                iy,
                iz,
            )] == (x0, ys@[iy], zs@[iz]),
        ys@.len() == 1 && xs@.len() != 1 && zs@.len() != 1 ==> forall|ix: int, iz: int|
            0 <= ix < xs@.len() && 0 <= iz < zs@.len() ==> #[trigger] r@[cell_index(
                zs@.len() as int,
                iz,
                ix,
            )] == (xs@[ix], y0, zs@[iz]),
        xs@.len() != 1 && ys@.len() != 1 && zs@.len() != 1 ==> forall|ix: int, iy: int, iz: int|
            0 <= ix < xs@.len() && 0 <= iy < ys@.len() && 0 <= iz < zs@.len() ==> #[trigger] r@[volume_index(
                xs@.len() as int,
                ys@.len() as int,
                ix,
                iy,
                iz,
            )] == (xs@[ix], ys@[iy], zs@[iz]),
{
    let nx = xs.len();
    let ny = ys.len();
    let nz = zs.len();
    let mut r: Vec<(T, T, T)> = Vec::new();
    if ny == 1 && nz == 1 {
        let mut i: usize = 0;
        while i < nx
            invariant
                nx == xs@.len(),
                i <= nx,
                r@ =~= Seq::new(i as nat, |k: int| (xs@[k], y0, z0)),
            decreases nx - i,
        {
            r.push((xs[i], y0, z0));
            i = i + 1;
        }
    } else if nx == 1 && nz == 1 {
        let mut i: usize = 0;
        while i < ny
            invariant
                ny == ys@.len(),
                i <= ny,
                r@ =~= Seq::new(i as nat, |k: int| (x0, ys@[k], z0)),
            decreases ny - i,
        {
            r.push((x0, ys[i], z0));
            i = i + 1;
        }
    } else if nx == 1 && ny == 1 {
        let mut i: usize = 0;
        while i < nz
            invariant
                nz == zs@.len(),
                i <= nz,
                r@ =~= Seq::new(i as nat, |k: int| (x0, y0, zs@[k])),
            decreases nz - i,
        {
            r.push((x0, y0, zs[i]));
            i = i + 1;
        }
    } else if nz == 1 {
        let mut iy: usize = 0;
        while iy < ny
            invariant
                nx == xs@.len(),
                ny == ys@.len(),
                iy <= ny,
                r@ =~= Seq::new((iy * nx) as nat, |k: int| xy_point(xs@, ys@, z0, k)),
            decreases ny - iy,
        {
            let mut ix: usize = 0;
            while ix < nx
                invariant
                    nx == xs@.len(),
                    ny == ys@.len(),
                    iy < ny,
                    ix <= nx,
                    r@ =~= Seq::new((iy * nx + ix) as nat, |k: int| xy_point(xs@, ys@, z0, k)),
                decreases nx - ix,
            {
                let ghost n = iy * nx + ix;
                proof {
                    lemma_split(iy as int, nx as int, ix as int);
                    assert(xy_point(xs@, ys@, z0, n) == (xs@[ix as int], ys@[iy as int], z0));
                }
                r.push((xs[ix], ys[iy], z0));
                proof {
                    assert(r@ =~= Seq::new((n + 1) as nat, |k: int| xy_point(xs@, ys@, z0, k)));
                }
                ix = ix + 1;
            }
            proof {
                assert((iy + 1) * nx == iy * nx + nx) by (nonlinear_arith);
            }
            iy = iy + 1;
        }
        proof {
            assert(ny * nx == nx * ny) by (nonlinear_arith);
        }
    } else if ny == 1 {
        let mut ix: usize = 0;
        while ix < nx
            invariant
                nx == xs@.len(),
                nz == zs@.len(),
                ix <= nx,
                r@ =~= Seq::new((ix * nz) as nat, |k: int| zx_point(xs@, zs@, y0, k)),
            decreases nx - ix,
        {
            let mut iz: usize = 0;
            while iz < nz
                invariant
                    nx == xs@.len(),
                    nz == zs@.len(),
                    ix < nx,
                    iz <= nz,
                    r@ =~= Seq::new((ix * nz + iz) as nat, |k: int| zx_point(xs@, zs@, y0, k)),
                decreases nz - iz,
            {
                let ghost n = ix * nz + iz;
                proof {
                    lemma_split(ix as int, nz as int, iz as int);
                    assert(zx_point(xs@, zs@, y0, n) == (xs@[ix as int], y0, zs@[iz as int]));
                }
                r.push((xs[ix], y0, zs[iz]));
                proof {
                    assert(r@ =~= Seq::new((n + 1) as nat, |k: int| zx_point(xs@, zs@, y0, k)));
                }
                iz = iz + 1;
            }
            proof {
                assert((ix + 1) * nz == ix * nz + nz) by (nonlinear_arith);
            }
            ix = ix + 1;
        }
    } else if nx == 1 {
        let mut iz: usize = 0;
        while iz < nz
            invariant
                ny == ys@.len(),
                nz == zs@.len(),
                iz <= nz,
                r@ =~= Seq::new((iz * ny) as nat, |k: int| yz_point(ys@, zs@, x0, k)),
            decreases nz - iz,
        {
            let mut iy: usize = 0;
            while iy < ny
                invariant
                    ny == ys@.len(),
                    nz == zs@.len(),
                    iz < nz,
                    iy <= ny,
                    r@ =~= Seq::new((iz * ny + iy) as nat, |k: int| yz_point(ys@, zs@, x0, k)),
                decreases ny - iy,
            {
                let ghost n = iz * ny + iy;
                proof {
                    lemma_split(iz as int, ny as int, iy as int);
                    assert(yz_point(ys@, zs@, x0, n) == (x0, ys@[iy as int], zs@[iz as int]));
                }
                r.push((x0, ys[iy], zs[iz]));
                proof {
                    assert(r@ =~= Seq::new((n + 1) as nat, |k: int| yz_point(ys@, zs@, x0, k)));
                }
                iy = iy + 1;
            }
            proof {
                assert((iz + 1) * ny == iz * ny + ny) by (nonlinear_arith);
            }
            iz = iz + 1;
        }
    } else {
        let mut iz: usize = 0;
        while iz < nz
            invariant
                nx == xs@.len(),
                ny == ys@.len(),
                nz == zs@.len(),
                iz <= nz,
                r@ =~= Seq::new((iz * ny * nx) as nat, |k: int| volume_point(xs@, ys@, zs@, k)),
            decreases nz - iz,
        {
            let mut iy: usize = 0;
            while iy < ny
                invariant
                    nx == xs@.len(),
                    ny == ys@.len(),
                    nz == zs@.len(),
                    iz < nz,
                    iy <= ny,
                    r@ =~= Seq::new(((iz * ny + iy) * nx) as nat, |k: int| volume_point(xs@, ys@, zs@, k)),
                decreases ny - iy,
            {
                let mut ix: usize = 0;
                while ix < nx
                    invariant
                        nx == xs@.len(),
                        ny == ys@.len(),
                        nz == zs@.len(),
                        iz < nz,
                        iy < ny,
                        ix <= nx,
                        r@ =~= Seq::new(((iz * ny + iy) * nx + ix) as nat, |k: int| volume_point(xs@, ys@, zs@, k)),
                    decreases nx - ix,
                {
                    let ghost n = (iz * ny + iy) * nx + ix;
                    proof {
                        lemma_split(iz * ny + iy, nx as int, ix as int);
                        lemma_split(iz as int, ny as int, iy as int);
                        assert(volume_point(xs@, ys@, zs@, n) == (xs@[ix as int], ys@[iy as int], zs@[iz as int]));
                    }
                    r.push((xs[ix], ys[iy], zs[iz]));
                    proof {
                        assert(r@ =~= Seq::new((n + 1) as nat, |k: int| volume_point(xs@, ys@, zs@, k)));
                    }
                    ix = ix + 1;
                }
                proof {
                    assert((iz * ny + iy + 1) * nx == (iz * ny + iy) * nx + nx) by (nonlinear_arith);
                }
                iy = iy + 1;
            }
            proof {
                assert((iz + 1) * ny * nx == (iz * ny + ny) * nx) by (nonlinear_arith);
                assert(iz * ny * nx == (iz * ny) * nx);
            }
            iz = iz + 1;
        }
        proof {
            assert(nz * ny * nx == (nz * ny) * nx);
        }
    }
    proof {
        lemma_point_layout(xs@, ys@, zs@, x0, y0, z0);
    }
    r
}

} // verus!
