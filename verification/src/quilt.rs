//! The quilt composer: consolidated frames are sorted, filtered to those
//! carrying the `_v` marker, grouped into successive `columns * rows`
//! layouts (row 0 first, left to right), and each layout is composited into
//! one quilt raster whose rows are vertically flipped: layout row 0 ends up
//! at the bottom of the saved image.

use vstd::arithmetic::div_mod::{
    lemma_fundamental_div_mod, lemma_fundamental_div_mod_converse_div,
    lemma_fundamental_div_mod_converse_mod, lemma_mod_bound,
};
use vstd::arithmetic::mul::lemma_mul_is_commutative;
use vstd::prelude::*;

use crate::filter_util::{lemma_filter_take_step, lemma_take_all};
use crate::order::{lex_sorted, names_view, sort_names};
use crate::parse::first_marker;
use crate::raster::{lemma_div_below, lemma_grid_index, Raster};
use crate::QuiltError;

verus! {

/// Every tile has the dimensions of the first one.
pub open spec fn uniform_tiles(tiles: Seq<Raster>) -> bool {
    forall|t: int|
        0 <= t < tiles.len() ==> #[trigger] tiles[t].width == tiles[0].width && tiles[t].height
            == tiles[0].height
}

/// Which tile of the layout the output pixel at `(i, j)` comes from, for a
/// quilt of the given height: the output is vertically flipped, so output
/// row `j` reads layout band `(height - 1 - j) / th`.
pub open spec fn src_tile(i: int, j: int, tw: int, th: int, columns: int, height: int) -> int {
    ((height - 1 - j) / th) * columns + i / tw
}

/// Channel `c` of the composed quilt at output position `(i, j)`: the
/// matching pixel of the tile that position falls in, with the tile-local
/// row read from the flipped output row.
pub open spec fn composed_chan(
    tiles: Seq<Raster>,
    columns: int,
    rows: int,
    i: int,
    j: int,
    c: int,
) -> u8
    recommends
        tiles.len() > 0,
{
    let tw = tiles[0].width as int;
    let th = tiles[0].height as int;
    let height = th * rows;
    tiles[src_tile(i, j, tw, th, columns, height)].chan(i % tw, (height - 1 - j) % th, c)
}

/// Strict ordering of flat sample indices: an earlier sample (above, or to
/// the left in the same row, or an earlier channel of the same pixel) has a
/// smaller flat index.
proof fn lemma_sample_index_lt(jj: int, ii: int, cc: int, j: int, i: int, c: int, w: int)
    by (nonlinear_arith)
    requires
        0 <= ii < w,
        0 <= cc < 4,
        0 <= jj,
        0 <= i,
        0 <= c,
        jj < j || (jj == j && ii < i) || (jj == j && ii == i && cc < c),
    ensures
        0 <= 4 * (jj * w + ii) + cc < 4 * (j * w + i) + c,
{
}

/// Composite one layout of tiles (row-major: the tile of layout row `r` and
/// column `c` is `tiles[r * columns + c]`) into a single quilt raster.
/// The quilt is `(tw * columns) x (th * rows)` pixels, and the whole image
/// is vertically flipped relative to the layout: layout row 0 lands at the
/// bottom. Tiles whose dimensions differ from the first tile's are a fatal
/// mismatch reported as an error, never a partial quilt.
#[verifier::loop_isolation(false)]
#[verifier::rlimit(60)]
pub fn compose_quilt(tiles: &Vec<Raster>, columns: usize, rows: usize) -> (r: Result<
    Raster,
    QuiltError,
>)
    requires
        1 <= columns,
        1 <= rows,
        tiles@.len() == columns * rows,
        forall|t: int| 0 <= t < tiles@.len() ==> (#[trigger] tiles@[t]).wf(),
        tiles@[0].width * columns <= usize::MAX,
        tiles@[0].height * rows <= usize::MAX,
        4 * ((tiles@[0].width * columns) * (tiles@[0].height * rows)) <= usize::MAX,
    ensures
        (r is Ok) <==> uniform_tiles(tiles@),
        r matches Ok(q) ==> ({
            &&& q.wf()
            &&& q.width == tiles@[0].width * columns
            &&& q.height == tiles@[0].height * rows
            &&& forall|i: int, j: int, c: int|
                0 <= i < q.width && 0 <= j < q.height && 0 <= c < 4 ==> #[trigger] q.chan(i, j, c)
                    == composed_chan(tiles@, columns as int, rows as int, i, j, c)
        }),
        r matches Err(e) ==> e == QuiltError::TileSizeMismatch,
{
    proof {
        assert(tiles@.len() >= 1) by (nonlinear_arith)
            requires
                tiles@.len() == columns * rows,
                columns >= 1,
                rows >= 1,
        ;
    }
    let tw = tiles[0].width;
    let th = tiles[0].height;
    let mut t: usize = 0;
    while t < tiles.len()
        invariant
            t <= tiles@.len(),
            forall|u: int|
                0 <= u < t ==> #[trigger] tiles@[u].width == tw && tiles@[u].height == th,
        decreases tiles@.len() - t,
    {
        if tiles[t].width != tw || tiles[t].height != th {
            return Err(QuiltError::TileSizeMismatch);
        }
        t = t + 1;
    }
    let width = tw * columns;
    let height = th * rows;
    let mut px: Vec<u8> = Vec::new();
    let mut j: usize = 0;
    while j < height
        invariant
            j <= height,
            px@.len() == 4 * ((j as int) * (width as int)),
            forall|jj: int, ii: int, cc: int|
                0 <= jj < j && 0 <= ii < width && 0 <= cc < 4 ==> #[trigger] px@[4 * (jj * (
                width as int) + ii) + cc] == composed_chan(
                    tiles@,
                    columns as int,
                    rows as int,
                    ii,
                    jj,
                    cc,
                ),
        decreases height - j,
    {
        proof {
            assert(th >= 1) by (nonlinear_arith)
                requires
                    height == th * rows,
                    0 <= j < height,
                    th >= 0,
            ;
        }
        let flipped = height - 1 - j;
        let tr = flipped / th;
        let sy = flipped % th;
        proof {
            lemma_div_below(flipped as int, th as int, rows as int);
            lemma_mod_bound(flipped as int, th as int);
        }
        let mut i: usize = 0;
        while i < width
            invariant
                i <= width,
                j < height,
                th >= 1,
                flipped == height - 1 - j,
                tr == flipped as int / th as int,
                sy == flipped as int % th as int,
                tr < rows,
                sy < th,
                px@.len() == 4 * ((j as int) * (width as int) + i as int),
                forall|jj: int, ii: int, cc: int|
                    0 <= jj < j && 0 <= ii < width && 0 <= cc < 4 ==> #[trigger] px@[4 * (jj * (
                    width as int) + ii) + cc] == composed_chan(
                        tiles@,
                        columns as int,
                        rows as int,
                        ii,
                        jj,
                        cc,
                    ),
                forall|ii: int, cc: int|
                    0 <= ii < i && 0 <= cc < 4 ==> #[trigger] px@[4 * ((j as int) * (width as int)
                        + ii) + cc] == composed_chan(
                        tiles@,
                        columns as int,
                        rows as int,
                        ii,
                        j as int,
                        cc,
                    ),
            decreases width - i,
        {
            proof {
                assert(tw >= 1) by (nonlinear_arith)
                    requires
                        width == tw * columns,
                        0 <= i < width,
                        tw >= 0,
                ;
            }
            let tc = i / tw;
            let sx = i % tw;
            proof {
                lemma_div_below(i as int, tw as int, columns as int);
                lemma_mod_bound(i as int, tw as int);
                lemma_grid_index(tr as int, tc as int, rows as int, columns as int);
                lemma_mul_is_commutative(rows as int, columns as int);
            }
            let ti = tr * columns + tc;
            let tile = &tiles[ti];
            let mut c: usize = 0;
            while c < 4
                invariant
                    c <= 4,
                    i < width,
                    j < height,
                    tw >= 1,
                    th >= 1,
                    tile == tiles@[ti as int],
                    0 <= ti < tiles@.len(),
                    ti == tr as int * columns + tc,
                    tc == i as int / tw as int,
                    sx == i as int % tw as int,
                    flipped == height - 1 - j,
                    tr == flipped as int / th as int,
                    sy == flipped as int % th as int,
                    sx < tw,
                    sy < th,
                    px@.len() == 4 * ((j as int) * (width as int) + i as int) + c,
                    forall|jj: int, ii: int, cc: int|
                        0 <= jj < j && 0 <= ii < width && 0 <= cc < 4 ==> #[trigger] px@[4 * (jj * (
                        width as int) + ii) + cc] == composed_chan(
                            tiles@,
                            columns as int,
                            rows as int,
                            ii,
                            jj,
                            cc,
                        ),
                    forall|ii: int, cc: int|
                        0 <= ii < i && 0 <= cc < 4 ==> #[trigger] px@[4 * ((j as int) * (
                        width as int) + ii) + cc] == composed_chan(
                            tiles@,
                            columns as int,
                            rows as int,
                            ii,
                            j as int,
                            cc,
                        ),
                    forall|cc: int|
                        0 <= cc < c ==> #[trigger] px@[4 * ((j as int) * (width as int)
                            + i as int) + cc] == composed_chan(
                            tiles@,
                            columns as int,
                            rows as int,
                            i as int,
                            j as int,
                            cc,
                        ),
                decreases 4 - c,
            {
                let v = tile.get_chan(sx, sy, c);
                let ghost pre = px@;
                proof {
                    assert(composed_chan(
                        tiles@,
                        columns as int,
                        rows as int,
                        i as int,
                        j as int,
                        c as int,
                    ) == tiles@[ti as int].chan(sx as int, sy as int, c as int));
                }
                px.push(v);
                proof {
                    let w = width as int;
                    let ji = j as int;
                    let ie = i as int;
                    let ce = c as int;
                    assert(px@ == pre.push(v));
                    assert forall|jj: int, ii: int, cc: int|
                        0 <= jj < ji && 0 <= ii < width && 0 <= cc < 4 implies #[trigger] px@[4 * (
                    jj * w + ii) + cc] == composed_chan(
                        tiles@,
                        columns as int,
                        rows as int,
                        ii,
                        jj,
                        cc,
                    ) by {
                        lemma_sample_index_lt(jj, ii, cc, ji, ie, ce, w);
                        assert(px@[4 * (jj * w + ii) + cc] == pre[4 * (jj * w + ii) + cc]);
                    }
                    assert forall|ii: int, cc: int|
                        0 <= ii < ie && 0 <= cc < 4 implies #[trigger] px@[4 * (ji * w + ii) + cc]
                        == composed_chan(tiles@, columns as int, rows as int, ii, ji, cc) by {
                        lemma_sample_index_lt(ji, ii, cc, ji, ie, ce, w);
                        assert(px@[4 * (ji * w + ii) + cc] == pre[4 * (ji * w + ii) + cc]);
                    }
                    assert forall|cc: int| 0 <= cc < ce + 1 implies #[trigger] px@[4 * (ji * w + ie)
                        + cc] == composed_chan(tiles@, columns as int, rows as int, ie, ji, cc) by {
                        if cc < ce {
                            lemma_sample_index_lt(ji, ie, cc, ji, ie, ce, w);
                            assert(px@[4 * (ji * w + ie) + cc] == pre[4 * (ji * w + ie) + cc]);
                        } else {
                            assert(px@[4 * (ji * w + ie) + cc] == v);
                        }
                    }
                }
                c = c + 1;
            }
            i = i + 1;
        }
        proof {
            assert(((j + 1) as int) * (width as int) == (j as int) * (width as int) + (
            width as int)) by (nonlinear_arith);
        }
        j = j + 1;
    }
    proof {
        lemma_mul_is_commutative(height as int, width as int);
    }
    let out = Raster { width, height, pixels: px };
    proof {
        assert forall|i: int, jq: int, c: int|
            0 <= i < out.width && 0 <= jq < out.height && 0 <= c < 4 implies #[trigger] out.chan(
            i,
            jq,
            c,
        ) == composed_chan(tiles@, columns as int, rows as int, i, jq, c) by {
            assert(out.chan(i, jq, c) == px@[4 * (jq * (width as int) + i) + c]);
        }
    }
    Ok(out)
}

/// A name that carries the `_v` view marker: only these take part in
/// layouts; others are invalid and reported, never composited.
pub open spec fn matched_pred() -> spec_fn(Vec<u8>) -> bool {
    |name: Vec<u8>| first_marker(name@) is Some
}

/// The composer's plan: the matched names of the consolidated folder in
/// lexicographic order, grouped into successive `columns * rows` layouts,
/// each filled row 0 first, left to right.
pub struct QuiltPlan {
    pub columns: usize,
    pub rows: usize,
    pub names: Vec<Vec<u8>>,
}

impl QuiltPlan {
    pub open spec fn wf(self) -> bool {
        &&& 1 <= self.columns
        &&& 1 <= self.rows
        &&& self.columns * self.rows <= usize::MAX
    }

    /// Files consumed by each complete quilt.
    pub open spec fn spec_size(self) -> int {
        self.columns * self.rows
    }

    /// Number of complete quilts; remainder files yield no partial quilt.
    pub open spec fn spec_count(self) -> int {
        self.names@.len() as int / self.spec_size()
    }

    /// The name filling layout row `row`, column `col` of quilt `q`.
    pub open spec fn spec_tile_name(self, q: int, row: int, col: int) -> Seq<u8> {
        self.names@[q * self.spec_size() + row * self.columns + col]@
    }

    pub fn quilt_size(&self) -> (r: usize)
        requires
            self.wf(),
        ensures
            r == self.spec_size(),
    {
        self.columns * self.rows
    }

    /// How many quilts this plan produces: `floor(matched / (columns * rows))`.
    pub fn quilt_count(&self) -> (r: usize)
        requires
            self.wf(),
        ensures
            r == self.spec_count(),
    {
        proof {
            assert(self.spec_size() >= 1) by (nonlinear_arith)
                requires
                    self.columns >= 1,
                    self.rows >= 1,
            ;
        }
        self.names.len() / (self.columns * self.rows)
    }

    /// The name of the tile at layout row `row`, column `col` of quilt `q`.
    pub fn tile_name(&self, q: usize, row: usize, col: usize) -> (r: &Vec<u8>)
        requires
            self.wf(),
            q < self.spec_count(),
            row < self.rows,
            col < self.columns,
        ensures
            r == self.names@[q * self.spec_size() + row * self.columns + col],
            r@ == self.spec_tile_name(q as int, row as int, col as int),
    {
        let size = self.columns * self.rows;
        proof {
            assert(self.spec_size() >= 1) by (nonlinear_arith)
                requires
                    self.columns >= 1,
                    self.rows >= 1,
            ;
            lemma_grid_index(row as int, col as int, self.rows as int, self.columns as int);
            lemma_mul_is_commutative(self.rows as int, self.columns as int);
            lemma_grid_index(
                q as int,
                (row as int) * (self.columns as int) + col,
                self.spec_count(),
                self.spec_size(),
            );
            lemma_fundamental_div_mod(self.names@.len() as int, self.spec_size());
            lemma_mod_bound(self.names@.len() as int, self.spec_size());
            lemma_mul_is_commutative(self.spec_size(), self.spec_count());
            assert((row as int) * (self.columns as int) + (col as int) < self.spec_size());
            assert((q as int) * self.spec_size() + ((row as int) * (self.columns as int) + (
            col as int)) < self.names@.len());
        }
        let t_in = row * self.columns + col;
        proof {
            assert((q as int) * (size as int) == (q as int) * self.spec_size())
                by (nonlinear_arith)
                requires
                    size as int == self.spec_size(),
            ;
        }
        let n = self.names.len();
        proof {
            assert((q as int) * (size as int) + (t_in as int) < n);
        }
        let idx = q * size + t_in;
        &self.names[idx]
    }
}

/// Build the composer's plan from a folder listing: keep exactly the names
/// that carry the `_v` marker, in lexicographic order.
#[verifier::loop_isolation(false)]
pub fn plan_quilts(names: Vec<Vec<u8>>, columns: usize, rows: usize) -> (r: QuiltPlan)
    requires
        1 <= columns,
        1 <= rows,
        columns * rows <= usize::MAX,
    ensures
        r.columns == columns,
        r.rows == rows,
        r.wf(),
        lex_sorted(names_view(r.names@)),
        names_view(r.names@).to_multiset() == names_view(names@.filter(matched_pred())).to_multiset(),
        r.names@.len() == names@.filter(matched_pred()).len(),
        forall|k: int| 0 <= k < r.names@.len() ==> first_marker(#[trigger] r.names@[k]@) is Some,
{
    broadcast use vstd::seq_lib::group_to_multiset_ensures;

    let ghost all = names@;
    let ghost pred = matched_pred();
    let mut rest = names;
    let mut kept: Vec<Vec<u8>> = Vec::new();
    proof {
        assert(all.skip(0) =~= all);
        assert(all.take(0).filter(pred) =~= Seq::<Vec<u8>>::empty());
    }
    while rest.len() > 0
        invariant
            rest@.len() <= all.len(),
            rest@ == all.skip(all.len() - rest@.len()),
            kept@ == all.take(all.len() - rest@.len()).filter(pred),
        decreases rest@.len(),
    {
        let ghost j = all.len() - rest@.len();
        let name = rest.remove(0);
        proof {
            assert(all.skip(j).remove(0) =~= all.skip(j + 1));
            assert(name == all[j]);
            lemma_filter_take_step(all, pred, j);
        }
        if crate::parse::has_view_marker(name.as_slice()) {
            kept.push(name);
        }
    }
    proof {
        lemma_take_all(all);
    }
    let sorted = sort_names(kept);
    proof {
        let matched = all.filter(pred);
        assert forall|k: int| 0 <= k < sorted@.len() implies first_marker(
            #[trigger] sorted@[k]@,
        ) is Some by {
            let vs = names_view(sorted@);
            assert(vs[k] == sorted@[k]@);
            assert(vs.contains(vs[k]));
            assert(vs.to_multiset().count(vs[k]) > 0);
            assert(names_view(matched).to_multiset().count(vs[k]) > 0);
            assert(names_view(matched).contains(vs[k]));
            let w = choose|w: int| 0 <= w < names_view(matched).len() && names_view(matched)[w]
                == vs[k];
            assert(names_view(matched)[w] == matched[w]@);
            assert(pred(matched[w])) by {
                Seq::lemma_filter_pred(all, pred, w);
            }
        }
    }
    QuiltPlan { columns, rows, names: sorted }
}

/// Append the decimal rendering of `n` to `out`.
fn push_decimal(n: usize, out: &mut Vec<u8>)
    ensures
        final(out)@ == old(out)@ + crate::parse::dec_digits(n as nat),
    decreases n,
{
    proof {
        crate::parse::lemma_dec_digits(n as nat);
    }
    if n < 10 {
        out.push((n as u8) + 48);
        proof {
            assert(final(out)@ =~= old(out)@ + crate::parse::dec_digits(n as nat));
        }
    } else {
        push_decimal(n / 10, out);
        out.push(((n % 10) as u8) + 48);
        proof {
            assert(final(out)@ =~= old(out)@ + crate::parse::dec_digits(n as nat));
        }
    }
}

/// The output file name of quilt `q`: its decimal index, then `.png`, the
/// sequential naming convention the animation encoder consumes.
pub fn quilt_file_name(q: usize) -> (r: Vec<u8>)
    ensures
        r@ == crate::parse::dec_digits(q as nat) + seq![46u8, 112u8, 110u8, 103u8],
{
    let mut out: Vec<u8> = Vec::new();
    push_decimal(q, &mut out);
    out.push(46);
    out.push(112);
    out.push(110);
    out.push(103);
    proof {
        assert(out@ =~= crate::parse::dec_digits(q as nat) + seq![46u8, 112u8, 110u8, 103u8]);
    }
    out
}

/// Quilt `q` of a job with `matched` files and `size` files per quilt reads
/// only name indices below `(matched / size) * size`, itself at most
/// `matched`: remainder files are never referenced by any produced quilt.
pub proof fn lemma_remainder_never_referenced(matched: int, size: int, q: int, t: int)
    requires
        size >= 1,
        matched >= 0,
        0 <= q < matched / size,
        0 <= t < size,
    ensures
        0 <= q * size + t < (matched / size) * size <= matched,
{
    lemma_grid_index(q, t, matched / size, size);
    lemma_fundamental_div_mod(matched, size);
    lemma_mod_bound(matched, size);
    lemma_mul_is_commutative(size, matched / size);
}

/// The quilt composed of a layout places the pixel `(x, y)` of the tile at
/// layout row `r0`, column `c0` at output column `c0 * tw + x` and output
/// row `height - 1 - (r0 * th + y)`: the layout is vertically flipped as a
/// whole, so layout row 0 lands at the bottom of the quilt.
pub proof fn lemma_tile_placement(
    tiles: Seq<Raster>,
    columns: int,
    rows: int,
    r0: int,
    c0: int,
    x: int,
    y: int,
    c: int,
)
    requires
        columns >= 1,
        rows >= 1,
        tiles.len() == columns * rows,
        tiles[0].width >= 1,
        tiles[0].height >= 1,
        0 <= r0 < rows,
        0 <= c0 < columns,
        0 <= x < tiles[0].width,
        0 <= y < tiles[0].height,
        0 <= c < 4,
    ensures
        ({
            let tw = tiles[0].width as int;
            let th = tiles[0].height as int;
            let height = th * rows;
            composed_chan(tiles, columns, rows, c0 * tw + x, height - 1 - (r0 * th + y), c)
                == tiles[r0 * columns + c0].chan(x, y, c)
        }),
{
    let tw = tiles[0].width as int;
    let th = tiles[0].height as int;
    let height = th * rows;
    let i = c0 * tw + x;
    let j = height - 1 - (r0 * th + y);
    assert(r0 * th + y < height) by (nonlinear_arith)
        requires
            0 <= r0 < rows,
            0 <= y < th,
            height == th * rows,
    ;
    assert(height - 1 - j == r0 * th + y);
    lemma_mul_is_commutative(r0, th);
    lemma_fundamental_div_mod_converse_div(r0 * th + y, th, r0, y);
    lemma_fundamental_div_mod_converse_mod(r0 * th + y, th, r0, y);
    lemma_mul_is_commutative(c0, tw);
    lemma_fundamental_div_mod_converse_div(c0 * tw + x, tw, c0, x);
    lemma_fundamental_div_mod_converse_mod(c0 * tw + x, tw, c0, x);
    assert(src_tile(i, j, tw, th, columns, height) == r0 * columns + c0);
}

/// The first file of the first layout row lands at the bottom-left corner
/// of the quilt: output position `(0, height - 1)`.
pub proof fn lemma_quilt_bottom_left(tiles: Seq<Raster>, columns: int, rows: int, c: int)
    requires
        columns >= 1,
        rows >= 1,
        tiles.len() == columns * rows,
        tiles[0].width >= 1,
        tiles[0].height >= 1,
        0 <= c < 4,
    ensures
        composed_chan(tiles, columns, rows, 0, tiles[0].height * rows - 1, c) == tiles[0].chan(
            0,
            0,
            c,
        ),
{
    lemma_tile_placement(tiles, columns, rows, 0, 0, 0, 0, c);
    assert(0 * (tiles[0].width as int) + 0 == 0) by (nonlinear_arith);
    assert(0 * (tiles[0].height as int) + 0 == 0) by (nonlinear_arith);
    assert(0 * columns + 0 == 0) by (nonlinear_arith);
}

} // verus!
