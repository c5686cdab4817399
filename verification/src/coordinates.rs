//! Quadtree tile addresses: a tile, its four quadrants one zoom level down,
//! the pyramid of all its descendants down to a target zoom, and the URLs
//! under which a tile is asked for.

use vstd::prelude::*;
use crate::text::{decimal, decimal_text, replace_all, replace_text};

verus! {

/// The placeholder for a tile's column in a URL template.
pub open spec fn pattern_x() -> Seq<char> {
    seq!['{', 'x', '}']
}

/// The placeholder for a tile's row in a URL template.
pub open spec fn pattern_y() -> Seq<char> {
    seq!['{', 'y', '}']
}

/// The placeholder for a tile's zoom level in a URL template.
pub open spec fn pattern_z() -> Seq<char> {
    seq!['{', 'z', '}']
}

/// The placeholder for a bounding box in a URL template.
pub open spec fn pattern_bbox() -> Seq<char> {
    seq!['{', 'b', 'b', 'o', 'x', '}']
}

/// The placeholder for a spatial reference system in a URL template.
pub open spec fn pattern_srs() -> Seq<char> {
    seq!['{', 's', 'r', 's', '}']
}

/// The name of the Web Mercator reference system.
pub open spec fn web_mercator() -> Seq<char> {
    seq!['E', 'P', 'S', 'G', ':', '3', '8', '5', '7']
}

/// A Web Mercator ZXY tile.
#[derive(Clone, Copy, Debug, PartialEq, Eq, Structural)]
pub struct Tile {
    pub x: u32,
    pub y: u32,
    pub zoom: u32,
}

/// A tile address over the mathematical integers.
pub ghost struct TilePos {
    pub x: int,
    pub y: int,
    pub zoom: int,
}

impl View for Tile {
    type V = TilePos;

    open spec fn view(&self) -> TilePos {
        TilePos { x: self.x as int, y: self.y as int, zoom: self.zoom as int }
    }
}

/// The addresses of a sequence of tiles.
pub open spec fn positions(tiles: Seq<Tile>) -> Seq<TilePos> {
    Seq::new(tiles.len(), |i: int| tiles[i]@)
}

/// Two to the power `k`.
pub open spec fn pow2(k: nat) -> int
    decreases k,
{
    if k == 0 {
        1
    } else {
        2 * pow2((k - 1) as nat)
    }
}

/// Four to the power `k`.
pub open spec fn pow4(k: nat) -> int
    decreases k,
{
    if k == 0 {
        1
    } else {
        4 * pow4((k - 1) as nat)
    }
}

/// The sum of the powers of four from `4^0` up to `4^k`.
pub open spec fn pow4_sum(k: nat) -> int
    decreases k,
{
    if k == 0 {
        1
    } else {
        pow4_sum((k - 1) as nat) + pow4(k)
    }
}

/// The four quadrants of a tile at the next zoom level, in the order
/// upper left, upper right, lower right, lower left.
pub open spec fn quadrants(t: TilePos) -> Seq<TilePos> {
    seq![
        TilePos { x: 2 * t.x, y: 2 * t.y, zoom: t.zoom + 1 },
        TilePos { x: 2 * t.x + 1, y: 2 * t.y, zoom: t.zoom + 1 },
        TilePos { x: 2 * t.x + 1, y: 2 * t.y + 1, zoom: t.zoom + 1 },
        TilePos { x: 2 * t.x, y: 2 * t.y + 1, zoom: t.zoom + 1 },
    ]
}

/// The quadrants of the first `n` tiles of `level`, tile after tile.
pub open spec fn split_prefix(level: Seq<TilePos>, n: nat) -> Seq<TilePos>
    decreases n,
{
    if n == 0 {
        Seq::empty()
    } else {
        split_prefix(level, (n - 1) as nat) + quadrants(level[n - 1])
    }
}

/// All descendants of `t` exactly `k` zoom levels below it.
pub open spec fn level(t: TilePos, k: nat) -> Seq<TilePos>
    decreases k,
{
    if k == 0 {
        seq![t]
    } else {
        split_prefix(level(t, (k - 1) as nat), level(t, (k - 1) as nat).len())
    }
}

/// `t` followed by its descendants, level by level, down to `k` levels below it.
pub open spec fn pyramid(t: TilePos, k: nat) -> Seq<TilePos>
    decreases k,
{
    if k == 0 {
        seq![t]
    } else {
        pyramid(t, (k - 1) as nat) + level(t, k)
    }
}

/// How many zoom levels lie between `t` and `target_zoom`; zero when the
/// target is not below the tile.
pub open spec fn depth(t: TilePos, target_zoom: int) -> nat {
    if target_zoom > t.zoom {
        (target_zoom - t.zoom) as nat
    } else {
        0
    }
}

/// The pyramid below `t` down to `target_zoom`, deepest tiles first and `t` last.
pub open spec fn children_of(t: TilePos, target_zoom: int) -> Seq<TilePos> {
    pyramid(t, depth(t, target_zoom)).reverse()
}

/// The tiles of `v` in the opposite order.
fn reversed(v: &Vec<Tile>) -> (r: Vec<Tile>)
    ensures
        r@ == v@.reverse(),
{
    let n: usize = v.len();
    let mut r: Vec<Tile> = Vec::new();
    let mut i: usize = 0;
    while i < n
        invariant
            n == v@.len(),
            i <= n,
            r@.len() == i,
            forall|j: int| 0 <= j < i ==> r@[j] == v@[n - 1 - j],
        decreases n - i,
    {
        r.push(v[n - 1 - i]);
        i += 1;
    }
    assert(r@ =~= v@.reverse());
    r
}

impl Tile {
    /// A tile holds a valid address when both indices lie inside the
    /// `2^zoom` by `2^zoom` grid of its zoom level.
    pub open spec fn well_formed(&self) -> bool {
        in_grid(self@)
    }

    /// The tile in column `x` and row `y` of zoom level `z`.
    pub fn from_zxy(z: u32, x: u32, y: u32) -> (t: Tile)
        ensures
            t == (Tile { x, y, zoom: z }),
    {
        Tile { x, y, zoom: z }
    }

    /// The URL of this tile: `template` with `{x}`, `{y}` and `{z}` replaced,
    /// in this order, by the tile's column, row and zoom level.
    pub fn url_zyx(&self, template: String) -> (url: String)
        ensures
            url@ == replace_all(
                replace_all(
                    replace_all(template@, pattern_x(), decimal(self.x as nat)),
                    pattern_y(),
                    decimal(self.y as nat),
                ),
                pattern_z(),
                decimal(self.zoom as nat),
            ),
    {
        proof {
            reveal_strlit("{x}");
            reveal_strlit("{y}");
            reveal_strlit("{z}");
            assert("{x}"@ =~= pattern_x());
            assert("{y}"@ =~= pattern_y());
            assert("{z}"@ =~= pattern_z());
        }
        let x = decimal_text(self.x as u64);
        let y = decimal_text(self.y as u64);
        let z = decimal_text(self.zoom as u64);
        let url = replace_text(template.as_str(), "{x}", x.as_str());
        let url = replace_text(url.as_str(), "{y}", y.as_str());
        replace_text(url.as_str(), "{z}", z.as_str())
    }

    /// The URL of a map request for this tile: `template` with `{bbox}`
    /// replaced by `bbox`, the tile's bounds written out by the caller, and
    /// then `{srs}` by `EPSG:3857`.
    pub fn url_wms(&self, template: String, bbox: &str) -> (url: String)
        ensures
            url@ == replace_all(
                replace_all(template@, pattern_bbox(), bbox@),
                pattern_srs(),
                web_mercator(),
            ),
    {
        proof {
            reveal_strlit("{bbox}");
            reveal_strlit("{srs}");
            reveal_strlit("EPSG:3857");
            assert("{bbox}"@ =~= pattern_bbox());
            assert("{srs}"@ =~= pattern_srs());
            assert("EPSG:3857"@ =~= web_mercator());
        }
        let url = replace_text(template.as_str(), "{bbox}", bbox);
        replace_text(url.as_str(), "{srs}", "EPSG:3857")
    }

    /// Whether the deepest descendants of the tile at `target_zoom` have
    /// indices that fit in `u32`, which is what `children` asks for.
    pub open spec fn descends_to(&self, target_zoom: u32) -> bool {
        &&& (self.x + 1) * pow2(depth(self@, target_zoom as int)) <= 0x1_0000_0000
        &&& (self.y + 1) * pow2(depth(self@, target_zoom as int)) <= 0x1_0000_0000
    }

    /// Tests whether `children` can be called with `target_zoom`.
    pub fn can_descend(&self, target_zoom: u32) -> (ok: bool)
        ensures
            ok == self.descends_to(target_zoom),
    {
        let d: u32 = if target_zoom > self.zoom {
            target_zoom - self.zoom
        } else {
            0
        };
        proof {
            assert(pow2(32) == 0x1_0000_0000) by {
                reveal_with_fuel(pow2, 33);
            }
        }
        if d > 32 {
            proof {
                lemma_pow2_adds(33, (d - 33) as nat);
                lemma_pow2_positive((d - 33) as nat);
                assert(pow2(33) == 2 * pow2(32));
                let p: int = pow2(d as nat);
                let q: int = pow2((d - 33) as nat);
                assert(p >= 0x2_0000_0000) by (nonlinear_arith)
                    requires
                        p == 0x2_0000_0000 * q,
                        q >= 1,
                ;
                assert((self.x + 1) * p >= p) by (nonlinear_arith)
                    requires
                        self.x >= 0,
                        p >= 0,
                ;
            }
            return false;
        }
        let mut room: u64 = 1;
        let mut i: u32 = 0;
        while i < 32 - d
            invariant
                d <= 32,
                i <= 32 - d,
                room == pow2(i as nat),
                room <= 0x1_0000_0000,
                pow2(32) == 0x1_0000_0000,
            decreases 32 - d - i,
        {
            proof {
                lemma_pow2_adds((i + 1) as nat, (32 - (i + 1)) as nat);
                lemma_pow2_positive((32 - (i + 1)) as nat);
                let a: int = pow2((i + 1) as nat);
                let b: int = pow2((32 - (i + 1)) as nat);
                assert(a <= a * b) by (nonlinear_arith)
                    requires
                        a >= 0,
                        b >= 1,
                ;
            }
            room = room * 2;
            i += 1;
        }
        proof {
            lemma_pow2_adds(d as nat, (32 - d) as nat);
            lemma_pow2_positive(d as nat);
            let p: int = pow2(d as nat);
            let q: int = room as int;
            let nx: int = self.x + 1;
            let ny: int = self.y + 1;
            assert(nx <= q <==> nx * p <= p * q) by (nonlinear_arith)
                requires
                    p >= 1,
            ;
            assert(ny <= q <==> ny * p <= p * q) by (nonlinear_arith)
                requires
                    p >= 1,
            ;
        }
        self.x as u64 + 1 <= room && self.y as u64 + 1 <= room
    }

    /// All children of the tile down to `target_zoom`, deepest first, so that
    /// walking the result gradually zooms out; the last element is the tile
    /// itself. The deepest descendants must have indices that fit in `u32`.
    pub fn children(&self, target_zoom: u32) -> (res: Vec<Tile>)
        requires
            self.descends_to(target_zoom),
        ensures
            positions(res@) == children_of(self@, target_zoom as int),
            res@.len() == pow4_sum(depth(self@, target_zoom as int)),
            res@.last() == *self,
            forall|j: int|
                0 <= j < pow4(depth(self@, target_zoom as int)) ==> (#[trigger] res@[j]).zoom
                    == self.zoom + depth(self@, target_zoom as int),
            target_zoom >= self.zoom ==> res@[0].zoom == target_zoom,
    {
        let ghost d: nat = depth(self@, target_zoom as int);
        let mut tiles: Vec<Tile> = Vec::new();
        tiles.push(Tile { x: self.x, y: self.y, zoom: self.zoom });
        let mut start: usize = 0;
        let mut z: u32 = self.zoom;
        proof {
            assert(positions(tiles@) =~= pyramid(self@, 0));
            assert(positions(tiles@).subrange(0, 1) =~= level(self@, 0));
        }
        while z < target_zoom
            invariant
                d == depth(self@, target_zoom as int),
                self.zoom <= z,
                z <= target_zoom || z == self.zoom,
                start < tiles@.len(),
                tiles@[0] == *self,
                positions(tiles@) == pyramid(self@, (z - self.zoom) as nat),
                positions(tiles@).subrange(start as int, tiles@.len() as int) == level(
                    self@,
                    (z - self.zoom) as nat,
                ),
                tiles@.len() == pow4_sum((z - self.zoom) as nat),
                tiles@.len() - start == pow4((z - self.zoom) as nat),
                forall|j: int|
                    start <= j < tiles@.len() ==> {
                        &&& (#[trigger] tiles@[j]).zoom == z
                        &&& (tiles@[j].x + 1) * pow2((d - (z - self.zoom)) as nat) <= 0x1_0000_0000
                        &&& (tiles@[j].y + 1) * pow2((d - (z - self.zoom)) as nat) <= 0x1_0000_0000
                    },
            decreases target_zoom - z,
        {
            let end: usize = tiles.len();
            let ghost k: nat = (z - self.zoom) as nat;
            let ghost rem: nat = (d - k) as nat;
            let ghost before: Seq<Tile> = tiles@;
            let mut i: usize = start;
            proof {
                assert(rem >= 1);
                assert(pow2(rem) == 2 * pow2((rem - 1) as nat));
                assert(positions(tiles@).subrange(end as int, tiles@.len() as int) =~= split_prefix(
                    level(self@, k),
                    0,
                ));
            }
            while i < end
                invariant
                    start <= i <= end,
                    end == before.len(),
                    end <= tiles@.len(),
                    z < target_zoom,
                    rem >= 1,
                    pow2(rem) == 2 * pow2((rem - 1) as nat),
                    tiles@.subrange(0, end as int) == before,
                    positions(before).subrange(start as int, end as int) == level(self@, k),
                    tiles@.len() == end + 4 * (i - start),
                    positions(tiles@).subrange(end as int, tiles@.len() as int) == split_prefix(
                        level(self@, k),
                        (i - start) as nat,
                    ),
                    forall|j: int|
                        start <= j < end ==> {
                            &&& (#[trigger] before[j]).zoom == z
                            &&& (before[j].x + 1) * pow2(rem) <= 0x1_0000_0000
                            &&& (before[j].y + 1) * pow2(rem) <= 0x1_0000_0000
                        },
                    forall|j: int|
                        end <= j < tiles@.len() ==> {
                            &&& (#[trigger] tiles@[j]).zoom == z + 1
                            &&& (tiles@[j].x + 1) * pow2((rem - 1) as nat) <= 0x1_0000_0000
                            &&& (tiles@[j].y + 1) * pow2((rem - 1) as nat) <= 0x1_0000_0000
                        },
                decreases end - i,
            {
                let t: Tile = tiles[i];
                let ghost mid: Seq<Tile> = tiles@;
                proof {
                    assert(t == before[i as int]);
                    assert(t@ == level(self@, k)[i - start]) by {
                        assert(positions(before).subrange(start as int, end as int)[i - start]
                            == positions(before)[i as int]);
                    }
                    let p: int = pow2((rem - 1) as nat);
                    assert(p >= 1) by {
                        lemma_pow2_positive((rem - 1) as nat);
                    }
                    assert((t.x + 1) * (2 * p) == (2 * t.x + 2) * p) by (nonlinear_arith);
                    assert((t.y + 1) * (2 * p) == (2 * t.y + 2) * p) by (nonlinear_arith);
                    assert((2 * t.x + 1) * p <= (2 * t.x + 2) * p) by (nonlinear_arith)
                        requires
                            p >= 1,
                    ;
                    assert((2 * t.y + 1) * p <= (2 * t.y + 2) * p) by (nonlinear_arith)
                        requires
                            p >= 1,
                    ;
                    assert(2 * t.x + 2 <= (2 * t.x + 2) * p) by (nonlinear_arith)
                        requires
                            p >= 1,
                    ;
                    assert(2 * t.y + 2 <= (2 * t.y + 2) * p) by (nonlinear_arith)
                        requires
                            p >= 1,
                    ;
                }
                tiles.push(Tile { x: t.x * 2, y: t.y * 2, zoom: z + 1 });
                tiles.push(Tile { x: t.x * 2 + 1, y: t.y * 2, zoom: z + 1 });
                tiles.push(Tile { x: t.x * 2 + 1, y: t.y * 2 + 1, zoom: z + 1 });
                tiles.push(Tile { x: t.x * 2, y: t.y * 2 + 1, zoom: z + 1 });
                proof {
                    assert(tiles@.subrange(0, end as int) =~= before);
                    assert(positions(tiles@).subrange(end as int, tiles@.len() as int)
                        =~= positions(mid).subrange(end as int, mid.len() as int) + quadrants(t@));
                }
                i += 1;
            }
            proof {
                assert(level(self@, k).len() == end - start);
                assert(positions(tiles@).subrange(end as int, tiles@.len() as int) == level(
                    self@,
                    k + 1,
                ));
                assert(positions(tiles@) =~= positions(before) + level(self@, k + 1));
                assert(pow4(k + 1) == 4 * pow4(k));
            }
            start = end;
            z += 1;
        }
        let res = reversed(&tiles);
        proof {
            assert((z - self.zoom) as nat == d);
            assert(positions(res@) =~= positions(tiles@).reverse());
        }
        res
    }
}

/// Every power of two is at least one.
pub proof fn lemma_pow2_positive(k: nat)
    ensures
        pow2(k) >= 1,
    decreases k,
{
    if k > 0 {
        lemma_pow2_positive((k - 1) as nat);
    }
}

/// Powers of two multiply as their exponents add.
pub proof fn lemma_pow2_adds(a: nat, b: nat)
    ensures
        pow2(a + b) == pow2(a) * pow2(b),
    decreases a,
{
    if a > 0 {
        lemma_pow2_adds((a - 1) as nat, b);
        assert(pow2(a + b) == 2 * pow2((a - 1 + b) as nat));
        assert(2 * (pow2((a - 1) as nat) * pow2(b)) == (2 * pow2((a - 1) as nat)) * pow2(b))
            by (nonlinear_arith);
    } else {
        assert(pow2(a) * pow2(b) == pow2(b)) by (nonlinear_arith)
            requires
                pow2(a) == 1,
        ;
    }
}

/// A tile with a valid address has all its descendants down to zoom 32
/// within reach: their indices fit in `u32`.
pub proof fn law_valid_tile_descends(t: Tile, target_zoom: u32)
    requires
        t.well_formed(),
        target_zoom <= 32,
    ensures
        t.descends_to(target_zoom),
{
    let d = depth(t@, target_zoom as int);
    let p: int = pow2(d);
    let q: int = pow2(t.zoom as nat);
    lemma_pow2_positive(d);
    assert(pow2(32) == 0x1_0000_0000) by {
        reveal_with_fuel(pow2, 33);
    }
    if d > 0 {
        lemma_pow2_adds(t.zoom as nat, d);
        lemma_pow2_adds(target_zoom as nat, (32 - target_zoom) as nat);
        lemma_pow2_positive((32 - target_zoom) as nat);
        let r: int = pow2((32 - target_zoom) as nat);
        assert(q * p <= (q * p) * r) by (nonlinear_arith)
            requires
                q * p >= 0,
                r >= 1,
        ;
        assert((t.x + 1) * p <= q * p) by (nonlinear_arith)
            requires
                t.x + 1 <= q,
                p >= 0,
        ;
        assert((t.y + 1) * p <= q * p) by (nonlinear_arith)
            requires
                t.y + 1 <= q,
                p >= 0,
        ;
    }
}

/// Splitting `n` tiles of one zoom level gives four times as many tiles,
/// all one level deeper.
pub proof fn lemma_split_prefix(tiles: Seq<TilePos>, n: nat, zoom: int)
    requires
        n <= tiles.len(),
        forall|i: int| 0 <= i < tiles.len() ==> (#[trigger] tiles[i]).zoom == zoom,
    ensures
        split_prefix(tiles, n).len() == 4 * n,
        forall|i: int| 0 <= i < 4 * n ==> (#[trigger] split_prefix(tiles, n)[i]).zoom == zoom + 1,
    decreases n,
{
    if n > 0 {
        lemma_split_prefix(tiles, (n - 1) as nat, zoom);
        assert(quadrants(tiles[n - 1]).len() == 4);
        assert(tiles[n - 1].zoom == zoom);
    }
}

/// The level `k` below a tile holds `4^k` tiles, all `k` zoom levels deeper.
pub proof fn lemma_level(t: TilePos, k: nat)
    ensures
        level(t, k).len() == pow4(k),
        pow4(k) >= 1,
        forall|i: int| 0 <= i < pow4(k) ==> (#[trigger] level(t, k)[i]).zoom == t.zoom + k,
    decreases k,
{
    if k > 0 {
        lemma_level(t, (k - 1) as nat);
        lemma_split_prefix(
            level(t, (k - 1) as nat),
            level(t, (k - 1) as nat).len(),
            t.zoom + k - 1,
        );
    }
}

/// The pyramid of depth `k` starts with the tile, ends with the last tile
/// of level `k`, and holds `4^0 + ... + 4^k` tiles.
pub proof fn lemma_pyramid(t: TilePos, k: nat)
    ensures
        pyramid(t, k).len() == pow4_sum(k),
        pyramid(t, k).len() >= 1,
        pyramid(t, k)[0] == t,
        pyramid(t, k).last() == level(t, k).last(),
    decreases k,
{
    lemma_level(t, k);
    if k > 0 {
        lemma_pyramid(t, (k - 1) as nat);
    }
}

/// The children of a tile down to a target zoom are as many as the powers
/// of four from `4^0` up to `4^depth` add up to; the last of them is the
/// tile itself; and where the target is not above the tile, the first of
/// them lies at the target zoom.
pub proof fn law_children_shape(t: TilePos, target_zoom: int)
    ensures
        children_of(t, target_zoom).len() == pow4_sum(depth(t, target_zoom)),
        children_of(t, target_zoom).last() == t,
        target_zoom >= t.zoom ==> children_of(t, target_zoom)[0].zoom == target_zoom,
{
    let d = depth(t, target_zoom);
    lemma_pyramid(t, d);
    lemma_level(t, d);
    assert(level(t, d).last() == level(t, d)[pow4(d) - 1]);
}

/// A tile address lies in the grid of its zoom level.
pub open spec fn in_grid(p: TilePos) -> bool {
    &&& p.zoom >= 0
    &&& 0 <= p.x < pow2(p.zoom as nat)
    &&& 0 <= p.y < pow2(p.zoom as nat)
}

/// Splitting tiles that lie in their grid gives tiles that lie in theirs.
pub proof fn lemma_split_prefix_in_grid(tiles: Seq<TilePos>, n: nat)
    requires
        n <= tiles.len(),
        forall|i: int| 0 <= i < tiles.len() ==> in_grid(#[trigger] tiles[i]),
    ensures
        forall|i: int|
            0 <= i < split_prefix(tiles, n).len() ==> in_grid(#[trigger] split_prefix(tiles, n)[i]),
    decreases n,
{
    if n > 0 {
        lemma_split_prefix_in_grid(tiles, (n - 1) as nat);
        let p = tiles[n - 1];
        assert(in_grid(p));
        assert(pow2((p.zoom + 1) as nat) == 2 * pow2(p.zoom as nat));
        let q = quadrants(p);
        assert(in_grid(q[0]) && in_grid(q[1]) && in_grid(q[2]) && in_grid(q[3]));
        let before = split_prefix(tiles, (n - 1) as nat);
        assert forall|i: int| 0 <= i < split_prefix(tiles, n).len() implies in_grid(
            #[trigger] split_prefix(tiles, n)[i],
        ) by {
            if i < before.len() {
                assert(split_prefix(tiles, n)[i] == before[i]);
            } else {
                assert(split_prefix(tiles, n)[i] == q[i - before.len()]);
            }
        }
    }
}

/// Every descendant of a tile that lies in its grid lies in its own.
pub proof fn lemma_level_in_grid(t: TilePos, k: nat)
    requires
        in_grid(t),
    ensures
        forall|i: int| 0 <= i < level(t, k).len() ==> in_grid(#[trigger] level(t, k)[i]),
    decreases k,
{
    if k > 0 {
        lemma_level_in_grid(t, (k - 1) as nat);
        lemma_split_prefix_in_grid(level(t, (k - 1) as nat), level(t, (k - 1) as nat).len());
    }
}

/// The children of a tile with a valid address all have valid addresses.
pub proof fn law_children_in_grid(t: TilePos, target_zoom: int)
    requires
        in_grid(t),
    ensures
        forall|i: int|
            0 <= i < children_of(t, target_zoom).len() ==> in_grid(
                #[trigger] children_of(t, target_zoom)[i],
            ),
{
    lemma_pyramid_in_grid(t, depth(t, target_zoom));
}

/// Every tile of the pyramid below a tile that lies in its grid lies in its own.
pub proof fn lemma_pyramid_in_grid(t: TilePos, k: nat)
    requires
        in_grid(t),
    ensures
        forall|i: int| 0 <= i < pyramid(t, k).len() ==> in_grid(#[trigger] pyramid(t, k)[i]),
    decreases k,
{
    lemma_level_in_grid(t, k);
    if k > 0 {
        lemma_pyramid_in_grid(t, (k - 1) as nat);
        let above = pyramid(t, (k - 1) as nat);
        assert forall|i: int| 0 <= i < pyramid(t, k).len() implies in_grid(
            #[trigger] pyramid(t, k)[i],
        ) by {
            if i < above.len() {
                assert(pyramid(t, k)[i] == above[i]);
            } else {
                assert(pyramid(t, k)[i] == level(t, k)[i - above.len()]);
            }
        }
    }
}

} // verus!
