//! Door linkage: an arena of door records that refer to each other by index,
//! and the mapping of a coordinate on one door to a coordinate on its pair.
//!
//! A door covers the cells `[pos, pos + size)` of one line along its map's
//! boundary. A horizontal-boundary door lies on the top (near) or bottom (far)
//! row and spans along x; a vertical-boundary door lies on the left (near) or
//! right (far) column and spans along y. Coordinates along a door are whole
//! cells: entering at offset `off = entry - pos` (clamped onto the span) exits
//! at offset `off * sb / sa` of the destination, rounded to the nearest cell
//! and kept on the destination span (`sa`, `sb` the two sizes). Entering at
//! `pos` exits at the destination's `pos`.
use vstd::prelude::*;
use crate::registry::{Handle, Registry, TileMap};

verus! {

#[derive(Clone, Copy, Debug, PartialEq, Eq, Structural)]
pub enum Orientation {
    /// On the top or bottom row; the span runs along x.
    Horizontal,
    /// On the left or right column; the span runs along y.
    Vertical,
}

#[derive(Clone, Copy, Debug, PartialEq, Eq, Structural)]
pub enum Side {
    /// Top row or left column.
    Near,
    /// Bottom row or right column.
    Far,
}

/// Index of a door in a `DoorArena`.
#[derive(Clone, Copy, Debug, PartialEq, Eq, Structural)]
pub struct DoorId {
    pub index: usize,
}

/// One side of a door pair before it is linked.
#[derive(Clone, Copy, Debug, PartialEq, Eq, Structural)]
pub struct DoorSpec {
    pub map: Handle,
    pub orientation: Orientation,
    pub side: Side,
    pub pos: u32,
    pub size: u32,
}

/// A door record: where it is, and the door it leads to.
#[derive(Clone, Copy, Debug, PartialEq, Eq, Structural)]
pub struct Door {
    pub map: Handle,
    pub orientation: Orientation,
    pub side: Side,
    pub pos: u32,
    pub size: u32,
    pub destination: DoorId,
}

#[derive(Clone, Copy, Debug, PartialEq, Eq, Structural)]
pub enum DoorError {
    /// Zero size, a span outside the map, or a pairing that is not mutual.
    InvalidDoor,
    /// The door's map was never interned.
    UnknownMap,
}

/// Where an entity comes out after passing a door.
#[derive(Clone, Copy, Debug, PartialEq, Eq, Structural)]
pub struct Transition {
    pub map: Handle,
    pub x: u32,
    pub y: u32,
    /// The exit cell along the destination door's span.
    pub coord: u32,
    pub orientation: Orientation,
    /// Whether the entry and exit doors lie on boundaries of different
    /// orientation, so that vertical motion turns horizontal or back.
    pub axis_flipped: bool,
}

/// The map's length along the axis that a door of orientation `o` spans.
pub open spec fn along_extent(m: TileMap, o: Orientation) -> int {
    match o {
        Orientation::Horizontal => m.spec_width() as int,
        Orientation::Vertical => m.spec_height() as int,
    }
}

/// The map's length across that axis.
pub open spec fn across_extent(m: TileMap, o: Orientation) -> int {
    match o {
        Orientation::Horizontal => m.spec_height() as int,
        Orientation::Vertical => m.spec_width() as int,
    }
}

/// The error, if any, of a door placed on `map` with the given span.
pub open spec fn spec_door_error(
    maps: Seq<TileMap>,
    map: Handle,
    o: Orientation,
    pos: u32,
    size: u32,
) -> Option<DoorError> {
    if map.index >= maps.len() {
        Some(DoorError::UnknownMap)
    } else if size == 0 || pos + size > along_extent(maps[map.index as int], o) {
        Some(DoorError::InvalidDoor)
    } else {
        None
    }
}

pub open spec fn spec_spec_error(maps: Seq<TileMap>, s: DoorSpec) -> Option<DoorError> {
    spec_door_error(maps, s.map, s.orientation, s.pos, s.size)
}

/// The error of a pair: that of the first side, else that of the second.
pub open spec fn spec_pair_error(maps: Seq<TileMap>, a: DoorSpec, b: DoorSpec) -> Option<DoorError> {
    match spec_spec_error(maps, a) {
        Some(e) => Some(e),
        None => spec_spec_error(maps, b),
    }
}

/// The error, if any, of the record at `i` among `recs`.
pub open spec fn record_error(maps: Seq<TileMap>, recs: Seq<Door>, i: int) -> Option<DoorError> {
    let d = recs[i];
    match spec_door_error(maps, d.map, d.orientation, d.pos, d.size) {
        Some(e) => Some(e),
        None => if d.destination.index >= recs.len() || d.destination.index == i
            || recs[d.destination.index as int].destination.index != i {
            Some(DoorError::InvalidDoor)
        } else {
            None
        },
    }
}

/// Every door is valid on its map, and every door's destination is another
/// door that leads back to it.
pub open spec fn arena_wf(maps: Seq<TileMap>, doors: Seq<Door>) -> bool {
    forall|i: int| 0 <= i < doors.len() ==> #[trigger] record_error(maps, doors, i) is None
}

pub open spec fn door_of(s: DoorSpec, destination: DoorId) -> Door {
    Door {
        map: s.map,
        orientation: s.orientation,
        side: s.side,
        pos: s.pos,
        size: s.size,
        destination,
    }
}

pub open spec fn clamp(v: int, lo: int, hi: int) -> int {
    if v < lo {
        lo
    } else if v > hi {
        hi
    } else {
        v
    }
}

/// The cell of a door of size `sb` that matches cell `off` of a door of size
/// `sa`: `off * sb / sa` rounded to the nearest cell, at most the last cell.
pub open spec fn exit_offset(off: int, sa: int, sb: int) -> int {
    let q = (2 * off * sb + sa) / (2 * sa);
    if q > sb - 1 {
        sb - 1
    } else {
        q
    }
}

/// The row or column on which a door lies, across its span.
pub open spec fn door_line(maps: Seq<TileMap>, d: Door) -> int {
    match d.side {
        Side::Near => 0,
        Side::Far => across_extent(maps[d.map.index as int], d.orientation) - 1,
    }
}

/// Passing door `i` at cell `entry` along its span; entries outside the span
/// are clamped onto it.
pub open spec fn spec_transition(maps: Seq<TileMap>, doors: Seq<Door>, i: int, entry: int) -> Transition {
    let a = doors[i];
    let b = doors[a.destination.index as int];
    let off = clamp(entry - a.pos, 0, a.size - 1);
    let coord = b.pos + exit_offset(off, a.size as int, b.size as int);
    let line = door_line(maps, b);
    Transition {
        map: b.map,
        x: (match b.orientation {
            Orientation::Horizontal => coord,
            Orientation::Vertical => line,
        }) as u32,
        y: (match b.orientation {
            Orientation::Horizontal => line,
            Orientation::Vertical => coord,
        }) as u32,
        coord: coord as u32,
        orientation: b.orientation,
        axis_flipped: a.orientation != b.orientation,
    }
}

/// Checks one door's placement.
pub fn check_door(maps: &Registry<TileMap>, map: Handle, o: Orientation, pos: u32, size: u32) -> (r:
    Option<DoorError>)
    ensures
        r == spec_door_error(maps@, map, o, pos, size),
{
    if !maps.contains_handle(map) {
        return Some(DoorError::UnknownMap);
    }
    let m = maps.get(map);
    let extent = match o {
        Orientation::Horizontal => m.width(),
        Orientation::Vertical => m.height(),
    };
    if size == 0 || pos as u64 + size as u64 > extent as u64 {
        Some(DoorError::InvalidDoor)
    } else {
        None
    }
}

/// The doors of a world, linked in pairs.
pub struct DoorArena {
    doors: Vec<Door>,
}

impl View for DoorArena {
    type V = Seq<Door>;

    closed spec fn view(&self) -> Seq<Door> {
        self.doors@
    }
}

impl DoorArena {
    pub open spec fn wf(&self, maps: Seq<TileMap>) -> bool {
        arena_wf(maps, self@)
    }

    pub fn new() -> (r: DoorArena)
        ensures
            r@ == Seq::<Door>::empty(),
    {
        DoorArena { doors: Vec::new() }
    }

    pub fn len(&self) -> (r: usize)
        ensures
            r == self@.len(),
    {
        self.doors.len()
    }

    pub fn get(&self, d: DoorId) -> (r: Door)
        requires
            d.index < self@.len(),
        ensures
            r == self@[d.index as int],
    {
        self.doors[d.index]
    }

    /// Validates both sides and, when both are valid, adds them linked to
    /// each other; on an error nothing is added.
    pub fn create_pair(&mut self, maps: &Registry<TileMap>, a: DoorSpec, b: DoorSpec) -> (r: Result<
        (DoorId, DoorId),
        DoorError,
    >)
        requires
            old(self).wf(maps@),
            old(self)@.len() + 2 <= usize::MAX,
        ensures
            final(self).wf(maps@),
            r is Ok <==> spec_pair_error(maps@, a, b) is None,
            r matches Err(e) ==> Some(e) == spec_pair_error(maps@, a, b) && final(self)@ == old(
                self,
            )@,
            r matches Ok((ia, ib)) ==> {
                let n = old(self)@.len();
                &&& ia.index == n
                &&& ib.index == n + 1
                &&& final(self)@ == old(self)@.push(door_of(a, ib)).push(door_of(b, ia))
            },
    {
        if let Some(e) = check_door(maps, a.map, a.orientation, a.pos, a.size) {
            return Err(e);
        }
        if let Some(e) = check_door(maps, b.map, b.orientation, b.pos, b.size) {
            return Err(e);
        }
        let n = self.doors.len();
        let ia = DoorId { index: n };
        let ib = DoorId { index: n + 1 };
        let ghost before = self@;
        self.doors.push(
            Door {
                map: a.map,
                orientation: a.orientation,
                side: a.side,
                pos: a.pos,
                size: a.size,
                destination: ib,
            },
        );
        self.doors.push(
            Door {
                map: b.map,
                orientation: b.orientation,
                side: b.side,
                pos: b.pos,
                size: b.size,
                destination: ia,
            },
        );
        proof {
            let after = self@;
            assert(after =~= before.push(door_of(a, ib)).push(door_of(b, ia)));
            assert forall|i: int| 0 <= i < after.len() implies #[trigger] record_error(
                maps@,
                after,
                i,
            ) is None by {
                if i < n {
                    assert(record_error(maps@, before, i) is None);
                    assert(after[i] == before[i]);
                    assert(after[before[i].destination.index as int] == before[
                        before[i].destination.index as int
                    ]);
                }
            }
        }
        Ok((ia, ib))
    }

    /// Builds an arena from door records that name their destinations by
    /// index, as a loaded world lists them. Fails with the error of the first
    /// record that is misplaced or whose destination does not lead back to it.
    pub fn from_records(maps: &Registry<TileMap>, records: Vec<Door>) -> (r: Result<
        DoorArena,
        DoorError,
    >)
        ensures
            r is Ok <==> arena_wf(maps@, records@),
            r matches Ok(arena) ==> arena@ == records@,
            r matches Err(e) ==> exists|i: int|
                0 <= i < records@.len() && record_error(maps@, records@, i) == Some(e) && (forall|
                    j: int,
                | 0 <= j < i ==> #[trigger] record_error(maps@, records@, j) is None),
    {
        let n = records.len();
        let mut i: usize = 0;
        while i < n
            invariant
                n == records@.len(),
                i <= n,
                forall|j: int| 0 <= j < i ==> #[trigger] record_error(maps@, records@, j) is None,
            decreases n - i,
        {
            let d = records[i];
            if let Some(e) = check_door(maps, d.map, d.orientation, d.pos, d.size) {
                proof {
                    assert(record_error(maps@, records@, i as int) == Some(e));
                }
                return Err(e);
            }
            if d.destination.index >= n || d.destination.index == i
                || records[d.destination.index].destination.index != i {
                proof {
                    assert(record_error(maps@, records@, i as int) == Some(DoorError::InvalidDoor));
                }
                return Err(DoorError::InvalidDoor);
            }
            i = i + 1;
        }
        Ok(DoorArena { doors: records })
    }

    /// Where an entity comes out when it passes door `d` at cell `entry`.
    pub fn transition(&self, maps: &Registry<TileMap>, d: DoorId, entry: u32) -> (r: Transition)
        requires
            self.wf(maps@),
            d.index < self@.len(),
        ensures
            r == spec_transition(maps@, self@, d.index as int, entry as int),
    {
        let a = self.doors[d.index];
        proof {
            assert(record_error(maps@, self@, d.index as int) is None);
        }
        let b = self.doors[a.destination.index];
        proof {
            assert(record_error(maps@, self@, a.destination.index as int) is None);
        }
        let off: u32 = if entry < a.pos {
            0
        } else if entry - a.pos > a.size - 1 {
            a.size - 1
        } else {
            entry - a.pos
        };
        proof {
            let o = off as int;
            let sb = b.size as int;
            assert(2 * o * sb <= 2 * 0x1_0000_0000 * 0x1_0000_0000) by (nonlinear_arith)
                requires
                    0 <= o < 0x1_0000_0000,
                    0 <= sb < 0x1_0000_0000,
            ;
        }
        let num: u128 = 2 * (off as u128) * (b.size as u128) + a.size as u128;
        let den: u128 = 2 * (a.size as u128);
        let q128: u128 = num / den;
        let q: u32 = if q128 > (b.size - 1) as u128 {
            b.size - 1
        } else {
            q128 as u32
        };
        let m = maps.get(b.map);
        let (along, across) = match b.orientation {
            Orientation::Horizontal => (m.width(), m.height()),
            Orientation::Vertical => (m.height(), m.width()),
        };
        let coord: u32 = b.pos + q;
        let line: u32 = match b.side {
            Side::Near => 0,
            Side::Far => across - 1,
        };
        let (x, y) = match b.orientation {
            Orientation::Horizontal => (coord, line),
            Orientation::Vertical => (line, coord),
        };
        Transition {
            map: b.map,
            x,
            y,
            coord,
            orientation: b.orientation,
            axis_flipped: a.orientation != b.orientation,
        }
    }
}

/// Bounds on one mapping of cell `off` from a door of size `sa` to one of size `sb`.
proof fn lemma_exit_offset_bounds(off: int, sa: int, sb: int)
    requires
        0 <= off < sa,
        0 < sb,
    ensures
        ({
            let q = exit_offset(off, sa, sb);
            &&& 0 <= q < sb
            &&& 2 * sa * q <= 2 * off * sb + sa
            &&& 2 * off * sb - 2 * sa <= 2 * sa * q
            &&& (q == sb - 1 || 2 * off * sb + sa < 2 * sa * (q + 1))
            &&& (sa < 2 * sb ==> 2 * off * sb + sa < 2 * sa * (q + 1))
            &&& (off == 0 ==> q == 0)
        }),
{
    let n = 2 * off * sb + sa;
    assert(n >= 0) by (nonlinear_arith)
        requires
            n == 2 * off * sb + sa,
            0 <= off,
            0 < sb,
            0 < sa,
    ;
    let q0 = n / (2 * sa);
    lemma_div_bounds(n, 2 * sa);
    assert(q0 >= 0) by (nonlinear_arith)
        requires
            n < 2 * sa * (q0 + 1),
            0 <= n,
            0 < sa,
    ;
    if q0 > sb - 1 {
        assert(2 * sa * (sb - 1) < 2 * sa * q0) by (nonlinear_arith)
            requires
                q0 > sb - 1,
                0 < sa,
        ;
        assert(2 * off * sb - 2 * sa <= 2 * sa * (sb - 1)) by (nonlinear_arith)
            requires
                off < sa,
                0 < sb,
        ;
        assert(sa < 2 * sb ==> false) by (nonlinear_arith)
            requires
                2 * sa * q0 <= n,
                n == 2 * off * sb + sa,
                q0 >= sb,
                off <= sa - 1,
                0 < sa,
                0 < sb,
        ;
    } else {
        assert(2 * off * sb - 2 * sa <= 2 * sa * q0) by (nonlinear_arith)
            requires
                n < 2 * sa * (q0 + 1),
                n == 2 * off * sb + sa,
                0 < sa,
        ;
    }
    if off == 0 {
        assert(q0 == 0) by (nonlinear_arith)
            requires
                2 * sa * q0 <= n,
                n == 2 * off * sb + sa,
                off == 0,
                0 <= q0,
                0 < sa,
        ;
    }
}

/// A cell mapped to a door of the other size and back lands no more than
/// `(sa + sb) / (2 * sb)` cells after where it started, and less than
/// `(2 * sa + sb) / (2 * sb)` cells before; exactly there when the second door is
/// at least as long as the first. The first cell maps to the first cell.
pub proof fn lemma_offset_round_trip(off: int, sa: int, sb: int)
    requires
        0 <= off < sa,
        0 < sb,
    ensures
        0 <= exit_offset(off, sa, sb) < sb,
        0 <= exit_offset(exit_offset(off, sa, sb), sb, sa) < sa,
        2 * sb * (exit_offset(exit_offset(off, sa, sb), sb, sa) - off) <= sa + sb,
        2 * sb * (off - exit_offset(exit_offset(off, sa, sb), sb, sa)) < 2 * sa + sb,
        sa <= sb ==> exit_offset(exit_offset(off, sa, sb), sb, sa) == off,
        off == 0 ==> exit_offset(off, sa, sb) == 0,
{
    let q = exit_offset(off, sa, sb);
    lemma_exit_offset_bounds(off, sa, sb);
    let back = exit_offset(q, sb, sa);
    lemma_exit_offset_bounds(q, sb, sa);
    assert(2 * sb * (back - off) <= sa + sb) by (nonlinear_arith)
        requires
            2 * sb * back <= 2 * q * sa + sb,
            2 * sa * q <= 2 * off * sb + sa,
    ;
    if back == sa - 1 {
        assert(2 * sb * (off - back) < 2 * sa + sb) by (nonlinear_arith)
            requires
                off <= back,
                0 < sb,
                0 < sa,
        ;
    } else {
        assert(2 * sb * (off - back) < 2 * sa + sb) by (nonlinear_arith)
            requires
                2 * q * sa + sb < 2 * sb * (back + 1),
                2 * off * sb - 2 * sa <= 2 * sa * q,
        ;
    }
    if sa <= sb {
        assert(2 * off * sb + sa < 2 * sa * (q + 1));
        if sa == sb {
            assert(q == off) by (nonlinear_arith)
                requires
                    2 * sa * q <= 2 * off * sa + sa,
                    2 * off * sa + sa < 2 * sa * (q + 1),
                    0 < sa,
            ;
            assert(back <= off) by (nonlinear_arith)
                requires
                    2 * sb * back <= 2 * q * sa + sb,
                    q == off,
                    sa == sb,
                    0 < sb,
            ;
        } else {
            assert(back <= off) by (nonlinear_arith)
                requires
                    2 * sb * back <= 2 * q * sa + sb,
                    2 * sa * q <= 2 * off * sb + sa,
                    sa < sb,
                    0 < sb,
            ;
        }
        if back != sa - 1 {
            assert(back >= off) by (nonlinear_arith)
                requires
                    2 * q * sa + sb < 2 * sb * (back + 1),
                    2 * off * sb + sa < 2 * sa * (q + 1),
                    sa <= sb,
                    0 < sb,
                    0 < sa,
            ;
        }
    }
}

proof fn lemma_div_bounds(n: int, d: int)
    requires
        0 <= n,
        0 < d,
    ensures
        d * (n / d) <= n < d * (n / d + 1),
{
    vstd::arithmetic::div_mod::lemma_fundamental_div_mod(n, d);
    vstd::arithmetic::div_mod::lemma_mod_bound(n, d);
    assert(d * (n / d + 1) == d * (n / d) + d) by (nonlinear_arith);
}

/// Passing a door at a cell of its span and then passing its pair at the exit
/// cell brings the entity back to the first door's map, orientation and line,
/// no more than `(sa + sb) / (2 * sb)` cells after where it entered and less than
/// `(2 * sa + sb) / (2 * sb)` cells before (`sa`, `sb` the sizes of the two
/// doors), and to the very cell when the pair is at least as long. Entering at
/// the door's `pos` exits at the pair's `pos`.
pub proof fn lemma_door_round_trip(maps: Seq<TileMap>, doors: Seq<Door>, i: int, c: int)
    requires
        arena_wf(maps, doors),
        0 <= i < doors.len(),
        doors[i].pos <= c < doors[i].pos + doors[i].size,
    ensures
        ({
            let a = doors[i];
            let b = doors[a.destination.index as int];
            let t1 = spec_transition(maps, doors, i, c);
            let t2 = spec_transition(maps, doors, a.destination.index as int, t1.coord as int);
            let back = t2.coord as int;
            &&& t1.map == b.map
            &&& b.pos <= t1.coord < b.pos + b.size
            &&& t2.map == a.map
            &&& t2.orientation == a.orientation
            &&& 2 * b.size * (back - c) <= a.size + b.size
            &&& 2 * b.size * (c - back) < 2 * a.size + b.size
            &&& (a.size <= b.size ==> back == c)
            &&& (c == a.pos ==> t1.coord == b.pos)
        }),
{
    let a = doors[i];
    let j = a.destination.index as int;
    let b = doors[j];
    assert(record_error(maps, doors, i) is None);
    assert(record_error(maps, doors, j) is None);
    let off = c - a.pos;
    lemma_offset_round_trip(off, a.size as int, b.size as int);
    let q = exit_offset(off, a.size as int, b.size as int);
    let t1 = spec_transition(maps, doors, i, c);
    assert(t1.coord == b.pos + q);
    let t2 = spec_transition(maps, doors, j, t1.coord as int);
    assert(t2.coord == a.pos + exit_offset(q, b.size as int, a.size as int));
}

/// Doors valid on some maps stay valid when more maps are added after them.
pub proof fn lemma_arena_wf_more_maps(maps: Seq<TileMap>, more: Seq<TileMap>, doors: Seq<Door>)
    requires
        arena_wf(maps, doors),
        maps.len() <= more.len(),
        forall|k: int| 0 <= k < maps.len() ==> more[k] == maps[k],
    ensures
        arena_wf(more, doors),
{
    assert forall|i: int| 0 <= i < doors.len() implies #[trigger] record_error(more, doors, i) is None by {
        assert(record_error(maps, doors, i) is None);
    }
}

} // verus!
