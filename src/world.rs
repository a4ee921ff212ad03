//! The world and its tick: every sprite computes its change on the world as
//! it stood before the tick, and then all changes are committed at once.
use vstd::prelude::*;
use crate::door::{
    arena_wf, door_line, lemma_arena_wf_more_maps, record_error, spec_pair_error, spec_transition, Door, DoorArena, DoorError,
    DoorId, DoorSpec, Orientation, Side, Transition,
};
use crate::registry::{lemma_intern_facts, spec_intern, Handle, Registry, Texture, TileMap, TrainerType};
use crate::sprite::{
    advance_dialog, dialog_after, has_move, moved, moves, normalize, normalized, propose_position,
    ChannelError, Delta, Event, Request, Sprite, SpriteClass,
};

verus! {

/// A sprite and the map it stands on.
#[derive(Clone, Debug)]
pub struct Placed {
    pub map: Handle,
    pub sprite: Sprite,
}

/// Whether the cell `(x, y)` lies on door `d`.
pub open spec fn on_door(maps: Seq<TileMap>, d: Door, x: int, y: int) -> bool {
    let line = door_line(maps, d);
    match d.orientation {
        Orientation::Horizontal => y == line && d.pos <= x < d.pos + d.size,
        Orientation::Vertical => x == line && d.pos <= y < d.pos + d.size,
    }
}

/// The coordinate of `(x, y)` along door `d`'s span.
pub open spec fn along(d: Door, x: int, y: int) -> int {
    match d.orientation {
        Orientation::Horizontal => x,
        Orientation::Vertical => y,
    }
}

/// Whether a step from `from` to `to` on `map` enters door `id`.
pub open spec fn enters(
    maps: Seq<TileMap>,
    arena: Seq<Door>,
    id: DoorId,
    map: Handle,
    from: (int, int),
    to: (int, int),
) -> bool {
    let d = arena[id.index as int];
    d.map == map && on_door(maps, d, to.0, to.1) && !on_door(maps, d, from.0, from.1)
}

/// The first of the first `n` doors of `ids` that the step enters.
pub open spec fn first_door(
    maps: Seq<TileMap>,
    arena: Seq<Door>,
    ids: Seq<DoorId>,
    map: Handle,
    from: (int, int),
    to: (int, int),
    n: nat,
) -> Option<int>
    decreases n,
{
    if n == 0 {
        None
    } else {
        match first_door(maps, arena, ids, map, from, to, (n - 1) as nat) {
            Some(k) => Some(k),
            None => if enters(maps, arena, ids[n - 1], map, from, to) {
                Some(n - 1)
            } else {
                None
            },
        }
    }
}

/// The door of `ids` that sprite `s` enters in this tick, if it moves.
pub open spec fn entered_by(
    maps: Seq<TileMap>,
    arena: Seq<Door>,
    sprites: Seq<Placed>,
    me: int,
    ids: Seq<DoorId>,
    events: Seq<Event>,
    s: int,
) -> Option<int> {
    let p = sprites[s];
    let img = p.sprite.image;
    if s == me || p.map != sprites[me].map || !has_move(events, events.len(), s) {
        None
    } else {
        first_door(
            maps,
            arena,
            ids,
            sprites[me].map,
            (img.x as int, img.y as int),
            moved(events, events.len(), s, img.x as int, img.y as int),
            ids.len(),
        )
    }
}

/// The request for sprite `s`, which enters one of the doors `ids` owned by
/// sprite `me`, to pass the first door it enters.
pub open spec fn request_for(
    maps: Seq<TileMap>,
    arena: Seq<Door>,
    sprites: Seq<Placed>,
    me: int,
    ids: Seq<DoorId>,
    events: Seq<Event>,
    s: int,
) -> Request {
    let img = sprites[s].sprite.image;
    let to = moved(events, events.len(), s, img.x as int, img.y as int);
    let k = entered_by(maps, arena, sprites, me, ids, events, s)->0;
    let id = ids[k];
    Request {
        sprite: s as usize,
        at_x: to.0 as u32,
        at_y: to.1 as u32,
        to: spec_transition(maps, arena, id.index as int, along(arena[id.index as int], to.0, to.1)),
    }
}

/// The requests, in sprite order, for every one of the first `n` sprites that
/// enters one of the doors `ids` owned by sprite `me`.
pub open spec fn entrants(
    maps: Seq<TileMap>,
    arena: Seq<Door>,
    sprites: Seq<Placed>,
    me: int,
    ids: Seq<DoorId>,
    events: Seq<Event>,
    n: nat,
) -> Seq<Request>
    decreases n,
{
    if n == 0 {
        Seq::empty()
    } else {
        let r = entrants(maps, arena, sprites, me, ids, events, (n - 1) as nat);
        if entered_by(maps, arena, sprites, me, ids, events, n - 1) is Some {
            r.push(request_for(maps, arena, sprites, me, ids, events, n - 1))
        } else {
            r
        }
    }
}

/// The door requests that sprite `i` signals: those of its doors, for a
/// building or a door tile, and none for the other kinds.
pub open spec fn spec_requests(
    maps: Seq<TileMap>,
    arena: Seq<Door>,
    sprites: Seq<Placed>,
    i: int,
    events: Seq<Event>,
) -> Seq<Request> {
    match sprites[i].sprite.class {
        SpriteClass::Building { doors } => entrants(maps, arena, sprites, i, doors@, events, sprites.len()),
        SpriteClass::DoorTile { door } => entrants(maps, arena, sprites, i, seq![door], events, sprites.len()),
        _ => Seq::empty(),
    }
}

/// The door requests of the first `n` sprites, in sprite order.
pub open spec fn all_requests(
    maps: Seq<TileMap>,
    arena: Seq<Door>,
    sprites: Seq<Placed>,
    events: Seq<Event>,
    n: nat,
) -> Seq<Request>
    decreases n,
{
    if n == 0 {
        Seq::empty()
    } else {
        all_requests(maps, arena, sprites, events, (n - 1) as nat) + spec_requests(
            maps,
            arena,
            sprites,
            n - 1,
            events,
        )
    }
}

/// The change that sprite `i` asks for of itself on the world `(maps, arena,
/// sprites)`; the requests of doors are apart, in `spec_requests`.
pub open spec fn spec_delta(
    maps: Seq<TileMap>,
    arena: Seq<Door>,
    sprites: Seq<Placed>,
    i: int,
    events: Seq<Event>,
) -> Delta {
    let img = sprites[i].sprite.image;
    match sprites[i].sprite.class {
        SpriteClass::Player => if has_move(events, events.len(), i) {
            let p = moved(events, events.len(), i, img.x as int, img.y as int);
            Delta::Propose { x: p.0 as u32, y: p.1 as u32 }
        } else {
            Delta::Keep
        },
        SpriteClass::Trainer { trainer, cursor } => {
            let c = dialog_after(events, events.len(), img, trainer.dialog@.len() as int, cursor);
            if c == cursor {
                Delta::Keep
            } else {
                Delta::Dialog { cursor: c }
            }
        },
        SpriteClass::Building { .. } => Delta::Keep,
        SpriteClass::DoorTile { .. } => Delta::Keep,
    }
}

/// A player's delta once its client channel answered.
pub open spec fn spec_acknowledge(d: Delta, answer: Result<(u32, u32), ChannelError>) -> Delta {
    match d {
        Delta::Propose { .. } => match answer {
            Ok(p) => Delta::MoveTo { x: p.0, y: p.1 },
            Err(e) => Delta::Failed { error: e },
        },
        _ => d,
    }
}

/// Hands a player's proposal the client channel's answer: the acknowledged
/// position, or the failure, which stays with this sprite for this tick.
/// Other deltas pass unchanged.
pub fn acknowledge(d: Delta, answer: Result<(u32, u32), ChannelError>) -> (r: Delta)
    ensures
        r == spec_acknowledge(d, answer),
{
    match d {
        Delta::Propose { .. } => match answer {
            Ok(p) => Delta::MoveTo { x: p.0, y: p.1 },
            Err(e) => Delta::Failed { error: e },
        },
        _ => d,
    }
}

/// Sprite record `p` with its own delta applied.
pub open spec fn own_applied(p: Placed, d: Delta) -> Placed {
    match d {
        Delta::MoveTo { x, y } => Placed {
            sprite: Sprite { image: crate::sprite::SpriteImage { x, y, ..p.sprite.image }, ..p.sprite },
            ..p
        },
        Delta::Dialog { cursor } => match p.sprite.class {
            SpriteClass::Trainer { trainer, .. } => Placed {
                sprite: Sprite { class: SpriteClass::Trainer { trainer, cursor }, ..p.sprite },
                ..p
            },
            _ => p,
        },
        _ => p,
    }
}

/// Sprite record `p` brought out of a door at `t`; a change of boundary
/// orientation turns it a quarter.
pub open spec fn relocated(p: Placed, t: Transition) -> Placed {
    let img = p.sprite.image;
    Placed {
        map: t.map,
        sprite: Sprite {
            image: crate::sprite::SpriteImage {
                x: t.x,
                y: t.y,
                rotate: if t.axis_flipped {
                    normalized(img.rotate + 90) as u16
                } else {
                    img.rotate
                },
                ..img
            },
            ..p.sprite
        },
    }
}

/// Whether a sprite whose own delta is `own` reaches the cell `(x, y)` that a
/// door passage was computed for: not when its client channel failed or was
/// never asked, nor when the channel put it elsewhere.
pub open spec fn confirms(own: Delta, x: u32, y: u32) -> bool {
    match own {
        Delta::Failed { .. } => false,
        Delta::Propose { .. } => false,
        Delta::MoveTo { x: mx, y: my } => mx == x && my == y,
        _ => true,
    }
}

/// Whether `confirms` holds of `own` at `(x, y)`.
pub fn confirms_cell(own: Delta, x: u32, y: u32) -> (r: bool)
    ensures
        r == confirms(own, x, y),
{
    match own {
        Delta::Failed { .. } => false,
        Delta::Propose { .. } => false,
        Delta::MoveTo { x: mx, y: my } => mx == x && my == y,
        _ => true,
    }
}

/// The first of the first `n` requests that moves sprite `j` through a door
/// onto one of the `nmaps` known maps, at a cell that `j`'s own delta confirms.
pub open spec fn first_transit(
    requests: Seq<Request>,
    deltas: Seq<Delta>,
    nmaps: nat,
    j: int,
    n: nat,
) -> Option<Transition>
    decreases n,
{
    if n == 0 {
        None
    } else {
        match first_transit(requests, deltas, nmaps, j, (n - 1) as nat) {
            Some(t) => Some(t),
            None => {
                let q = requests[n - 1];
                if q.sprite == j && q.to.map.index < nmaps && confirms(delta_at(deltas, j), q.at_x, q.at_y) {
                    Some(q.to)
                } else {
                    None
                }
            },
        }
    }
}

pub open spec fn delta_at(deltas: Seq<Delta>, j: int) -> Delta {
    if 0 <= j < deltas.len() {
        deltas[j]
    } else {
        Delta::Keep
    }
}

/// Sprite `j` after a commit of `deltas` and door `requests`: its own delta,
/// then the first door that takes it, both read against its record before the
/// tick.
pub open spec fn committed(
    sprites: Seq<Placed>,
    nmaps: nat,
    deltas: Seq<Delta>,
    requests: Seq<Request>,
    j: int,
) -> Placed {
    let base = own_applied(sprites[j], delta_at(deltas, j));
    match first_transit(requests, deltas, nmaps, j, requests.len()) {
        Some(t) => relocated(base, t),
        None => base,
    }
}

pub struct World {
    maps: Registry<TileMap>,
    textures: Registry<Texture>,
    trainer_types: Registry<TrainerType>,
    doors: DoorArena,
    sprites: Vec<Placed>,
}

/// Whether sprite record `p` refers only to known assets and doors.
pub open spec fn placed_ok(
    maps: Seq<TileMap>,
    textures: nat,
    trainer_types: nat,
    arena: Seq<Door>,
    p: Placed,
) -> bool {
    &&& p.map.index < maps.len()
    &&& p.sprite.image.texture.index < textures
    &&& p.sprite.image.wf()
    &&& match p.sprite.class {
        SpriteClass::Player => true,
        SpriteClass::Trainer { trainer, .. } => trainer.trainer_type.index < trainer_types,
        SpriteClass::Building { doors } => forall|k: int|
            0 <= k < doors@.len() ==> (#[trigger] doors@[k]).index < arena.len(),
        SpriteClass::DoorTile { door } => door.index < arena.len(),
    }
}

impl World {
    pub closed spec fn maps_v(&self) -> Seq<TileMap> {
        self.maps@
    }

    pub closed spec fn textures_v(&self) -> Seq<(u32, u32, Seq<u32>)> {
        self.textures@
    }

    pub closed spec fn trainer_types_v(&self) -> Seq<Seq<char>> {
        self.trainer_types@
    }

    pub closed spec fn doors_v(&self) -> Seq<Door> {
        self.doors@
    }

    pub closed spec fn sprites_v(&self) -> Seq<Placed> {
        self.sprites@
    }

    pub open spec fn sprite_ok(&self, p: Placed) -> bool {
        placed_ok(
            self.maps_v(),
            self.textures_v().len(),
            self.trainer_types_v().len(),
            self.doors_v(),
            p,
        )
    }

    pub closed spec fn wf(&self) -> bool {
        &&& self.maps.wf()
        &&& self.textures.wf()
        &&& self.trainer_types.wf()
        &&& self.doors.wf(self.maps@)
        &&& forall|j: int| 0 <= j < self.sprites@.len() ==> #[trigger] self.sprite_ok(self.sprites@[j])
    }

    pub fn new() -> (r: World)
        ensures
            r.wf(),
            r.maps_v() == Seq::<TileMap>::empty(),
            r.textures_v() == Seq::<(u32, u32, Seq<u32>)>::empty(),
            r.trainer_types_v() == Seq::<Seq<char>>::empty(),
            r.doors_v() == Seq::<Door>::empty(),
            r.sprites_v() == Seq::<Placed>::empty(),
    {
        World {
            maps: Registry::new(),
            textures: Registry::new(),
            trainer_types: Registry::new(),
            doors: DoorArena::new(),
            sprites: Vec::new(),
        }
    }

    pub fn intern_map(&mut self, m: TileMap) -> (h: Handle)
        requires
            old(self).wf(),
        ensures
            final(self).wf(),
            (final(self).maps_v(), h.index as int) == spec_intern(old(self).maps_v(), m@),
            final(self).textures_v() == old(self).textures_v(),
            final(self).trainer_types_v() == old(self).trainer_types_v(),
            final(self).doors_v() == old(self).doors_v(),
            final(self).sprites_v() == old(self).sprites_v(),
    {
        proof {
            lemma_intern_facts(self.maps@, m@);
        }
        let ghost before = self.maps@;
        let h = self.maps.intern(m);
        proof {
            lemma_arena_wf_more_maps(before, self.maps@, self.doors@);
            assert forall|j: int| 0 <= j < self.sprites@.len() implies #[trigger] self.sprite_ok(
                self.sprites@[j],
            ) by {
                assert(old(self).sprite_ok(old(self).sprites@[j]));
                assert(placed_ok(before, self.textures@.len(), self.trainer_types@.len(), self.doors@, self.sprites@[j]));
            }
        }
        h
    }

    pub fn intern_texture(&mut self, t: Texture) -> (h: Handle)
        requires
            old(self).wf(),
        ensures
            final(self).wf(),
            (final(self).textures_v(), h.index as int) == spec_intern(old(self).textures_v(), t@),
            final(self).maps_v() == old(self).maps_v(),
            final(self).trainer_types_v() == old(self).trainer_types_v(),
            final(self).doors_v() == old(self).doors_v(),
            final(self).sprites_v() == old(self).sprites_v(),
    {
        proof {
            lemma_intern_facts(self.textures@, t@);
        }
        let ghost before = self.textures@;
        let h = self.textures.intern(t);
        proof {
            assert forall|j: int| 0 <= j < self.sprites@.len() implies #[trigger] self.sprite_ok(
                self.sprites@[j],
            ) by {
                assert(old(self).sprite_ok(old(self).sprites@[j]));
                assert(placed_ok(self.maps@, before.len(), self.trainer_types@.len(), self.doors@, self.sprites@[j]));
            }
        }
        h
    }

    pub fn intern_trainer_type(&mut self, t: TrainerType) -> (h: Handle)
        requires
            old(self).wf(),
        ensures
            final(self).wf(),
            (final(self).trainer_types_v(), h.index as int) == spec_intern(
                old(self).trainer_types_v(),
                t@,
            ),
            final(self).maps_v() == old(self).maps_v(),
            final(self).textures_v() == old(self).textures_v(),
            final(self).doors_v() == old(self).doors_v(),
            final(self).sprites_v() == old(self).sprites_v(),
    {
        proof {
            lemma_intern_facts(self.trainer_types@, t@);
        }
        let ghost before = self.trainer_types@;
        let h = self.trainer_types.intern(t);
        proof {
            assert forall|j: int| 0 <= j < self.sprites@.len() implies #[trigger] self.sprite_ok(
                self.sprites@[j],
            ) by {
                assert(old(self).sprite_ok(old(self).sprites@[j]));
                assert(placed_ok(self.maps@, self.textures@.len(), before.len(), self.doors@, self.sprites@[j]));
            }
        }
        h
    }

    /// Creates a linked door pair; see `DoorArena::create_pair`.
    pub fn create_door_pair(&mut self, a: DoorSpec, b: DoorSpec) -> (r: Result<(DoorId, DoorId), DoorError>)
        requires
            old(self).wf(),
            old(self).doors_v().len() + 2 <= usize::MAX,
        ensures
            final(self).wf(),
            r is Ok <==> spec_pair_error(old(self).maps_v(), a, b) is None,
            r matches Err(e) ==> Some(e) == spec_pair_error(old(self).maps_v(), a, b)
                && final(self).doors_v() == old(self).doors_v(),
            r matches Ok((ia, ib)) ==> {
                let n = old(self).doors_v().len();
                &&& ia.index == n
                &&& ib.index == n + 1
                &&& final(self).doors_v() == old(self).doors_v().push(crate::door::door_of(a, ib)).push(
                    crate::door::door_of(b, ia),
                )
            },
            final(self).maps_v() == old(self).maps_v(),
            final(self).textures_v() == old(self).textures_v(),
            final(self).trainer_types_v() == old(self).trainer_types_v(),
            final(self).sprites_v() == old(self).sprites_v(),
    {
        let ghost before = self.doors@;
        let r = self.doors.create_pair(&self.maps, a, b);
        proof {
            assert forall|j: int| 0 <= j < self.sprites@.len() implies #[trigger] self.sprite_ok(
                self.sprites@[j],
            ) by {
                assert(old(self).sprite_ok(old(self).sprites@[j]));
                assert(placed_ok(self.maps@, self.textures@.len(), self.trainer_types@.len(), before, self.sprites@[j]));
            }
        }
        r
    }

    /// Installs the doors of a loaded world, listed as records that name
    /// their destinations by index, before any door or sprite exists; see
    /// `DoorArena::from_records`. On an error nothing changes.
    pub fn load_doors(&mut self, records: Vec<Door>) -> (r: Result<(), DoorError>)
        requires
            old(self).wf(),
            old(self).doors_v().len() == 0,
            old(self).sprites_v().len() == 0,
        ensures
            final(self).wf(),
            r is Ok <==> arena_wf(old(self).maps_v(), records@),
            r is Ok ==> final(self).doors_v() == records@,
            r matches Err(e) ==> final(self).doors_v() == old(self).doors_v() && exists|i: int|
                0 <= i < records@.len() && record_error(old(self).maps_v(), records@, i) == Some(e)
                    && (forall|j: int|
                    0 <= j < i ==> #[trigger] record_error(old(self).maps_v(), records@, j) is None),
            final(self).maps_v() == old(self).maps_v(),
            final(self).textures_v() == old(self).textures_v(),
            final(self).trainer_types_v() == old(self).trainer_types_v(),
            final(self).sprites_v() == old(self).sprites_v(),
    {
        match DoorArena::from_records(&self.maps, records) {
            Ok(arena) => {
                self.doors = arena;
                Ok(())
            },
            Err(e) => Err(e),
        }
    }

    /// Whether `p` refers only to assets and doors of this world.
    pub fn check_placed(&self, p: &Placed) -> (r: bool)
        ensures
            r == self.sprite_ok(*p),
    {
        if !self.maps.contains_handle(p.map) || !self.textures.contains_handle(p.sprite.image.texture)
            || p.sprite.image.rotate >= 360 {
            return false;
        }
        match &p.sprite.class {
            SpriteClass::Player => true,
            SpriteClass::Trainer { trainer, .. } => self.trainer_types.contains_handle(
                trainer.trainer_type,
            ),
            SpriteClass::Building { doors } => {
                let n = self.doors.len();
                let mut k: usize = 0;
                while k < doors.len()
                    invariant
                        k <= doors@.len(),
                        n == self.doors@.len(),
                        p.sprite.class == (SpriteClass::Building { doors: *doors }),
                        p.map.index < self.maps@.len(),
                        p.sprite.image.texture.index < self.textures@.len(),
                        p.sprite.image.rotate < 360,
                        forall|i: int| 0 <= i < k ==> (#[trigger] doors@[i]).index < n,
                    decreases doors@.len() - k,
                {
                    if doors[k].index >= n {
                        proof {
                            let ghost ds = p.sprite.class->Building_doors;
                            assert(ds@[k as int].index >= n);
                        }
                        return false;
                    }
                    k = k + 1;
                }
                true
            },
            SpriteClass::DoorTile { door } => door.index < self.doors.len(),
        }
    }

    /// Places a sprite on a map, between ticks. Returns its index, or `None`
    /// when it refers to an unknown map, texture, trainer type or door, or its
    /// rotation is not normalized.
    pub fn place(&mut self, p: Placed) -> (r: Option<usize>)
        requires
            old(self).wf(),
        ensures
            final(self).wf(),
            r is Some <==> old(self).sprite_ok(p),
            r matches Some(i) ==> i == old(self).sprites_v().len() && final(self).sprites_v()
                == old(self).sprites_v().push(p),
            r is None ==> final(self).sprites_v() == old(self).sprites_v(),
            final(self).maps_v() == old(self).maps_v(),
            final(self).textures_v() == old(self).textures_v(),
            final(self).trainer_types_v() == old(self).trainer_types_v(),
            final(self).doors_v() == old(self).doors_v(),
    {
        if !self.check_placed(&p) {
            return None;
        }
        let n = self.sprites.len();
        self.sprites.push(p);
        proof {
            assert forall|j: int| 0 <= j < self.sprites@.len() implies #[trigger] self.sprite_ok(
                self.sprites@[j],
            ) by {
                if j < n {
                    assert(self.sprites@[j] == old(self).sprites@[j]);
                    assert(old(self).sprite_ok(old(self).sprites@[j]));
                }
            }
        }
        Some(n)
    }

    /// Removes the sprite at index `i`, between ticks; later sprites move
    /// down by one.
    pub fn despawn(&mut self, i: usize) -> (r: Placed)
        requires
            old(self).wf(),
            i < old(self).sprites_v().len(),
        ensures
            final(self).wf(),
            r == old(self).sprites_v()[i as int],
            final(self).sprites_v() == old(self).sprites_v().remove(i as int),
            final(self).maps_v() == old(self).maps_v(),
            final(self).textures_v() == old(self).textures_v(),
            final(self).trainer_types_v() == old(self).trainer_types_v(),
            final(self).doors_v() == old(self).doors_v(),
    {
        let r = self.sprites.remove(i);
        proof {
            assert forall|j: int| 0 <= j < self.sprites@.len() implies #[trigger] self.sprite_ok(
                self.sprites@[j],
            ) by {
                if j < i {
                    assert(self.sprites@[j] == old(self).sprites@[j]);
                    assert(old(self).sprite_ok(old(self).sprites@[j]));
                } else {
                    assert(self.sprites@[j] == old(self).sprites@[j + 1]);
                    assert(old(self).sprite_ok(old(self).sprites@[j + 1]));
                }
            }
        }
        r
    }

    /// Whether the cell `(x, y)` lies on door `id`.
    fn on_door_cell(&self, id: DoorId, x: u32, y: u32) -> (r: bool)
        requires
            self.wf(),
            id.index < self.doors_v().len(),
        ensures
            r == on_door(self.maps_v(), self.doors_v()[id.index as int], x as int, y as int),
    {
        let d = self.doors.get(id);
        proof {
            assert(record_error(self.maps@, self.doors@, id.index as int) is None);
        }
        let m = self.maps.get(d.map);
        let line: u32 = match d.side {
            Side::Near => 0,
            Side::Far => match d.orientation {
                Orientation::Horizontal => m.height() - 1,
                Orientation::Vertical => m.width() - 1,
            },
        };
        match d.orientation {
            Orientation::Horizontal => y == line && d.pos <= x && (x as u64) < d.pos as u64
                + d.size as u64,
            Orientation::Vertical => x == line && d.pos <= y && (y as u64) < d.pos as u64
                + d.size as u64,
        }
    }

    /// The first door of `ids` that a step from `from` to `to` on `map` enters.
    fn find_door(&self, ids: &Vec<DoorId>, map: Handle, from: (u32, u32), to: (u32, u32)) -> (r:
        Option<usize>)
        requires
            self.wf(),
            forall|k: int| 0 <= k < ids@.len() ==> (#[trigger] ids@[k]).index < self.doors_v().len(),
        ensures
            match r {
                Some(k) => k < ids@.len() && first_door(
                    self.maps_v(),
                    self.doors_v(),
                    ids@,
                    map,
                    (from.0 as int, from.1 as int),
                    (to.0 as int, to.1 as int),
                    ids@.len(),
                ) == Some(k as int),
                None => first_door(
                    self.maps_v(),
                    self.doors_v(),
                    ids@,
                    map,
                    (from.0 as int, from.1 as int),
                    (to.0 as int, to.1 as int),
                    ids@.len(),
                ) is None,
            },
    {
        let ghost f = (from.0 as int, from.1 as int);
        let ghost t = (to.0 as int, to.1 as int);
        let mut k: usize = 0;
        while k < ids.len()
            invariant
                self.wf(),
                f == (from.0 as int, from.1 as int),
                t == (to.0 as int, to.1 as int),
                k <= ids@.len(),
                forall|i: int| 0 <= i < ids@.len() ==> (#[trigger] ids@[i]).index < self.doors_v().len(),
                first_door(self.maps_v(), self.doors_v(), ids@, map, f, t, k as nat) is None,
            decreases ids@.len() - k,
        {
            let id = ids[k];
            let d = self.doors.get(id);
            let on_to = self.on_door_cell(id, to.0, to.1);
            let on_from = self.on_door_cell(id, from.0, from.1);
            let hit = d.map == map && on_to && !on_from;
            assert(hit == enters(self.maps_v(), self.doors_v(), ids@[k as int], map, f, t));
            if hit {
                proof {
                    lemma_first_door_stays(self.maps_v(), self.doors_v(), ids@, map, f, t, (k + 1) as nat, ids@.len());
                }
                return Some(k);
            }
            k = k + 1;
        }
        None
    }

    /// The requests for every sprite that enters one of the doors `ids`
    /// owned by sprite `me`.
    fn find_entrants(&self, me: usize, ids: &Vec<DoorId>, events: &Vec<Event>) -> (r: Vec<Request>)
        requires
            self.wf(),
            me < self.sprites_v().len(),
            forall|k: int| 0 <= k < ids@.len() ==> (#[trigger] ids@[k]).index < self.doors_v().len(),
        ensures
            r@ == entrants(
                self.maps_v(),
                self.doors_v(),
                self.sprites_v(),
                me as int,
                ids@,
                events@,
                self.sprites_v().len(),
            ),
    {
        let n = self.sprites.len();
        let map = self.sprites[me].map;
        let mut out: Vec<Request> = Vec::new();
        let mut s: usize = 0;
        while s < n
            invariant
                self.wf(),
                n == self.sprites_v().len(),
                me < n,
                map == self.sprites_v()[me as int].map,
                s <= n,
                forall|k: int| 0 <= k < ids@.len() ==> (#[trigger] ids@[k]).index < self.doors_v().len(),
                out@ == entrants(self.maps_v(), self.doors_v(), self.sprites_v(), me as int, ids@, events@, s as nat),
            decreases n - s,
        {
            let p = &self.sprites[s];
            if s != me && p.map == map && moves(s, events) {
                let from = (p.sprite.image.x, p.sprite.image.y);
                let to = propose_position(&p.sprite.image, s, events);
                if let Some(k) = self.find_door(ids, map, from, to) {
                    let id = ids[k];
                    let d = self.doors.get(id);
                    let entry = match d.orientation {
                        Orientation::Horizontal => to.0,
                        Orientation::Vertical => to.1,
                    };
                    out.push(
                        Request {
                            sprite: s,
                            at_x: to.0,
                            at_y: to.1,
                            to: self.doors.transition(&self.maps, id, entry),
                        },
                    );
                }
            }
            s = s + 1;
        }
        out
    }

    /// The door requests that sprite `i` signals, computed on the current world.
    pub fn requests_for(&self, i: usize, events: &Vec<Event>) -> (r: Vec<Request>)
        requires
            self.wf(),
            i < self.sprites_v().len(),
        ensures
            r@ == spec_requests(self.maps_v(), self.doors_v(), self.sprites_v(), i as int, events@),
    {
        let p = &self.sprites[i];
        proof {
            assert(self.sprite_ok(self.sprites@[i as int]));
        }
        match &p.sprite.class {
            SpriteClass::Building { doors } => self.find_entrants(i, doors, events),
            SpriteClass::DoorTile { door } => {
                let ids = vec![*door];
                proof {
                    assert(ids@ =~= seq![*door]);
                }
                self.find_entrants(i, &ids, events)
            },
            _ => Vec::new(),
        }
    }

    /// The change that sprite `i` asks for, computed on the current world.
    pub fn delta_for(&self, i: usize, events: &Vec<Event>) -> (r: Delta)
        requires
            self.wf(),
            i < self.sprites_v().len(),
        ensures
            r == spec_delta(self.maps_v(), self.doors_v(), self.sprites_v(), i as int, events@),
    {
        let p = &self.sprites[i];
        proof {
            assert(self.sprite_ok(self.sprites@[i as int]));
        }
        match &p.sprite.class {
            SpriteClass::Player => {
                if moves(i, events) {
                    let (x, y) = propose_position(&p.sprite.image, i, events);
                    Delta::Propose { x, y }
                } else {
                    Delta::Keep
                }
            },
            SpriteClass::Trainer { trainer, cursor } => {
                let c = advance_dialog(trainer, *cursor, &p.sprite.image, events);
                if c == *cursor {
                    Delta::Keep
                } else {
                    Delta::Dialog { cursor: c }
                }
            },
            SpriteClass::Building { .. } => Delta::Keep,
            SpriteClass::DoorTile { .. } => Delta::Keep,
        }
    }

    /// The read phase of a tick: every sprite's own change, and the door
    /// requests of all sprites in sprite order, each computed on the world as
    /// it stands before the tick.
    pub fn plan(&self, events: &Vec<Event>) -> (r: (Vec<Delta>, Vec<Request>))
        requires
            self.wf(),
        ensures
            r.0@.len() == self.sprites_v().len(),
            forall|i: int| 0 <= i < r.0@.len() ==> #[trigger] r.0@[i] == spec_delta(
                self.maps_v(),
                self.doors_v(),
                self.sprites_v(),
                i,
                events@,
            ),
            r.1@ == all_requests(
                self.maps_v(),
                self.doors_v(),
                self.sprites_v(),
                events@,
                self.sprites_v().len(),
            ),
    {
        let n = self.sprites.len();
        let mut out: Vec<Delta> = Vec::new();
        let mut reqs: Vec<Request> = Vec::new();
        let mut i: usize = 0;
        while i < n
            invariant
                self.wf(),
                n == self.sprites_v().len(),
                i <= n,
                out@.len() == i,
                forall|k: int| 0 <= k < i ==> #[trigger] out@[k] == spec_delta(
                    self.maps_v(),
                    self.doors_v(),
                    self.sprites_v(),
                    k,
                    events@,
                ),
                reqs@ == all_requests(self.maps_v(), self.doors_v(), self.sprites_v(), events@, i as nat),
            decreases n - i,
        {
            let d = self.delta_for(i, events);
            out.push(d);
            let mut more = self.requests_for(i, events);
            reqs.append(&mut more);
            i = i + 1;
        }
        (out, reqs)
    }

    /// The commit phase of a tick: applies every sprite's own delta and then
    /// moves each sprite that a door takes, by the first request that takes it
    /// at a cell that the sprite's own delta confirms; all of it read against
    /// the records as they stood before the commit. Door passages onto
    /// unknown maps are ignored, as are deltas past the last sprite.
    pub fn commit(&mut self, deltas: &Vec<Delta>, requests: &Vec<Request>)
        requires
            old(self).wf(),
        ensures
            final(self).wf(),
            final(self).sprites_v().len() == old(self).sprites_v().len(),
            forall|j: int|
                0 <= j < final(self).sprites_v().len() ==> #[trigger] final(self).sprites_v()[j]
                    == committed(old(self).sprites_v(), old(self).maps_v().len(), deltas@, requests@, j),
            final(self).maps_v() == old(self).maps_v(),
            final(self).textures_v() == old(self).textures_v(),
            final(self).trainer_types_v() == old(self).trainer_types_v(),
            final(self).doors_v() == old(self).doors_v(),
    {
        let ghost pre = self.sprites@;
        let n = self.sprites.len();
        let mut i: usize = 0;
        while i < n
            invariant
                self.maps == old(self).maps,
                self.textures == old(self).textures,
                self.trainer_types == old(self).trainer_types,
                self.doors == old(self).doors,
                n == self.sprites@.len(),
                n == pre.len(),
                i <= n,
                forall|j: int| 0 <= j < i ==> #[trigger] self.sprites@[j] == own_applied(pre[j], delta_at(deltas@, j)),
                forall|j: int| i <= j < n ==> #[trigger] self.sprites@[j] == pre[j],
            decreases n - i,
        {
            if i < deltas.len() {
                match deltas[i] {
                    Delta::MoveTo { x, y } => {
                        self.sprites[i].sprite.image.x = x;
                        self.sprites[i].sprite.image.y = y;
                    },
                    Delta::Dialog { cursor } => {
                        match &mut self.sprites[i].sprite.class {
                            SpriteClass::Trainer { cursor: c, .. } => {
                                *c = cursor;
                            },
                            _ => {},
                        }
                    },
                    _ => {},
                }
            }
            i = i + 1;
        }
        let ghost stage = self.sprites@;
        let nmaps = self.maps.len();
        let mut taken: Vec<bool> = Vec::new();
        let mut j: usize = 0;
        while j < n
            invariant
                j <= n,
                taken@.len() == j,
                forall|k: int| 0 <= k < j ==> !(#[trigger] taken@[k]),
            decreases n - j,
        {
            taken.push(false);
            j = j + 1;
        }
        let mut i: usize = 0;
        while i < requests.len()
            invariant
                self.maps == old(self).maps,
                self.textures == old(self).textures,
                self.trainer_types == old(self).trainer_types,
                self.doors == old(self).doors,
                n == self.sprites@.len(),
                n == stage.len(),
                nmaps == self.maps@.len(),
                taken@.len() == n,
                i <= requests@.len(),
                forall|k: int| 0 <= k < n ==> #[trigger] taken@[k] == first_transit(requests@, deltas@, nmaps as nat, k, i as nat) is Some,
                forall|k: int| 0 <= k < n ==> #[trigger] self.sprites@[k] == match first_transit(requests@, deltas@, nmaps as nat, k, i as nat) {
                    Some(t) => relocated(stage[k], t),
                    None => stage[k],
                },
            decreases requests@.len() - i,
        {
            let q = requests[i];
            let sprite = q.sprite;
            let to = q.to;
            let own = if sprite < deltas.len() {
                deltas[sprite]
            } else {
                Delta::Keep
            };
            if sprite < n && to.map.index < nmaps && !taken[sprite] && confirms_cell(
                own,
                q.at_x,
                q.at_y,
            ) {
                let p = &mut self.sprites[sprite];
                p.map = to.map;
                p.sprite.image.x = to.x;
                p.sprite.image.y = to.y;
                if to.axis_flipped {
                    p.sprite.image.rotate = normalize(p.sprite.image.rotate as i64 + 90);
                }
                taken.set(sprite, true);
            }
            i = i + 1;
        }
        proof {
            assert forall|k: int| 0 <= k < self.sprites@.len() implies #[trigger] self.sprite_ok(
                self.sprites@[k],
            ) by {
                assert(old(self).sprite_ok(pre[k]));
                let b = own_applied(pre[k], delta_at(deltas@, k));
                assert(stage[k] == b);
                assert(self.sprite_ok(b));
                lemma_first_transit_known(requests@, deltas@, nmaps as nat, k, requests@.len());
            }
        }
    }

    pub fn sprite_count(&self) -> (r: usize)
        ensures
            r == self.sprites_v().len(),
    {
        self.sprites.len()
    }

    pub fn sprite(&self, i: usize) -> (r: &Placed)
        requires
            i < self.sprites_v().len(),
        ensures
            *r == self.sprites_v()[i as int],
            self.wf() ==> self.sprite_ok(*r),
    {
        &self.sprites[i]
    }

    pub fn maps(&self) -> (r: &Registry<TileMap>)
        ensures
            r@ == self.maps_v(),
    {
        &self.maps
    }

    pub fn textures(&self) -> (r: &Registry<Texture>)
        ensures
            r@ == self.textures_v(),
    {
        &self.textures
    }

    pub fn trainer_types(&self) -> (r: &Registry<TrainerType>)
        ensures
            r@ == self.trainer_types_v(),
    {
        &self.trainer_types
    }

    pub fn doors(&self) -> (r: &DoorArena)
        ensures
            r@ == self.doors_v(),
            r.wf(self.maps_v()) <== self.wf(),
    {
        &self.doors
    }
}

proof fn lemma_first_door_stays(
    maps: Seq<TileMap>,
    arena: Seq<Door>,
    ids: Seq<DoorId>,
    map: Handle,
    from: (int, int),
    to: (int, int),
    k: nat,
    n: nat,
)
    requires
        k <= n,
        first_door(maps, arena, ids, map, from, to, k) is Some,
    ensures
        first_door(maps, arena, ids, map, from, to, n) == first_door(maps, arena, ids, map, from, to, k),
    decreases n - k,
{
    if k < n {
        lemma_first_door_stays(maps, arena, ids, map, from, to, k, (n - 1) as nat);
    }
}

proof fn lemma_first_transit_known(requests: Seq<Request>, deltas: Seq<Delta>, nmaps: nat, j: int, n: nat)
    requires
        n <= requests.len(),
    ensures
        first_transit(requests, deltas, nmaps, j, n) matches Some(t) ==> t.map.index < nmaps,
    decreases n,
{
    if n > 0 {
        lemma_first_transit_known(requests, deltas, nmaps, j, (n - 1) as nat);
    }
}

/// Two-phase isolation: every delta and every door request of a tick is
/// computed on the records as they stood before the tick, and what the commit
/// makes of sprite `i` is read from `i`'s own record before the tick, the
/// deltas and the requests alone. Whatever record another sprite `j` has,
/// before or after the tick, sprite `i`'s delta and outcome are those computed
/// from the pre-tick world; so where one sprite's reaction reads another's
/// position, it reads the pre-tick position.
pub proof fn lemma_two_phase_isolation(
    maps: Seq<TileMap>,
    arena: Seq<Door>,
    pre: Seq<Placed>,
    events: Seq<Event>,
    deltas: Seq<Delta>,
    requests: Seq<Request>,
    i: int,
    j: int,
    other: Placed,
)
    requires
        0 <= i < pre.len(),
        0 <= j < pre.len(),
        i != j,
        deltas.len() == pre.len(),
        forall|k: int| 0 <= k < pre.len() ==> #[trigger] deltas[k] == spec_delta(maps, arena, pre, k, events),
        requests == all_requests(maps, arena, pre, events, pre.len()),
    ensures
        deltas[i] == spec_delta(maps, arena, pre, i, events),
        committed(pre.update(j, other), maps.len(), deltas, requests, i) == committed(
            pre,
            maps.len(),
            deltas,
            requests,
            i,
        ),
        committed(
            pre.update(j, committed(pre, maps.len(), deltas, requests, j)),
            maps.len(),
            deltas,
            requests,
            i,
        ) == committed(pre, maps.len(), deltas, requests, i),
{
    assert(pre.update(j, other)[i] == pre[i]);
    assert(pre.update(j, committed(pre, maps.len(), deltas, requests, j))[i] == pre[i]);
}

} // verus!
