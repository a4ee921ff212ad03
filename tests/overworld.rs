use overworld::door::{Door, DoorArena, DoorError, DoorId, DoorSpec, Orientation, Side};
use overworld::registry::{Handle, Registry, Texture, TileMap, TrainerType};
use overworld::sprite::{
    normalize, ChannelError, Delta, Event, Sprite, SpriteClass, SpriteImage, Trainer,
};
use overworld::world::{acknowledge, Placed, World};

fn map(w: u32, h: u32) -> TileMap {
    TileMap::new(w, h).unwrap()
}

fn spec(map: Handle, orientation: Orientation, side: Side, pos: u32, size: u32) -> DoorSpec {
    DoorSpec { map, orientation, side, pos, size }
}

fn texture() -> Texture {
    Texture { width: 1, height: 1, pixels: vec![7] }
}

fn image(texture: Handle, x: u32, y: u32) -> SpriteImage {
    SpriteImage::new(texture, x, y, 1, 1, 0)
}

/// Two maps of 10 by 10, with a vertical door on the far column of the first
/// at [5, 8) paired with one on the near column of the second at [0, 3).
fn two_maps() -> (World, Handle, Handle, DoorId, DoorId) {
    let mut w = World::new();
    let m1 = w.intern_map(map(10, 10));
    let m2 = w.intern_map(map(10, 12));
    let (a, b) = w
        .create_door_pair(
            spec(m1, Orientation::Vertical, Side::Far, 5, 3),
            spec(m2, Orientation::Vertical, Side::Near, 0, 3),
        )
        .unwrap();
    (w, m1, m2, a, b)
}

fn player(texture: Handle, x: u32, y: u32) -> Sprite {
    Sprite { name: "hero".to_string(), class: SpriteClass::Player, image: image(texture, x, y) }
}

#[test]
fn normalize_examples() {
    assert_eq!(normalize(-10), 350);
    assert_eq!(normalize(370), 10);
    assert_eq!(normalize(0), 0);
    assert_eq!(normalize(-360), 0);
    assert_eq!(normalize(-1), 359);
    assert_eq!(normalize(720), 0);
    assert_eq!(normalize(359), 359);
}

#[test]
fn normalize_extremes_stay_in_range() {
    for d in [i64::MIN, i64::MIN + 1, i64::MAX, -719, 1_000_003] {
        let r = normalize(d);
        assert!(r < 360);
        assert_eq!(r as i64, d.rem_euclid(360));
    }
}

#[test]
fn image_rotation_is_normalized() {
    let mut img = SpriteImage::new(Handle { index: 0 }, 1, 2, 3, 4, -90);
    assert_eq!(img.rotate, 270);
    img.rotate_by(100);
    assert_eq!(img.rotate, 10);
    img.set_rotation(-370);
    assert_eq!(img.rotate, 350);
    assert_eq!((img.x, img.y, img.w, img.h), (1, 2, 3, 4));
}

#[test]
fn map_needs_positive_sides() {
    assert!(TileMap::new(0, 5).is_none());
    assert!(TileMap::new(5, 0).is_none());
    let m = TileMap::new(3, 4).unwrap();
    assert_eq!((m.width(), m.height()), (3, 4));
}

#[test]
fn registry_dedups_equal_content() {
    let mut r: Registry<TileMap> = Registry::new();
    let a = r.intern(map(4, 5));
    let b = r.intern(map(4, 5));
    assert_eq!(a, b);
    assert_eq!(r.len(), 1);
    let c = r.intern(map(5, 4));
    assert_ne!(a, c);
    assert_eq!(r.len(), 2);
    assert_eq!(r.intern(map(4, 5)), a);
    assert_eq!(r.len(), 2);
}

#[test]
fn registry_dedups_textures_and_trainer_types() {
    let mut t: Registry<Texture> = Registry::new();
    let a = t.intern(Texture { width: 2, height: 1, pixels: vec![1, 2] });
    let b = t.intern(Texture { width: 2, height: 1, pixels: vec![1, 2] });
    let c = t.intern(Texture { width: 2, height: 1, pixels: vec![1, 3] });
    let d = t.intern(Texture { width: 1, height: 2, pixels: vec![1, 2] });
    assert_eq!(a, b);
    assert_ne!(a, c);
    assert_ne!(a, d);
    assert_ne!(c, d);
    assert_eq!(t.len(), 3);
    let mut k: Registry<TrainerType> = Registry::new();
    let x = k.intern(TrainerType { name: "Hiker".to_string() });
    let y = k.intern(TrainerType { name: "Swimmer".to_string() });
    let z = k.intern(TrainerType { name: "Hiker".to_string() });
    assert_eq!(x, z);
    assert_ne!(x, y);
    assert_eq!(k.len(), 2);
    assert_eq!(k.get(y).name, "Swimmer");
}

#[test]
fn door_of_size_zero_is_rejected() {
    let mut w = World::new();
    let m = w.intern_map(map(10, 10));
    let r = w.create_door_pair(
        spec(m, Orientation::Vertical, Side::Far, 5, 0),
        spec(m, Orientation::Vertical, Side::Near, 0, 3),
    );
    assert_eq!(r, Err(DoorError::InvalidDoor));
    assert_eq!(w.doors().len(), 0);
}

#[test]
fn door_out_of_bounds_is_rejected() {
    let mut w = World::new();
    let m = w.intern_map(map(10, 6));
    let r = w.create_door_pair(
        spec(m, Orientation::Horizontal, Side::Near, 8, 3),
        spec(m, Orientation::Vertical, Side::Near, 0, 3),
    );
    assert_eq!(r, Err(DoorError::InvalidDoor));
    let r = w.create_door_pair(
        spec(m, Orientation::Horizontal, Side::Near, 7, 3),
        spec(m, Orientation::Vertical, Side::Near, 4, 3),
    );
    assert_eq!(r, Err(DoorError::InvalidDoor));
    let r = w.create_door_pair(
        spec(m, Orientation::Horizontal, Side::Near, 7, 3),
        spec(m, Orientation::Vertical, Side::Near, 3, 3),
    );
    assert_eq!(r, Ok((DoorId { index: 0 }, DoorId { index: 1 })));
}

#[test]
fn door_on_unknown_map_is_rejected() {
    let mut w = World::new();
    let m = w.intern_map(map(10, 10));
    let r = w.create_door_pair(
        spec(m, Orientation::Vertical, Side::Far, 5, 3),
        spec(Handle { index: 1 }, Orientation::Vertical, Side::Near, 0, 3),
    );
    assert_eq!(r, Err(DoorError::UnknownMap));
    let r = w.create_door_pair(
        spec(Handle { index: 4 }, Orientation::Vertical, Side::Far, 5, 0),
        spec(m, Orientation::Vertical, Side::Near, 0, 3),
    );
    assert_eq!(r, Err(DoorError::UnknownMap));
}

fn record(map: Handle, pos: u32, size: u32, destination: usize) -> Door {
    Door {
        map,
        orientation: Orientation::Vertical,
        side: Side::Near,
        pos,
        size,
        destination: DoorId { index: destination },
    }
}

#[test]
fn records_that_do_not_lead_back_are_rejected() {
    let mut maps: Registry<TileMap> = Registry::new();
    let m = maps.intern(map(10, 10));
    let r = DoorArena::from_records(&maps, vec![record(m, 0, 2, 1), record(m, 4, 2, 2), record(m, 6, 2, 1)]);
    assert_eq!(r.err(), Some(DoorError::InvalidDoor));
    let r = DoorArena::from_records(&maps, vec![record(m, 0, 2, 0)]);
    assert_eq!(r.err(), Some(DoorError::InvalidDoor));
    let r = DoorArena::from_records(&maps, vec![record(m, 0, 2, 5), record(m, 4, 2, 0)]);
    assert_eq!(r.err(), Some(DoorError::InvalidDoor));
    let r = DoorArena::from_records(&maps, vec![record(m, 0, 2, 1), record(Handle { index: 3 }, 4, 2, 0)]);
    assert_eq!(r.err(), Some(DoorError::UnknownMap));
    let a = DoorArena::from_records(&maps, vec![record(m, 0, 2, 1), record(m, 4, 2, 0)]).unwrap();
    assert_eq!(a.len(), 2);
    assert_eq!(a.get(DoorId { index: 1 }).destination, DoorId { index: 0 });
}

#[test]
fn concrete_door_scenario() {
    let (w, _m1, m2, a, _b) = two_maps();
    let t = w.doors().transition(w.maps(), a, 6);
    assert_eq!(t.map, m2);
    assert_eq!(t.coord, 1);
    assert_eq!((t.x, t.y), (0, 1));
    assert_eq!(t.orientation, Orientation::Vertical);
    assert!(!t.axis_flipped);
}

#[test]
fn entry_outside_span_is_clamped() {
    let (w, _m1, _m2, a, _b) = two_maps();
    assert_eq!(w.doors().transition(w.maps(), a, 0).coord, 0);
    assert_eq!(w.doors().transition(w.maps(), a, 9).coord, 2);
}

#[test]
fn round_trip_returns_to_entry() {
    let mut w = World::new();
    let m1 = w.intern_map(map(20, 20));
    let m2 = w.intern_map(map(30, 8));
    let (a, b) = w
        .create_door_pair(
            spec(m1, Orientation::Vertical, Side::Far, 4, 3),
            spec(m2, Orientation::Horizontal, Side::Far, 10, 7),
        )
        .unwrap();
    for c in 4..7 {
        let t1 = w.doors().transition(w.maps(), a, c);
        assert_eq!(t1.map, m2);
        assert!(t1.axis_flipped);
        assert_eq!(t1.y, 7);
        assert!((10..17).contains(&t1.coord));
        let t2 = w.doors().transition(w.maps(), b, t1.coord);
        assert_eq!(t2.map, m1);
        assert_eq!(t2.coord, c);
        assert_eq!(t2.x, 19);
        assert_eq!(t2.orientation, Orientation::Vertical);
    }
    // From the long door to the short one, cells are merged: the way back
    // lands at most (7 + 3) / (2 * 3) cells after the start and less than
    // (2 * 7 + 3) / (2 * 3) cells before it.
    for c in 10..17u32 {
        let t1 = w.doors().transition(w.maps(), b, c);
        let t2 = w.doors().transition(w.maps(), a, t1.coord);
        let diff = t2.coord as i64 - c as i64;
        assert!(2 * 3 * diff <= 10);
        assert!(2 * 3 * -diff < 17);
    }
}

#[test]
fn round_trip_cells_of_a_short_door() {
    let mut w = World::new();
    let m1 = w.intern_map(map(20, 20));
    let (a, b) = w
        .create_door_pair(
            spec(m1, Orientation::Vertical, Side::Near, 4, 3),
            spec(m1, Orientation::Horizontal, Side::Near, 10, 7),
        )
        .unwrap();
    let coords: Vec<u32> = (4..7).map(|c| w.doors().transition(w.maps(), a, c).coord).collect();
    assert_eq!(coords, vec![10, 12, 15]);
    for c in 4..7 {
        let t1 = w.doors().transition(w.maps(), a, c);
        assert_eq!(w.doors().transition(w.maps(), b, t1.coord).coord, c);
    }
}

#[test]
fn entering_at_pos_exits_at_pair_pos() {
    let mut w = World::new();
    let m1 = w.intern_map(map(10, 10));
    let m2 = w.intern_map(map(10, 10));
    let (a, b) = w
        .create_door_pair(
            spec(m1, Orientation::Vertical, Side::Far, 5, 1),
            spec(m2, Orientation::Vertical, Side::Near, 3, 2),
        )
        .unwrap();
    assert_eq!(w.doors().transition(w.maps(), a, 5).coord, 3);
    assert_eq!(w.doors().transition(w.maps(), b, 3).coord, 5);
    assert_eq!(w.doors().transition(w.maps(), b, 4).coord, 5);
}

#[test]
fn player_move_is_proposed_and_acknowledged() {
    let (mut w, m1, _m2, _a, _b) = two_maps();
    let tex = w.intern_texture(texture());
    let p = w.place(Placed { map: m1, sprite: player(tex, 2, 2) }).unwrap();
    let events = vec![
        Event::Move { sprite: p, dx: 1, dy: 0 },
        Event::Timer,
        Event::Move { sprite: p, dx: 1, dy: -5 },
    ];
    let (deltas, requests) = w.plan(&events);
    assert_eq!(deltas, vec![Delta::Propose { x: 4, y: 0 }]);
    let acked: Vec<Delta> = deltas.into_iter().map(|d| acknowledge(d, Ok((4, 1)))).collect();
    assert_eq!(acked, vec![Delta::MoveTo { x: 4, y: 1 }]);
    w.commit(&acked, &requests);
    let img = w.sprite(p).sprite.image;
    assert_eq!((img.x, img.y), (4, 1));
}

#[test]
fn channel_failure_keeps_player_in_place() {
    let (mut w, m1, _m2, _a, _b) = two_maps();
    let tex = w.intern_texture(texture());
    let p = w.place(Placed { map: m1, sprite: player(tex, 2, 2) }).unwrap();
    let q = w.place(Placed { map: m1, sprite: player(tex, 6, 6) }).unwrap();
    let events = vec![Event::Move { sprite: p, dx: 1, dy: 0 }, Event::Move { sprite: q, dx: 0, dy: 1 }];
    let (deltas, requests) = w.plan(&events);
    let acked = vec![
        acknowledge(deltas[0], Err(ChannelError::TimedOut)),
        acknowledge(deltas[1], Ok((6, 7))),
    ];
    assert_eq!(acked[0], Delta::Failed { error: ChannelError::TimedOut });
    w.commit(&acked, &requests);
    assert_eq!((w.sprite(p).sprite.image.x, w.sprite(p).sprite.image.y), (2, 2));
    assert_eq!((w.sprite(q).sprite.image.x, w.sprite(q).sprite.image.y), (6, 7));
}

#[test]
fn empty_events_change_nothing() {
    let (mut w, m1, _m2, a, _b) = two_maps();
    let tex = w.intern_texture(texture());
    w.place(Placed { map: m1, sprite: player(tex, 2, 2) }).unwrap();
    let door = Sprite {
        name: "gate".to_string(),
        class: SpriteClass::DoorTile { door: a },
        image: image(tex, 9, 5),
    };
    w.place(Placed { map: m1, sprite: door }).unwrap();
    let (deltas, requests) = w.plan(&vec![]);
    assert_eq!(deltas, vec![Delta::Keep, Delta::Keep]);
    let (deltas, requests) = w.plan(&vec![Event::Timer]);
    assert_eq!(deltas, vec![Delta::Keep, Delta::Keep]);
}

fn trainer_world() -> (World, usize) {
    let mut w = World::new();
    let m = w.intern_map(map(10, 10));
    let tex = w.intern_texture(texture());
    let tt = w.intern_trainer_type(TrainerType { name: "Hiker".to_string() });
    let trainer = Trainer {
        trainer_type: tt,
        name: "Ann".to_string(),
        dialog: vec!["Hello".to_string(), "Bye".to_string()],
    };
    let s = Sprite {
        name: "ann".to_string(),
        class: SpriteClass::Trainer { trainer, cursor: None },
        image: SpriteImage::new(tex, 3, 3, 2, 2, 0),
    };
    let i = w.place(Placed { map: m, sprite: s }).unwrap();
    (w, i)
}

fn cursor_of(w: &World, i: usize) -> Option<usize> {
    match &w.sprite(i).sprite.class {
        SpriteClass::Trainer { cursor, .. } => *cursor,
        _ => panic!("not a trainer"),
    }
}

#[test]
fn trainer_dialog_advances_and_resets() {
    let (mut w, i) = trainer_world();
    let (d, requests) = w.plan(&vec![Event::Interact { x: 4, y: 4 }]);
    assert_eq!(d, vec![Delta::Dialog { cursor: Some(0) }]);
    w.commit(&d, &requests);
    assert_eq!(cursor_of(&w, i), Some(0));
    match &w.sprite(i).sprite.class {
        SpriteClass::Trainer { trainer, cursor } => {
            assert_eq!(trainer.current_line(*cursor).map(|s| s.as_str()), Some("Hello"));
        }
        _ => panic!("not a trainer"),
    }
    let (d, requests) = w.plan(&vec![Event::Interact { x: 5, y: 4 }]);
    assert_eq!(d, vec![Delta::Keep]);
    let (d, requests) = w.plan(&vec![Event::Interact { x: 3, y: 3 }]);
    w.commit(&d, &requests);
    assert_eq!(cursor_of(&w, i), Some(1));
    let (d, requests) = w.plan(&vec![Event::EndInteraction]);
    w.commit(&d, &requests);
    assert_eq!(cursor_of(&w, i), None);
    let (d, requests) = w.plan(&vec![
        Event::Interact { x: 3, y: 4 },
        Event::Interact { x: 3, y: 4 },
        Event::Interact { x: 3, y: 4 },
    ]);
    assert_eq!(d, vec![Delta::Keep]);
}

#[test]
fn building_door_moves_player_to_other_map() {
    let (mut w, m1, m2, a, _b) = two_maps();
    let tex = w.intern_texture(texture());
    let p = w.place(Placed { map: m1, sprite: player(tex, 8, 6) }).unwrap();
    let building = Sprite {
        name: "house".to_string(),
        class: SpriteClass::Building { doors: vec![a] },
        image: SpriteImage::new(tex, 9, 5, 1, 3, 0),
    };
    let h = w.place(Placed { map: m1, sprite: building }).unwrap();
    let events = vec![Event::Move { sprite: p, dx: 1, dy: 0 }];
    let (deltas, requests) = w.plan(&events);
    assert_eq!(deltas[p], Delta::Propose { x: 9, y: 6 });
    assert_eq!(deltas[h], Delta::Keep);
    assert_eq!(requests.len(), 1);
    assert_eq!(requests[0].sprite, p);
    assert_eq!((requests[0].at_x, requests[0].at_y), (9, 6));
    assert_eq!(requests[0].to.map, m2);
    assert_eq!((requests[0].to.x, requests[0].to.y), (0, 1));
    let acked: Vec<Delta> = deltas.into_iter().map(|d| acknowledge(d, Ok((9, 6)))).collect();
    w.commit(&acked, &requests);
    let moved = w.sprite(p);
    assert_eq!(moved.map, m2);
    assert_eq!((moved.sprite.image.x, moved.sprite.image.y), (0, 1));
    assert_eq!(moved.sprite.image.rotate, 0);
}

#[test]
fn axis_flip_turns_the_sprite() {
    let mut w = World::new();
    let m1 = w.intern_map(map(10, 10));
    let m2 = w.intern_map(map(10, 10));
    let (a, _b) = w
        .create_door_pair(
            spec(m1, Orientation::Horizontal, Side::Near, 2, 2),
            spec(m2, Orientation::Vertical, Side::Far, 4, 4),
        )
        .unwrap();
    let tex = w.intern_texture(texture());
    let p = w.place(Placed { map: m1, sprite: player(tex, 3, 1) }).unwrap();
    let gate = Sprite { name: "gate".to_string(), class: SpriteClass::DoorTile { door: a }, image: image(tex, 2, 0) };
    w.place(Placed { map: m1, sprite: gate }).unwrap();
    let (deltas, requests) = w.plan(&vec![Event::Move { sprite: p, dx: 0, dy: -1 }]);
    let acked: Vec<Delta> = deltas.into_iter().map(|d| acknowledge(d, Ok((3, 0)))).collect();
    w.commit(&acked, &requests);
    let s = w.sprite(p);
    assert_eq!(s.map, m2);
    assert_eq!((s.sprite.image.x, s.sprite.image.y), (9, 6));
    assert_eq!(s.sprite.image.rotate, 90);
}

#[test]
fn two_phase_isolation_reads_pre_tick_positions() {
    // The building reacts to where the player means to go from its pre-tick
    // position; a second player's move in the same tick, onto the cell the
    // first leaves, does not change what either one sees.
    let (mut w, m1, m2, a, _b) = two_maps();
    let tex = w.intern_texture(texture());
    let p = w.place(Placed { map: m1, sprite: player(tex, 8, 7) }).unwrap();
    let q = w.place(Placed { map: m1, sprite: player(tex, 7, 7) }).unwrap();
    let building = Sprite {
        name: "house".to_string(),
        class: SpriteClass::Building { doors: vec![a] },
        image: SpriteImage::new(tex, 9, 5, 1, 3, 0),
    };
    let h = w.place(Placed { map: m1, sprite: building }).unwrap();
    let events = vec![Event::Move { sprite: q, dx: 1, dy: 0 }, Event::Move { sprite: p, dx: 1, dy: 0 }];
    let (before, requests) = w.plan(&events);
    let acked: Vec<Delta> = before
        .iter()
        .map(|d| match d {
            Delta::Propose { x, y } => acknowledge(*d, Ok((*x, *y))),
            _ => *d,
        })
        .collect();
    assert_eq!(before[q], Delta::Propose { x: 8, y: 7 });
    assert_eq!(before[h], Delta::Keep);
    assert_eq!(requests.len(), 1);
    assert_eq!(requests[0].sprite, p);
    w.commit(&acked, &requests);
    assert_eq!(w.sprite(p).map, m2);
    assert_eq!((w.sprite(p).sprite.image.x, w.sprite(p).sprite.image.y), (0, 2));
    assert_eq!(w.sprite(q).map, m1);
    assert_eq!((w.sprite(q).sprite.image.x, w.sprite(q).sprite.image.y), (8, 7));
}

#[test]
fn place_rejects_unknown_references() {
    let (mut w, m1, _m2, _a, _b) = two_maps();
    let tex = w.intern_texture(texture());
    assert_eq!(w.place(Placed { map: Handle { index: 9 }, sprite: player(tex, 0, 0) }), None);
    assert_eq!(w.place(Placed { map: m1, sprite: player(Handle { index: 3 }, 0, 0) }), None);
    let bad = Sprite {
        name: "house".to_string(),
        class: SpriteClass::Building { doors: vec![DoorId { index: 0 }, DoorId { index: 7 }] },
        image: image(tex, 0, 0),
    };
    assert_eq!(w.place(Placed { map: m1, sprite: bad }), None);
    assert_eq!(w.sprite_count(), 0);
}

#[test]
fn despawn_removes_between_ticks() {
    let (mut w, m1, _m2, _a, _b) = two_maps();
    let tex = w.intern_texture(texture());
    w.place(Placed { map: m1, sprite: player(tex, 1, 1) }).unwrap();
    w.place(Placed { map: m1, sprite: player(tex, 2, 2) }).unwrap();
    let gone = w.despawn(0);
    assert_eq!(gone.sprite.image.x, 1);
    assert_eq!(w.sprite_count(), 1);
    assert_eq!(w.sprite(0).sprite.image.x, 2);
}

#[test]
fn load_doors_installs_mutual_records() {
    let mut w = World::new();
    let m = w.intern_map(map(10, 10));
    assert_eq!(
        w.load_doors(vec![record(m, 0, 2, 1), record(m, 4, 2, 1)]),
        Err(DoorError::InvalidDoor)
    );
    assert_eq!(w.doors().len(), 0);
    assert_eq!(w.load_doors(vec![record(m, 0, 2, 1), record(m, 4, 2, 0)]), Ok(()));
    assert_eq!(w.doors().len(), 2);
    let t = w.doors().transition(w.maps(), DoorId { index: 0 }, 1);
    assert_eq!((t.coord, t.x, t.y), (5, 0, 5));
}

#[test]
fn movement_intents_are_summed_before_clamping() {
    let (mut w, m1, _m2, _a, _b) = two_maps();
    let tex = w.intern_texture(texture());
    let p = w.place(Placed { map: m1, sprite: player(tex, 0, 3) }).unwrap();
    let (d, requests) = w.plan(&vec![Event::Move { sprite: p, dx: -1, dy: 0 }, Event::Move { sprite: p, dx: 1, dy: 0 }]);
    assert_eq!(d, vec![Delta::Propose { x: 0, y: 3 }]);
    let (d, requests) = w.plan(&vec![Event::Move { sprite: p, dx: -5, dy: i32::MIN }, Event::Move { sprite: p, dx: 2, dy: 0 }]);
    assert_eq!(d, vec![Delta::Propose { x: 0, y: 0 }]);
    let (d, requests) = w.plan(&vec![Event::Move { sprite: p, dx: i32::MAX, dy: 0 }, Event::Move { sprite: p, dx: i32::MAX, dy: 0 }, Event::Move { sprite: p, dx: i32::MAX, dy: 0 }]);
    assert_eq!(d, vec![Delta::Propose { x: u32::MAX, y: 3 }]);
}

fn house_world() -> (World, usize, Handle, Handle) {
    let (mut w, m1, m2, a, _b) = two_maps();
    let tex = w.intern_texture(texture());
    let p = w.place(Placed { map: m1, sprite: player(tex, 8, 6) }).unwrap();
    let building = Sprite {
        name: "house".to_string(),
        class: SpriteClass::Building { doors: vec![a] },
        image: SpriteImage::new(tex, 9, 5, 1, 3, 0),
    };
    w.place(Placed { map: m1, sprite: building }).unwrap();
    (w, p, m1, m2)
}

#[test]
fn failed_channel_does_not_pass_the_door() {
    let (mut w, p, m1, _m2) = house_world();
    let (deltas, requests) = w.plan(&vec![Event::Move { sprite: p, dx: 1, dy: 0 }]);
    let acked: Vec<Delta> = deltas.into_iter().map(|d| acknowledge(d, Err(ChannelError::Failed))).collect();
    w.commit(&acked, &requests);
    assert_eq!(w.sprite(p).map, m1);
    assert_eq!((w.sprite(p).sprite.image.x, w.sprite(p).sprite.image.y), (8, 6));
}

#[test]
fn corrected_position_does_not_pass_the_door() {
    let (mut w, p, m1, _m2) = house_world();
    let (deltas, requests) = w.plan(&vec![Event::Move { sprite: p, dx: 1, dy: 0 }]);
    let acked: Vec<Delta> = deltas.into_iter().map(|d| acknowledge(d, Ok((8, 7)))).collect();
    w.commit(&acked, &requests);
    assert_eq!(w.sprite(p).map, m1);
    assert_eq!((w.sprite(p).sprite.image.x, w.sprite(p).sprite.image.y), (8, 7));
}

#[test]
fn unacknowledged_proposal_does_not_pass_the_door() {
    let (mut w, p, m1, _m2) = house_world();
    let (deltas, requests) = w.plan(&vec![Event::Move { sprite: p, dx: 1, dy: 0 }]);
    w.commit(&deltas, &requests);
    assert_eq!(w.sprite(p).map, m1);
    assert_eq!((w.sprite(p).sprite.image.x, w.sprite(p).sprite.image.y), (8, 6));
}

#[test]
fn every_entrant_gets_a_door_request() {
    let (mut w, m1, m2, a, _b) = two_maps();
    let tex = w.intern_texture(texture());
    let p = w.place(Placed { map: m1, sprite: player(tex, 8, 5) }).unwrap();
    let q = w.place(Placed { map: m1, sprite: player(tex, 8, 7) }).unwrap();
    let gate = Sprite { name: "gate".to_string(), class: SpriteClass::DoorTile { door: a }, image: image(tex, 9, 5) };
    w.place(Placed { map: m1, sprite: gate }).unwrap();
    let events = vec![Event::Move { sprite: p, dx: 1, dy: 0 }, Event::Move { sprite: q, dx: 1, dy: 0 }];
    let (deltas, requests) = w.plan(&events);
    assert_eq!(requests.len(), 2);
    assert_eq!((requests[0].sprite, requests[0].to.y), (p, 0));
    assert_eq!((requests[1].sprite, requests[1].to.y), (q, 2));
    let acked: Vec<Delta> = deltas
        .iter()
        .map(|d| match d {
            Delta::Propose { x, y } => acknowledge(*d, Ok((*x, *y))),
            _ => *d,
        })
        .collect();
    w.commit(&acked, &requests);
    assert_eq!((w.sprite(p).map, w.sprite(p).sprite.image.y), (m2, 0));
    assert_eq!((w.sprite(q).map, w.sprite(q).sprite.image.y), (m2, 2));
}
