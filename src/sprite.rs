//! Sprites: their image, their four kinds, the events they react to, and the
//! per-kind reactions that need only the sprite itself.
use vstd::prelude::*;
use crate::door::{DoorId, Transition};
use crate::registry::Handle;

verus! {

/// `deg` brought into `[0, 360)`.
pub open spec fn normalized(deg: int) -> int {
    deg % 360
}

/// Normalizes a rotation in degrees into `[0, 360)`, negative inputs included.
pub fn normalize(deg: i64) -> (r: u16)
    ensures
        r as int == normalized(deg as int),
        r < 360,
{
    if deg >= 0 {
        ((deg as u64) % 360) as u16
    } else {
        let t: u64 = (-(deg + 1)) as u64;
        let m: u64 = t % 360;
        proof {
            let k = t as int / 360;
            assert(t as int == 360 * k + m);
            assert(deg as int == 360 * (-k - 1) + (359 - m as int));
            vstd::arithmetic::div_mod::lemma_fundamental_div_mod_converse(
                deg as int,
                360,
                -k - 1,
                359 - m as int,
            );
        }
        (359 - m) as u16
    }
}

/// The drawable and positional state of a sprite.
#[derive(Clone, Copy, Debug, PartialEq, Eq, Structural)]
pub struct SpriteImage {
    pub texture: Handle,
    pub x: u32,
    pub y: u32,
    pub w: u32,
    pub h: u32,
    /// Degrees, always in `[0, 360)`.
    pub rotate: u16,
}

impl SpriteImage {
    pub open spec fn wf(self) -> bool {
        self.rotate < 360
    }

    /// Whether the cell `(x, y)` lies on the sprite's footprint.
    pub open spec fn covers(self, x: int, y: int) -> bool {
        self.x <= x < self.x + self.w && self.y <= y < self.y + self.h
    }

    pub fn new(texture: Handle, x: u32, y: u32, w: u32, h: u32, rotate: i64) -> (r: SpriteImage)
        ensures
            r.wf(),
            r == (SpriteImage { texture, x, y, w, h, rotate: normalized(rotate as int) as u16 }),
    {
        SpriteImage { texture, x, y, w, h, rotate: normalize(rotate) }
    }

    pub fn covers_cell(&self, x: u32, y: u32) -> (r: bool)
        ensures
            r == self.covers(x as int, y as int),
    {
        self.x <= x && (x as u64) < self.x as u64 + self.w as u64 && self.y <= y && (y as u64)
            < self.y as u64 + self.h as u64
    }

    /// Sets the rotation to `deg`, normalized.
    pub fn set_rotation(&mut self, deg: i64)
        ensures
            final(self).wf(),
            *final(self) == (SpriteImage { rotate: normalized(deg as int) as u16, ..*old(self) }),
    {
        self.rotate = normalize(deg);
    }

    /// Turns the sprite by `delta` degrees.
    pub fn rotate_by(&mut self, delta: i32)
        ensures
            final(self).wf(),
            *final(self) == (SpriteImage {
                rotate: normalized(old(self).rotate + delta) as u16,
                ..*old(self)
            }),
    {
        self.rotate = normalize(self.rotate as i64 + delta as i64);
    }
}

/// An occurrence delivered to every sprite in a tick.
#[derive(Clone, Copy, Debug, PartialEq, Eq, Structural)]
pub enum Event {
    /// The sprite at index `sprite` intends to move by `(dx, dy)`.
    Move { sprite: usize, dx: i32, dy: i32 },
    /// An interaction aimed at the cell `(x, y)`.
    Interact { x: u32, y: u32 },
    /// The current interaction session is over.
    EndInteraction,
    /// A clock tick; no kind reacts to it.
    Timer,
}

/// A specific non-player character.
#[derive(Clone, Debug)]
pub struct Trainer {
    pub trainer_type: Handle,
    pub name: String,
    pub dialog: Vec<String>,
}

impl Trainer {
    /// The dialog line at `cursor`, if the cursor is on one.
    pub fn current_line(&self, cursor: Option<usize>) -> (r: Option<&String>)
        ensures
            r is Some <==> (cursor matches Some(k) && k < self.dialog@.len()),
            r matches Some(l) ==> *l == self.dialog@[cursor->0 as int],
    {
        match cursor {
            Some(k) => if k < self.dialog.len() {
                Some(&self.dialog[k])
            } else {
                None
            },
            None => None,
        }
    }
}

/// The kind of a sprite, with the data that belongs to it.
#[derive(Clone, Debug)]
pub enum SpriteClass {
    /// Moved by movement intents and confirmed through a client channel.
    Player,
    /// Speaks its dialog lines when interacted with; `cursor` is the line shown.
    Trainer { trainer: Trainer, cursor: Option<usize> },
    /// A building with entry doors on its footprint.
    Building { doors: Vec<DoorId> },
    /// A freestanding portal.
    DoorTile { door: DoorId },
}

#[derive(Clone, Debug)]
pub struct Sprite {
    pub name: String,
    pub class: SpriteClass,
    pub image: SpriteImage,
}

/// Why the client channel gave no answer.
#[derive(Clone, Copy, Debug, PartialEq, Eq, Structural)]
pub enum ChannelError {
    Failed,
    TimedOut,
}

/// The change that one sprite asks for in a tick.
#[derive(Clone, Copy, Debug, PartialEq, Eq, Structural)]
pub enum Delta {
    /// Nothing changes.
    Keep,
    /// A player's proposed position, still to be sent to its client channel.
    Propose { x: u32, y: u32 },
    /// A position to move to.
    MoveTo { x: u32, y: u32 },
    /// The client channel failed; this sprite keeps its state for the tick.
    Failed { error: ChannelError },
    /// A trainer's new dialog cursor.
    Dialog { cursor: Option<usize> },
}

/// A door's request to move a sprite: the sprite at index `sprite`, on
/// reaching the cell `(at_x, at_y)` of the door, passes it and comes out at `to`.
#[derive(Clone, Copy, Debug, PartialEq, Eq, Structural)]
pub struct Request {
    pub sprite: usize,
    pub at_x: u32,
    pub at_y: u32,
    pub to: Transition,
}

/// `p + d`, kept within the range of a coordinate.
pub open spec fn step(p: int, d: int) -> int {
    if p + d < 0 {
        0
    } else if p + d > u32::MAX {
        u32::MAX as int
    } else {
        p + d
    }
}

/// The sum of the movement intents of sprite `s` among the first `n` events.
pub open spec fn move_sum(events: Seq<Event>, n: nat, s: int) -> (int, int)
    decreases n,
{
    if n == 0 {
        (0, 0)
    } else {
        let m = move_sum(events, (n - 1) as nat, s);
        match events[n - 1] {
            Event::Move { sprite, dx, dy } => if sprite == s {
                (m.0 + dx, m.1 + dy)
            } else {
                m
            },
            _ => m,
        }
    }
}

/// Where sprite `s` that stands at `(x, y)` means to be after the first `n`
/// events: its position plus the sum of its movement intents, kept within
/// the range of a coordinate.
pub open spec fn moved(events: Seq<Event>, n: nat, s: int, x: int, y: int) -> (int, int) {
    let m = move_sum(events, n, s);
    (step(x, m.0), step(y, m.1))
}

/// Whether one of the first `n` events moves sprite `s`.
pub open spec fn has_move(events: Seq<Event>, n: nat, s: int) -> bool
    decreases n,
{
    if n == 0 {
        false
    } else {
        has_move(events, (n - 1) as nat, s) || (events[n - 1] matches Event::Move { sprite, .. }
            && sprite == s)
    }
}

/// Where sprite `s` proposes to go after all movement intents of a tick.
pub fn propose_position(image: &SpriteImage, s: usize, events: &Vec<Event>) -> (r: (u32, u32))
    ensures
        (r.0 as int, r.1 as int) == moved(events@, events@.len(), s as int, image.x as int, image.y as int),
{
    let mut sx: i128 = 0;
    let mut sy: i128 = 0;
    let mut i: usize = 0;
    while i < events.len()
        invariant
            i <= events@.len(),
            (sx as int, sy as int) == move_sum(events@, i as nat, s as int),
            -(i as int) * 0x8000_0000 <= sx <= (i as int) * 0x8000_0000,
            -(i as int) * 0x8000_0000 <= sy <= (i as int) * 0x8000_0000,
        decreases events@.len() - i,
    {
        match events[i] {
            Event::Move { sprite, dx, dy } => {
                if sprite == s {
                    sx = sx + dx as i128;
                    sy = sy + dy as i128;
                }
            },
            _ => {},
        }
        i = i + 1;
    }
    (clamp_coord(image.x as i128 + sx), clamp_coord(image.y as i128 + sy))
}

/// Whether one of the events moves sprite `s`.
pub fn moves(s: usize, events: &Vec<Event>) -> (r: bool)
    ensures
        r == has_move(events@, events@.len(), s as int),
{
    let mut i: usize = 0;
    let mut found = false;
    while i < events.len()
        invariant
            i <= events@.len(),
            found == has_move(events@, i as nat, s as int),
        decreases events@.len() - i,
    {
        match events[i] {
            Event::Move { sprite, .. } => {
                if sprite == s {
                    found = true;
                }
            },
            _ => {},
        }
        i = i + 1;
    }
    found
}

fn clamp_coord(v: i128) -> (r: u32)
    ensures
        r as int == step(0, v as int),
{
    if v < 0 {
        0
    } else if v > u32::MAX as i128 {
        u32::MAX
    } else {
        v as u32
    }
}

/// The dialog cursor after one interaction on a sprite with `lines` lines:
/// the first line, then each next one, and past the last the session ends.
pub open spec fn next_line(cursor: Option<usize>, lines: int) -> Option<usize> {
    match cursor {
        None => if lines > 0 {
            Some(0usize)
        } else {
            None
        },
        Some(k) => if k + 1 < lines {
            Some((k + 1) as usize)
        } else {
            None
        },
    }
}

/// A trainer's cursor after the first `n` events.
pub open spec fn dialog_after(
    events: Seq<Event>,
    n: nat,
    image: SpriteImage,
    lines: int,
    cursor: Option<usize>,
) -> Option<usize>
    decreases n,
{
    if n == 0 {
        cursor
    } else {
        let c = dialog_after(events, (n - 1) as nat, image, lines, cursor);
        match events[n - 1] {
            Event::Interact { x, y } => if image.covers(x as int, y as int) {
                next_line(c, lines)
            } else {
                c
            },
            Event::EndInteraction => None,
            _ => c,
        }
    }
}

/// A trainer's dialog cursor after the interactions of a tick.
pub fn advance_dialog(trainer: &Trainer, cursor: Option<usize>, image: &SpriteImage, events: &Vec<
    Event,
>) -> (r: Option<usize>)
    ensures
        r == dialog_after(events@, events@.len(), *image, trainer.dialog@.len() as int, cursor),
{
    let lines = trainer.dialog.len();
    let mut c = cursor;
    let mut i: usize = 0;
    while i < events.len()
        invariant
            i <= events@.len(),
            lines == trainer.dialog@.len(),
            c == dialog_after(events@, i as nat, *image, lines as int, cursor),
        decreases events@.len() - i,
    {
        match events[i] {
            Event::Interact { x, y } => {
                if image.covers_cell(x, y) {
                    c = match c {
                        None => if lines > 0 {
                            Some(0)
                        } else {
                            None
                        },
                        Some(k) => if lines > 0 && k < lines - 1 {
                            Some(k + 1)
                        } else {
                            None
                        },
                    };
                }
            },
            Event::EndInteraction => {
                c = None;
            },
            _ => {},
        }
        i = i + 1;
    }
    c
}

} // verus!
