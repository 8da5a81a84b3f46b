//! Per-player state and the local simulation steps that mutate it.
//!
//! Coordinates, speeds and animation progress are held in thousandths of a
//! screen unit, so every step of the simulation is exact integer arithmetic.

use vstd::prelude::*;
use crate::direction::Direction;

verus! {

/// Screen width, in thousandths.
pub const SCREEN_W_MILLI: i64 = 640_000;

/// Screen height, in thousandths.
pub const SCREEN_H_MILLI: i64 = 480_000;

/// Base movement speed per simulation step, in thousandths.
pub const PLAYER_MOVE_SPEED_MILLI: i64 = 1_000;

/// Acceleration ceiling, in thousandths.
pub const PLAYER_TOP_ACCEL_MILLI: i64 = 5_000;

/// Acceleration gained per moving step, in thousandths.
pub const PLAYER_ACCEL_MILLI: i64 = 200;

/// Acceleration a fresh player starts with, in thousandths.
pub const PLAYER_STARTING_ACCEL_MILLI: i64 = 400;

/// Height of a jump, in thousandths.
pub const PLAYER_JUMP_HEIGHT_MILLI: i64 = 500;

/// Sprite cell height, in thousandths.
pub const PLAYER_CELL_HEIGHT_MILLI: i64 = 44_000;

/// Sprite cell width, in thousandths.
pub const PLAYER_CELL_WIDTH_MILLI: i64 = 34_000;

/// Friction factor applied to acceleration while coasting.
pub const MAP_FRICTION: i64 = 5;

/// Hit points a fresh player starts with.
pub const PLAYER_MAX_HP: i64 = 100;

/// Magic points a fresh player starts with.
pub const PLAYER_MAX_MP: i64 = 30;

/// Strength a fresh player starts with.
pub const PLAYER_MAX_STR: i64 = 10;

/// Frames of one animation cycle.
pub const ANIMATION_TOTAL_FRAMES: i64 = 4;

/// An axis-aligned screen rectangle, in thousandths of a unit.
///
/// The game compares two rectangles by *overlap*, not by coordinate
/// equality; that deliberate collision semantics lives in [`Position::overlaps`],
/// while `==` on this type is ordinary field equality.
#[derive(Clone, Copy, Debug, PartialEq, Eq, Structural)]
pub struct Position {
    pub x: i64,
    pub y: i64,
    pub w: i64,
    pub h: i64,
}

/// Whether two rectangles intersect, edges included.
pub open spec fn spec_overlaps(a: Position, b: Position) -> bool {
    &&& a.x <= b.x + b.w
    &&& b.x <= a.x + a.w
    &&& a.y <= b.y + b.h
    &&& b.y <= a.y + a.h
}

impl Position {
    /// Collision test: whether this rectangle and `other` intersect,
    /// edges included.
    pub fn overlaps(&self, other: &Position) -> (r: bool)
        ensures
            r == spec_overlaps(*self, *other),
    {
        let ax = self.x as i128;
        let ay = self.y as i128;
        let aw = self.w as i128;
        let ah = self.h as i128;
        let bx = other.x as i128;
        let by = other.y as i128;
        let bw = other.w as i128;
        let bh = other.h as i128;
        ax <= bx + bw && bx <= ax + aw && ay <= by + bh && by <= ay + ah
    }
}

/// One player of a session: identity, body rectangle, movement intent and
/// the transient simulation state that travels in position updates.
#[derive(Clone, Debug)]
pub struct Player {
    /// The body rectangle the player occupies on screen.
    pub body: Position,
    pub is_hit: bool,
    /// Current movement intent.
    pub dir: Direction,
    /// The directions actually moved in the latest step; coasting repeats them.
    pub last_dir: Direction,
    /// At most eight alphanumeric characters.
    pub name: String,
    pub hp: i64,
    pub mp: i64,
    pub str: i64,
    /// Current acceleration, in thousandths.
    pub current_accel: i64,
    pub jumping: bool,
    /// Height already gained in the current jump, in thousandths.
    pub jump_offset: i64,
    pub ready: bool,
    /// Whether the current jump is still rising.
    pub jump_direction: bool,
    /// Progress through the animation cycle, in thousandths.
    pub animation_frame: i64,
}

/// The bounds the simulation keeps a locally driven player inside: the body
/// near the screen, acceleration between coasting floor and ceiling.
pub open spec fn spec_move_range(p: Player) -> bool {
    &&& -10_000 <= p.body.x <= 650_000
    &&& -10_000 <= p.body.y <= 650_000
    &&& -1_000 <= p.current_accel <= 5_200
}

/// The bounds a jump keeps its offset inside: a whole number of rise steps
/// between the ground and the jump height.
pub open spec fn spec_jump_range(p: Player) -> bool {
    0 <= p.jump_offset <= PLAYER_JUMP_HEIGHT_MILLI && p.jump_offset % 100 == 0
}

/// Whether `p` is in the fresh state for `name` and `pos` (the name field is
/// compared by view, the rest by value).
pub open spec fn spec_is_new_player(p: Player, name: Seq<char>, pos: Position) -> bool {
    &&& p.name@ == name
    &&& p.body == pos
    &&& p.is_hit == false
    &&& p.dir == (Direction { up: false, down: false, left: false, right: false })
    &&& p.last_dir == (Direction { up: false, down: false, left: false, right: false })
    &&& p.hp == PLAYER_MAX_HP
    &&& p.mp == PLAYER_MAX_MP
    &&& p.str == PLAYER_MAX_STR
    &&& p.current_accel == PLAYER_STARTING_ACCEL_MILLI
    &&& p.jumping == false
    &&& p.jump_offset == 0
    &&& p.ready == false
    &&& p.jump_direction == true
    &&& p.animation_frame == 0
}

/// The acceleration after one moving step: grown by one increment until the
/// ceiling is reached.
pub open spec fn spec_accel_step(a: int) -> int {
    if a < PLAYER_TOP_ACCEL_MILLI {
        a + PLAYER_ACCEL_MILLI
    } else {
        a
    }
}

/// One intentional movement step: acceleration grows, then each intended
/// axis direction is applied in the order up, down, left, right, each only
/// while its screen bound allows it, and the directions actually applied are
/// recorded in `last_dir`.
pub open spec fn spec_move_direction(p: Player) -> Player {
    let a = spec_accel_step(p.current_accel as int);
    let step = PLAYER_MOVE_SPEED_MILLI + a;
    let go_up = p.dir.up && p.body.y > PLAYER_CELL_HEIGHT_MILLI;
    let y1 = if go_up {
        p.body.y - step
    } else {
        p.body.y as int
    };
    let go_down = p.dir.down && y1 < SCREEN_H_MILLI - 2 * PLAYER_CELL_HEIGHT_MILLI;
    let y2 = if go_down {
        y1 + step
    } else {
        y1
    };
    let go_left = p.dir.left && p.body.x > 0;
    let x1 = if go_left {
        p.body.x - step
    } else {
        p.body.x as int
    };
    let go_right = p.dir.right && x1 < SCREEN_W_MILLI - PLAYER_CELL_WIDTH_MILLI;
    let x2 = if go_right {
        x1 + step
    } else {
        x1
    };
    Player {
        body: Position { x: x2 as i64, y: y2 as i64, ..p.body },
        last_dir: Direction { up: go_up, down: go_down, left: go_left, right: go_right },
        current_accel: a as i64,
        ..p
    }
}

/// One coasting step: the latest moved directions are repeated under the
/// same screen bounds, and friction drains the acceleration that was left.
pub open spec fn spec_move_cooldown(p: Player) -> Player {
    let step = PLAYER_MOVE_SPEED_MILLI + p.current_accel;
    let go_up = p.last_dir.up && p.body.y > PLAYER_CELL_HEIGHT_MILLI;
    let y1 = if go_up {
        p.body.y - step
    } else {
        p.body.y as int
    };
    let go_down = p.last_dir.down && y1 < SCREEN_H_MILLI - 2 * PLAYER_CELL_HEIGHT_MILLI;
    let y2 = if go_down {
        y1 + step
    } else {
        y1
    };
    let go_left = p.last_dir.left && p.body.x > 0;
    let x1 = if go_left {
        p.body.x - step
    } else {
        p.body.x as int
    };
    let go_right = p.last_dir.right && x1 < SCREEN_W_MILLI - PLAYER_CELL_WIDTH_MILLI;
    let x2 = if go_right {
        x1 + step
    } else {
        x1
    };
    let a = if p.current_accel > 0 {
        p.current_accel - PLAYER_ACCEL_MILLI * MAP_FRICTION
    } else {
        p.current_accel as int
    };
    Player {
        body: Position { x: x2 as i64, y: y2 as i64, ..p.body },
        current_accel: a as i64,
        ..p
    }
}

/// One step of the jump arc: the offset climbs to the jump height, holds one
/// step at the top, descends, and the jump ends back at zero.  Without a
/// jump in progress the offset stays cleared.
pub open spec fn spec_jump_step(p: Player) -> Player {
    if p.jumping {
        if p.jump_direction && p.jump_offset < PLAYER_JUMP_HEIGHT_MILLI {
            Player { jump_offset: (p.jump_offset + 100) as i64, ..p }
        } else if p.jump_direction && p.jump_offset == PLAYER_JUMP_HEIGHT_MILLI {
            Player { jump_direction: false, ..p }
        } else if !p.jump_direction && p.jump_offset <= PLAYER_JUMP_HEIGHT_MILLI && p.jump_offset
            > 0 {
            Player { jump_offset: (p.jump_offset - 100) as i64, ..p }
        } else {
            Player { jumping: false, jump_offset: 0, jump_direction: true, ..p }
        }
    } else {
        Player { jump_offset: 0, ..p }
    }
}

/// One whole simulation step: the jump arc advances, then, when movement is
/// asked for, the player either moves with intent or coasts while residual
/// acceleration remains.
pub open spec fn spec_update(p: Player, do_move: bool) -> Player {
    let q = spec_jump_step(p);
    if do_move {
        if spec_is_moving(q) {
            spec_move_direction(q)
        } else if q.current_accel > PLAYER_STARTING_ACCEL_MILLI {
            spec_move_cooldown(q)
        } else {
            q
        }
    } else {
        q
    }
}

/// Whether any movement intent flag is set.
pub open spec fn spec_is_moving(p: Player) -> bool {
    p.dir.up || p.dir.down || p.dir.left || p.dir.right
}

/// The row of the sprite sheet the current intent selects, in thousandths:
/// the current direction wins over the remembered one, and standing fully
/// still shows the downward row.
pub open spec fn spec_animation_direction(p: Player) -> i64 {
    if p.dir.up {
        250
    } else if p.dir.left {
        500
    } else if p.dir.right {
        750
    } else if p.dir.down {
        0
    } else if p.last_dir.left {
        500
    } else if p.last_dir.right {
        750
    } else if p.last_dir.up {
        250
    } else {
        0
    }
}

impl Player {
    /// Creates a player with the given name and body, standing still with
    /// full stats.
    pub fn new(name: String, pos: Position) -> (p: Player)
        ensures
            spec_is_new_player(p, name@, pos),
    {
        Player {
            name,
            body: pos,
            dir: Direction { up: false, down: false, left: false, right: false },
            last_dir: Direction { up: false, down: false, left: false, right: false },
            current_accel: PLAYER_STARTING_ACCEL_MILLI,
            hp: PLAYER_MAX_HP,
            mp: PLAYER_MAX_MP,
            str: PLAYER_MAX_STR,
            jumping: false,
            jump_offset: 0,
            jump_direction: true,
            ready: false,
            animation_frame: 0,
            is_hit: false,
        }
    }

    /// Clears the record of the directions last moved in.
    pub fn reset_last_dir(&mut self)
        ensures
            *final(self) == (Player {
                last_dir: Direction { up: false, down: false, left: false, right: false },
                ..*old(self)
            }),
    {
        self.last_dir.left = false;
        self.last_dir.right = false;
        self.last_dir.up = false;
        self.last_dir.down = false;
    }

    /// Whether any movement intent flag is set.
    pub fn is_moving(&self) -> (r: bool)
        ensures
            r == spec_is_moving(*self),
    {
        self.dir.up || self.dir.down || self.dir.left || self.dir.right
    }

    /// Applies one intentional movement step.
    #[verifier::rlimit(50)]
    pub fn move_direction(&mut self)
        requires
            spec_move_range(*old(self)),
        ensures
            *final(self) == spec_move_direction(
                Player {
                    last_dir: Direction { up: false, down: false, left: false, right: false },
                    ..*old(self)
                },
            ),
            spec_move_range(*final(self)),
    {
        self.reset_last_dir();
        if self.current_accel < PLAYER_TOP_ACCEL_MILLI {
            self.current_accel = self.current_accel + PLAYER_ACCEL_MILLI;
        }
        if self.dir.up && self.body.y > PLAYER_CELL_HEIGHT_MILLI {
            self.body.y = self.body.y - (PLAYER_MOVE_SPEED_MILLI + self.current_accel);
            self.last_dir.up = true;
        }
        if self.dir.down && self.body.y < SCREEN_H_MILLI - 2 * PLAYER_CELL_HEIGHT_MILLI {
            self.body.y = self.body.y + (PLAYER_MOVE_SPEED_MILLI + self.current_accel);
            self.last_dir.down = true;
        }
        if self.dir.left && self.body.x > 0 {
            self.body.x = self.body.x - (PLAYER_MOVE_SPEED_MILLI + self.current_accel);
            self.last_dir.left = true;
        }
        if self.dir.right && self.body.x < SCREEN_W_MILLI - PLAYER_CELL_WIDTH_MILLI {
            self.body.x = self.body.x + (PLAYER_MOVE_SPEED_MILLI + self.current_accel);
            self.last_dir.right = true;
        }
    }

    /// Applies one coasting step.
    #[verifier::rlimit(100)]
    pub fn move_direction_cooldown(&mut self)
        requires
            spec_move_range(*old(self)),
        ensures
            *final(self) == spec_move_cooldown(*old(self)),
            spec_move_range(*final(self)),
    {
        let ghost p = *self;
        let step = PLAYER_MOVE_SPEED_MILLI + self.current_accel;
        if self.last_dir.up && self.body.y > PLAYER_CELL_HEIGHT_MILLI {
            self.body.y = self.body.y - step;
        }
        if self.last_dir.down && self.body.y < SCREEN_H_MILLI - 2 * PLAYER_CELL_HEIGHT_MILLI {
            self.body.y = self.body.y + step;
        }
        proof {
            assert(self.body.y == spec_move_cooldown(p).body.y);
        }
        if self.last_dir.left && self.body.x > 0 {
            self.body.x = self.body.x - step;
        }
        if self.last_dir.right && self.body.x < SCREEN_W_MILLI - PLAYER_CELL_WIDTH_MILLI {
            self.body.x = self.body.x + step;
        }
        proof {
            assert(self.body.x == spec_move_cooldown(p).body.x);
        }
        if self.current_accel > 0 {
            self.current_accel = self.current_accel - PLAYER_ACCEL_MILLI * MAP_FRICTION;
        }
        proof {
            assert(self.current_accel == spec_move_cooldown(p).current_accel);
        }
    }

    /// Applies one whole simulation step; `do_move` selects whether movement
    /// is simulated besides the jump arc.
    pub fn update(&mut self, do_move: bool)
        requires
            spec_jump_range(*old(self)),
            do_move ==> spec_move_range(*old(self)),
        ensures
            *final(self) == spec_update(*old(self), do_move),
            spec_jump_range(*final(self)),
            do_move ==> spec_move_range(*final(self)),
    {
        if self.jumping {
            if self.jump_direction && self.jump_offset < PLAYER_JUMP_HEIGHT_MILLI {
                self.jump_offset = self.jump_offset + 100;
            } else if self.jump_direction && self.jump_offset == PLAYER_JUMP_HEIGHT_MILLI {
                self.jump_direction = false;
            } else if !self.jump_direction && self.jump_offset <= PLAYER_JUMP_HEIGHT_MILLI
                && self.jump_offset > 0 {
                self.jump_offset = self.jump_offset - 100;
            } else {
                self.jumping = false;
                self.jump_offset = 0;
                self.jump_direction = true;
            }
        } else {
            self.jump_offset = 0;
        }
        if do_move {
            if self.is_moving() {
                self.move_direction();
            } else if self.current_accel > PLAYER_STARTING_ACCEL_MILLI {
                self.move_direction_cooldown();
            }
        }
    }

    /// The sprite-sheet row for the current intent, in thousandths.
    pub fn get_animation_direction(&self) -> (r: i64)
        ensures
            r == spec_animation_direction(*self),
    {
        if self.dir.up {
            250
        } else if self.dir.left {
            500
        } else if self.dir.right {
            750
        } else if self.dir.down {
            0
        } else if self.last_dir.left {
            500
        } else if self.last_dir.right {
            750
        } else if self.last_dir.up {
            250
        } else {
            0
        }
    }

    /// Advances the animation cycle by one frame when the player is moving
    /// and the caller reports that the frame duration has elapsed; wraps back
    /// to the start of the cycle.
    pub fn animate_frames(&mut self, duration_elapsed: bool)
        requires
            0 <= old(self).animation_frame <= 1000,
        ensures
            *final(self) == (Player {
                animation_frame: if spec_is_moving(*old(self)) && duration_elapsed {
                    if old(self).animation_frame + 1000int / (ANIMATION_TOTAL_FRAMES as int) >= 1000 {
                        0
                    } else {
                        (old(self).animation_frame + 1000int / (ANIMATION_TOTAL_FRAMES as int)) as i64
                    }
                } else {
                    old(self).animation_frame
                },
                ..*old(self)
            }),
            0 <= final(self).animation_frame <= 1000,
    {
        if self.is_moving() && duration_elapsed {
            self.animation_frame = self.animation_frame + 1000 / ANIMATION_TOTAL_FRAMES;
            if self.animation_frame >= 1000 {
                self.animation_frame = 0;
            }
        }
    }
}

} // verus!
