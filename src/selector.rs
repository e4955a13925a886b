use vstd::prelude::*;

verus! {

/// A point in screen space, in pixels, origin top-left, y down.
#[derive(Clone, Copy, Debug, PartialEq, Eq, Structural)]
pub struct Vec2i {
    pub x: i32,
    pub y: i32,
}

impl Vec2i {
    pub fn new(x: i32, y: i32) -> (r: Vec2i)
        ensures
            r.x == x && r.y == y,
    {
        Vec2i { x, y }
    }
}

/// A screen rectangle: its top-left corner and a non-negative size.
#[derive(Clone, Copy, Debug, PartialEq, Eq, Structural)]
pub struct ScreenRect {
    pub pos: Vec2i,
    pub width: u32,
    pub height: u32,
}

pub open spec fn abs_diff(a: int, b: int) -> int {
    if a <= b { b - a } else { a - b }
}

pub open spec fn lesser(a: int, b: int) -> int {
    if a <= b { a } else { b }
}

impl ScreenRect {
    /// The rectangle spanned by the two ends of a drag.
    pub open spec fn spec_from_drag(a: Vec2i, b: Vec2i) -> ScreenRect {
        ScreenRect {
            pos: Vec2i { x: lesser(a.x as int, b.x as int) as i32, y: lesser(a.y as int, b.y as int) as i32 },
            width: abs_diff(a.x as int, b.x as int) as u32,
            height: abs_diff(a.y as int, b.y as int) as u32,
        }
    }

    /// Normalises a drag from `a` to `b`: the corner is the component-wise
    /// minimum and the size is the absolute difference, so it is never
    /// negative, whichever way the pointer went.
    pub fn from_drag(a: Vec2i, b: Vec2i) -> (r: ScreenRect)
        ensures
            r == ScreenRect::spec_from_drag(a, b),
            r.pos.x == lesser(a.x as int, b.x as int),
            r.pos.y == lesser(a.y as int, b.y as int),
            r.width == abs_diff(a.x as int, b.x as int),
            r.height == abs_diff(a.y as int, b.y as int),
    {
        let (x, w) = if a.x <= b.x {
            (a.x, (b.x as i64 - a.x as i64) as u32)
        } else {
            (b.x, (a.x as i64 - b.x as i64) as u32)
        };
        let (y, h) = if a.y <= b.y {
            (a.y, (b.y as i64 - a.y as i64) as u32)
        } else {
            (b.y, (a.y as i64 - b.y as i64) as u32)
        };
        ScreenRect { pos: Vec2i { x, y }, width: w, height: h }
    }

    /// The four corners in pixels: top-left, top-right, bottom-right,
    /// bottom-left.
    pub fn corners(&self) -> (r: [(i64, i64); 4])
        ensures
            r@ == seq![
                (self.pos.x as i64, self.pos.y as i64),
                ((self.pos.x + self.width) as i64, self.pos.y as i64),
                ((self.pos.x + self.width) as i64, (self.pos.y + self.height) as i64),
                (self.pos.x as i64, (self.pos.y + self.height) as i64),
            ],
    {
        let x0 = self.pos.x as i64;
        let y0 = self.pos.y as i64;
        let x1 = x0 + self.width as i64;
        let y1 = y0 + self.height as i64;
        let r = [(x0, y0), (x1, y0), (x1, y1), (x0, y1)];
        assert(r@ =~= seq![(x0, y0), (x1, y0), (x1, y1), (x0, y1)]);
        r
    }
}


/// One frame's snapshot of the mouse: the pointer and, per button, whether it
/// went down this frame, came up this frame, or is held.
#[derive(Clone, Copy, Debug)]
pub struct MouseState {
    pub pos: Vec2i,
    pub pressed: [bool; 8],
    pub released: [bool; 8],
    pub down: [bool; 8],
}

impl Default for MouseState {
    fn default() -> (r: MouseState)
        ensures
            r.pos == (Vec2i { x: 0, y: 0 }),
            forall|i: int| 0 <= i < 8 ==> !r.pressed@[i] && !r.released@[i] && !r.down@[i],
    {
        MouseState { pos: Vec2i { x: 0, y: 0 }, pressed: [false; 8], released: [false; 8], down: [false; 8] }
    }
}

impl MouseState {
    pub fn position(&self) -> (r: Vec2i)
        ensures
            r == self.pos,
    {
        self.pos
    }

    pub fn is_pressed(&self, button: usize) -> (r: bool)
        requires
            button < 8,
        ensures
            r == self.pressed@[button as int],
    {
        self.pressed[button]
    }

    pub fn is_released(&self, button: usize) -> (r: bool)
        requires
            button < 8,
        ensures
            r == self.released@[button as int],
    {
        self.released[button]
    }

    pub fn is_down(&self, button: usize) -> (r: bool)
        requires
            button < 8,
        ensures
            r == self.down@[button as int],
    {
        self.down[button]
    }
}

/// How the camera is driven; drag selection works in the RTS mode only.
#[derive(Clone, Copy, Debug, PartialEq, Eq, Structural)]
pub enum Mode {
    RTS,
    Free,
    Orbital,
}

impl Mode {
    /// The mode that a mode switch leads to: RTS, then free, then orbital,
    /// then RTS again.
    pub fn next(self) -> (r: Mode)
        ensures
            r == (match self {
                Mode::RTS => Mode::Free,
                Mode::Free => Mode::Orbital,
                Mode::Orbital => Mode::RTS,
            }),
    {
        match self {
            Mode::RTS => Mode::Free,
            Mode::Free => Mode::Orbital,
            Mode::Orbital => Mode::RTS,
        }
    }
}

/// Where the drag-box interaction stands. `anchor` is the transient entity
/// that shows the rectangle on screen while dragging.
#[derive(Clone, Copy, Debug, PartialEq, Eq, Structural)]
pub enum SelectorState {
    Idle,
    Dragging { anchor: u64, start: Vec2i },
    Confirmed { anchor: u64, rect: ScreenRect },
}

/// What the caller has to do after a step.
#[derive(Clone, Copy, Debug, PartialEq, Eq, Structural)]
pub enum SelectorEvent {
    /// Nothing changed.
    Nothing,
    /// A drag began: `anchor` now stands for the on-screen rectangle.
    Started { anchor: u64 },
    /// The on-screen rectangle of `anchor` is now `rect`.
    Resized { anchor: u64, rect: ScreenRect },
}

/// The primary mouse button.
pub const PRIMARY: usize = 0;

/// One step of the interaction. `spare` is the entity that becomes the drag's
/// anchor if this step starts a drag.
pub open spec fn next_state(
    s: SelectorState,
    mode: Mode,
    mouse: MouseState,
    spare: u64,
) -> (SelectorState, SelectorEvent) {
    if mode != Mode::RTS {
        (s, SelectorEvent::Nothing)
    } else {
        match s {
            SelectorState::Idle => if mouse.pressed@[0] {
                (
                    SelectorState::Dragging { anchor: spare, start: mouse.pos },
                    SelectorEvent::Started { anchor: spare },
                )
            } else {
                (s, SelectorEvent::Nothing)
            },
            SelectorState::Dragging { anchor, start } => {
                let rect = ScreenRect::spec_from_drag(start, mouse.pos);
                if mouse.released@[0] {
                    (
                        SelectorState::Confirmed { anchor, rect },
                        SelectorEvent::Resized { anchor, rect },
                    )
                } else {
                    (s, SelectorEvent::Resized { anchor, rect })
                }
            },
            SelectorState::Confirmed { .. } => (s, SelectorEvent::Nothing),
        }
    }
}

/// The drag-box selection protocol: idle, dragging, confirmed, and back to
/// idle once the confirmed rectangle is taken for resolution.
#[derive(Clone, Copy, Debug)]
pub struct Selector {
    pub state: SelectorState,
}

impl Default for Selector {
    fn default() -> (r: Selector)
        ensures
            r.state == SelectorState::Idle,
    {
        Selector { state: SelectorState::Idle }
    }
}

impl Selector {
    /// Whether the next `step` starts a drag, so that the caller has an
    /// entity to hand over as `spare`.
    pub fn needs_anchor(&self, mode: Mode, mouse: &MouseState) -> (r: bool)
        ensures
            r == (next_state(self.state, mode, *mouse, 0).1 is Started),
    {
        mode == Mode::RTS && self.state == SelectorState::Idle && mouse.is_pressed(PRIMARY)
    }

    /// Advances the interaction by one frame.
    pub fn step(&mut self, mode: Mode, mouse: &MouseState, spare: u64) -> (ev: SelectorEvent)
        ensures
            (final(self).state, ev) == next_state(old(self).state, mode, *mouse, spare),
    {
        if mode != Mode::RTS {
            return SelectorEvent::Nothing;
        }
        match self.state {
            SelectorState::Idle => {
                if mouse.is_pressed(PRIMARY) {
                    self.state = SelectorState::Dragging { anchor: spare, start: mouse.pos };
                    SelectorEvent::Started { anchor: spare }
                } else {
                    SelectorEvent::Nothing
                }
            },
            SelectorState::Dragging { anchor, start } => {
                let rect = ScreenRect::from_drag(start, mouse.position());
                if mouse.is_released(PRIMARY) {
                    self.state = SelectorState::Confirmed { anchor, rect };
                }
                SelectorEvent::Resized { anchor, rect }
            },
            SelectorState::Confirmed { .. } => SelectorEvent::Nothing,
        }
    }

    /// Leaves the confirmed state for idle in the same frame, handing back
    /// the anchor to destroy and the rectangle to resolve.
    pub fn take_confirmed(&mut self) -> (r: Option<(u64, ScreenRect)>)
        ensures
            match old(self).state {
                SelectorState::Confirmed { anchor, rect } => r == Some((anchor, rect))
                    && final(self).state == SelectorState::Idle,
                _ => r is None && final(self).state == old(self).state,
            },
    {
        match self.state {
            SelectorState::Confirmed { anchor, rect } => {
                self.state = SelectorState::Idle;
                Some((anchor, rect))
            },
            _ => None,
        }
    }
}

} // verus!
