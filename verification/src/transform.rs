//! The state behind the transforms of a view, and what each event does to it.
//!
//! The state holds what is not a matrix: the field of view, the cursor, the
//! buttons, the blend of the two textures, and the size of the viewport. The
//! matrices are the caller's. `update` takes one event, changes the state, and
//! answers with a `Command`: the arithmetic that is now due on the caller's
//! side. Where the state needs the outcome of that arithmetic, the caller
//! hands it back as an event of its own.
//!
//! One frame is the events of the window in the order in which they came,
//! each followed by what its command asks for, and then `Event::Tick`.

use crate::single::{Single, ONE};
use vstd::prelude::*;

verus! {

/// The field of view at the start, in degrees: 45.
pub const START_ZOOM: u32 = 0x4234_0000;

/// The change of the blend per frame at the start: 0.01.
pub const START_BLEND_DELTA: u32 = 0x3C23_D70A;

/// The degrees of field of view per unit of scrolling: 2.
pub const ZOOM_STEP: u32 = 0x4000_0000;

/// The radians of rotation per pixel of dragging: 0.01.
pub const DRAG_STEP: u32 = 0x3C23_D70A;

/// The radians by which an idle model turns per frame: 0.02.
pub const SPIN_STEP: u32 = 0x3CA3_D70A;

/// The distance of the near clipping plane: 0.1.
pub const NEAR: u32 = 0x3DCC_CCCD;

/// The distance of the far clipping plane: 100.
pub const FAR: u32 = 0x42C8_0000;

/// What happened.
#[derive(Clone, Copy, Debug, PartialEq, Eq, Structural)]
pub enum Event {
    /// The wheel was turned by `offset`.
    Scroll { offset: Single },
    /// The viewport now is `width` by `height`.
    Resize { width: i32, height: i32 },
    /// The first button went down or up.
    PrimaryButton { pressed: bool },
    /// The second button went down or up.
    SecondaryButton { pressed: bool },
    /// The key that turns the blend around was pressed.
    KeyToggle,
    /// The cursor now is at `x`, `y`, with `y` growing downwards.
    CursorMove { x: Single, y: Single },
    /// A frame is about to be drawn.
    Tick,
    /// The answer to `Command::Zoom`: the new field of view.
    Zoomed { fovy: Single },
    /// The answer to `Command::Advance`: the blend with its change added.
    Blended { blend: Single },
}

/// The arithmetic that an event asks of the caller.
#[derive(Clone, Copy, Debug, PartialEq, Eq, Structural)]
pub enum Command {
    /// Nothing is due.
    Nothing,
    /// Take `offset` times `step` off `fovy`, and hand the outcome back as
    /// `Event::Zoomed`.
    Zoom { fovy: Single, offset: Single, step: Single },
    /// Make the projection anew: a perspective with the field of view `fovy`
    /// in degrees, the aspect `width` by `height`, and the clipping planes at
    /// `near` and `far`.
    Project { fovy: Single, width: i32, height: i32, near: Single, far: Single },
    /// The cursor was dragged from `from_x`, `from_y` to `to_x`, `to_y`. With
    /// `dx` for `to_x - from_x` and `dy` for `from_y - to_y`, multiply from the
    /// right by the rotation about the first axis by `dy * step`, then by the
    /// rotation about the second axis by `-dx * step`: the model's transform
    /// if `model` is set, the view if `view` is set.
    Rotate {
        model: bool,
        view: bool,
        from_x: Single,
        from_y: Single,
        to_x: Single,
        to_y: Single,
        step: Single,
    },
    /// Add `delta` to `blend` and hand the outcome back as `Event::Blended`.
    /// If `spin` is set, multiply the model's transform from the right by the
    /// rotation about the second axis by `angle`.
    Advance { blend: Single, delta: Single, spin: bool, angle: Single },
}

/// A place on the window, with `y` growing downwards.
#[derive(Clone, Copy, Debug, PartialEq, Eq, Structural)]
pub struct Cursor {
    pub x: Single,
    pub y: Single,
}

/// What a view keeps from one frame to the next, but for its matrices.
#[derive(Clone, Copy, Debug, PartialEq, Eq, Structural)]
pub struct TransformState {
    /// The field of view, in degrees.
    pub zoom: Single,
    /// Where the cursor was last.
    pub last_cursor: Cursor,
    /// The first button is held: dragging turns the model.
    pub primary_down: bool,
    /// The second button is held: dragging turns the view.
    pub secondary_down: bool,
    /// How much of the second texture shows, from 0 to 1.
    pub blend: Single,
    /// What a frame adds to the blend.
    pub blend_delta: Single,
    /// The width of the viewport.
    pub width: i32,
    /// The height of the viewport.
    pub height: i32,
}

impl TransformState {
    /// The state of a view that nothing has happened to yet.
    pub open spec fn start(width: i32, height: i32) -> TransformState {
        TransformState {
            zoom: Single { bits: START_ZOOM },
            last_cursor: Cursor { x: Single { bits: 0 }, y: Single { bits: 0 } },
            primary_down: false,
            secondary_down: false,
            blend: Single { bits: ONE },
            blend_delta: Single { bits: START_BLEND_DELTA },
            width,
            height,
        }
    }

    /// The projection that goes with the state.
    pub open spec fn projection(self) -> Command {
        Command::Project {
            fovy: self.zoom,
            width: self.width,
            height: self.height,
            near: Single { bits: NEAR },
            far: Single { bits: FAR },
        }
    }

    /// The state after `event`.
    pub open spec fn next(self, event: Event) -> TransformState {
        match event {
            Event::Scroll { offset } => self,
            Event::Resize { width, height } => TransformState { width, height, ..self },
            Event::PrimaryButton { pressed } => TransformState { primary_down: pressed, ..self },
            Event::SecondaryButton { pressed } => TransformState { secondary_down: pressed, ..self },
            Event::KeyToggle => TransformState { blend_delta: self.blend_delta.negation(), ..self },
            Event::CursorMove { x, y } => TransformState { last_cursor: Cursor { x, y }, ..self },
            Event::Tick => self,
            Event::Zoomed { fovy } => TransformState { zoom: fovy, ..self },
            Event::Blended { blend } => TransformState { blend: blend.clamped(), ..self },
        }
    }

    /// What `event` asks of the caller.
    pub open spec fn command(self, event: Event) -> Command {
        match event {
            Event::Scroll { offset } => Command::Zoom {
                fovy: self.zoom,
                offset,
                step: Single { bits: ZOOM_STEP },
            },
            Event::Resize { width, height } => self.next(event).projection(),
            Event::PrimaryButton { pressed } => Command::Nothing,
            Event::SecondaryButton { pressed } => Command::Nothing,
            Event::KeyToggle => Command::Nothing,
            Event::CursorMove { x, y } => if self.primary_down || self.secondary_down {
                Command::Rotate {
                    model: self.primary_down,
                    view: self.secondary_down,
                    from_x: self.last_cursor.x,
                    from_y: self.last_cursor.y,
                    to_x: x,
                    to_y: y,
                    step: Single { bits: DRAG_STEP },
                }
            } else {
                Command::Nothing
            },
            Event::Tick => Command::Advance {
                blend: self.blend,
                delta: self.blend_delta,
                spin: !self.primary_down && !self.secondary_down,
                angle: Single { bits: SPIN_STEP },
            },
            Event::Zoomed { fovy } => self.next(event).projection(),
            Event::Blended { blend } => Command::Nothing,
        }
    }

    /// The state after the events of `events`, in their order.
    pub open spec fn run(self, events: Seq<Event>) -> TransformState
        decreases events.len(),
    {
        if events.len() == 0 {
            self
        } else {
            self.run(events.drop_last()).next(events.last())
        }
    }

    /// Makes the state of a view with a viewport of `width` by `height`: a
    /// field of view of 45 degrees, the cursor at the origin, no button held,
    /// the blend at 1 and changing by 0.01 per frame.
    pub fn new(width: i32, height: i32) -> (r: TransformState)
        ensures
            r == TransformState::start(width, height),
            r.blend.in_unit(),
    {
        TransformState {
            zoom: Single { bits: START_ZOOM },
            last_cursor: Cursor { x: Single { bits: 0 }, y: Single { bits: 0 } },
            primary_down: false,
            secondary_down: false,
            blend: Single { bits: ONE },
            blend_delta: Single { bits: START_BLEND_DELTA },
            width,
            height,
        }
    }

    /// The command that makes the projection for the state as it is.
    pub fn project(&self) -> (c: Command)
        ensures
            c == self.projection(),
    {
        Command::Project {
            fovy: self.zoom,
            width: self.width,
            height: self.height,
            near: Single { bits: NEAR },
            far: Single { bits: FAR },
        }
    }

    /// Takes one event: changes the state, and says what is due.
    ///
    /// The blend changes only where the caller hands a sum back, and is then
    /// clamped, so it stays in the unit interval once it is there.
    pub fn update(&mut self, event: Event) -> (c: Command)
        ensures
            *final(self) == old(self).next(event),
            c == old(self).command(event),
            old(self).blend.in_unit() ==> final(self).blend.in_unit(),
            event is Blended ==> final(self).blend.in_unit(),
    {
        match event {
            Event::Scroll { offset } => Command::Zoom {
                fovy: self.zoom,
                offset,
                step: Single { bits: ZOOM_STEP },
            },
            Event::Resize { width, height } => {
                self.width = width;
                self.height = height;
                self.project()
            },
            Event::PrimaryButton { pressed } => {
                self.primary_down = pressed;
                Command::Nothing
            },
            Event::SecondaryButton { pressed } => {
                self.secondary_down = pressed;
                Command::Nothing
            },
            Event::KeyToggle => {
                self.blend_delta = self.blend_delta.negated();
                Command::Nothing
            },
            Event::CursorMove { x, y } => {
                let from: Cursor = self.last_cursor;
                self.last_cursor = Cursor { x, y };
                if self.primary_down || self.secondary_down {
                    Command::Rotate {
                        model: self.primary_down,
                        view: self.secondary_down,
                        from_x: from.x,
                        from_y: from.y,
                        to_x: x,
                        to_y: y,
                        step: Single { bits: DRAG_STEP },
                    }
                } else {
                    Command::Nothing
                }
            },
            Event::Tick => Command::Advance {
                blend: self.blend,
                delta: self.blend_delta,
                spin: !self.primary_down && !self.secondary_down,
                angle: Single { bits: SPIN_STEP },
            },
            Event::Zoomed { fovy } => {
                self.zoom = fovy;
                self.project()
            },
            Event::Blended { blend } => {
                self.blend = blend.clamp_unit();
                Command::Nothing
            },
        }
    }
}

/// A blend in the unit interval stays there, whatever events follow and
/// whatever sums the caller hands back, and whatever the change per frame is.
pub proof fn lemma_blend_stays_in_unit(state: TransformState, events: Seq<Event>)
    requires
        state.blend.in_unit(),
    ensures
        state.run(events).blend.in_unit(),
    decreases events.len(),
{
    if events.len() > 0 {
        lemma_blend_stays_in_unit(state, events.drop_last());
    }
}

/// Turning the blend around changes the sign of its change per frame and
/// nothing else; turning it around twice changes nothing.
pub proof fn lemma_toggle(state: TransformState)
    ensures
        state.next(Event::KeyToggle).blend_delta.magnitude() == state.blend_delta.magnitude(),
        state.next(Event::KeyToggle).blend_delta.is_negative() != state.blend_delta.is_negative(),
        state.next(Event::KeyToggle).blend == state.blend,
        state.next(Event::KeyToggle).next(Event::KeyToggle) == state,
{
}

/// The projection that a change of the viewport asks for depends on the
/// field of view and the new size alone: the same size twice in a row, or at
/// any two moments with one field of view, asks for the same projection.
pub proof fn lemma_resize_repeats(a: TransformState, b: TransformState, width: i32, height: i32)
    requires
        a.zoom == b.zoom,
    ensures
        a.command(Event::Resize { width, height }) == b.command(Event::Resize { width, height }),
        a.next(Event::Resize { width, height }).zoom == a.zoom,
        a.next(Event::Resize { width, height }).command(Event::Resize { width, height })
            == a.command(Event::Resize { width, height }),
{
}

/// The cursor is remembered wherever it moves, whether a button is held or
/// not, and a move with no button held asks for nothing.
pub proof fn lemma_cursor_is_tracked(state: TransformState, x: Single, y: Single)
    ensures
        state.next(Event::CursorMove { x, y }).last_cursor == (Cursor { x, y }),
        !state.primary_down && !state.secondary_down ==> state.command(Event::CursorMove { x, y })
            == Command::Nothing,
{
}

} // verus!
