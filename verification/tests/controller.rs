use scop::single::Single;
use scop::transform::{
    Command, Cursor, Event, TransformState, DRAG_STEP, FAR, NEAR, SPIN_STEP, START_BLEND_DELTA,
    START_ZOOM, ZOOM_STEP,
};

fn single(x: f32) -> Single {
    Single::from_bits(x.to_bits())
}

fn number(s: Single) -> f32 {
    f32::from_bits(s.to_bits())
}

/// Does the arithmetic that a command asks for, and hands the outcome back.
fn perform(state: &mut TransformState, event: Event) -> Vec<Command> {
    let mut done = Vec::new();
    let mut next = Some(event);
    while let Some(e) = next {
        let command = state.update(e);
        next = match command {
            Command::Zoom { fovy, offset, step } => {
                Some(Event::Zoomed { fovy: single(number(fovy) - number(offset) * number(step)) })
            }
            Command::Advance { blend, delta, .. } => {
                Some(Event::Blended { blend: single(number(blend) + number(delta)) })
            }
            _ => None,
        };
        done.push(command);
    }
    done
}

#[test]
fn constants_are_the_numbers_they_stand_for() {
    assert_eq!(START_ZOOM, 45.0f32.to_bits());
    assert_eq!(START_BLEND_DELTA, 0.01f32.to_bits());
    assert_eq!(ZOOM_STEP, 2.0f32.to_bits());
    assert_eq!(DRAG_STEP, 0.01f32.to_bits());
    assert_eq!(SPIN_STEP, 0.02f32.to_bits());
    assert_eq!(NEAR, 0.1f32.to_bits());
    assert_eq!(FAR, 100.0f32.to_bits());
}

#[test]
fn new_state_is_at_rest() {
    let s = TransformState::new(800, 600);
    assert_eq!(number(s.zoom), 45.0);
    assert_eq!(s.last_cursor, Cursor { x: single(0.0), y: single(0.0) });
    assert!(!s.primary_down);
    assert!(!s.secondary_down);
    assert_eq!(number(s.blend), 1.0);
    assert_eq!(number(s.blend_delta), 0.01);
    assert_eq!((s.width, s.height), (800, 600));
    assert_eq!(
        s.project(),
        Command::Project {
            fovy: single(45.0),
            width: 800,
            height: 600,
            near: single(0.1),
            far: single(100.0)
        }
    );
}

#[test]
fn scroll_asks_for_the_zoom_and_then_for_the_projection() {
    let mut s = TransformState::new(800, 600);
    let before = s;
    let c = s.update(Event::Scroll { offset: single(1.5) });
    assert_eq!(
        c,
        Command::Zoom { fovy: single(45.0), offset: single(1.5), step: single(2.0) }
    );
    assert_eq!(s, before);
    let c = s.update(Event::Zoomed { fovy: single(42.0) });
    assert_eq!(
        c,
        Command::Project {
            fovy: single(42.0),
            width: 800,
            height: 600,
            near: single(0.1),
            far: single(100.0)
        }
    );
    assert_eq!(number(s.zoom), 42.0);
    assert_eq!(TransformState { zoom: before.zoom, ..s }, before);
}

#[test]
fn scrolls_add_up() {
    let mut s = TransformState::new(800, 600);
    perform(&mut s, Event::Scroll { offset: single(1.0) });
    assert_eq!(number(s.zoom), 43.0);
    perform(&mut s, Event::Scroll { offset: single(-3.0) });
    assert_eq!(number(s.zoom), 49.0);
    let done = perform(&mut s, Event::Scroll { offset: single(0.5) });
    assert_eq!(number(s.zoom), 48.0);
    assert_eq!(done.len(), 2);
    assert_eq!(
        done[1],
        Command::Project {
            fovy: single(48.0),
            width: 800,
            height: 600,
            near: single(0.1),
            far: single(100.0)
        }
    );
}

#[test]
fn resize_asks_for_the_projection() {
    let mut s = TransformState::new(800, 600);
    let c = s.update(Event::Resize { width: 1024, height: 768 });
    assert_eq!(
        c,
        Command::Project {
            fovy: single(45.0),
            width: 1024,
            height: 768,
            near: single(0.1),
            far: single(100.0)
        }
    );
    assert_eq!((s.width, s.height), (1024, 768));
    assert_eq!(s.project(), c);
}

#[test]
fn same_resize_twice_asks_for_the_same_projection() {
    let mut s = TransformState::new(800, 600);
    perform(&mut s, Event::Scroll { offset: single(2.0) });
    let first = s.update(Event::Resize { width: 640, height: 480 });
    let after_first = s;
    let second = s.update(Event::Resize { width: 640, height: 480 });
    assert_eq!(first, second);
    assert_eq!(s, after_first);
    match first {
        Command::Project { fovy, width, height, near, far } => {
            assert_eq!(fovy.to_bits(), 41.0f32.to_bits());
            assert_eq!((width, height), (640, 480));
            assert_eq!(near.to_bits(), 0.1f32.to_bits());
            assert_eq!(far.to_bits(), 100.0f32.to_bits());
        }
        other => panic!("{:?}", other),
    }
}

#[test]
fn scroll_after_resize_uses_the_new_viewport() {
    let mut s = TransformState::new(800, 600);
    s.update(Event::Resize { width: 300, height: 200 });
    let done = perform(&mut s, Event::Scroll { offset: single(1.0) });
    assert_eq!(
        done[1],
        Command::Project {
            fovy: single(43.0),
            width: 300,
            height: 200,
            near: single(0.1),
            far: single(100.0)
        }
    );
}

#[test]
fn buttons_are_remembered() {
    let mut s = TransformState::new(800, 600);
    assert_eq!(s.update(Event::PrimaryButton { pressed: true }), Command::Nothing);
    assert!(s.primary_down && !s.secondary_down);
    assert_eq!(s.update(Event::SecondaryButton { pressed: true }), Command::Nothing);
    assert!(s.primary_down && s.secondary_down);
    assert_eq!(s.update(Event::PrimaryButton { pressed: false }), Command::Nothing);
    assert!(!s.primary_down && s.secondary_down);
    assert_eq!(s.update(Event::SecondaryButton { pressed: false }), Command::Nothing);
    assert!(!s.primary_down && !s.secondary_down);
    assert_eq!(s, TransformState::new(800, 600));
}

#[test]
fn cursor_is_remembered_with_no_button_held() {
    let mut s = TransformState::new(800, 600);
    let c = s.update(Event::CursorMove { x: single(10.0), y: single(20.0) });
    assert_eq!(c, Command::Nothing);
    assert_eq!(s.last_cursor, Cursor { x: single(10.0), y: single(20.0) });
}

#[test]
fn drag_with_the_first_button_turns_the_model() {
    let mut s = TransformState::new(800, 600);
    s.update(Event::CursorMove { x: single(10.0), y: single(20.0) });
    s.update(Event::PrimaryButton { pressed: true });
    let c = s.update(Event::CursorMove { x: single(13.0), y: single(16.0) });
    assert_eq!(
        c,
        Command::Rotate {
            model: true,
            view: false,
            from_x: single(10.0),
            from_y: single(20.0),
            to_x: single(13.0),
            to_y: single(16.0),
            step: single(0.01),
        }
    );
    assert_eq!(s.last_cursor, Cursor { x: single(13.0), y: single(16.0) });
    let c = s.update(Event::CursorMove { x: single(14.0), y: single(16.0) });
    assert_eq!(
        c,
        Command::Rotate {
            model: true,
            view: false,
            from_x: single(13.0),
            from_y: single(16.0),
            to_x: single(14.0),
            to_y: single(16.0),
            step: single(0.01),
        }
    );
}

#[test]
fn drag_with_the_second_button_turns_the_view() {
    let mut s = TransformState::new(800, 600);
    s.update(Event::SecondaryButton { pressed: true });
    let c = s.update(Event::CursorMove { x: single(1.0), y: single(2.0) });
    assert_eq!(
        c,
        Command::Rotate {
            model: false,
            view: true,
            from_x: single(0.0),
            from_y: single(0.0),
            to_x: single(1.0),
            to_y: single(2.0),
            step: single(0.01),
        }
    );
    s.update(Event::PrimaryButton { pressed: true });
    let c = s.update(Event::CursorMove { x: single(5.0), y: single(5.0) });
    assert_eq!(
        c,
        Command::Rotate {
            model: true,
            view: true,
            from_x: single(1.0),
            from_y: single(2.0),
            to_x: single(5.0),
            to_y: single(5.0),
            step: single(0.01),
        }
    );
    s.update(Event::PrimaryButton { pressed: false });
    s.update(Event::SecondaryButton { pressed: false });
    let c = s.update(Event::CursorMove { x: single(6.0), y: single(6.0) });
    assert_eq!(c, Command::Nothing);
}

#[test]
fn toggle_turns_the_change_of_the_blend_around() {
    let mut s = TransformState::new(800, 600);
    assert_eq!(s.update(Event::KeyToggle), Command::Nothing);
    assert_eq!(s.blend_delta.to_bits(), (-0.01f32).to_bits());
    assert_eq!(number(s.blend), 1.0);
    assert_eq!(s.update(Event::KeyToggle), Command::Nothing);
    assert_eq!(s.blend_delta.to_bits(), 0.01f32.to_bits());
    assert_eq!(s, TransformState::new(800, 600));
}

#[test]
fn tick_asks_for_the_blend_and_spins_an_idle_model() {
    let mut s = TransformState::new(800, 600);
    let before = s;
    let c = s.update(Event::Tick);
    assert_eq!(
        c,
        Command::Advance {
            blend: single(1.0),
            delta: single(0.01),
            spin: true,
            angle: single(0.02)
        }
    );
    assert_eq!(s, before);
}

#[test]
fn tick_does_not_spin_while_a_button_is_held() {
    for (first, second) in [(true, false), (false, true), (true, true)] {
        let mut s = TransformState::new(800, 600);
        s.update(Event::PrimaryButton { pressed: first });
        s.update(Event::SecondaryButton { pressed: second });
        match s.update(Event::Tick) {
            Command::Advance { spin, .. } => assert!(!spin),
            other => panic!("{:?}", other),
        }
    }
    let mut s = TransformState::new(800, 600);
    s.update(Event::PrimaryButton { pressed: true });
    s.update(Event::PrimaryButton { pressed: false });
    match s.update(Event::Tick) {
        Command::Advance { spin, angle, .. } => {
            assert!(spin);
            assert_eq!(number(angle), 0.02);
        }
        other => panic!("{:?}", other),
    }
}

#[test]
fn blend_handed_back_is_clamped() {
    let mut s = TransformState::new(800, 600);
    assert_eq!(s.update(Event::Blended { blend: single(1.01) }), Command::Nothing);
    assert_eq!(number(s.blend), 1.0);
    s.update(Event::Blended { blend: single(0.37) });
    assert_eq!(number(s.blend), 0.37);
    s.update(Event::Blended { blend: single(-0.01) });
    assert_eq!(s.blend.to_bits(), 0.0f32.to_bits());
    s.update(Event::Blended { blend: single(f32::NAN) });
    assert_eq!(s.blend.to_bits(), 0.0f32.to_bits());
    s.update(Event::Blended { blend: single(f32::INFINITY) });
    assert_eq!(number(s.blend), 1.0);
}

#[test]
fn blend_goes_down_to_zero_and_back_up_to_one() {
    let mut s = TransformState::new(800, 600);
    perform(&mut s, Event::KeyToggle);
    let mut last = number(s.blend);
    for _ in 0..150 {
        perform(&mut s, Event::Tick);
        let now = number(s.blend);
        assert!((0.0..=1.0).contains(&now));
        assert!(now <= last);
        last = now;
    }
    assert_eq!(last, 0.0);
    perform(&mut s, Event::KeyToggle);
    for _ in 0..150 {
        perform(&mut s, Event::Tick);
        let now = number(s.blend);
        assert!((0.0..=1.0).contains(&now));
        assert!(now >= last);
        last = now;
    }
    assert_eq!(last, 1.0);
}

#[test]
fn first_tick_of_a_fading_blend() {
    let mut s = TransformState::new(800, 600);
    perform(&mut s, Event::KeyToggle);
    perform(&mut s, Event::Tick);
    assert_eq!(s.blend.to_bits(), (1.0f32 + -0.01f32).to_bits());
    assert_eq!(s.blend.to_bits(), 0.99f32.to_bits());
}

#[test]
fn blend_stays_in_the_unit_interval_whatever_its_change() {
    for delta in [
        0.01f32,
        -0.01,
        0.3,
        1.0,
        7.5,
        -1e30,
        1e-30,
        f32::MAX,
        f32::MIN,
        f32::INFINITY,
        f32::NEG_INFINITY,
        f32::NAN,
        0.0,
        -0.0,
    ] {
        let mut s = TransformState::new(800, 600);
        s.blend_delta = single(delta);
        let mut seed: u32 = delta.to_bits() ^ 0x9E37_79B9;
        for _ in 0..300 {
            seed = seed.wrapping_mul(1664525).wrapping_add(1013904223);
            let event = if seed >> 29 == 0 { Event::KeyToggle } else { Event::Tick };
            perform(&mut s, event);
            let blend = number(s.blend);
            assert!((0.0..=1.0).contains(&blend), "{} {}", delta, blend);
        }
    }
}

#[test]
fn frame_of_several_events() {
    let mut s = TransformState::new(800, 600);
    let events = [
        Event::CursorMove { x: single(100.0), y: single(100.0) },
        Event::PrimaryButton { pressed: true },
        Event::CursorMove { x: single(110.0), y: single(95.0) },
        Event::KeyToggle,
        Event::Scroll { offset: single(1.0) },
        Event::Resize { width: 400, height: 400 },
        Event::Tick,
    ];
    let mut done = Vec::new();
    for e in events {
        done.extend(perform(&mut s, e));
    }
    assert_eq!(
        done,
        vec![
            Command::Nothing,
            Command::Nothing,
            Command::Rotate {
                model: true,
                view: false,
                from_x: single(100.0),
                from_y: single(100.0),
                to_x: single(110.0),
                to_y: single(95.0),
                step: single(0.01),
            },
            Command::Nothing,
            Command::Zoom { fovy: single(45.0), offset: single(1.0), step: single(2.0) },
            Command::Project {
                fovy: single(43.0),
                width: 800,
                height: 600,
                near: single(0.1),
                far: single(100.0)
            },
            Command::Project {
                fovy: single(43.0),
                width: 400,
                height: 400,
                near: single(0.1),
                far: single(100.0)
            },
            Command::Advance {
                blend: single(1.0),
                delta: single(-0.01),
                spin: false,
                angle: single(0.02)
            },
            Command::Nothing,
        ]
    );
    assert_eq!(number(s.blend), 0.99);
    assert_eq!(number(s.zoom), 43.0);
    assert!(s.primary_down);
    assert_eq!(s.last_cursor, Cursor { x: single(110.0), y: single(95.0) });
}
