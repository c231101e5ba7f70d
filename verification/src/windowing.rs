//! Events of the window, as the game reads them.
use vstd::prelude::*;
use crate::inputs::{input_changed, without_input, Input, InputState, WindowInput};
use crate::world::{GameData, Resources, Window};

verus! {

/// Records the key or mouse button of a window event in the inputs of the game.
pub fn update_input_events(event: WindowInput, data: &mut GameData)
    ensures
        final(data).entities == old(data).entities,
        final(data).next_id == old(data).next_id,
        final(data).resources == (Resources { inputs: final(data).resources.inputs, ..old(data).resources }),
        match event {
            WindowInput::Keyboard(k) => (final(data).resources.inputs.pressed@, final(data).resources.inputs.pressed_events@)
                == input_changed(old(data).resources.inputs, Input::Key(k.keycode), k.state == InputState::Pressed),
            WindowInput::Mouse(m) => (final(data).resources.inputs.pressed@, final(data).resources.inputs.pressed_events@)
                == input_changed(old(data).resources.inputs, Input::Mouse(m.button), m.state == InputState::Pressed),
            WindowInput::Other => final(data).resources.inputs == old(data).resources.inputs,
        },
{
    match event {
        WindowInput::Keyboard(k) => data.resources.inputs.add_keyboard_event(k),
        WindowInput::Mouse(m) => data.resources.inputs.add_click_event(m),
        WindowInput::Other => {},
    }
}

/// An event of the window, as the game reads it. Where the cursor is, and the
/// scale factor, are floating point and stay with the window loop.
#[derive(PartialEq, Eq, Structural, Clone, Copy, Debug)]
pub enum FrameEvent {
    /// The scale factor of the window changed.
    ScaleFactorChanged,
    /// The window now has this size, in physical pixels.
    Resized { width: u32, height: u32 },
    /// A key or a mouse button went down or up.
    Input(WindowInput),
    /// Any other event, such as the cursor moving.
    Other,
}

/// What the window loop hands over: an event of the window, if any, and
/// whether the window asked to be drawn again.
#[derive(PartialEq, Eq, Structural, Clone, Copy, Debug)]
pub struct WindowingEvent {
    pub window_event: Option<FrameEvent>,
    pub redraw: bool,
}

/// What the renderer is asked after the events of a frame.
#[derive(PartialEq, Eq, Structural, Clone, Copy, Debug)]
pub enum RendererEvent {
    /// Resize the surface to this size; `scale_changed` tells that the scale
    /// factor is the new one of a scale change, else it is the window's own.
    Resize { width: u32, height: u32, scale_changed: bool },
    /// Draw the frame again.
    ForceRedraw,
}

/// The inputs held (`pressed`) and those that went down in this frame
/// (`events`) once `input` went down (`down`) or up.
pub open spec fn inputs_changed(pressed: Seq<Input>, events: Seq<Input>, input: Input, down: bool) -> (Seq<Input>, Seq<Input>) {
    if down {
        if pressed.contains(input) {
            (pressed, events)
        } else {
            (pressed.push(input), events.push(input))
        }
    } else {
        (without_input(pressed, input), events)
    }
}

/// What the events of a frame leave: the window's size, the inputs held and
/// those that went down, the resizes asked of the renderer, and whether the
/// frame must be drawn again.
pub struct FrameOutcome {
    pub window: Window,
    pub pressed: Seq<Input>,
    pub events: Seq<Input>,
    pub resizes: Seq<RendererEvent>,
    pub redraw: bool,
}

/// The events `ws` taken in order, from the window `w` and the inputs `pressed`
/// and `events`: a scale change asks a resize to the window's size, a resize
/// records the new size and asks a resize to it, and both ask for a redraw; a
/// key or a button is recorded in the inputs.
pub open spec fn frame_outcome(ws: Seq<WindowingEvent>, w: Window, pressed: Seq<Input>, events: Seq<Input>) -> FrameOutcome
    decreases ws.len(),
{
    if ws.len() == 0 {
        FrameOutcome { window: w, pressed, events, resizes: Seq::empty(), redraw: false }
    } else {
        let prev = frame_outcome(ws.drop_last(), w, pressed, events);
        let ev = ws.last();
        let redraw = prev.redraw || ev.redraw;
        match ev.window_event {
            Some(FrameEvent::ScaleFactorChanged) => FrameOutcome {
                resizes: prev.resizes.push(
                    RendererEvent::Resize { width: prev.window.width, height: prev.window.height, scale_changed: true },
                ),
                redraw: true,
                ..prev
            },
            Some(FrameEvent::Resized { width, height }) => FrameOutcome {
                window: Window { width, height },
                resizes: prev.resizes.push(RendererEvent::Resize { width, height, scale_changed: false }),
                redraw: true,
                ..prev
            },
            Some(FrameEvent::Input(WindowInput::Keyboard(k))) => {
                let (p, e) = inputs_changed(prev.pressed, prev.events, Input::Key(k.keycode), k.state == InputState::Pressed);
                FrameOutcome { pressed: p, events: e, redraw, ..prev }
            },
            Some(FrameEvent::Input(WindowInput::Mouse(m))) => {
                let (p, e) = inputs_changed(prev.pressed, prev.events, Input::Mouse(m.button), m.state == InputState::Pressed);
                FrameOutcome { pressed: p, events: e, redraw, ..prev }
            },
            _ => FrameOutcome { redraw, ..prev },
        }
    }
}

/// Hands the events of a frame to the game: the keys and buttons to the inputs,
/// the sizes to the window resource. Returns what the renderer has to do: one
/// resize for each scale change or resize, in order, then, where an event asked
/// for it, one redraw.
pub fn handle_window_event(events: &Vec<WindowingEvent>, data: &mut GameData) -> (r: Vec<RendererEvent>)
    ensures
        ({
            let o = frame_outcome(
                events@,
                old(data).resources.window,
                old(data).resources.inputs.pressed@,
                old(data).resources.inputs.pressed_events@,
            );
            &&& r@ == o.resizes + if o.redraw {
                seq![RendererEvent::ForceRedraw]
            } else {
                Seq::<RendererEvent>::empty()
            }
            &&& final(data).resources.window == o.window
            &&& final(data).resources.inputs.pressed@ == o.pressed
            &&& final(data).resources.inputs.pressed_events@ == o.events
        }),
        final(data).entities == old(data).entities,
        final(data).next_id == old(data).next_id,
        final(data).resources == (Resources {
            inputs: final(data).resources.inputs,
            window: final(data).resources.window,
            ..old(data).resources
        }),
{
    let mut update: Vec<RendererEvent> = Vec::new();
    let mut force_redraw = false;
    let n = events.len();
    let mut i: usize = 0;
    while i < n
        invariant
            n == events@.len(),
            i <= n,
            ({
                let o = frame_outcome(
                    events@.take(i as int),
                    old(data).resources.window,
                    old(data).resources.inputs.pressed@,
                    old(data).resources.inputs.pressed_events@,
                );
                &&& update@ == o.resizes
                &&& force_redraw == o.redraw
                &&& data.resources.window == o.window
                &&& data.resources.inputs.pressed@ == o.pressed
                &&& data.resources.inputs.pressed_events@ == o.events
            }),
            data.entities == old(data).entities,
            data.next_id == old(data).next_id,
            data.resources == (Resources {
                inputs: data.resources.inputs,
                window: data.resources.window,
                ..old(data).resources
            }),
        decreases n - i,
    {
        let ev = events[i];
        proof {
            assert(events@.take(i + 1).drop_last() =~= events@.take(i as int));
            assert(events@.take(i + 1).last() == events@[i as int]);
        }
        if ev.redraw {
            force_redraw = true;
        }
        match ev.window_event {
            Some(FrameEvent::ScaleFactorChanged) => {
                update.push(
                    RendererEvent::Resize {
                        width: data.resources.window.width,
                        height: data.resources.window.height,
                        scale_changed: true,
                    },
                );
                force_redraw = true;
            },
            Some(FrameEvent::Resized { width, height }) => {
                data.resources.window = Window { width, height };
                update.push(RendererEvent::Resize { width, height, scale_changed: false });
                force_redraw = true;
            },
            Some(FrameEvent::Input(input)) => {
                update_input_events(input, data);
            },
            _ => {},
        }
        i = i + 1;
    }
    proof {
        assert(events@.take(n as int) =~= events@);
    }
    if force_redraw {
        update.push(RendererEvent::ForceRedraw);
    }
    update
}

} // verus!
