//! The dispatch manager: compares each logical state with the one before it
//! and says which events the change asks for.

use vstd::prelude::*;
use vstd::pervasive::unreached;
use crate::config::Axis;
use crate::config::AxisKeyConfig;
use crate::config::AxisMouseConfig;
use crate::config::Config;
use crate::config::JoystickConfig;
use crate::config::Key;
use crate::config::BUTTON_LEN;
use crate::curve::magnitude;
use crate::curve::magnitude_of;
use crate::curve::CurveEngine;
use crate::curve::CurveState;
use crate::error::EngineError;
use crate::raw_input::Packet;

verus! {

/// The raw reading that is the zero of the Z axis.
pub const Z_CENTER: u8 = 128;

/// The deadzone of both axes of a tracing manager, in steps: one half of
/// full deflection, rounded down.
pub const TRACE_DEADZONE: u16 = 127;

/// One normalized sample of the device. Each axis counts steps of 1/255:
/// X grows to the right, Y forward, Z upward.
#[derive(Debug, Copy, Clone, PartialEq, Eq)]
pub struct State {
    pub buttons: [bool; BUTTON_LEN],
    pub x_axis: i16,
    pub y_axis: i16,
    pub z_axis: i16,
}

/// `2 * (raw - reference) / 255`, in steps.
pub open spec fn normalized(raw: u8, reference: u8) -> int {
    2 * (raw - reference)
}

/// `-2 * (raw - reference) / 255`, in steps.
pub open spec fn inverted(raw: u8, reference: u8) -> int {
    -2 * (raw - reference)
}

impl State {
    /// Whether the state is what `packet` reads as against the zero point
    /// `zero` of X and Y.
    pub open spec fn normalizes(&self, zero: [u8; 2], packet: Packet) -> bool {
        &&& self.buttons == packet.buttons
        &&& self.x_axis == normalized(packet.x_axis, zero[0])
        &&& self.y_axis == inverted(packet.y_axis, zero[1])
        &&& self.z_axis == inverted(packet.z_axis, Z_CENTER)
    }

    /// Normalizes a report against the zero point of X and Y:
    ///   * X: positive is right, negative is left;
    ///   * Y: positive is forward, negative is backward;
    ///   * Z: positive is up, negative is down, with its zero at mid-range.
    ///
    /// The buttons pass through unchanged.
    pub fn from_packet(zero: [u8; 2], packet: Packet) -> (s: Self)
        ensures
            s.normalizes(zero, packet),
    {
        let x_zero: i16 = zero[0] as i16;
        let y_zero: i16 = zero[1] as i16;
        let px: i16 = packet.x_axis as i16;
        let py: i16 = packet.y_axis as i16;
        let pz: i16 = packet.z_axis as i16;
        let z_zero: i16 = Z_CENTER as i16;
        State {
            buttons: packet.buttons,
            x_axis: 2 * (px - x_zero),
            y_axis: 2 * (y_zero - py),
            z_axis: 2 * (z_zero - pz),
        }
    }
}

/// A change between two consecutive states, named by where it happened.
#[derive(Debug, Copy, Clone, PartialEq, Eq)]
pub enum Edge {
    ButtonDown { slot: usize },
    ButtonUp { slot: usize },
    /// The axis came to rest; `positive` is the side it rests on.
    EnterDeadzone { axis: Axis, positive: bool },
    /// The axis left its rest; `positive` is the side it left to.
    ExitDeadzone { axis: Axis, positive: bool },
}

/// What a step asks the injector to do.
#[derive(Debug, Copy, Clone, PartialEq, Eq)]
pub enum Event {
    KeyDown(Key),
    KeyUp(Key),
    MoveX(i32),
    MoveY(i32),
    /// Only a tracing manager emits these: the change itself, to be shown.
    Trace(Edge),
}

/// How the two tracked axes are wired.
#[allow(inconsistent_fields)]
pub enum Wiring {
    Keys { x_axis: AxisKeyConfig, y_axis: AxisKeyConfig },
    Mouse { x_axis: CurveState, y_axis: CurveState },
    Trace { x_deadzone: u16, y_deadzone: u16 },
}

/// What a manager is at one moment.
pub struct ManagerState {
    /// The state of the step before; `None` until the first step.
    pub previous: Option<State>,
    /// The key of each button slot.
    pub buttons: Seq<Option<Key>>,
    pub wiring: Wiring,
}

/// What one button slot contributes to a step: a press where the button
/// went down, a release where it went up, nothing where it did not change or
/// the slot is unbound.
pub open spec fn slot_events(tracing: bool, binding: Option<Key>, slot: usize, was: bool, now: bool) -> Seq<
    Event,
> {
    if !was && now {
        if tracing {
            seq![Event::Trace(Edge::ButtonDown { slot })]
        } else {
            match binding {
                Some(k) => seq![Event::KeyDown(k)],
                None => Seq::empty(),
            }
        }
    } else if was && !now {
        if tracing {
            seq![Event::Trace(Edge::ButtonUp { slot })]
        } else {
            match binding {
                Some(k) => seq![Event::KeyUp(k)],
                None => Seq::empty(),
            }
        }
    } else {
        Seq::empty()
    }
}

/// What the first `count` button slots contribute, in ascending slot order.
pub open spec fn button_events(
    tracing: bool,
    bindings: Seq<Option<Key>>,
    prev: Seq<bool>,
    next: Seq<bool>,
    count: int,
) -> Seq<Event>
    decreases count,
{
    if count <= 0 {
        Seq::empty()
    } else {
        button_events(tracing, bindings, prev, next, count - 1) + slot_events(
            tracing,
            bindings[count - 1],
            (count - 1) as usize,
            prev[count - 1],
            next[count - 1],
        )
    }
}

/// Whether an axis value lies in the deadzone. The threshold itself does.
pub open spec fn at_rest(value: int, deadzone: int) -> bool {
    magnitude(value) <= deadzone
}

/// Whether the axis came to rest between two consecutive values.
pub open spec fn entered(prev: int, next: int, deadzone: int) -> bool {
    !at_rest(prev, deadzone) && at_rest(next, deadzone)
}

/// Whether the axis left its rest between two consecutive values.
pub open spec fn exited(prev: int, next: int, deadzone: int) -> bool {
    at_rest(prev, deadzone) && !at_rest(next, deadzone)
}

/// The key of the side that `value` lies on; zero counts as positive.
pub open spec fn side_key(config: AxisKeyConfig, value: int) -> Key {
    if value >= 0 {
        config.positive
    } else {
        config.negative
    }
}

/// What an axis in key mode contributes: coming to rest releases the key of
/// the side that the new value lies on, leaving the rest presses it.
pub open spec fn key_axis_events(config: AxisKeyConfig, prev: int, next: int) -> Seq<Event> {
    if entered(prev, next, config.deadzone as int) {
        seq![Event::KeyUp(side_key(config, next))]
    } else if exited(prev, next, config.deadzone as int) {
        seq![Event::KeyDown(side_key(config, next))]
    } else {
        Seq::empty()
    }
}

/// What an axis of a tracing manager contributes.
pub open spec fn trace_axis_events(axis: Axis, deadzone: u16, prev: int, next: int) -> Seq<Event> {
    if entered(prev, next, deadzone as int) {
        seq![Event::Trace(Edge::EnterDeadzone { axis, positive: next >= 0 })]
    } else if exited(prev, next, deadzone as int) {
        seq![Event::Trace(Edge::ExitDeadzone { axis, positive: next >= 0 })]
    } else {
        Seq::empty()
    }
}

/// What an axis in pointer mode contributes: the units of its curve engine,
/// unless there are none. Z moves no pointer.
pub open spec fn motion_events(axis: Axis, units: int) -> Seq<Event> {
    if units == 0 {
        Seq::empty()
    } else {
        match axis {
            Axis::X => seq![Event::MoveX(units as i32)],
            Axis::Y => seq![Event::MoveY(units as i32)],
            Axis::Z => Seq::empty(),
        }
    }
}

impl Wiring {
    /// What the two axes contribute to a step from `ps` to `ns`: X before Y.
    pub open spec fn events(self, ps: State, ns: State) -> Seq<Event> {
        match self {
            Wiring::Keys { x_axis, y_axis } => key_axis_events(
                x_axis,
                ps.x_axis as int,
                ns.x_axis as int,
            ) + key_axis_events(y_axis, ps.y_axis as int, ns.y_axis as int),
            Wiring::Mouse { x_axis, y_axis } => motion_events(
                Axis::X,
                x_axis.units(ns.x_axis as int),
            ) + motion_events(Axis::Y, y_axis.units(ns.y_axis as int)),
            Wiring::Trace { x_deadzone, y_deadzone } => trace_axis_events(
                Axis::X,
                x_deadzone,
                ps.x_axis as int,
                ns.x_axis as int,
            ) + trace_axis_events(Axis::Y, y_deadzone, ps.y_axis as int, ns.y_axis as int),
        }
    }

    /// The wiring after a step to `ns`: in pointer mode each engine has taken
    /// its sample; key mode keeps nothing.
    pub open spec fn stepped(self, ns: State) -> Wiring {
        match self {
            Wiring::Mouse { x_axis, y_axis } => Wiring::Mouse {
                x_axis: x_axis.fed(ns.x_axis as int),
                y_axis: y_axis.fed(ns.y_axis as int),
            },
            _ => self,
        }
    }
}

impl ManagerState {
    /// The manager that a configuration makes: nothing seen yet, engines
    /// that carry nothing.
    pub open spec fn fresh(cfg: Config) -> ManagerState {
        ManagerState {
            previous: None,
            buttons: cfg.buttons@,
            wiring: match cfg.joystick {
                JoystickConfig::Keys { x_axis, y_axis } => Wiring::Keys { x_axis, y_axis },
                JoystickConfig::Mouse { x_axis, y_axis } => Wiring::Mouse {
                    x_axis: CurveState { config: x_axis, remainder: 0 },
                    y_axis: CurveState { config: y_axis, remainder: 0 },
                },
            },
        }
    }

    /// The manager that shows every change instead of acting on it.
    pub open spec fn tracing() -> ManagerState {
        ManagerState {
            previous: None,
            buttons: Seq::new(BUTTON_LEN as nat, |i: int| None),
            wiring: Wiring::Trace { x_deadzone: TRACE_DEADZONE, y_deadzone: TRACE_DEADZONE },
        }
    }

    /// The events of a step to `ns`: none on the first step; afterwards the
    /// buttons in ascending slot order, then the axes.
    pub open spec fn events(self, ns: State) -> Seq<Event> {
        match self.previous {
            None => Seq::empty(),
            Some(ps) => button_events(
                self.wiring is Trace,
                self.buttons,
                ps.buttons@,
                ns.buttons@,
                BUTTON_LEN as int,
            ) + self.wiring.events(ps, ns),
        }
    }

    /// The manager after a step to `ns`: it remembers `ns` and nothing
    /// older.
    pub open spec fn stepped(self, ns: State) -> ManagerState {
        ManagerState {
            previous: Some(ns),
            buttons: self.buttons,
            wiring: match self.previous {
                None => self.wiring,
                Some(_) => self.wiring.stepped(ns),
            },
        }
    }
}

fn rests(value: i16, deadzone: u16) -> (r: bool)
    ensures
        r == at_rest(value as int, deadzone as int),
{
    magnitude_of(value) <= deadzone as i32
}

fn push_slot_events(
    events: &mut Vec<Event>,
    tracing: bool,
    binding: Option<Key>,
    slot: usize,
    was: bool,
    now: bool,
)
    ensures
        final(events)@ == old(events)@ + slot_events(tracing, binding, slot, was, now),
{
    if !was && now {
        if tracing {
            events.push(Event::Trace(Edge::ButtonDown { slot }));
        } else if let Some(k) = binding {
            events.push(Event::KeyDown(k));
        }
    } else if was && !now {
        if tracing {
            events.push(Event::Trace(Edge::ButtonUp { slot }));
        } else if let Some(k) = binding {
            events.push(Event::KeyUp(k));
        }
    }
    assert(events@ =~= old(events)@ + slot_events(tracing, binding, slot, was, now));
}

fn push_key_axis_events(events: &mut Vec<Event>, config: &AxisKeyConfig, prev: i16, next: i16)
    ensures
        final(events)@ == old(events)@ + key_axis_events(*config, prev as int, next as int),
{
    let was_resting = rests(prev, config.deadzone);
    let is_resting = rests(next, config.deadzone);
    let key = if next >= 0 {
        config.positive
    } else {
        config.negative
    };
    if !was_resting && is_resting {
        events.push(Event::KeyUp(key));
    } else if was_resting && !is_resting {
        events.push(Event::KeyDown(key));
    }
    assert(events@ =~= old(events)@ + key_axis_events(*config, prev as int, next as int));
}

fn push_trace_axis_events(events: &mut Vec<Event>, axis: Axis, deadzone: u16, prev: i16, next: i16)
    ensures
        final(events)@ == old(events)@ + trace_axis_events(axis, deadzone, prev as int, next as int),
{
    let was_resting = rests(prev, deadzone);
    let is_resting = rests(next, deadzone);
    if !was_resting && is_resting {
        events.push(Event::Trace(Edge::EnterDeadzone { axis, positive: next >= 0 }));
    } else if was_resting && !is_resting {
        events.push(Event::Trace(Edge::ExitDeadzone { axis, positive: next >= 0 }));
    }
    assert(events@ =~= old(events)@ + trace_axis_events(axis, deadzone, prev as int, next as int));
}

fn push_motion_events(events: &mut Vec<Event>, axis: Axis, units: i32)
    ensures
        final(events)@ == old(events)@ + motion_events(axis, units as int),
{
    if units != 0 {
        match axis {
            Axis::X => {
                events.push(Event::MoveX(units));
            },
            Axis::Y => {
                events.push(Event::MoveY(units));
            },
            Axis::Z => {},
        }
    }
    assert(events@ =~= old(events)@ + motion_events(axis, units as int));
}

#[allow(inconsistent_fields)]
enum Axes {
    Keys { x_axis: AxisKeyConfig, y_axis: AxisKeyConfig },
    Mouse { x_axis: CurveEngine, y_axis: CurveEngine },
    Trace { x_deadzone: u16, y_deadzone: u16 },
}

impl View for Axes {
    type V = Wiring;

    closed spec fn view(&self) -> Wiring {
        match self {
            Axes::Keys { x_axis, y_axis } => Wiring::Keys { x_axis: *x_axis, y_axis: *y_axis },
            Axes::Mouse { x_axis, y_axis } => Wiring::Mouse { x_axis: x_axis@, y_axis: y_axis@ },
            Axes::Trace { x_deadzone, y_deadzone } => Wiring::Trace {
                x_deadzone: *x_deadzone,
                y_deadzone: *y_deadzone,
            },
        }
    }
}

impl Axes {
    fn dispatch(&mut self, events: &mut Vec<Event>, ps: &State, ns: &State)
        ensures
            final(events)@ == old(events)@ + old(self)@.events(*ps, *ns),
            final(self)@ == old(self)@.stepped(*ns),
    {
        match self {
            Axes::Keys { x_axis, y_axis } => {
                push_key_axis_events(events, x_axis, ps.x_axis, ns.x_axis);
                push_key_axis_events(events, y_axis, ps.y_axis, ns.y_axis);
            },
            Axes::Mouse { x_axis, y_axis } => {
                let dx = x_axis.feed(ns.x_axis);
                let dy = y_axis.feed(ns.y_axis);
                push_motion_events(events, Axis::X, dx);
                push_motion_events(events, Axis::Y, dy);
            },
            Axes::Trace { x_deadzone, y_deadzone } => {
                push_trace_axis_events(events, Axis::X, *x_deadzone, ps.x_axis, ns.x_axis);
                push_trace_axis_events(events, Axis::Y, *y_deadzone, ps.y_axis, ns.y_axis);
            },
        }
        assert(events@ =~= old(events)@ + old(self)@.events(*ps, *ns));
    }
}

/// The dispatch manager. It remembers the state of the step before, and
/// nothing older.
pub struct Manager {
    previous_state: Option<State>,
    buttons: [Option<Key>; BUTTON_LEN],
    axes: Axes,
}

impl View for Manager {
    type V = ManagerState;

    closed spec fn view(&self) -> ManagerState {
        ManagerState { previous: self.previous_state, buttons: self.buttons@, wiring: self.axes@ }
    }
}

impl Manager {
    /// A manager wired as the configuration says, which has seen no state
    /// yet.
    pub fn new(cfg: Config) -> (r: Self)
        ensures
            r@ == ManagerState::fresh(cfg),
    {
        let Config { mode: _, buttons, joystick } = cfg;
        let axes = match joystick {
            JoystickConfig::Keys { x_axis, y_axis } => Axes::Keys { x_axis, y_axis },
            JoystickConfig::Mouse { x_axis, y_axis } => {
                let x_handler = Manager::mouse_mode_handler(Axis::X, x_axis);
                let y_handler = Manager::mouse_mode_handler(Axis::Y, y_axis);
                match (x_handler, y_handler) {
                    (Ok(x_axis), Ok(y_axis)) => Axes::Mouse { x_axis, y_axis },
                    // Only Z is refused.
                    _ => unreached(),
                }
            },
        };
        Manager { previous_state: None, buttons, axes }
    }

    /// The curve engine of an axis that moves the pointer. Only X and Y can:
    /// for Z the binding is refused.
    pub fn mouse_mode_handler(axis: Axis, config: AxisMouseConfig) -> (r: Result<
        CurveEngine,
        EngineError,
    >)
        ensures
            r is Ok <==> axis != Axis::Z,
            r matches Ok(engine) ==> engine@ == (CurveState { config, remainder: 0 }),
            r matches Err(e) ==> e == EngineError::UnresolvedBinding,
    {
        match axis {
            Axis::X => Ok(CurveEngine::new(config)),
            Axis::Y => Ok(CurveEngine::new(config)),
            Axis::Z => Err(EngineError::UnresolvedBinding),
        }
    }

    /// A manager that acts on nothing and shows every change instead, with a
    /// deadzone of half the full deflection on both axes.
    #[allow(dead_code)]
    pub fn dbg() -> (r: Self)
        ensures
            r@ == ManagerState::tracing(),
    {
        let r = Manager {
            previous_state: None,
            buttons: [None; BUTTON_LEN],
            axes: Axes::Trace { x_deadzone: TRACE_DEADZONE, y_deadzone: TRACE_DEADZONE },
        };
        assert(r@.buttons =~= ManagerState::tracing().buttons);
        r
    }

    /// The state of the step before, if there was one.
    pub fn previous_state(&self) -> (r: Option<State>)
        ensures
            r == self@.previous,
    {
        self.previous_state
    }

    /// Takes the next state and returns the events that the change from the
    /// state before asks for, in the order in which they are to be carried
    /// out. The first step only remembers the state.
    pub fn step(&mut self, ns: State) -> (events: Vec<Event>)
        ensures
            events@ == old(self)@.events(ns),
            final(self)@ == old(self)@.stepped(ns),
            old(self)@.previous is None ==> events@.len() == 0,
            final(self)@.previous == Some(ns),
    {
        let mut events: Vec<Event> = Vec::new();
        match self.previous_state {
            Some(ps) => {
                let tracing = match self.axes {
                    Axes::Trace { .. } => true,
                    _ => false,
                };
                let mut i: usize = 0;
                while i < BUTTON_LEN
                    invariant
                        i <= BUTTON_LEN,
                        *self == *old(self),
                        tracing == (old(self)@.wiring is Trace),
                        events@ == button_events(
                            tracing,
                            old(self)@.buttons,
                            ps.buttons@,
                            ns.buttons@,
                            i as int,
                        ),
                    decreases BUTTON_LEN - i,
                {
                    push_slot_events(
                        &mut events,
                        tracing,
                        self.buttons[i],
                        i,
                        ps.buttons[i],
                        ns.buttons[i],
                    );
                    i += 1;
                }
                self.axes.dispatch(&mut events, &ps, &ns);
                self.previous_state = Some(ns);
            },
            None => {
                self.previous_state = Some(ns);
            },
        }
        events
    }
}

impl ManagerState {
    /// The manager after it took the states of `states` one by one.
    pub open spec fn after(self, states: Seq<State>) -> ManagerState
        decreases states.len(),
    {
        if states.len() == 0 {
            self
        } else {
            self.after(states.drop_last()).stepped(states.last())
        }
    }

    /// The events of the step that takes `states[t]`, after the states
    /// before it.
    pub open spec fn events_at(self, states: Seq<State>, t: int) -> Seq<Event> {
        self.after(states.take(t)).events(states[t])
    }

    /// The state that the step taking `states[t]` compares with.
    pub open spec fn previous_at(self, states: Seq<State>, t: int) -> Option<State> {
        self.after(states.take(t)).previous
    }
}

/// How often an event occurs in a list of events.
pub open spec fn occurrences(events: Seq<Event>, e: Event) -> nat
    decreases events.len(),
{
    if events.len() == 0 {
        0
    } else {
        occurrences(events.drop_last(), e) + if events.last() == e {
            1nat
        } else {
            0nat
        }
    }
}

/// How many of the first `count` slots are bound to `k` and went down.
pub open spec fn pressed_slots(
    bindings: Seq<Option<Key>>,
    prev: Seq<bool>,
    next: Seq<bool>,
    k: Key,
    count: int,
) -> nat
    decreases count,
{
    if count <= 0 {
        0
    } else {
        pressed_slots(bindings, prev, next, k, count - 1) + if bindings[count - 1] == Some(k)
            && !prev[count - 1] && next[count - 1] {
            1nat
        } else {
            0nat
        }
    }
}

/// How many of the first `count` slots are bound to `k` and went up.
pub open spec fn released_slots(
    bindings: Seq<Option<Key>>,
    prev: Seq<bool>,
    next: Seq<bool>,
    k: Key,
    count: int,
) -> nat
    decreases count,
{
    if count <= 0 {
        0
    } else {
        released_slots(bindings, prev, next, k, count - 1) + if bindings[count - 1] == Some(k)
            && prev[count - 1] && !next[count - 1] {
            1nat
        } else {
            0nat
        }
    }
}

/// The first step of a manager that has seen nothing emits no event,
/// whatever the state; it only remembers the state.
pub proof fn lemma_first_step_is_silent(m: ManagerState, ns: State)
    requires
        m.previous is None,
    ensures
        m.events(ns) == Seq::<Event>::empty(),
        m.stepped(ns).previous == Some(ns),
        m.stepped(ns).wiring == m.wiring,
        m.stepped(ns).buttons == m.buttons,
{
}

/// Whatever states a fresh manager is fed, the first of them brings no
/// event: a manager starts out having seen nothing.
pub proof fn lemma_fresh_manager_starts_silent(cfg: Config, states: Seq<State>)
    requires
        states.len() > 0,
    ensures
        ManagerState::fresh(cfg).previous is None,
        ManagerState::tracing().previous is None,
        ManagerState::fresh(cfg).events_at(states, 0) == Seq::<Event>::empty(),
        ManagerState::tracing().events_at(states, 0) == Seq::<Event>::empty(),
{
    assert(states.take(0).len() == 0);
}

/// After any step, the manager compares with the state of that step: the
/// state before it is gone.
pub proof fn lemma_previous_is_last_state(m: ManagerState, states: Seq<State>)
    requires
        states.len() > 0,
    ensures
        m.after(states).previous == Some(states.last()),
        m.after(states).buttons == m.buttons,
    decreases states.len(),
{
    if states.len() > 1 {
        lemma_previous_is_last_state(m, states.drop_last());
    } else {
        assert(m.after(states.drop_last()) == m);
    }
}

/// A bound slot whose button went down contributes exactly the press of its
/// key.
pub proof fn lemma_slot_press(k: Key, slot: usize)
    ensures
        slot_events(false, Some(k), slot, false, true) == seq![Event::KeyDown(k)],
{
}

/// A bound slot whose button went up contributes exactly the release of
/// its key.
pub proof fn lemma_slot_release(k: Key, slot: usize)
    ensures
        slot_events(false, Some(k), slot, true, false) == seq![Event::KeyUp(k)],
{
}

/// A slot whose button did not change contributes nothing, bound or not.
pub proof fn lemma_slot_unchanged(tracing: bool, binding: Option<Key>, slot: usize, held: bool)
    ensures
        slot_events(tracing, binding, slot, held, held) == Seq::<Event>::empty(),
{
}

/// Occurrences add up over a concatenation.
pub proof fn lemma_occurrences_add(a: Seq<Event>, b: Seq<Event>, e: Event)
    ensures
        occurrences(a + b, e) == occurrences(a, e) + occurrences(b, e),
    decreases b.len(),
{
    if b.len() == 0 {
        assert(a + b =~= a);
    } else {
        assert((a + b).drop_last() =~= a + b.drop_last());
        lemma_occurrences_add(a, b.drop_last(), e);
    }
}

proof fn lemma_occurrences_of_slot(binding: Option<Key>, slot: usize, was: bool, now: bool, k: Key)
    ensures
        occurrences(slot_events(false, binding, slot, was, now), Event::KeyDown(k)) == (if binding
            == Some(k) && !was && now {
            1nat
        } else {
            0nat
        }),
        occurrences(slot_events(false, binding, slot, was, now), Event::KeyUp(k)) == (if binding
            == Some(k) && was && !now {
            1nat
        } else {
            0nat
        }),
{
    let s = slot_events(false, binding, slot, was, now);
    if s.len() == 1 {
        assert(s.drop_last() =~= Seq::<Event>::empty());
        reveal_with_fuel(occurrences, 2);
    }
}

/// The buttons press a key as often as slots bound to it went down, and
/// release it as often as slots bound to it went up.
pub proof fn lemma_button_events_count(
    bindings: Seq<Option<Key>>,
    prev: Seq<bool>,
    next: Seq<bool>,
    k: Key,
    count: int,
)
    ensures
        occurrences(button_events(false, bindings, prev, next, count), Event::KeyDown(k))
            == pressed_slots(bindings, prev, next, k, count),
        occurrences(button_events(false, bindings, prev, next, count), Event::KeyUp(k))
            == released_slots(bindings, prev, next, k, count),
    decreases count,
{
    if count > 0 {
        lemma_button_events_count(bindings, prev, next, k, count - 1);
        let head = button_events(false, bindings, prev, next, count - 1);
        let last = slot_events(
            false,
            bindings[count - 1],
            (count - 1) as usize,
            prev[count - 1],
            next[count - 1],
        );
        lemma_occurrences_add(head, last, Event::KeyDown(k));
        lemma_occurrences_add(head, last, Event::KeyUp(k));
        lemma_occurrences_of_slot(
            bindings[count - 1],
            (count - 1) as usize,
            prev[count - 1],
            next[count - 1],
            k,
        );
    }
}

/// Buttons that did not change bring no event.
pub proof fn lemma_unchanged_buttons_are_silent(
    tracing: bool,
    bindings: Seq<Option<Key>>,
    held: Seq<bool>,
    count: int,
)
    ensures
        button_events(tracing, bindings, held, held, count) == Seq::<Event>::empty(),
    decreases count,
{
    if count > 0 {
        lemma_unchanged_buttons_are_silent(tracing, bindings, held, count - 1);
    }
}

proof fn lemma_single_slot(
    bindings: Seq<Option<Key>>,
    prev: Seq<bool>,
    next: Seq<bool>,
    k: Key,
    slot: int,
    count: int,
)
    requires
        0 <= slot,
        bindings[slot] == Some(k),
        forall|j: int| 0 <= j < count && j != slot ==> bindings[j] != Some(k),
    ensures
        pressed_slots(bindings, prev, next, k, count) == (if slot < count && !prev[slot]
            && next[slot] {
            1nat
        } else {
            0nat
        }),
        released_slots(bindings, prev, next, k, count) == (if slot < count && prev[slot]
            && !next[slot] {
            1nat
        } else {
            0nat
        }),
    decreases count,
{
    if count > 0 {
        lemma_single_slot(bindings, prev, next, k, slot, count - 1);
    }
}

/// A step presses and releases every key exactly as often as the changes
/// ask for: once for each slot bound to the key whose button went down (or
/// up), and as often as the axes do.
pub proof fn lemma_step_counts_keys(m: ManagerState, ps: State, ns: State, k: Key)
    requires
        m.previous == Some(ps),
        !(m.wiring is Trace),
    ensures
        occurrences(m.events(ns), Event::KeyDown(k)) == pressed_slots(
            m.buttons,
            ps.buttons@,
            ns.buttons@,
            k,
            BUTTON_LEN as int,
        ) + occurrences(m.wiring.events(ps, ns), Event::KeyDown(k)),
        occurrences(m.events(ns), Event::KeyUp(k)) == released_slots(
            m.buttons,
            ps.buttons@,
            ns.buttons@,
            k,
            BUTTON_LEN as int,
        ) + occurrences(m.wiring.events(ps, ns), Event::KeyUp(k)),
{
    let buttons = button_events(false, m.buttons, ps.buttons@, ns.buttons@, BUTTON_LEN as int);
    lemma_occurrences_add(buttons, m.wiring.events(ps, ns), Event::KeyDown(k));
    lemma_occurrences_add(buttons, m.wiring.events(ps, ns), Event::KeyUp(k));
    lemma_button_events_count(m.buttons, ps.buttons@, ns.buttons@, k, BUTTON_LEN as int);
}

impl Wiring {
    /// Whether the axes can press or release `k`: only axes in key mode can,
    /// and only the keys of their two sides.
    pub open spec fn touches(self, k: Key) -> bool {
        match self {
            Wiring::Keys { x_axis, y_axis } => {
                ||| k == x_axis.positive
                ||| k == x_axis.negative
                ||| k == y_axis.positive
                ||| k == y_axis.negative
            },
            _ => false,
        }
    }
}

proof fn lemma_occurrences_of_key_axis(config: AxisKeyConfig, prev: int, next: int, k: Key)
    requires
        k != config.positive,
        k != config.negative,
    ensures
        occurrences(key_axis_events(config, prev, next), Event::KeyDown(k)) == 0,
        occurrences(key_axis_events(config, prev, next), Event::KeyUp(k)) == 0,
{
    let s = key_axis_events(config, prev, next);
    if s.len() == 1 {
        assert(s.drop_last() =~= Seq::<Event>::empty());
        reveal_with_fuel(occurrences, 2);
    }
}

proof fn lemma_occurrences_of_other(events: Seq<Event>, e: Event)
    requires
        events.len() <= 1,
        events.len() == 1 ==> events[0] != e,
    ensures
        occurrences(events, e) == 0,
{
    if events.len() == 1 {
        assert(events.drop_last() =~= Seq::<Event>::empty());
        reveal_with_fuel(occurrences, 2);
    }
}

/// The axes press and release no key but their own.
pub proof fn lemma_axes_leave_other_keys(w: Wiring, ps: State, ns: State, k: Key)
    requires
        !w.touches(k),
    ensures
        occurrences(w.events(ps, ns), Event::KeyDown(k)) == 0,
        occurrences(w.events(ps, ns), Event::KeyUp(k)) == 0,
{
    match w {
        Wiring::Keys { x_axis, y_axis } => {
            let x = key_axis_events(x_axis, ps.x_axis as int, ns.x_axis as int);
            let y = key_axis_events(y_axis, ps.y_axis as int, ns.y_axis as int);
            lemma_occurrences_of_key_axis(x_axis, ps.x_axis as int, ns.x_axis as int, k);
            lemma_occurrences_of_key_axis(y_axis, ps.y_axis as int, ns.y_axis as int, k);
            lemma_occurrences_add(x, y, Event::KeyDown(k));
            lemma_occurrences_add(x, y, Event::KeyUp(k));
        },
        Wiring::Mouse { x_axis, y_axis } => {
            let x = motion_events(Axis::X, x_axis.units(ns.x_axis as int));
            let y = motion_events(Axis::Y, y_axis.units(ns.y_axis as int));
            lemma_occurrences_of_other(x, Event::KeyDown(k));
            lemma_occurrences_of_other(y, Event::KeyDown(k));
            lemma_occurrences_of_other(x, Event::KeyUp(k));
            lemma_occurrences_of_other(y, Event::KeyUp(k));
            lemma_occurrences_add(x, y, Event::KeyDown(k));
            lemma_occurrences_add(x, y, Event::KeyUp(k));
        },
        Wiring::Trace { x_deadzone, y_deadzone } => {
            let x = trace_axis_events(Axis::X, x_deadzone, ps.x_axis as int, ns.x_axis as int);
            let y = trace_axis_events(Axis::Y, y_deadzone, ps.y_axis as int, ns.y_axis as int);
            lemma_occurrences_of_other(x, Event::KeyDown(k));
            lemma_occurrences_of_other(y, Event::KeyDown(k));
            lemma_occurrences_of_other(x, Event::KeyUp(k));
            lemma_occurrences_of_other(y, Event::KeyUp(k));
            lemma_occurrences_add(x, y, Event::KeyDown(k));
            lemma_occurrences_add(x, y, Event::KeyUp(k));
        },
    }
}

/// Where one slot alone is bound to a key and no axis is, a step in which the button of the slot went down presses the key
/// exactly once and does not release it; one in which it went up releases
/// the key exactly once and does not press it; and one in which it did not
/// change does neither.
pub proof fn lemma_button_edge_fires_once(m: ManagerState, ps: State, ns: State, slot: int, k: Key)
    requires
        m.previous == Some(ps),
        !(m.wiring is Trace),
        0 <= slot < BUTTON_LEN,
        m.buttons[slot] == Some(k),
        forall|j: int| 0 <= j < BUTTON_LEN && j != slot ==> m.buttons[j] != Some(k),
        !m.wiring.touches(k),
    ensures
        occurrences(m.events(ns), Event::KeyDown(k)) == (if !ps.buttons@[slot]
            && ns.buttons@[slot] {
            1nat
        } else {
            0nat
        }),
        occurrences(m.events(ns), Event::KeyUp(k)) == (if ps.buttons@[slot] && !ns.buttons@[slot] {
            1nat
        } else {
            0nat
        }),
{
    lemma_step_counts_keys(m, ps, ns, k);
    lemma_axes_leave_other_keys(m.wiring, ps, ns, k);
    lemma_single_slot(m.buttons, ps.buttons@, ns.buttons@, k, slot, BUTTON_LEN as int);
}

/// The threshold itself is rest: a value whose magnitude is the deadzone
/// lies inside it, so a step to it from outside is an entry, and a step from
/// it to itself is no crossing at all.
pub proof fn lemma_threshold_is_rest(config: AxisKeyConfig, from: int, threshold: int)
    requires
        magnitude(threshold) == config.deadzone,
    ensures
        at_rest(threshold, config.deadzone as int),
        !entered(threshold, threshold, config.deadzone as int),
        !exited(threshold, threshold, config.deadzone as int),
        key_axis_events(config, threshold, threshold) == Seq::<Event>::empty(),
        !at_rest(from, config.deadzone as int) ==> key_axis_events(config, from, threshold)
            == seq![Event::KeyUp(side_key(config, threshold))],
{
}

/// An axis in key mode emits one event where it crosses the threshold, and
/// only there.
pub proof fn lemma_crossings_decide(config: AxisKeyConfig, prev: int, next: int)
    ensures
        entered(prev, next, config.deadzone as int) <==> key_axis_events(config, prev, next)
            == seq![Event::KeyUp(side_key(config, next))],
        exited(prev, next, config.deadzone as int) <==> key_axis_events(config, prev, next)
            == seq![Event::KeyDown(side_key(config, next))],
        !entered(prev, next, config.deadzone as int) && !exited(
            prev,
            next,
            config.deadzone as int,
        ) <==> key_axis_events(config, prev, next) == Seq::<Event>::empty(),
{
    let up = seq![Event::KeyUp(side_key(config, next))];
    let down = seq![Event::KeyDown(side_key(config, next))];
    assert(up[0] != down[0]);
    assert(up.len() == 1 && down.len() == 1);
}

/// Hysteresis: along any run of axis values, between two entries into the
/// deadzone lies an exit from it. However often the threshold value is fed,
/// no second entry comes without the axis having left in between.
pub proof fn lemma_no_second_entry_without_exit(deadzone: int, values: Seq<int>, a: int, b: int)
    requires
        0 <= a < b,
        b + 1 < values.len(),
        entered(values[a], values[a + 1], deadzone),
        entered(values[b], values[b + 1], deadzone),
    ensures
        exists|c: int| a < c < b && #[trigger] exited(values[c], values[c + 1], deadzone),
{
    // values[a + 1] rests and values[b] does not, so the axis leaves in between.
    lemma_rest_ends_in_exit(deadzone, values, a + 1, b);
    let c = choose|c: int|
        a + 1 <= c < b && #[trigger] exited(values[c], values[c + 1], deadzone);
    assert(exited(values[c], values[c + 1], deadzone));
}

proof fn lemma_rest_ends_in_exit(deadzone: int, values: Seq<int>, from: int, to: int)
    requires
        0 <= from < to < values.len(),
        at_rest(values[from], deadzone),
        !at_rest(values[to], deadzone),
    ensures
        exists|c: int| from <= c < to && #[trigger] exited(values[c], values[c + 1], deadzone),
    decreases to - from,
{
    if !at_rest(values[from + 1], deadzone) {
        assert(exited(values[from], values[from + 1], deadzone));
    } else {
        lemma_rest_ends_in_exit(deadzone, values, from + 1, to);
        let c = choose|c: int|
            from + 1 <= c < to && #[trigger] exited(values[c], values[c + 1], deadzone);
        assert(exited(values[c], values[c + 1], deadzone));
    }
}

/// Stepping changes neither the key wiring nor the bindings.
pub proof fn lemma_key_wiring_stays(m: ManagerState, states: Seq<State>)
    requires
        m.wiring is Keys,
    ensures
        m.after(states).wiring == m.wiring,
        m.after(states).buttons == m.buttons,
    decreases states.len(),
{
    if states.len() > 0 {
        lemma_key_wiring_stays(m, states.drop_last());
    }
}

/// Whether what an axis in key mode emitted is the release of a key: the
/// axis came to rest.
pub open spec fn is_release(events: Seq<Event>) -> bool {
    events.len() == 1 && events[0] is KeyUp
}

/// Whether what an axis in key mode emitted is the press of a key: the axis
/// left its rest.
pub open spec fn is_press(events: Seq<Event>) -> bool {
    events.len() == 1 && events[0] is KeyDown
}

impl ManagerState {
    /// What the X axis contributes to the step that takes `states[t]`, in
    /// key mode.
    pub open spec fn x_events_at(self, states: Seq<State>, t: int) -> Seq<Event> {
        match (self.wiring, self.previous_at(states, t)) {
            (Wiring::Keys { x_axis, y_axis }, Some(ps)) => key_axis_events(
                x_axis,
                ps.x_axis as int,
                states[t].x_axis as int,
            ),
            _ => Seq::empty(),
        }
    }

    /// What the Y axis contributes to the step that takes `states[t]`, in
    /// key mode.
    pub open spec fn y_events_at(self, states: Seq<State>, t: int) -> Seq<Event> {
        match (self.wiring, self.previous_at(states, t)) {
            (Wiring::Keys { x_axis, y_axis }, Some(ps)) => key_axis_events(
                y_axis,
                ps.y_axis as int,
                states[t].y_axis as int,
            ),
            _ => Seq::empty(),
        }
    }
}

/// In key mode, every step but the first compares the state it takes with
/// the one taken just before, and with nothing older; its events are those
/// of the buttons, then of the X axis, then of the Y axis.
pub proof fn lemma_key_mode_step(m: ManagerState, states: Seq<State>, t: int)
    requires
        m.wiring is Keys,
        1 <= t < states.len(),
    ensures
        m.previous_at(states, t) == Some(states[t - 1]),
        m.events_at(states, t) == button_events(
            false,
            m.buttons,
            states[t - 1].buttons@,
            states[t].buttons@,
            BUTTON_LEN as int,
        ) + (m.x_events_at(states, t) + m.y_events_at(states, t)),
{
    lemma_previous_is_last_state(m, states.take(t));
    lemma_key_wiring_stays(m, states.take(t));
}

proof fn lemma_axis_hysteresis(
    config: AxisKeyConfig,
    first: Option<int>,
    values: Seq<int>,
    a: int,
    b: int,
)
    requires
        0 <= a < b < values.len(),
        a == 0 ==> first is Some,
        is_release(
            key_axis_events(
                config,
                if a == 0 {
                    first->0
                } else {
                    values[a - 1]
                },
                values[a],
            ),
        ),
        is_release(key_axis_events(config, values[b - 1], values[b])),
    ensures
        exists|c: int|
            a < c < b && is_press(#[trigger] key_axis_events(config, values[c - 1], values[c])),
{
    let dz = config.deadzone as int;
    let start = if first is Some {
        first->0
    } else {
        0
    };
    let all = seq![start] + values;
    assert(forall|i: int| 0 <= i < values.len() ==> all[i + 1] == values[i]);
    assert(all[a] == if a == 0 {
        first->0
    } else {
        values[a - 1]
    });
    assert(all[a + 1] == values[a]);
    assert(all[b] == values[b - 1]);
    assert(all[b + 1] == values[b]);
    lemma_no_second_entry_without_exit(dz, all, a, b);
    let c = choose|c: int| a < c < b && #[trigger] exited(all[c], all[c + 1], dz);
    assert(all[c] == values[c - 1]);
    assert(all[c + 1] == values[c]);
    assert(is_press(key_axis_events(config, values[c - 1], values[c])));
}

/// Hysteresis of the manager: in key mode, between two steps at which the
/// X axis released a key lies a step at which it pressed one, and so for the
/// Y axis. An axis that came to rest emits nothing more until it has left
/// its rest, however often the threshold itself is fed.
pub proof fn lemma_manager_hysteresis(m: ManagerState, states: Seq<State>, a: int, b: int)
    requires
        m.wiring is Keys,
        0 <= a < b < states.len(),
    ensures
        is_release(m.x_events_at(states, a)) && is_release(m.x_events_at(states, b))
            ==> exists|c: int| a < c < b && is_press(#[trigger] m.x_events_at(states, c)),
        is_release(m.y_events_at(states, a)) && is_release(m.y_events_at(states, b))
            ==> exists|c: int| a < c < b && is_press(#[trigger] m.y_events_at(states, c)),
{
    assert(states.take(0) =~= Seq::<State>::empty());
    assert(m.previous_at(states, 0) == m.previous);
    assert forall|t: int| 1 <= t < states.len() implies #[trigger] m.previous_at(states, t)
        == Some(states[t - 1]) by {
        lemma_previous_is_last_state(m, states.take(t));
    }
    let x_axis = m.wiring->Keys_x_axis;
    let y_axis = m.wiring->Keys_y_axis;
    if is_release(m.x_events_at(states, a)) && is_release(m.x_events_at(states, b)) {
        let xs = Seq::new(states.len(), |i: int| states[i].x_axis as int);
        let first = match m.previous {
            Some(ps) => Some(ps.x_axis as int),
            None => None,
        };
        lemma_axis_hysteresis(x_axis, first, xs, a, b);
        let c = choose|c: int|
            a < c < b && is_press(#[trigger] key_axis_events(x_axis, xs[c - 1], xs[c]));
        assert(m.previous_at(states, c) == Some(states[c - 1]));
        assert(is_press(m.x_events_at(states, c)));
    }
    if is_release(m.y_events_at(states, a)) && is_release(m.y_events_at(states, b)) {
        let ys = Seq::new(states.len(), |i: int| states[i].y_axis as int);
        let first = match m.previous {
            Some(ps) => Some(ps.y_axis as int),
            None => None,
        };
        lemma_axis_hysteresis(y_axis, first, ys, a, b);
        let c = choose|c: int|
            a < c < b && is_press(#[trigger] key_axis_events(y_axis, ys[c - 1], ys[c]));
        assert(m.previous_at(states, c) == Some(states[c - 1]));
        assert(is_press(m.y_events_at(states, c)));
    }
}

} // verus!
