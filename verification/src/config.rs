//! What a run is configured with: key bindings, axis modes, response curves.

use vstd::prelude::*;

verus! {

/// Number of button slots of the device.
pub const BUTTON_LEN: usize = 11;

/// Number of steps in one unit of normalized deflection: an axis value of
/// `n` steps stands for `n / 255`.
pub const FULL_SCALE: i16 = 255;

/// Everything a run is configured with.
#[derive(Debug, Clone, PartialEq, Eq)]
pub struct Config {
    pub mode: Mode,
    /// The key of each button slot; `None` leaves the slot unbound.
    pub buttons: [Option<Key>; BUTTON_LEN],
    pub joystick: JoystickConfig,
}

/// Which key codes the injected keyboard events carry.
#[derive(Debug, Copy, Clone, PartialEq, Eq, Structural)]
pub enum Mode {
    Normal,
    DirectX,
}

/// One of the three axes of the stick.
#[derive(Debug, Copy, Clone, PartialEq, Eq, Structural)]
pub enum Axis {
    X,
    Y,
    Z,
}

/// How the stick is wired: both tracked axes press keys, or both move the
/// pointer.
#[allow(inconsistent_fields)]
#[derive(Debug, Clone, PartialEq, Eq)]
pub enum JoystickConfig {
    Keys { x_axis: AxisKeyConfig, y_axis: AxisKeyConfig },
    Mouse { x_axis: AxisMouseConfig, y_axis: AxisMouseConfig },
}

/// An axis that moves the pointer.
///
/// `dpi` and the parameters of the response curve are whole numbers of one
/// common unit of distance, as fine as the caller likes (thousandths of a
/// dot, say); only their ratios decide how far the pointer moves.
#[derive(Debug, Clone, PartialEq, Eq)]
pub struct AxisMouseConfig {
    /// The response curve: the distance that corresponds to one output unit.
    pub dots_per_pixel: MouseMode,
    /// Sensitivity: the distance that one sample at full deflection travels.
    pub dpi: i16,
    /// Samples of a smaller magnitude than this many steps are ignored.
    pub deadzone: u16,
}

/// A response curve `g`, from the deflection `f` of a sample to the distance
/// that corresponds to one output unit. The smaller the distance, the faster
/// the pointer.
#[derive(Debug, Clone, PartialEq, Eq)]
pub enum MouseMode {
    /// `g(f) = c`
    Constant(i16),
    /// `g(f) = (1 - |f|) * m + bias * sign(m)`
    Linear { m: i16, bias: i16 },
    /// `g(f) = coef(|f|) * target`, where `coef` is cut to [0, 1] and `g` is
    /// kept at least `floor` away from zero.
    ///
    /// The sigmoid is tabulated: `coefficients[i]` is its value, in steps of
    /// 1/255, at a deflection of `i` steps. A deflection past the end of the
    /// table reads the last entry; an empty table reads as zero.
    Logistic { target: i16, floor: u16, coefficients: Vec<i16> },
}

/// An axis that presses one of two opposing keys while the stick is
/// deflected past the deadzone.
#[derive(Debug, Copy, Clone, PartialEq, Eq)]
pub struct AxisKeyConfig {
    pub positive: Key,
    pub negative: Key,
    /// The axis is at rest while its magnitude is at most this many steps.
    pub deadzone: u16,
}

/// A logical key that a button or an axis direction can be bound to.
#[allow(dead_code)]
#[derive(Debug, Copy, Clone, PartialEq, Eq, Hash, Structural)]
pub enum Key {
    A,
    B,
    C,
    D,
    E,
    F,
    G,
    H,
    I,
    J,
    K,
    L,
    M,
    N,
    O,
    P,
    Q,
    R,
    S,
    T,
    U,
    V,
    W,
    X,
    Y,
    Z,
    Alt,
    Shift,
    Ctrl,
    Enter,
    Escape,
    LeftArrow,
    RightArrow,
    UpArrow,
    DownArrow,
    F1,
    F2,
    F3,
    F4,
    F5,
    F6,
    F7,
    F8,
    F9,
    K0,
    K1,
    K2,
    K3,
    K4,
    K5,
    K6,
    K7,
    K8,
    K9,
    LMB,
    RMB,
}

impl Key {
    /// Whether the key is one of the two mouse buttons.
    pub open spec fn spec_is_mouse(&self) -> bool {
        *self == Key::LMB || *self == Key::RMB
    }

    /// Whether the key is one of the two mouse buttons.
    #[verifier::when_used_as_spec(spec_is_mouse)]
    pub fn is_mouse(&self) -> (r: bool)
        ensures
            r == self.spec_is_mouse(),
    {
        *self == Key::LMB || *self == Key::RMB
    }
}

/// Whether one of the first `count` button slots is bound to `k`.
pub open spec fn slots_bind(buttons: Seq<Option<Key>>, count: int, k: Key) -> bool {
    exists|i: int| 0 <= i < count && #[trigger] buttons[i] == Some(k)
}

/// One more slot binds what the slots before it bind, and its own key.
pub proof fn lemma_slots_bind_step(buttons: Seq<Option<Key>>, count: int, k: Key)
    requires
        0 <= count,
    ensures
        slots_bind(buttons, count + 1, k) == (slots_bind(buttons, count, k) || buttons[count]
            == Some(k)),
{
    if slots_bind(buttons, count + 1, k) {
        let j = choose|j: int| 0 <= j < count + 1 && #[trigger] buttons[j] == Some(k);
        if j < count {
            assert(slots_bind(buttons, count, k));
        }
    }
    if slots_bind(buttons, count, k) {
        let j = choose|j: int| 0 <= j < count && #[trigger] buttons[j] == Some(k);
        assert(buttons[j] == Some(k));
    }
    if buttons[count] == Some(k) {
        assert(slots_bind(buttons, count + 1, k));
    }
}

impl JoystickConfig {
    /// Whether one of the directions of the stick is bound to `k`.
    pub open spec fn binds(self, k: Key) -> bool {
        match self {
            JoystickConfig::Keys { x_axis, y_axis } => {
                ||| k == x_axis.positive
                ||| k == x_axis.negative
                ||| k == y_axis.positive
                ||| k == y_axis.negative
            },
            JoystickConfig::Mouse { .. } => false,
        }
    }
}

impl Config {
    /// Whether a button slot or a direction of the stick is bound to `k`.
    pub open spec fn binds(self, k: Key) -> bool {
        slots_bind(self.buttons@, BUTTON_LEN as int, k) || self.joystick.binds(k)
    }

    /// Whether every bound key is one that the keyboard has.
    pub open spec fn resolved(self) -> bool {
        forall|k: Key| #[trigger] self.binds(k) ==> !k.is_mouse()
    }
}

} // verus!
