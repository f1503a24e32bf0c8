//! The input records that the Windows injector sends: which virtual key or
//! scan code stands for a logical key, and what a key or pointer record
//! holds. Sending them is left to the caller.

use vstd::prelude::*;
use crate::config::Config;
use crate::config::JoystickConfig;
use crate::config::Key;
use crate::config::Mode;
use crate::config::slots_bind;
use crate::config::lemma_slots_bind_step;
use crate::config::BUTTON_LEN;
use crate::dispatch::Event;
use crate::error::EngineError;

verus! {

/// Flag of a pointer record: the record moves the pointer.
pub const MOUSEEVENTF_MOVE: u32 = 0x0001;

/// Tag of a pointer record.
pub const TAG_MOUSE: u32 = 0;

/// Tag of a keyboard record.
pub const TAG_KEY: u32 = 1;

/// Flag of a keyboard record: the key is released.
pub const KEY_UP: u32 = 0x0002;

/// The Windows virtual-key code of each key that has one. Letters and
/// digits have the codes of their characters.
pub open spec fn ascii_code(k: Key) -> u16 {
    match k {
        Key::A => 'A' as u16,
        Key::B => 'B' as u16,
        Key::C => 'C' as u16,
        Key::D => 'D' as u16,
        Key::E => 'E' as u16,
        Key::F => 'F' as u16,
        Key::G => 'G' as u16,
        Key::H => 'H' as u16,
        Key::I => 'I' as u16,
        Key::J => 'J' as u16,
        Key::K => 'K' as u16,
        Key::L => 'L' as u16,
        Key::M => 'M' as u16,
        Key::N => 'N' as u16,
        Key::O => 'O' as u16,
        Key::P => 'P' as u16,
        Key::Q => 'Q' as u16,
        Key::R => 'R' as u16,
        Key::S => 'S' as u16,
        Key::T => 'T' as u16,
        Key::U => 'U' as u16,
        Key::V => 'V' as u16,
        Key::W => 'W' as u16,
        Key::X => 'X' as u16,
        Key::Y => 'Y' as u16,
        Key::Z => 'Z' as u16,
        Key::K0 => '0' as u16,
        Key::K1 => '1' as u16,
        Key::K2 => '2' as u16,
        Key::K3 => '3' as u16,
        Key::K4 => '4' as u16,
        Key::K5 => '5' as u16,
        Key::K6 => '6' as u16,
        Key::K7 => '7' as u16,
        Key::K8 => '8' as u16,
        Key::K9 => '9' as u16,
        Key::Enter => 0x0D,
        Key::Shift => 0x10,
        Key::Ctrl => 0x11,
        Key::Alt => 0x12,
        Key::Escape => 0x1B,
        Key::LeftArrow => 0x25,
        Key::UpArrow => 0x26,
        Key::RightArrow => 0x27,
        Key::DownArrow => 0x28,
        Key::F1 => 0x70,
        Key::F2 => 0x71,
        Key::F3 => 0x72,
        Key::F4 => 0x73,
        Key::F5 => 0x74,
        Key::F6 => 0x75,
        Key::F7 => 0x76,
        Key::F8 => 0x77,
        Key::F9 => 0x78,
        Key::LMB => 0,
        Key::RMB => 0,
    }
}

/// The DirectInput scan code of each key that has one, row by row of the
/// keyboard.
pub open spec fn directx_code(k: Key) -> u16 {
    match k {
        Key::Escape => 0x01,
        Key::K1 => 0x02,
        Key::K2 => 0x03,
        Key::K3 => 0x04,
        Key::K4 => 0x05,
        Key::K5 => 0x06,
        Key::K6 => 0x07,
        Key::K7 => 0x08,
        Key::K8 => 0x09,
        Key::K9 => 0x0A,
        Key::K0 => 0x0B,
        Key::Q => 0x10,
        Key::W => 0x11,
        Key::E => 0x12,
        Key::R => 0x13,
        Key::T => 0x14,
        Key::Y => 0x15,
        Key::U => 0x16,
        Key::I => 0x17,
        Key::O => 0x18,
        Key::P => 0x19,
        Key::Enter => 0x1C,
        Key::Ctrl => 0x1D,
        Key::A => 0x1E,
        Key::S => 0x1F,
        Key::D => 0x20,
        Key::F => 0x21,
        Key::G => 0x22,
        Key::H => 0x23,
        Key::J => 0x24,
        Key::K => 0x25,
        Key::L => 0x26,
        Key::Z => 0x2C,
        Key::X => 0x2D,
        Key::C => 0x2E,
        Key::V => 0x2F,
        Key::B => 0x30,
        Key::N => 0x31,
        Key::M => 0x32,
        Key::Shift => 0x36,
        Key::Alt => 0x38,
        Key::F1 => 0x3B,
        Key::F2 => 0x3C,
        Key::F3 => 0x3D,
        Key::F4 => 0x3E,
        Key::F5 => 0x3F,
        Key::F6 => 0x40,
        Key::F7 => 0x41,
        Key::F8 => 0x42,
        Key::F9 => 0x43,
        Key::UpArrow => 0xC8,
        Key::LeftArrow => 0xCB,
        Key::RightArrow => 0xCD,
        Key::DownArrow => 0xD0,
        Key::LMB => 0,
        Key::RMB => 0,
    }
}

/// The Windows virtual-key code of a keyboard key.
pub fn ascii_virtual_key(k: Key) -> (code: u16)
    requires
        !k.is_mouse(),
    ensures
        code == ascii_code(k),
{
    match k {
        Key::A => 0x41,
        Key::B => 0x42,
        Key::C => 0x43,
        Key::D => 0x44,
        Key::E => 0x45,
        Key::F => 0x46,
        Key::G => 0x47,
        Key::H => 0x48,
        Key::I => 0x49,
        Key::J => 0x4A,
        Key::K => 0x4B,
        Key::L => 0x4C,
        Key::M => 0x4D,
        Key::N => 0x4E,
        Key::O => 0x4F,
        Key::P => 0x50,
        Key::Q => 0x51,
        Key::R => 0x52,
        Key::S => 0x53,
        Key::T => 0x54,
        Key::U => 0x55,
        Key::V => 0x56,
        Key::W => 0x57,
        Key::X => 0x58,
        Key::Y => 0x59,
        Key::Z => 0x5A,
        Key::K0 => 0x30,
        Key::K1 => 0x31,
        Key::K2 => 0x32,
        Key::K3 => 0x33,
        Key::K4 => 0x34,
        Key::K5 => 0x35,
        Key::K6 => 0x36,
        Key::K7 => 0x37,
        Key::K8 => 0x38,
        Key::K9 => 0x39,
        Key::Enter => 0x0D,
        Key::Shift => 0x10,
        Key::Ctrl => 0x11,
        Key::Alt => 0x12,
        Key::LeftArrow => 0x25,
        Key::UpArrow => 0x26,
        Key::RightArrow => 0x27,
        Key::DownArrow => 0x28,
        Key::Escape => 0x1B,
        Key::F1 => 0x70,
        Key::F2 => 0x71,
        Key::F3 => 0x72,
        Key::F4 => 0x73,
        Key::F5 => 0x74,
        Key::F6 => 0x75,
        Key::F7 => 0x76,
        Key::F8 => 0x77,
        Key::F9 => 0x78,
        Key::LMB => 0,
        Key::RMB => 0,
    }
}

/// The DirectInput scan code of a keyboard key. DirectX reads scan codes,
/// not virtual keys.
pub fn directx_virtual_key(k: Key) -> (code: u16)
    requires
        !k.is_mouse(),
    ensures
        code == directx_code(k),
{
    match k {
        Key::A => 0x1E,
        Key::B => 0x30,
        Key::C => 0x2E,
        Key::D => 0x20,
        Key::E => 0x12,
        Key::F => 0x21,
        Key::G => 0x22,
        Key::H => 0x23,
        Key::I => 0x17,
        Key::J => 0x24,
        Key::K => 0x25,
        Key::L => 0x26,
        Key::M => 0x32,
        Key::N => 0x31,
        Key::O => 0x18,
        Key::P => 0x19,
        Key::Q => 0x10,
        Key::R => 0x13,
        Key::S => 0x1F,
        Key::T => 0x14,
        Key::U => 0x16,
        Key::V => 0x2F,
        Key::W => 0x11,
        Key::X => 0x2D,
        Key::Y => 0x15,
        Key::Z => 0x2C,
        Key::K0 => 0x0B,
        Key::K1 => 0x02,
        Key::K2 => 0x03,
        Key::K3 => 0x04,
        Key::K4 => 0x05,
        Key::K5 => 0x06,
        Key::K6 => 0x07,
        Key::K7 => 0x08,
        Key::K8 => 0x09,
        Key::K9 => 0x0A,
        Key::Enter => 0x1C,
        Key::Shift => 0x36,
        Key::Ctrl => 0x1D,
        Key::Alt => 0x38,
        Key::LeftArrow => 0xCB,
        Key::UpArrow => 0xC8,
        Key::RightArrow => 0xCD,
        Key::DownArrow => 0xD0,
        Key::Escape => 0x01,
        Key::F1 => 0x3B,
        Key::F2 => 0x3C,
        Key::F3 => 0x3D,
        Key::F4 => 0x3E,
        Key::F5 => 0x3F,
        Key::F6 => 0x40,
        Key::F7 => 0x41,
        Key::F8 => 0x42,
        Key::F9 => 0x43,
        Key::LMB => 0,
        Key::RMB => 0,
    }
}

/// No two keyboard keys share a virtual-key code.
pub proof fn lemma_ascii_codes_distinct(a: Key, b: Key)
    requires
        !a.is_mouse(),
        !b.is_mouse(),
        ascii_code(a) == ascii_code(b),
    ensures
        a == b,
{
}

/// No two keyboard keys share a scan code.
pub proof fn lemma_directx_codes_distinct(a: Key, b: Key)
    requires
        !a.is_mouse(),
        !b.is_mouse(),
        directx_code(a) == directx_code(b),
    ensures
        a == b,
{
}

/// The pointer part of an input record.
#[derive(Debug, Copy, Clone, PartialEq, Eq)]
pub struct MouseInput {
    pub dx: i32,
    pub dy: i32,
    pub mouse_data: u32,
    pub dw_flags: u32,
    pub time: u32,
    pub dw_extra_info: usize,
}

/// The keyboard part of an input record.
#[derive(Debug, Copy, Clone, PartialEq, Eq)]
pub struct KeybdInput {
    pub w_vk: u16,
    pub w_scan: u16,
    pub dw_flags: u32,
    pub time: u32,
    pub dw_extra_info: usize,
}

/// One input record: a tag, and the part that the tag selects.
#[derive(Debug, Copy, Clone, PartialEq, Eq)]
pub enum Input {
    Mouse(MouseInput),
    Keyboard(KeybdInput),
}

/// The flags of a keyboard record that carries a scan code.
pub open spec fn directx_flags(up: bool) -> u32 {
    if up {
        0x000E
    } else {
        0x000C
    }
}

/// The flags of a keyboard record that carries a virtual key.
pub open spec fn ascii_flags(up: bool) -> u32 {
    if up {
        KEY_UP
    } else {
        0
    }
}

/// The keyboard record of a key in a mode: a scan code for DirectX, a
/// virtual key otherwise.
pub open spec fn key_record(mode: Mode, k: Key, up: bool, extra_info: usize) -> Input {
    match mode {
        Mode::DirectX => Input::Keyboard(
            KeybdInput {
                w_vk: 0,
                w_scan: directx_code(k),
                dw_flags: directx_flags(up),
                time: 0,
                dw_extra_info: extra_info,
            },
        ),
        Mode::Normal => Input::Keyboard(
            KeybdInput {
                w_vk: ascii_code(k),
                w_scan: 0,
                dw_flags: ascii_flags(up),
                time: 0,
                dw_extra_info: extra_info,
            },
        ),
    }
}

/// The pointer record of a relative movement.
pub open spec fn mouse_record(x_amount: i32, y_amount: i32, extra_info: usize) -> Input {
    Input::Mouse(
        MouseInput {
            dx: x_amount,
            dy: y_amount,
            mouse_data: 0,
            dw_flags: MOUSEEVENTF_MOVE,
            time: 0,
            dw_extra_info: extra_info,
        },
    )
}

impl Input {
    /// The tag that tells the two kinds of record apart.
    pub fn tag(&self) -> (r: u32)
        ensures
            r == (if self is Mouse {
                TAG_MOUSE
            } else {
                TAG_KEY
            }),
    {
        match self {
            Input::Mouse(_) => TAG_MOUSE,
            Input::Keyboard(_) => TAG_KEY,
        }
    }

    /// The record that presses or releases a key by its scan code.
    /// `extra_info` is what the system currently attaches to messages.
    pub fn new_directx_key(k: Key, up: bool, extra_info: usize) -> (r: Self)
        requires
            !k.is_mouse(),
        ensures
            r == key_record(Mode::DirectX, k, up, extra_info),
    {
        let released: u32 = if up {
            KEY_UP
        } else {
            0x0
        };
        assert(0x0002u32 | 0x0004u32 | 0x0008u32 == 0x000Eu32) by (bit_vector);
        assert(0x0u32 | 0x0004u32 | 0x0008u32 == 0x000Cu32) by (bit_vector);
        Input::Keyboard(
            KeybdInput {
                w_vk: 0,
                w_scan: directx_virtual_key(k),
                dw_flags: released | 0x0004 | 0x0008,
                time: 0,
                dw_extra_info: extra_info,
            },
        )
    }

    /// The record that presses or releases a key by its virtual-key code.
    pub fn new_ascii_key(k: Key, up: bool, extra_info: usize) -> (r: Self)
        requires
            !k.is_mouse(),
        ensures
            r == key_record(Mode::Normal, k, up, extra_info),
    {
        Input::Keyboard(
            KeybdInput {
                w_vk: ascii_virtual_key(k),
                w_scan: 0,
                dw_flags: if up {
                    KEY_UP
                } else {
                    0x0
                },
                time: 0,
                dw_extra_info: extra_info,
            },
        )
    }

    /// The record that moves the pointer by the given amounts.
    pub fn new_mouse_rel(x_amount: i32, y_amount: i32, extra_info: usize) -> (r: Self)
        ensures
            r == mouse_record(x_amount, y_amount, extra_info),
    {
        Input::Mouse(
            MouseInput {
                dx: x_amount,
                dy: y_amount,
                mouse_data: 0x0,
                dw_flags: MOUSEEVENTF_MOVE,
                time: 0,
                dw_extra_info: extra_info,
            },
        )
    }
}

/// The two records of one key, made once and kept.
#[derive(Debug, Copy, Clone, PartialEq, Eq)]
pub struct CachedKey {
    pub key: Key,
    pub down: Input,
    pub up: Input,
}

/// The records of `k` in a mode.
pub open spec fn cached_key(mode: Mode, k: Key, extra_info: usize) -> CachedKey {
    CachedKey {
        key: k,
        down: key_record(mode, k, false, extra_info),
        up: key_record(mode, k, true, extra_info),
    }
}

/// The entry of `k` in a list of cached keys: the latest one.
pub open spec fn find_key(entries: Seq<CachedKey>, k: Key) -> Option<CachedKey>
    decreases entries.len(),
{
    if entries.len() == 0 {
        None
    } else if entries.last().key == k {
        Some(entries.last())
    } else {
        find_key(entries.drop_last(), k)
    }
}

/// The injector's store of input records: for every key that the
/// configuration binds, the record that presses it and the record that
/// releases it.
pub struct WinDispatch {
    mode: Mode,
    keys: Vec<CachedKey>,
}

proof fn lemma_absent_key(entries: Seq<CachedKey>, k: Key)
    requires
        find_key(entries, k) is None,
    ensures
        forall|i: int| 0 <= i < entries.len() ==> entries[i].key != k,
    decreases entries.len(),
{
    if entries.len() > 0 {
        lemma_absent_key(entries.drop_last(), k);
        assert forall|i: int| 0 <= i < entries.len() implies entries[i].key != k by {
            if i < entries.len() - 1 {
                assert(entries.drop_last()[i] == entries[i]);
            }
        }
    }
}

/// Whether no key has two entries.
pub open spec fn distinct_keys(entries: Seq<CachedKey>) -> bool {
    forall|i: int, j: int| 0 <= i < j < entries.len() ==> entries[i].key != entries[j].key
}

fn lookup(keys: &Vec<CachedKey>, k: Key) -> (r: Option<CachedKey>)
    ensures
        r == find_key(keys@, k),
{
    let mut i: usize = keys.len();
    assert(keys@.subrange(0, i as int) =~= keys@);
    while i > 0
        invariant
            i <= keys@.len(),
            find_key(keys@, k) == find_key(keys@.subrange(0, i as int), k),
        decreases i,
    {
        let entry = keys[i - 1];
        let ghost head = keys@.subrange(0, i as int);
        assert(head.last() == entry);
        if entry.key == k {
            return Some(entry);
        }
        assert(head.drop_last() =~= keys@.subrange(0, i as int - 1));
        i -= 1;
    }
    None
}

impl WinDispatch {
    /// No key is kept twice.
    #[verifier::type_invariant]
    spec fn distinct(self) -> bool {
        distinct_keys(self.keys@)
    }

    /// The mode that the records were made for.
    pub closed spec fn spec_mode(&self) -> Mode {
        self.mode
    }

    /// The records kept for `k`, if any.
    pub closed spec fn cached(&self, k: Key) -> Option<CachedKey> {
        find_key(self.keys@, k)
    }

    /// The mode that the records were made for.
    #[verifier::when_used_as_spec(spec_mode)]
    pub fn mode(&self) -> (r: Mode)
        ensures
            r == self.spec_mode(),
    {
        self.mode
    }

    /// Keeps the records of `k` for `mode`, unless the key has some already.
    fn cache_key(keys: &mut Vec<CachedKey>, k: Key, mode: Mode, extra_info: usize)
        requires
            !k.is_mouse(),
            distinct_keys(old(keys)@),
        ensures
            distinct_keys(final(keys)@),
            forall|other: Key|
                #[trigger] find_key(final(keys)@, other) == (if other == k && find_key(
                    old(keys)@,
                    k,
                ) is None {
                    Some(cached_key(mode, k, extra_info))
                } else {
                    find_key(old(keys)@, other)
                }),
    {
        if lookup(keys, k).is_some() {
            return ;
        }
        let entry = match mode {
            Mode::DirectX => CachedKey {
                key: k,
                down: Input::new_directx_key(k, false, extra_info),
                up: Input::new_directx_key(k, true, extra_info),
            },
            Mode::Normal => CachedKey {
                key: k,
                down: Input::new_ascii_key(k, false, extra_info),
                up: Input::new_ascii_key(k, true, extra_info),
            },
        };
        proof {
            lemma_absent_key(keys@, k);
        }
        keys.push(entry);
        assert(keys@.drop_last() =~= old(keys)@);
    }

    /// Keeps the records that a stick in key mode needs: those of its four
    /// keys. Says whether the keyboard has them all.
    fn cache_joystick(
        keys: &mut Vec<CachedKey>,
        joystick: &JoystickConfig,
        mode: Mode,
        extra_info: usize,
    ) -> (ok: bool)
        requires
            distinct_keys(old(keys)@),
        ensures
            ok <==> (forall|k: Key| #[trigger] joystick.binds(k) ==> !k.is_mouse()),
            distinct_keys(final(keys)@),
            ok ==> forall|k: Key|
                #[trigger] find_key(final(keys)@, k) == (if find_key(old(keys)@, k) is None
                    && joystick.binds(k) {
                    Some(cached_key(mode, k, extra_info))
                } else {
                    find_key(old(keys)@, k)
                }),
    {
        match joystick {
            JoystickConfig::Keys { x_axis, y_axis } => {
                if x_axis.positive.is_mouse() {
                    assert(joystick.binds(x_axis.positive));
                    return false;
                }
                if x_axis.negative.is_mouse() {
                    assert(joystick.binds(x_axis.negative));
                    return false;
                }
                if y_axis.positive.is_mouse() {
                    assert(joystick.binds(y_axis.positive));
                    return false;
                }
                if y_axis.negative.is_mouse() {
                    assert(joystick.binds(y_axis.negative));
                    return false;
                }
                Self::cache_key(keys, x_axis.positive, mode, extra_info);
                Self::cache_key(keys, x_axis.negative, mode, extra_info);
                Self::cache_key(keys, y_axis.positive, mode, extra_info);
                Self::cache_key(keys, y_axis.negative, mode, extra_info);
                true
            },
            JoystickConfig::Mouse { .. } => true,
        }
    }

    /// Makes the records of every key that the configuration binds, for the
    /// mode that it names. A binding to a key that the keyboard does not
    /// have is refused.
    pub fn from_cfg(cfg: &Config, extra_info: usize) -> (r: Result<Self, EngineError>)
        ensures
            r is Ok <==> cfg.resolved(),
            r matches Ok(d) ==> d.spec_mode() == cfg.mode && forall|k: Key|
                #[trigger] d.cached(k) == (if cfg.binds(k) {
                    Some(cached_key(cfg.mode, k, extra_info))
                } else {
                    None
                }),
            r matches Err(e) ==> e == EngineError::UnresolvedBinding,
    {
        let mut keys: Vec<CachedKey> = Vec::new();
        let mut i: usize = 0;
        while i < BUTTON_LEN
            invariant
                i <= BUTTON_LEN,
                distinct_keys(keys@),
                forall|k: Key| #[trigger] slots_bind(cfg.buttons@, i as int, k) ==> !k.is_mouse(),
                forall|k: Key|
                    #[trigger] find_key(keys@, k) == (if slots_bind(cfg.buttons@, i as int, k) {
                        Some(cached_key(cfg.mode, k, extra_info))
                    } else {
                        None
                    }),
            decreases BUTTON_LEN - i,
        {
            let ghost before = keys@;
            match cfg.buttons[i] {
                Some(key) => {
                    if key.is_mouse() {
                        assert(cfg.buttons@[i as int] == Some(key));
                        assert(cfg.binds(key));
                        return Err(EngineError::UnresolvedBinding);
                    }
                    Self::cache_key(&mut keys, key, cfg.mode, extra_info);
                },
                None => {},
            }
            assert forall|k: Key| #[trigger]
                slots_bind(cfg.buttons@, i as int + 1, k) implies !k.is_mouse() by {
                lemma_slots_bind_step(cfg.buttons@, i as int, k);
            }
            assert forall|k: Key|
                #[trigger] find_key(keys@, k) == (if slots_bind(cfg.buttons@, i as int + 1, k) {
                    Some(cached_key(cfg.mode, k, extra_info))
                } else {
                    None
                }) by {
                lemma_slots_bind_step(cfg.buttons@, i as int, k);
                assert(find_key(before, k) == (if slots_bind(cfg.buttons@, i as int, k) {
                    Some(cached_key(cfg.mode, k, extra_info))
                } else {
                    None
                }));
            }
            i += 1;
        }
        let ghost filled = keys@;
        let ok = Self::cache_joystick(&mut keys, &cfg.joystick, cfg.mode, extra_info);
        if !ok {
            let ghost k = choose|k: Key| #[trigger] cfg.joystick.binds(k) && k.is_mouse();
            assert(cfg.binds(k));
            return Err(EngineError::UnresolvedBinding);
        }
        assert forall|k: Key|
            #[trigger] find_key(keys@, k) == (if cfg.binds(k) {
                Some(cached_key(cfg.mode, k, extra_info))
            } else {
                None
            }) by {
            assert(find_key(filled, k) == (if slots_bind(cfg.buttons@, BUTTON_LEN as int, k) {
                Some(cached_key(cfg.mode, k, extra_info))
            } else {
                None
            }));
        }
        Ok(WinDispatch { mode: cfg.mode, keys })
    }

    /// The record that releases `k`, if the key was bound.
    pub fn key_up(&self, k: Key) -> (r: Option<Input>)
        ensures
            r == (match self.cached(k) {
                Some(entry) => Some(entry.up),
                None => None,
            }),
    {
        match lookup(&self.keys, k) {
            Some(entry) => Some(entry.up),
            None => None,
        }
    }

    /// The record that presses `k`, if the key was bound.
    pub fn key_down(&self, k: Key) -> (r: Option<Input>)
        ensures
            r == (match self.cached(k) {
                Some(entry) => Some(entry.down),
                None => None,
            }),
    {
        match lookup(&self.keys, k) {
            Some(entry) => Some(entry.down),
            None => None,
        }
    }

    /// The record that moves the pointer sideways by `r`.
    pub fn rel_mouse_x(&self, r: i32, extra_info: usize) -> (input: Input)
        ensures
            input == mouse_record(r, 0, extra_info),
    {
        match self.mode {
            Mode::DirectX | Mode::Normal => Input::new_mouse_rel(r, 0, extra_info),
        }
    }

    /// The record that moves the pointer up or down by `r`.
    pub fn rel_mouse_y(&self, r: i32, extra_info: usize) -> (input: Input)
        ensures
            input == mouse_record(0, r, extra_info),
    {
        match self.mode {
            Mode::DirectX | Mode::Normal => Input::new_mouse_rel(0, r, extra_info),
        }
    }

    /// The record that carries out an event, if it needs one: a traced
    /// change needs none, and a key that was never bound has none.
    pub fn input_for(&self, event: Event, extra_info: usize) -> (r: Option<Input>)
        ensures
            r == self.spec_input_for(event, extra_info),
    {
        match event {
            Event::KeyDown(k) => self.key_down(k),
            Event::KeyUp(k) => self.key_up(k),
            Event::MoveX(units) => Some(self.rel_mouse_x(units, extra_info)),
            Event::MoveY(units) => Some(self.rel_mouse_y(units, extra_info)),
            Event::Trace(_) => None,
        }
    }

    /// The record that carries out an event.
    pub open spec fn spec_input_for(&self, event: Event, extra_info: usize) -> Option<Input> {
        match event {
            Event::KeyDown(k) => match self.cached(k) {
                Some(entry) => Some(entry.down),
                None => None,
            },
            Event::KeyUp(k) => match self.cached(k) {
                Some(entry) => Some(entry.up),
                None => None,
            },
            Event::MoveX(units) => Some(mouse_record(units, 0, extra_info)),
            Event::MoveY(units) => Some(mouse_record(0, units, extra_info)),
            Event::Trace(_) => None,
        }
    }
}

} // verus!
