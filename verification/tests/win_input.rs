use rattacker::config::AxisKeyConfig;
use rattacker::config::AxisMouseConfig;
use rattacker::config::Config;
use rattacker::config::JoystickConfig;
use rattacker::config::Key;
use rattacker::config::Mode;
use rattacker::config::MouseMode;
use rattacker::config::BUTTON_LEN;
use rattacker::dispatch::Edge;
use rattacker::dispatch::Event;
use rattacker::error::EngineError;
use rattacker::win_input::ascii_virtual_key;
use rattacker::win_input::directx_virtual_key;
use rattacker::win_input::Input;
use rattacker::win_input::KeybdInput;
use rattacker::win_input::MouseInput;
use rattacker::win_input::WinDispatch;
use rattacker::win_input::KEY_UP;
use rattacker::win_input::MOUSEEVENTF_MOVE;
use rattacker::win_input::TAG_KEY;
use rattacker::win_input::TAG_MOUSE;

const KEYBOARD: [Key; 54] = [
    Key::A,
    Key::B,
    Key::C,
    Key::D,
    Key::E,
    Key::F,
    Key::G,
    Key::H,
    Key::I,
    Key::J,
    Key::K,
    Key::L,
    Key::M,
    Key::N,
    Key::O,
    Key::P,
    Key::Q,
    Key::R,
    Key::S,
    Key::T,
    Key::U,
    Key::V,
    Key::W,
    Key::X,
    Key::Y,
    Key::Z,
    Key::Alt,
    Key::Shift,
    Key::Ctrl,
    Key::Enter,
    Key::Escape,
    Key::LeftArrow,
    Key::RightArrow,
    Key::UpArrow,
    Key::DownArrow,
    Key::F1,
    Key::F2,
    Key::F3,
    Key::F4,
    Key::F5,
    Key::F6,
    Key::F7,
    Key::F8,
    Key::F9,
    Key::K0,
    Key::K1,
    Key::K2,
    Key::K3,
    Key::K4,
    Key::K5,
    Key::K6,
    Key::K7,
    Key::K8,
    Key::K9,
];

fn keys_config(mode: Mode) -> Config {
    let mut buttons = [None; BUTTON_LEN];
    buttons[0] = Some(Key::K2);
    buttons[5] = Some(Key::Ctrl);
    buttons[6] = Some(Key::K2);
    Config {
        mode,
        buttons,
        joystick: JoystickConfig::Keys {
            x_axis: AxisKeyConfig { positive: Key::F8, negative: Key::F7, deadzone: 89 },
            y_axis: AxisKeyConfig { positive: Key::W, negative: Key::S, deadzone: 102 },
        },
    }
}

fn keyboard(vk: u16, scan: u16, flags: u32, extra: usize) -> Input {
    Input::Keyboard(KeybdInput {
        w_vk: vk,
        w_scan: scan,
        dw_flags: flags,
        time: 0,
        dw_extra_info: extra,
    })
}

#[test]
fn is_mouse_names_the_two_mouse_buttons() {
    assert!(Key::LMB.is_mouse());
    assert!(Key::RMB.is_mouse());
    for k in KEYBOARD {
        assert!(!k.is_mouse());
    }
}

#[test]
fn virtual_keys_of_letters_and_digits_are_their_characters() {
    assert_eq!(ascii_virtual_key(Key::A), 'A' as u16);
    assert_eq!(ascii_virtual_key(Key::M), 'M' as u16);
    assert_eq!(ascii_virtual_key(Key::Z), 'Z' as u16);
    assert_eq!(ascii_virtual_key(Key::K0), '0' as u16);
    assert_eq!(ascii_virtual_key(Key::K9), '9' as u16);
}

#[test]
fn virtual_keys_of_the_other_keys() {
    assert_eq!(ascii_virtual_key(Key::Enter), 0x0D);
    assert_eq!(ascii_virtual_key(Key::Shift), 0x10);
    assert_eq!(ascii_virtual_key(Key::Ctrl), 0x11);
    assert_eq!(ascii_virtual_key(Key::Alt), 0x12);
    assert_eq!(ascii_virtual_key(Key::Escape), 0x1B);
    assert_eq!(ascii_virtual_key(Key::LeftArrow), 0x25);
    assert_eq!(ascii_virtual_key(Key::UpArrow), 0x26);
    assert_eq!(ascii_virtual_key(Key::RightArrow), 0x27);
    assert_eq!(ascii_virtual_key(Key::DownArrow), 0x28);
    assert_eq!(ascii_virtual_key(Key::F1), 0x70);
    assert_eq!(ascii_virtual_key(Key::F5), 0x74);
    assert_eq!(ascii_virtual_key(Key::F9), 0x78);
}

#[test]
fn scan_codes_follow_the_rows_of_the_keyboard() {
    let digits = [
        Key::K1,
        Key::K2,
        Key::K3,
        Key::K4,
        Key::K5,
        Key::K6,
        Key::K7,
        Key::K8,
        Key::K9,
        Key::K0,
    ];
    for (i, k) in digits.iter().enumerate() {
        assert_eq!(directx_virtual_key(*k), 0x02 + i as u16);
    }
    let top = [Key::Q, Key::W, Key::E, Key::R, Key::T, Key::Y, Key::U, Key::I, Key::O, Key::P];
    for (i, k) in top.iter().enumerate() {
        assert_eq!(directx_virtual_key(*k), 0x10 + i as u16);
    }
    let home = [Key::A, Key::S, Key::D, Key::F, Key::G, Key::H, Key::J, Key::K, Key::L];
    for (i, k) in home.iter().enumerate() {
        assert_eq!(directx_virtual_key(*k), 0x1E + i as u16);
    }
    let bottom = [Key::Z, Key::X, Key::C, Key::V, Key::B, Key::N, Key::M];
    for (i, k) in bottom.iter().enumerate() {
        assert_eq!(directx_virtual_key(*k), 0x2C + i as u16);
    }
    let function = [
        Key::F1,
        Key::F2,
        Key::F3,
        Key::F4,
        Key::F5,
        Key::F6,
        Key::F7,
        Key::F8,
        Key::F9,
    ];
    for (i, k) in function.iter().enumerate() {
        assert_eq!(directx_virtual_key(*k), 0x3B + i as u16);
    }
}

#[test]
fn scan_codes_of_the_other_keys() {
    assert_eq!(directx_virtual_key(Key::Escape), 0x01);
    assert_eq!(directx_virtual_key(Key::Enter), 0x1C);
    assert_eq!(directx_virtual_key(Key::Ctrl), 0x1D);
    assert_eq!(directx_virtual_key(Key::Shift), 0x36);
    assert_eq!(directx_virtual_key(Key::Alt), 0x38);
    assert_eq!(directx_virtual_key(Key::UpArrow), 0xC8);
    assert_eq!(directx_virtual_key(Key::LeftArrow), 0xCB);
    assert_eq!(directx_virtual_key(Key::RightArrow), 0xCD);
    assert_eq!(directx_virtual_key(Key::DownArrow), 0xD0);
}

#[test]
fn no_two_keys_share_a_code() {
    for (i, a) in KEYBOARD.iter().enumerate() {
        for (j, b) in KEYBOARD.iter().enumerate() {
            if i != j {
                assert_ne!(ascii_virtual_key(*a), ascii_virtual_key(*b), "{} {}", i, j);
                assert_ne!(directx_virtual_key(*a), directx_virtual_key(*b), "{} {}", i, j);
            }
        }
    }
}

#[test]
fn virtual_key_records() {
    let down = Input::new_ascii_key(Key::V, false, 77);
    assert_eq!(down, keyboard(0x56, 0, 0, 77));
    let up = Input::new_ascii_key(Key::V, true, 77);
    assert_eq!(up, keyboard(0x56, 0, KEY_UP, 77));
    assert_eq!(KEY_UP, 0x0002);
    assert_eq!(down.tag(), TAG_KEY);
    assert_eq!(TAG_KEY, 1);
}

#[test]
fn scan_code_records() {
    let down = Input::new_directx_key(Key::V, false, 5);
    assert_eq!(down, keyboard(0, 0x2F, 0x0004 | 0x0008, 5));
    let up = Input::new_directx_key(Key::V, true, 5);
    assert_eq!(up, keyboard(0, 0x2F, 0x0002 | 0x0004 | 0x0008, 5));
    assert_eq!(up.tag(), TAG_KEY);
}

#[test]
fn pointer_records() {
    let input = Input::new_mouse_rel(-3, 9, 11);
    assert_eq!(
        input,
        Input::Mouse(MouseInput {
            dx: -3,
            dy: 9,
            mouse_data: 0,
            dw_flags: MOUSEEVENTF_MOVE,
            time: 0,
            dw_extra_info: 11,
        })
    );
    assert_eq!(MOUSEEVENTF_MOVE, 0x0001);
    assert_eq!(input.tag(), TAG_MOUSE);
    assert_eq!(TAG_MOUSE, 0);
}

#[test]
fn from_cfg_keeps_the_records_of_every_bound_key() {
    let d = WinDispatch::from_cfg(&keys_config(Mode::Normal), 42).ok().unwrap();
    assert_eq!(d.mode(), Mode::Normal);
    for k in [Key::K2, Key::Ctrl, Key::F8, Key::F7, Key::W, Key::S] {
        assert_eq!(d.key_down(k), Some(Input::new_ascii_key(k, false, 42)));
        assert_eq!(d.key_up(k), Some(Input::new_ascii_key(k, true, 42)));
    }
    assert_eq!(d.key_down(Key::K2), Some(keyboard(0x32, 0, 0, 42)));
    assert_eq!(d.key_up(Key::W), Some(keyboard(0x57, 0, 2, 42)));
}

#[test]
fn from_cfg_keeps_nothing_for_other_keys() {
    let d = WinDispatch::from_cfg(&keys_config(Mode::Normal), 42).ok().unwrap();
    for k in [Key::A, Key::K3, Key::F9, Key::Alt, Key::LMB, Key::RMB] {
        assert_eq!(d.key_down(k), None);
        assert_eq!(d.key_up(k), None);
    }
}

#[test]
fn from_cfg_makes_scan_code_records_for_directx() {
    let d = WinDispatch::from_cfg(&keys_config(Mode::DirectX), 7).ok().unwrap();
    assert_eq!(d.mode(), Mode::DirectX);
    assert_eq!(d.key_down(Key::W), Some(keyboard(0, 0x11, 0xC, 7)));
    assert_eq!(d.key_up(Key::W), Some(keyboard(0, 0x11, 0xE, 7)));
    assert_eq!(d.key_down(Key::Ctrl), Some(Input::new_directx_key(Key::Ctrl, false, 7)));
    assert_eq!(d.key_up(Key::F7), Some(Input::new_directx_key(Key::F7, true, 7)));
}

#[test]
fn from_cfg_in_mouse_mode_keeps_the_buttons_only() {
    let mut cfg = keys_config(Mode::Normal);
    cfg.joystick = JoystickConfig::Mouse {
        x_axis: AxisMouseConfig { dots_per_pixel: MouseMode::Constant(2), dpi: 1, deadzone: 64 },
        y_axis: AxisMouseConfig { dots_per_pixel: MouseMode::Constant(-2), dpi: 1, deadzone: 51 },
    };
    let d = WinDispatch::from_cfg(&cfg, 0).ok().unwrap();
    assert!(d.key_down(Key::K2).is_some());
    assert!(d.key_down(Key::Ctrl).is_some());
    assert_eq!(d.key_down(Key::W), None);
    assert_eq!(d.key_down(Key::F8), None);
}

#[test]
fn from_cfg_refuses_a_mouse_button_on_a_slot() {
    let mut cfg = keys_config(Mode::Normal);
    cfg.buttons[10] = Some(Key::LMB);
    assert_eq!(WinDispatch::from_cfg(&cfg, 0).err(), Some(EngineError::UnresolvedBinding));
    cfg.buttons[10] = None;
    cfg.buttons[0] = Some(Key::RMB);
    assert_eq!(WinDispatch::from_cfg(&cfg, 0).err(), Some(EngineError::UnresolvedBinding));
}

#[test]
fn from_cfg_refuses_a_mouse_button_on_the_stick() {
    for which in 0..4 {
        let mut x = AxisKeyConfig { positive: Key::F8, negative: Key::F7, deadzone: 89 };
        let mut y = AxisKeyConfig { positive: Key::W, negative: Key::S, deadzone: 102 };
        match which {
            0 => x.positive = Key::LMB,
            1 => x.negative = Key::RMB,
            2 => y.positive = Key::RMB,
            _ => y.negative = Key::LMB,
        }
        let cfg = Config {
            mode: Mode::DirectX,
            buttons: [None; BUTTON_LEN],
            joystick: JoystickConfig::Keys { x_axis: x, y_axis: y },
        };
        assert_eq!(WinDispatch::from_cfg(&cfg, 0).err(), Some(EngineError::UnresolvedBinding));
    }
}

#[test]
fn pointer_records_of_the_two_axes() {
    let d = WinDispatch::from_cfg(&keys_config(Mode::DirectX), 0).ok().unwrap();
    assert_eq!(d.rel_mouse_x(5, 3), Input::new_mouse_rel(5, 0, 3));
    assert_eq!(d.rel_mouse_y(-5, 3), Input::new_mouse_rel(0, -5, 3));
}

#[test]
fn every_event_finds_its_record() {
    let d = WinDispatch::from_cfg(&keys_config(Mode::Normal), 1).ok().unwrap();
    assert_eq!(d.input_for(Event::KeyDown(Key::S), 9), Some(keyboard(0x53, 0, 0, 1)));
    assert_eq!(d.input_for(Event::KeyUp(Key::S), 9), Some(keyboard(0x53, 0, 2, 1)));
    assert_eq!(d.input_for(Event::KeyDown(Key::A), 9), None);
    assert_eq!(d.input_for(Event::MoveX(-4), 9), Some(Input::new_mouse_rel(-4, 0, 9)));
    assert_eq!(d.input_for(Event::MoveY(6), 9), Some(Input::new_mouse_rel(0, 6, 9)));
    assert_eq!(d.input_for(Event::Trace(Edge::ButtonDown { slot: 0 }), 9), None);
}
