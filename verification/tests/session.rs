use rattacker::config::AxisKeyConfig;
use rattacker::config::AxisMouseConfig;
use rattacker::config::Config;
use rattacker::config::JoystickConfig;
use rattacker::config::Key;
use rattacker::config::Mode;
use rattacker::config::MouseMode;
use rattacker::config::BUTTON_LEN;
use rattacker::dispatch::Event;
use rattacker::dispatch::Manager;
use rattacker::dispatch::State;
use rattacker::raw_input::Packet;
use rattacker::session::Session;

fn keys_session() -> Session {
    let mut buttons = [None; BUTTON_LEN];
    buttons[0] = Some(Key::K1);
    Session::new(Manager::new(Config {
        mode: Mode::Normal,
        buttons,
        joystick: JoystickConfig::Keys {
            x_axis: AxisKeyConfig { positive: Key::D, negative: Key::A, deadzone: 100 },
            y_axis: AxisKeyConfig { positive: Key::W, negative: Key::S, deadzone: 100 },
        },
    }))
}

fn mouse_session() -> Session {
    Session::new(Manager::new(Config {
        mode: Mode::Normal,
        buttons: [None; BUTTON_LEN],
        joystick: JoystickConfig::Mouse {
            x_axis: AxisMouseConfig { dots_per_pixel: MouseMode::Constant(1), dpi: 1, deadzone: 64 },
            y_axis: AxisMouseConfig { dots_per_pixel: MouseMode::Constant(1), dpi: 1, deadzone: 51 },
        },
    }))
}

#[test]
fn a_new_session_has_nothing_to_submit() {
    let mut s = keys_session();
    assert_eq!(s.zero(), None);
    assert_eq!(s.latest(), None);
    assert_eq!(s.tick(), vec![]);
    assert_eq!(s.tick(), vec![]);
    assert_eq!(s.latest(), None);
}

#[test]
fn the_first_report_sets_the_zero_point() {
    let mut s = keys_session();
    s.receive(&[0x10, 0x20, 0x80, 0, 0]);
    assert_eq!(s.zero(), Some([0x10, 0x20]));
    let latest = s.latest().unwrap();
    assert_eq!((latest.x_axis, latest.y_axis, latest.z_axis), (0, 0, 0));
}

#[test]
fn the_zero_point_is_never_set_again() {
    let mut s = keys_session();
    s.receive(&[0x10, 0x20, 0x80, 0, 0]);
    s.receive(&[0x90, 0x00, 0x00, 0, 0]);
    assert_eq!(s.zero(), Some([0x10, 0x20]));
    let latest = s.latest().unwrap();
    assert_eq!(latest.x_axis, 2 * (0x90 - 0x10));
    assert_eq!(latest.y_axis, 2 * 0x20);
    assert_eq!(latest.z_axis, 256);
    s.receive(&[]);
    s.receive(&[1, 2, 3]);
    assert_eq!(s.zero(), Some([0x10, 0x20]));
    assert_eq!(s.latest(), Some(latest));
}

#[test]
fn a_short_read_is_no_new_data() {
    let mut s = keys_session();
    s.receive(&[]);
    s.receive(&[9]);
    s.receive(&[9, 9, 9, 9]);
    assert_eq!(s.zero(), None);
    assert_eq!(s.latest(), None);
    assert_eq!(s.tick(), vec![]);
}

#[test]
fn many_reports_in_one_read_leave_the_last() {
    let mut s = keys_session();
    s.receive(&[50, 60, 70, 1, 0, 80, 90, 100, 2, 0, 20, 30, 40, 4, 1, 255, 255]);
    // the zero point comes from the first report, the state from the third
    assert_eq!(s.zero(), Some([50, 60]));
    let expected = State::from_packet([50, 60], Packet::parse(&[20, 30, 40, 4, 1]).unwrap());
    assert_eq!(s.latest(), Some(expected));
    assert_eq!(expected.x_axis, -60);
    assert_eq!(expected.y_axis, 60);
    assert_eq!(expected.z_axis, 176);
    assert!(expected.buttons[2] && expected.buttons[8]);
}

#[test]
fn reports_reach_the_manager_at_the_next_tick() {
    let mut s = keys_session();
    s.receive(&[100, 100, 128, 0, 0]);
    assert_eq!(s.tick(), vec![]);
    s.receive(&[200, 100, 128, 1, 0]);
    assert_eq!(s.tick(), vec![Event::KeyDown(Key::K1), Event::KeyDown(Key::D)]);
    assert_eq!(s.tick(), vec![]);
    // a press and its release between two ticks are never seen
    s.receive(&[100, 100, 128, 0, 0, 100, 100, 128, 1, 0]);
    assert_eq!(s.tick(), vec![Event::KeyUp(Key::D)]);
    s.receive(&[100, 10, 128, 0, 0]);
    assert_eq!(s.tick(), vec![Event::KeyUp(Key::K1), Event::KeyDown(Key::W)]);
}

#[test]
fn every_tick_submits_the_last_known_state_again() {
    let mut s = mouse_session();
    s.receive(&[0, 128, 128, 0, 0]);
    s.receive(&[128, 0, 128, 0, 0]);
    // x = 256 steps, y = 256 steps; the first tick only remembers the state
    assert_eq!(s.tick(), vec![]);
    assert_eq!(s.tick(), vec![Event::MoveX(1), Event::MoveY(1)]);
    for tick in 2..=254 {
        assert_eq!(s.tick(), vec![Event::MoveX(1), Event::MoveY(1)], "tick {}", tick);
    }
    // 254 ticks carried one step each: the next one completes a second unit
    assert_eq!(s.tick(), vec![Event::MoveX(2), Event::MoveY(2)]);
    assert_eq!(s.tick(), vec![Event::MoveX(1), Event::MoveY(1)]);
}
