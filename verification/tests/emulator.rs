use smart_home_backend::domain::emulator::{
    command_token, frame_response, handle_command, serve_read, Command, DeviceError, Next,
    PowerReading, SmartSocket, POWER_SCALE,
};

fn reading(parts: u32) -> PowerReading {
    PowerReading::new(parts).unwrap()
}

#[test]
fn socket_starts_off_without_power() {
    let socket = SmartSocket::new();
    assert!(!socket.get_enabled());
    assert_eq!(socket.get_power_usage().numerator(), 0);
    let status = SmartSocket::default().get_status();
    assert!(!status.enabled);
    assert_eq!(status.power.numerator(), 0);
}

#[test]
fn protocol_state_machine_runs_set_get_and_refuses_the_rest() {
    let mut socket = SmartSocket::new();
    let status = socket.execute("SET1", reading(12345)).unwrap();
    assert!(status.enabled);
    assert!(status.power.numerator() < POWER_SCALE);
    // the socket was off when the reading was taken
    assert_eq!(status.power.numerator(), 0);

    let status = socket.execute("GET", reading(12345)).unwrap();
    assert!(status.enabled);
    assert_eq!(status.power.numerator(), 12345);

    let status = socket.execute("SET1", reading(777)).unwrap();
    assert!(status.enabled);
    assert_eq!(status.power.numerator(), 777);

    let status = socket.execute("SET0", reading(999)).unwrap();
    assert!(!status.enabled);
    assert_eq!(status.power.numerator(), 0);

    match socket.execute("BLINK", reading(5)) {
        Err(DeviceError::SocketError(detail)) => {
            assert_eq!(detail, "Unrecognized command BLINK")
        }
        _ => unreachable!(),
    }
    let status = socket.execute("GET", reading(5)).unwrap();
    assert!(!status.enabled);
    assert_eq!(status.power.numerator(), 0);
}

#[test]
fn refused_query_still_takes_the_reading() {
    let mut socket = SmartSocket::new();
    socket.set_on();
    assert!(socket.execute("", reading(42)).is_err());
    assert!(socket.get_enabled());
    assert_eq!(socket.get_power_usage().numerator(), 42);
}

#[test]
fn socket_that_is_off_never_shows_power() {
    let mut socket = SmartSocket::new();
    socket.update(reading(POWER_SCALE - 1));
    assert_eq!(socket.get_status().power.numerator(), 0);
    socket.set_on();
    socket.update(reading(POWER_SCALE - 1));
    assert_eq!(socket.get_status().power.numerator(), POWER_SCALE - 1);
    socket.set_off();
    let status = socket.get_status();
    assert!(!status.enabled);
    assert_eq!(status.power.numerator(), 0);
    let status = socket.execute("GET", reading(3)).unwrap();
    assert!(!status.enabled);
    assert_eq!(status.power.numerator(), 0);
}

#[test]
fn readings_stay_below_one() {
    assert!(PowerReading::new(POWER_SCALE).is_none());
    assert!(PowerReading::new(u32::MAX).is_none());
    assert_eq!(PowerReading::new(POWER_SCALE - 1).unwrap().numerator(), 16777215);
    assert_eq!(PowerReading::zero().numerator(), 0);
    assert_eq!(POWER_SCALE, 1 << 24);
}

#[test]
fn commands_are_read_from_their_tokens() {
    assert_eq!(Command::parse("SET1"), Some(Command::SetOn));
    assert_eq!(Command::parse("SET0"), Some(Command::SetOff));
    assert_eq!(Command::parse("GET"), Some(Command::Get));
    assert_eq!(Command::parse("get"), None);
    assert_eq!(Command::parse("GET "), None);
    assert_eq!(Command::parse(""), None);
}

#[test]
fn command_token_drops_padding_and_white_space() {
    assert_eq!(command_token("GET\0\0\0\0\0\0\0"), "GET");
    assert_eq!(command_token("SET1\n\0\0\0\0\0"), "SET1");
    assert_eq!(command_token("  SET0\r\n\0"), "SET0");
    assert_eq!(command_token("\u{3000}GET\u{00A0}"), "GET");
    assert_eq!(command_token("SET 1"), "SET 1");
    assert_eq!(command_token("GET\0 "), "GET\0");
    assert_eq!(command_token("\0GET"), "\0GET");
    assert_eq!(command_token(" \t \0\0"), "");
    assert_eq!(command_token(""), "");
    assert_eq!(command_token("\0\0\0\0\0\0\0\0\0\0"), "");
}

#[test]
fn responses_end_in_a_line_feed() {
    assert_eq!(frame_response("status".to_string()), "status\n");
    assert_eq!(frame_response(String::new()), "\n");
}

#[test]
fn handle_command_cuts_the_token_and_runs_it() {
    let mut socket = SmartSocket::new();
    let status = handle_command(&mut socket, b"SET1\0\0\0\0\0\0", reading(1)).unwrap();
    assert!(status.enabled);
    let status = handle_command(&mut socket, b" GET\n", reading(2)).unwrap();
    assert_eq!(status.power.numerator(), 2);
    match handle_command(&mut socket, b"SET2\0\0", reading(3)) {
        Err(e) => assert_eq!(
            e.to_string(),
            "SmartSocket error: Unrecognized command SET2"
        ),
        _ => unreachable!(),
    }
    let status = handle_command(&mut socket, b"SET0", reading(4)).unwrap();
    assert!(!status.enabled);
    assert_eq!(status.power.numerator(), 0);
}

#[test]
fn command_tokens_are_read_back() {
    for command in [Command::SetOn, Command::SetOff, Command::Get] {
        assert_eq!(Command::parse(command.token()), Some(command));
    }
    assert_eq!(Command::Get.token(), "GET");
    assert_eq!(Command::SetOn.token(), "SET1");
    assert_eq!(Command::SetOff.token(), "SET0");
}

#[test]
fn bytes_that_are_no_text_name_no_command() {
    let mut socket = SmartSocket::new();
    let broken = [0x47, 0x45, 0x54, 0xff, 0, 0, 0, 0, 0, 0];
    match handle_command(&mut socket, &broken, reading(1)) {
        Err(DeviceError::SocketError(detail)) => assert_eq!(detail, "Unrecognized command "),
        _ => unreachable!(),
    }
    let padded = [0x47, 0x45, 0x54, 0, 0, 0, 0, 0, 0, 0];
    let status = handle_command(&mut socket, &padded, reading(1)).unwrap();
    assert!(!status.enabled);
}

#[test]
fn read_of_no_bytes_closes_and_any_other_is_answered() {
    let mut socket = SmartSocket::new();
    socket.set_on();
    let empty = [0u8; 10];
    assert!(matches!(
        serve_read(&mut socket, 0, &empty, reading(9)),
        Next::Close
    ));
    assert!(socket.get_enabled());
    assert_eq!(socket.get_power_usage().numerator(), 0);

    let get = [0x47, 0x45, 0x54, 0, 0, 0, 0, 0, 0, 0];
    match serve_read(&mut socket, 3, &get, reading(9)) {
        Next::Reply(Ok(status)) => {
            assert!(status.enabled);
            assert_eq!(status.power.numerator(), 9);
        }
        _ => unreachable!(),
    }
    let unknown = [0x58, 0, 0, 0, 0, 0, 0, 0, 0, 0];
    match serve_read(&mut socket, 1, &unknown, reading(10)) {
        Next::Reply(Err(DeviceError::SocketError(detail))) => {
            assert_eq!(detail, "Unrecognized command X")
        }
        _ => unreachable!(),
    }
    let off = [0x53, 0x45, 0x54, 0x30, 0, 0, 0, 0, 0, 0];
    match serve_read(&mut socket, 4, &off, reading(11)) {
        Next::Reply(Ok(status)) => {
            assert!(!status.enabled);
            assert_eq!(status.power.numerator(), 0);
        }
        _ => unreachable!(),
    }
}
