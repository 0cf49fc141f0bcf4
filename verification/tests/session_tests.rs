use drone_driver::command::Command;
use drone_driver::error::{hello_frame, ok_reply, DriverError};
use drone_driver::ipc::{interface_name, method_call, object_path, service_name, IpcArgs};
use drone_driver::session::{on_frame, reply_for_dispatch, Frame, Step};

#[test]
fn hello_text_exact() {
    assert_eq!(hello_frame(), r#"{"type":"hello","version":"1.0"}"#);
}

#[test]
fn ping_dispatches_then_acknowledges() {
    let step = on_frame(Frame::Text(r#"{"type":"ping"}"#.to_string()));
    match step {
        Step::Dispatch(cmd) => assert!(matches!(cmd, Command::Ping)),
        _ => panic!("expected a dispatch"),
    }
    assert_eq!(reply_for_dispatch(true), r#"{"type":"ok"}"#);
}

#[test]
fn valid_go_to_dispatches() {
    let text = r#"{"type":"go_to","lat":37.7749,"lon":-122.4194,"alt_m":50.0,"speed_mps":10.0}"#;
    let step = on_frame(Frame::Text(text.to_string()));
    match step {
        Step::Dispatch(cmd) => {
            let mc = method_call(&cmd);
            assert_eq!(mc.method, "GoTo");
            match mc.args {
                IpcArgs::GoTo(lat, lon, alt_m, speed) => {
                    assert_eq!(lat, 377749);
                    assert_eq!(lon, -1224194);
                    assert_eq!(alt_m, 500000);
                    assert_eq!(speed, Some(100000));
                },
                _ => panic!("wrong argument tuple"),
            }
        },
        _ => panic!("expected a dispatch"),
    }
}

#[test]
fn out_of_range_latitude_is_rejected_before_dispatch() {
    let step = on_frame(Frame::Text(r#"{"type":"go_to","lat":91.0,"lon":0.0,"alt_m":10.0}"#.to_string()));
    match step {
        Step::Reject(e) => {
            let reply = e.reply().unwrap();
            assert_eq!(reply, r#"{"type":"error","reason":"Latitude must be in [-90, 90]"}"#);
        },
        _ => panic!("expected a rejection"),
    }
}

#[test]
fn rotate_and_film_dispatches_with_tuple() {
    let text = r#"{"type":"rotate_and_film","degrees":360,"duration_s":30,"quality":"1080p60"}"#;
    let step = on_frame(Frame::Text(text.to_string()));
    match step {
        Step::Dispatch(cmd) => {
            let mc = method_call(&cmd);
            assert_eq!(mc.method, "RotateAndFilm");
            match mc.args {
                IpcArgs::RotateAndFilm(degrees, duration, quality) => {
                    assert_eq!(degrees, 360);
                    assert_eq!(duration, Some(30));
                    assert_eq!(quality.as_deref(), Some("1080p60"));
                },
                _ => panic!("wrong argument tuple"),
            }
        },
        _ => panic!("expected a dispatch"),
    }
}

#[test]
fn not_json_yields_invalid_json_reply() {
    let step = on_frame(Frame::Text("not json".to_string()));
    match step {
        Step::Reject(e) => {
            assert!(matches!(e, DriverError::Parse(_)));
            let reply = e.reply().unwrap();
            assert!(reply.starts_with(r#"{"type":"error","reason":"invalid_json","detail":""#));
            assert!(reply.ends_with(r#""}"#));
        },
        _ => panic!("expected a rejection"),
    }
}

#[test]
fn unknown_type_is_a_parse_error() {
    let step = on_frame(Frame::Text(r#"{"type":"self_destruct"}"#.to_string()));
    match step {
        Step::Reject(e) => assert!(matches!(e, DriverError::Parse(_))),
        _ => panic!("expected a rejection"),
    }
}

#[test]
fn binary_frame_not_supported() {
    let step = on_frame(Frame::Binary(vec![1, 2, 3]));
    match step {
        Step::Reject(e) => {
            assert!(matches!(e, DriverError::BinaryUnsupported));
            let reply = e.reply().unwrap();
            assert_eq!(reply, r#"{"type":"error","reason":"binary_not_supported"}"#);
        },
        _ => panic!("expected a rejection"),
    }
}

#[test]
fn control_ping_pongs_same_payload() {
    let step = on_frame(Frame::ControlPing(vec![9, 8, 7]));
    match step {
        Step::Pong(p) => assert_eq!(p, vec![9, 8, 7]),
        _ => panic!("expected a pong"),
    }
}

#[test]
fn close_stops_session() {
    assert!(matches!(on_frame(Frame::Close), Step::Stop));
}

#[test]
fn dispatch_failure_reply() {
    assert_eq!(reply_for_dispatch(false), r#"{"type":"error","reason":"dispatch_failed"}"#);
    let reply = DriverError::Dispatch.reply().unwrap();
    assert_eq!(reply, r#"{"type":"error","reason":"dispatch_failed"}"#);
}

#[test]
fn transport_error_owes_no_reply() {
    assert!(DriverError::Transport.reply().is_none());
}

#[test]
fn destination_triple() {
    assert_eq!(service_name(), "com.drone.Logic");
    assert_eq!(object_path(), "/com/drone/Logic");
    assert_eq!(interface_name(), "com.drone.Logic.Commands");
}

#[test]
fn ok_reply_exact() {
    assert_eq!(ok_reply(), r#"{"type":"ok"}"#);
}

#[test]
fn take_picture_optional_mode() {
    let step = on_frame(Frame::Text(r#"{"type":"take_picture"}"#.to_string()));
    match step {
        Step::Dispatch(cmd) => {
            let mc = method_call(&cmd);
            assert_eq!(mc.method, "TakePicture");
            match mc.args {
                IpcArgs::TakePicture(mode) => assert_eq!(mode, None),
                _ => panic!("wrong argument tuple"),
            }
        },
        _ => panic!("expected a dispatch"),
    }
}
