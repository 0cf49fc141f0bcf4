use drone_driver::command::Command;
use drone_driver::json::parse_command;

fn go_to(lat: i64, lon: i64, alt_m: i64, speed_mps: Option<i64>) -> Command {
    Command::GoTo { lat, lon, alt_m, speed_mps }
}

fn rotate(degrees: u16, duration_s: Option<u16>, quality: Option<String>) -> Command {
    Command::RotateAndFilm { degrees, duration_s, quality }
}

#[test]
fn go_to_boundary_accepts() {
    assert!(go_to(900000, 1800000, 0, None).validate().is_ok());
    assert!(go_to(-900000, -1800000, 0, None).validate().is_ok());
    assert!(go_to(0, 0, 0, Some(500000)).validate().is_ok());
    assert!(go_to(0, 0, 0, Some(1)).validate().is_ok());
}

#[test]
fn go_to_latitude_reject() {
    let r = go_to(900001, 0, 100000, None).validate();
    assert_eq!(r.unwrap_err(), "Latitude must be in [-90, 90]");
    let r = go_to(-900001, 0, 0, None).validate();
    assert_eq!(r.unwrap_err(), "Latitude must be in [-90, 90]");
}

#[test]
fn go_to_longitude_reject() {
    let r = go_to(0, 1800001, 0, None).validate();
    assert_eq!(r.unwrap_err(), "Longitude must be in [-180, 180]");
}

#[test]
fn go_to_altitude_reject() {
    let r = go_to(0, 0, -1, None).validate();
    assert_eq!(r.unwrap_err(), "Altitude must be non-negative");
}

#[test]
fn go_to_speed_bounds() {
    assert_eq!(
        go_to(0, 0, 0, Some(0)).validate().unwrap_err(),
        "Speed must be in (0, 50] m/s"
    );
    assert_eq!(
        go_to(0, 0, 0, Some(500001)).validate().unwrap_err(),
        "Speed must be in (0, 50] m/s"
    );
    assert!(go_to(0, 0, 0, None).validate().is_ok());
}

#[test]
fn rotate_bounds() {
    assert_eq!(
        rotate(0, None, None).validate().unwrap_err(),
        "Degrees must be in [1, 1080]"
    );
    assert_eq!(
        rotate(1081, None, None).validate().unwrap_err(),
        "Degrees must be in [1, 1080]"
    );
    assert!(rotate(1, None, None).validate().is_ok());
    assert!(rotate(1080, None, None).validate().is_ok());
    assert_eq!(
        rotate(360, Some(0), None).validate().unwrap_err(),
        "Duration must be in [1, 600] seconds"
    );
    assert_eq!(
        rotate(360, Some(601), None).validate().unwrap_err(),
        "Duration must be in [1, 600] seconds"
    );
    assert!(rotate(360, Some(600), None).validate().is_ok());
}

#[test]
fn always_valid_variants() {
    assert!(Command::Ping.validate().is_ok());
    assert!(Command::TakePicture { mode: None }.validate().is_ok());
    assert!(Command::TakePicture { mode: Some("hdr".to_string()) }.validate().is_ok());
}

#[test]
fn parse_go_to() {
    let c = parse_command(r#"{"type":"go_to","lat":37.7749,"lon":-122.4194,"alt_m":50.0,"speed_mps":10.0}"#).unwrap();
    match c {
        Command::GoTo { lat, lon, alt_m, speed_mps } => {
            assert_eq!(lat, 377749);
            assert_eq!(lon, -1224194);
            assert_eq!(alt_m, 500000);
            assert_eq!(speed_mps, Some(100000));
        },
        _ => panic!("wrong variant"),
    }
}

#[test]
fn parse_go_to_integer_literals() {
    let c = parse_command(r#"{"type":"go_to","lat":90,"lon":-180,"alt_m":0}"#).unwrap();
    match c {
        Command::GoTo { lat, lon, alt_m, speed_mps } => {
            assert_eq!(lat, 900000);
            assert_eq!(lon, -1800000);
            assert_eq!(alt_m, 0);
            assert_eq!(speed_mps, None);
        },
        _ => panic!("wrong variant"),
    }
    assert!(c.validate().is_ok());
}

#[test]
fn parse_rounds_extra_digits_away_from_zero() {
    let c = parse_command(r#"{"type":"go_to","lat":90.00001,"lon":0,"alt_m":0}"#).unwrap();
    match c {
        Command::GoTo { lat, .. } => assert_eq!(lat, 900001),
        _ => panic!("wrong variant"),
    }
    assert_eq!(c.validate().unwrap_err(), "Latitude must be in [-90, 90]");
    let c = parse_command(r#"{"type":"go_to","lat":89.99999,"lon":0,"alt_m":0}"#).unwrap();
    assert!(c.validate().is_ok());
}

#[test]
fn parse_unknown_fields_ignored() {
    let c = parse_command(r#"{"type":"ping","extra":{"nested":[1,2,"x,y"]},"more":true}"#).unwrap();
    assert!(matches!(c, Command::Ping));
}

#[test]
fn parse_field_order_free() {
    let c = parse_command(r#"{ "lat": 1.5, "alt_m": 2, "type": "go_to", "lon": -3 }"#).unwrap();
    match c {
        Command::GoTo { lat, lon, alt_m, speed_mps } => {
            assert_eq!(lat, 15000);
            assert_eq!(lon, -30000);
            assert_eq!(alt_m, 20000);
            assert_eq!(speed_mps, None);
        },
        _ => panic!("wrong variant"),
    }
}

#[test]
fn parse_null_optional_is_absent() {
    let c = parse_command(r#"{"type":"go_to","lat":0,"lon":0,"alt_m":0,"speed_mps":null}"#).unwrap();
    match c {
        Command::GoTo { speed_mps, .. } => assert_eq!(speed_mps, None),
        _ => panic!("wrong variant"),
    }
}

#[test]
fn parse_rotate_and_film() {
    let c = parse_command(r#"{"type":"rotate_and_film","degrees":360,"duration_s":30,"quality":"1080p60"}"#).unwrap();
    match c {
        Command::RotateAndFilm { degrees, duration_s, quality } => {
            assert_eq!(degrees, 360);
            assert_eq!(duration_s, Some(30));
            assert_eq!(quality.as_deref(), Some("1080p60"));
        },
        _ => panic!("wrong variant"),
    }
}

#[test]
fn parse_rejects() {
    assert!(parse_command("not json").is_err());
    assert!(parse_command(r#"{"type":"warp_drive"}"#).is_err());
    assert!(parse_command(r#"{"type":"go_to","lat":1}"#).is_err());
    assert!(parse_command(r#"{"type":"go_to","lat":"x","lon":0,"alt_m":0}"#).is_err());
    assert!(parse_command(r#"{"type":"rotate_and_film","degrees":360.5}"#).is_err());
    assert!(parse_command(r#"{"type":"ping"} trailing"#).is_err());
    assert!(parse_command("").is_err());
    assert!(parse_command("[1,2]").is_err());
}

#[test]
fn parse_duplicate_key_keeps_last() {
    let c = parse_command(r#"{"type":"ping","type":"ping"}"#).unwrap();
    assert!(matches!(c, Command::Ping));
}

fn same_command(a: &Command, b: &Command) -> bool {
    match (a, b) {
        (
            Command::GoTo { lat: a1, lon: a2, alt_m: a3, speed_mps: a4 },
            Command::GoTo { lat: b1, lon: b2, alt_m: b3, speed_mps: b4 },
        ) => a1 == b1 && a2 == b2 && a3 == b3 && a4 == b4,
        (Command::TakePicture { mode: a1 }, Command::TakePicture { mode: b1 }) => a1 == b1,
        (
            Command::RotateAndFilm { degrees: a1, duration_s: a2, quality: a3 },
            Command::RotateAndFilm { degrees: b1, duration_s: b2, quality: b3 },
        ) => a1 == b1 && a2 == b2 && a3 == b3,
        (Command::Ping, Command::Ping) => true,
        _ => false,
    }
}

#[test]
fn round_trip_canonical_forms() {
    let cases = vec![
        Command::Ping,
        Command::TakePicture { mode: None },
        Command::TakePicture { mode: Some("hdr".to_string()) },
        Command::TakePicture { mode: Some("with \"quotes\" and \\ and \n".to_string()) },
        go_to(377749, -1224194, 500000, Some(100000)),
        go_to(-900000, 1800000, 0, None),
        go_to(0, 0, 123456789, Some(1)),
        rotate(360, Some(30), Some("1080p60".to_string())),
        rotate(1, None, None),
        rotate(65535, Some(65535), Some("".to_string())),
    ];
    for c in &cases {
        let text = c.to_canonical_json();
        let back = parse_command(&text).unwrap();
        assert!(same_command(c, &back), "round trip failed for {}", text);
    }
}

#[test]
fn canonical_text_exact() {
    assert_eq!(Command::Ping.to_canonical_json(), r#"{"type":"ping"}"#);
    assert_eq!(
        go_to(377749, -1224194, 500000, Some(100000)).to_canonical_json(),
        r#"{"type":"go_to","lat":37.7749,"lon":-122.4194,"alt_m":50.0000,"speed_mps":10.0000}"#
    );
    assert_eq!(
        rotate(360, Some(30), Some("1080p60".to_string())).to_canonical_json(),
        r#"{"type":"rotate_and_film","degrees":360,"duration_s":30,"quality":"1080p60"}"#
    );
    assert_eq!(
        Command::TakePicture { mode: Some("hdr".to_string()) }.to_canonical_json(),
        r#"{"type":"take_picture","mode":"hdr"}"#
    );
}
