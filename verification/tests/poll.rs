use co2_reader::parse::parse_reading;
use co2_reader::reader::co2_url;
use co2_reader::reader::fetch_reading;
use co2_reader::reader::ppm_text;
use co2_reader::reader::FetchError;
use co2_reader::reader::HttpOutcome;
use co2_reader::render::render_reading;

#[test]
fn body_parses_to_the_reading() {
    let r = fetch_reading(HttpOutcome::Body("412\n".to_string()));
    assert!(matches!(r, Ok(412)));
}

#[test]
fn whitespace_padded_body_parses() {
    let r = fetch_reading(HttpOutcome::Body("  87 ".to_string()));
    assert!(matches!(r, Ok(87)));
}

#[test]
fn negative_body_parses() {
    let r = fetch_reading(HttpOutcome::Body("-5".to_string()));
    assert!(matches!(r, Ok(-5)));
}

#[test]
fn transport_failure_is_an_error_result() {
    let r = fetch_reading(HttpOutcome::TransportFailed(
        "connection refused".to_string(),
    ));
    match r {
        Err(FetchError::Transport(m)) => assert_eq!(m, "connection refused"),
        _ => panic!("expected a transport error"),
    }
}

#[test]
fn unreadable_body_is_an_error_result() {
    let r = fetch_reading(HttpOutcome::BodyUnreadable("stream cut short".to_string()));
    match r {
        Err(FetchError::BodyRead(m)) => assert_eq!(m, "stream cut short"),
        _ => panic!("expected a body-read error"),
    }
}

#[test]
fn non_numeric_body_is_a_recoverable_error() {
    let r = fetch_reading(HttpOutcome::Body("error".to_string()));
    assert!(matches!(r, Err(FetchError::Parse)));
}

#[test]
fn empty_body_is_a_recoverable_error() {
    let r = fetch_reading(HttpOutcome::Body(String::new()));
    assert!(matches!(r, Err(FetchError::Parse)));
}

#[test]
fn same_body_gives_the_same_result_twice() {
    let r1 = fetch_reading(HttpOutcome::Body("600\n".to_string()));
    let r2 = fetch_reading(HttpOutcome::Body("600\n".to_string()));
    assert!(matches!(r1, Ok(600)));
    assert!(matches!(r2, Ok(600)));
    let e1 = fetch_reading(HttpOutcome::Body("bad".to_string()));
    let e2 = fetch_reading(HttpOutcome::Body("bad".to_string()));
    assert!(matches!(e1, Err(FetchError::Parse)));
    assert!(matches!(e2, Err(FetchError::Parse)));
}

#[test]
fn error_messages() {
    assert_eq!(
        FetchError::Transport("no route to host".to_string()).message(),
        "no route to host"
    );
    assert_eq!(
        FetchError::BodyRead("body error".to_string()).message(),
        "body error"
    );
    assert_eq!(
        FetchError::Parse.message(),
        "Failed to parse response as i32"
    );
}

#[test]
fn display_text_for_a_reading() {
    assert_eq!(ppm_text(HttpOutcome::Body("412\n".to_string())), "412");
    assert_eq!(ppm_text(HttpOutcome::Body("-5".to_string())), "-5");
}

#[test]
fn display_text_for_failures() {
    assert_eq!(
        ppm_text(HttpOutcome::TransportFailed("connection refused".to_string())),
        "connection refused"
    );
    assert_eq!(
        ppm_text(HttpOutcome::Body("error".to_string())),
        "Failed to parse response as i32"
    );
}

#[test]
fn rendering_readings() {
    assert_eq!(render_reading(0), "0");
    assert_eq!(render_reading(412), "412");
    assert_eq!(render_reading(-5), "-5");
    assert_eq!(render_reading(i32::MAX), "2147483647");
    assert_eq!(render_reading(i32::MIN), "-2147483648");
}

#[test]
fn rendered_reading_parses_back() {
    for v in [0, 412, -5, 87, 2000, i32::MAX, i32::MIN] {
        assert_eq!(parse_reading(&render_reading(v)), Some(v));
    }
}

#[test]
fn endpoint_url() {
    assert_eq!(co2_url("192.168.1.5:8080"), "http://192.168.1.5:8080/co2");
    assert_eq!(co2_url("localhost"), "http://localhost/co2");
}
