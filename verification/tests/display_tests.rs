use x11_guard::display::display_to_socket;
use x11_guard::display::InvalidDisplay;

fn refused(display: &str) -> Result<String, InvalidDisplay> {
    Err(InvalidDisplay { display: display.to_string() })
}

#[test]
fn a_plain_display_gives_its_socket() {
    let path = display_to_socket(":7").unwrap();
    assert!(path.ends_with("X7"));
    assert_eq!(path, "/tmp/.X11-unix/X7");
    assert_eq!(display_to_socket(":0").unwrap(), "/tmp/.X11-unix/X0");
    assert_eq!(display_to_socket(":10").unwrap(), "/tmp/.X11-unix/X10");
    assert_eq!(display_to_socket(":007").unwrap(), "/tmp/.X11-unix/X007");
}

#[test]
fn the_screen_suffix_is_ignored() {
    assert_eq!(display_to_socket(":7.0").unwrap(), display_to_socket(":7").unwrap());
    assert_eq!(display_to_socket(":7.0").unwrap(), "/tmp/.X11-unix/X7");
    assert_eq!(display_to_socket(":12.34").unwrap(), "/tmp/.X11-unix/X12");
    assert_eq!(display_to_socket(":0.0").unwrap(), "/tmp/.X11-unix/X0");
    assert_eq!(display_to_socket(":1.007").unwrap(), "/tmp/.X11-unix/X1");
}

#[test]
fn a_screen_that_is_no_number_is_refused() {
    assert_eq!(display_to_socket(":12.3.4"), refused(":12.3.4"));
    assert_eq!(display_to_socket(":1."), refused(":1."));
    assert_eq!(display_to_socket(":1.x y"), refused(":1.x y"));
    assert_eq!(display_to_socket(":7.x"), refused(":7.x"));
    assert_eq!(display_to_socket(":7.0.1"), refused(":7.0.1"));
    assert_eq!(display_to_socket(":7.0."), refused(":7.0."));
    assert_eq!(display_to_socket(":7..0"), refused(":7..0"));
    assert_eq!(display_to_socket(":7.0 "), refused(":7.0 "));
    assert_eq!(display_to_socket(":7.-1"), refused(":7.-1"));
    assert_eq!(display_to_socket(":7.\u{661}"), refused(":7.\u{661}"));
}

#[test]
fn a_display_without_colon_is_refused() {
    assert_eq!(display_to_socket("7"), refused("7"));
    assert_eq!(display_to_socket(""), refused(""));
    assert_eq!(display_to_socket("localhost:0"), refused("localhost:0"));
    assert_eq!(display_to_socket(" :0"), refused(" :0"));
}

#[test]
fn a_display_without_number_is_refused() {
    assert_eq!(display_to_socket(":abc"), refused(":abc"));
    assert_eq!(display_to_socket(":"), refused(":"));
    assert_eq!(display_to_socket(":.5"), refused(":.5"));
    assert_eq!(display_to_socket(":7a"), refused(":7a"));
    assert_eq!(display_to_socket(":7a.0"), refused(":7a.0"));
    assert_eq!(display_to_socket(":-1"), refused(":-1"));
    assert_eq!(display_to_socket(":+1"), refused(":+1"));
    assert_eq!(display_to_socket(": 1"), refused(": 1"));
    assert_eq!(display_to_socket(":\u{661}"), refused(":\u{661}"));
    assert_eq!(display_to_socket("::0"), refused("::0"));
}
