use toolbox::http::{build_response, format_usize, route};

#[test]
fn routes_root_sleep_and_everything_else() {
    let (status, file, pause) = route("GET / HTTP/1.1\r\nHost: localhost\r\n\r\n");
    assert_eq!(status, "HTTP/1.1 200 OK");
    assert_eq!(file, "html/hello.html");
    assert!(!pause);

    let (status, file, pause) = route("GET /sleep HTTP/1.1\r\nHost: localhost\r\n\r\n");
    assert_eq!(status, "HTTP/1.1 200 OK");
    assert_eq!(file, "html/hello.html");
    assert!(pause);

    let (status, file, pause) = route("GET /missing HTTP/1.1\r\n");
    assert_eq!(status, "HTTP/1.1 404 NOT FOUND");
    assert_eq!(file, "html/404.html");
    assert!(!pause);
}

#[test]
fn formats_decimal_lengths() {
    assert_eq!(format_usize(0), "0");
    assert_eq!(format_usize(7), "7");
    assert_eq!(format_usize(10), "10");
    assert_eq!(format_usize(1024), "1024");
    assert_eq!(format_usize(900501), "900501");
}

#[test]
fn builds_the_full_response() {
    let response = build_response("HTTP/1.1 200 OK", "<html>hi</html>");
    assert_eq!(
        response,
        "HTTP/1.1 200 OK\r\nContent-Length: 15\r\n\r\n<html>hi</html>"
    );
}
