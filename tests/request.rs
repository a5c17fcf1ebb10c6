use chess_server::{
    find_arg, get_from_to, join_from, location_from_string, parse_request, split_on, Location,
};

fn pair(k: &str, v: &str) -> (String, String) {
    (k.to_string(), v.to_string())
}

#[test]
fn parses_move_request() {
    let (path, args) =
        parse_request("GET /move?from=8&to=24 HTTP/1.1\r\nHost: x\r\n\r\n").unwrap();
    assert_eq!(path, "/move");
    assert_eq!(args, vec![pair("from", "8"), pair("to", "24")]);
}

#[test]
fn parses_request_without_query() {
    let (path, args) = parse_request("GET /game HTTP/1.1\nHost: x").unwrap();
    assert_eq!(path, "/game");
    assert!(args.is_empty());
}

#[test]
fn query_edge_cases() {
    let (path, args) = parse_request("GET /x?a=b=c&d&=e?f").unwrap();
    assert_eq!(path, "/x");
    assert_eq!(args, vec![pair("a", "b=c"), pair("d", ""), pair("", "e")]);
    let (_, args) = parse_request("GET /x? HTTP/1.1").unwrap();
    assert_eq!(args, vec![pair("", "")]);
}

#[test]
fn request_without_target_is_refused() {
    assert_eq!(parse_request("GET"), None);
    assert_eq!(parse_request(""), None);
    assert_eq!(parse_request("GET\n/move?from=1 HTTP/1.1"), None);
}

#[test]
fn splitting_and_joining() {
    assert_eq!(split_on("a,,b", ','), vec!["a", "", "b"]);
    assert_eq!(split_on("", ','), vec![""]);
    let parts: Vec<String> = vec!["k".to_string(), "v".to_string(), "w".to_string()];
    assert_eq!(join_from(&parts, 1, "="), "v=w");
    assert_eq!(join_from(&parts, 3, "="), "");
}

#[test]
fn later_argument_wins() {
    let args = vec![pair("from", "1"), pair("to", "2"), pair("from", "3")];
    assert_eq!(find_arg(&args, "from"), Some("3".to_string()));
    assert_eq!(find_arg(&args, "x"), None);
}

#[test]
fn square_indices() {
    assert_eq!(location_from_string("0"), Location::new(0, 0));
    assert_eq!(location_from_string("63"), Location::new(7, 7));
    assert_eq!(location_from_string("+9"), Location::new(1, 1));
    assert_eq!(location_from_string("007"), Location::new(7, 0));
    assert_eq!(location_from_string("64"), None);
    assert_eq!(location_from_string("300"), None);
    assert_eq!(location_from_string("-1"), None);
    assert_eq!(location_from_string(""), None);
    assert_eq!(location_from_string("+"), None);
    assert_eq!(location_from_string("1a"), None);
}

#[test]
fn from_to_arguments() {
    let args = vec![pair("from", "8"), pair("to", "24")];
    assert_eq!(
        get_from_to(&args),
        Some((Location::new(0, 1).unwrap(), Location::new(0, 3).unwrap()))
    );
    assert_eq!(get_from_to(&vec![pair("from", "8")]), None);
    assert_eq!(get_from_to(&vec![pair("from", "8"), pair("to", "99")]), None);
}
