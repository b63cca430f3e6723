use dutree::create_color_dict;

#[test]
fn reads_pairs() {
    let dict = create_color_dict("di=01;34:ln=01;36:*.tar=01;31").unwrap();
    assert_eq!(dict.get("di"), Some("01;34".to_string()));
    assert_eq!(dict.get("ln"), Some("01;36".to_string()));
    assert_eq!(dict.get("*.tar"), Some("01;31".to_string()));
    assert_eq!(dict.get("fi"), None);
}

#[test]
fn empty_list_is_an_empty_table() {
    let dict = create_color_dict("").unwrap();
    assert_eq!(dict.get("di"), None);
}

#[test]
fn trailing_separator() {
    let dict = create_color_dict("di=34:").unwrap();
    assert_eq!(dict.get("di"), Some("34".to_string()));
}

#[test]
fn reading_stops_at_the_first_empty_field() {
    let dict = create_color_dict("di=34::fi=0:broken").unwrap();
    assert_eq!(dict.get("di"), Some("34".to_string()));
    assert_eq!(dict.get("fi"), None);
    assert!(create_color_dict(":broken").is_some());
}

#[test]
fn quotes_are_dropped() {
    let dict = create_color_dict("\"di\"=\"34\":*.\"mp3=35").unwrap();
    assert_eq!(dict.get("di"), Some("34".to_string()));
    assert_eq!(dict.get("*.mp3"), Some("35".to_string()));
}

#[test]
fn code_ends_at_a_second_equals_sign() {
    let dict = create_color_dict("di=34=1:fi==:=5").unwrap();
    assert_eq!(dict.get("di"), Some("34".to_string()));
    assert_eq!(dict.get("fi"), Some("".to_string()));
    assert_eq!(dict.get(""), Some("5".to_string()));
}

#[test]
fn later_pairs_replace_earlier() {
    let dict = create_color_dict("di=34:di=35").unwrap();
    assert_eq!(dict.get("di"), Some("35".to_string()));
}

#[test]
fn field_without_pair() {
    assert!(create_color_dict("di").is_none());
    assert!(create_color_dict("di=34:fi").is_none());
    assert!(create_color_dict("\"").is_none());
    assert!(create_color_dict("di=34:\"\":fi=0").is_none());
}
