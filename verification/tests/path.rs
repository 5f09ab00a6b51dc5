use water_http_utils::byte_map::ByteMap;
use water_http_utils::request::HttpPath;

fn pairs_of<'a>(map: &ByteMap<'a>) -> Vec<(&'a [u8], &'a [u8])> {
    let mut pairs = Vec::new();
    for i in 0..map.len() {
        pairs.push(map.entry(i));
    }
    pairs
}

#[test]
fn path_and_query_are_parted_at_the_first_question_mark() {
    let (path, query) = HttpPath::new(b"/path?q=2&a=1&2=2&&ss=2").split_to_path_and_query();
    assert_eq!(path, b"/path");
    assert_eq!(query.len(), 4);
    assert_eq!(query.get(b"q"), Some(&b"2"[..]));
    assert_eq!(query.get(b"a"), Some(&b"1"[..]));
    assert_eq!(query.get(b"2"), Some(&b"2"[..]));
    assert_eq!(query.get(b"ss"), Some(&b"2"[..]));
    assert_eq!(query.get(b""), None);
    assert_eq!(
        pairs_of(&query),
        vec![
            (&b"q"[..], &b"2"[..]),
            (&b"a"[..], &b"1"[..]),
            (&b"2"[..], &b"2"[..]),
            (&b"ss"[..], &b"2"[..])
        ]
    );
}

#[test]
fn path_without_a_question_mark_has_no_query() {
    let (path, query) = HttpPath::new(b"/home").split_to_path_and_query();
    assert_eq!(path, b"/home");
    assert_eq!(query.len(), 0);
    let (path, query) = HttpPath::new(b"").split_to_path_and_query();
    assert_eq!(path, b"");
    assert_eq!(query.len(), 0);
}

#[test]
fn empty_query_has_no_pairs() {
    let (path, query) = HttpPath::new(b"/home?").split_to_path_and_query();
    assert_eq!(path, b"/home");
    assert_eq!(query.len(), 0);
    let (path, query) = HttpPath::new(b"?").split_to_path_and_query();
    assert_eq!(path, b"");
    assert_eq!(query.len(), 0);
}

#[test]
fn pieces_without_an_equals_sign_are_dropped() {
    let (_, query) = HttpPath::new(b"/p?a&b=1&c&&").split_to_path_and_query();
    assert_eq!(query.len(), 1);
    assert_eq!(query.get(b"b"), Some(&b"1"[..]));
    assert_eq!(query.get(b"a"), None);
    assert_eq!(query.get(b"c"), None);
}

#[test]
fn later_pair_replaces_an_earlier_one() {
    let (_, query) = HttpPath::new(b"/p?a=1&b=2&a=3").split_to_path_and_query();
    assert_eq!(query.len(), 2);
    assert_eq!(query.get(b"a"), Some(&b"3"[..]));
    assert_eq!(query.get(b"b"), Some(&b"2"[..]));
}

#[test]
fn piece_is_parted_at_its_first_equals_sign() {
    let (_, query) = HttpPath::new(b"/p?a=b=c&=v&k=").split_to_path_and_query();
    assert_eq!(query.len(), 3);
    assert_eq!(query.get(b"a"), Some(&b"b=c"[..]));
    assert_eq!(query.get(b""), Some(&b"v"[..]));
    assert_eq!(query.get(b"k"), Some(&b""[..]));
}

#[test]
fn later_question_marks_belong_to_the_query() {
    let (path, query) = HttpPath::new(b"/p?x=1?y=2").split_to_path_and_query();
    assert_eq!(path, b"/p");
    assert_eq!(query.get(b"x"), Some(&b"1?y=2"[..]));
}

#[test]
fn nothing_is_decoded() {
    let (path, query) = HttpPath::new(b"/a%20b?q=rust+http%26server").split_to_path_and_query();
    assert_eq!(path, b"/a%20b");
    assert_eq!(query.get(b"q"), Some(&b"rust+http%26server"[..]));
}

#[test]
fn bytes_that_are_no_text_are_parted_all_the_same() {
    let (path, query) = HttpPath::new(b"/\xff?\xfe=\xfd").split_to_path_and_query();
    assert_eq!(path, b"/\xff");
    assert_eq!(query.get(b"\xfe"), Some(&b"\xfd"[..]));
}

#[test]
fn path_is_text_where_it_is_utf8() {
    assert_eq!(HttpPath::new(b"/home?x=1").to_str(), Some("/home?x=1"));
    assert_eq!(HttpPath::new(b"/home?x=1").get_bytes(), b"/home?x=1");
    assert_eq!(HttpPath::new(b"/\xff").to_str(), None);
}

#[test]
fn map_keeps_the_last_value_of_a_key() {
    let map = ByteMap::new();
    assert_eq!(map.len(), 0);
    assert_eq!(map.get(b"a"), None);
    let map = map.insert(b"a", b"1").insert(b"b", b"2").insert(b"a", b"3");
    assert_eq!(map.len(), 2);
    assert_eq!(map.get(b"a"), Some(&b"3"[..]));
    assert_eq!(map.get(b"b"), Some(&b"2"[..]));
    assert_eq!(map.get(b"c"), None);
    assert_eq!(map.entry(0), (&b"a"[..], &b"3"[..]));
    assert_eq!(map.entry(1), (&b"b"[..], &b"2"[..]));
}
