use water_http_utils::request::headers::params::{HeaderParams, HeaderVWithParams};
use water_http_utils::request::headers::HeaderValue;

fn pieces(value: &[u8]) -> Vec<&[u8]> {
    HeaderValue::new(value).all_injected_values()
}

#[test]
fn value_is_cut_at_comma_and_space() {
    assert_eq!(pieces(b"*/*;q=0.8, text/html"), vec![&b"*/*;q=0.8"[..], &b"text/html"[..]]);
    assert_eq!(pieces(b"gzip, deflate, br"), vec![&b"gzip"[..], &b"deflate"[..], &b"br"[..]]);
}

#[test]
fn no_other_separator_cuts_a_value() {
    assert_eq!(pieces(b"a,b"), vec![&b"a,b"[..]]);
    assert_eq!(pieces(b"a,\tb"), vec![&b"a,\tb"[..]]);
    assert_eq!(pieces(b"a ,b"), vec![&b"a ,b"[..]]);
    assert_eq!(pieces(b"a; b"), vec![&b"a; b"[..]]);
}

#[test]
fn nothing_is_trimmed_or_merged() {
    assert_eq!(pieces(b""), vec![&b""[..]]);
    assert_eq!(pieces(b", "), vec![&b""[..], &b""[..]]);
    assert_eq!(pieces(b"a, "), vec![&b"a"[..], &b""[..]]);
    assert_eq!(pieces(b"a, , b"), vec![&b"a"[..], &b""[..], &b"b"[..]]);
    assert_eq!(pieces(b"a,  b"), vec![&b"a"[..], &b" b"[..]]);
    assert_eq!(pieces(b"a,, b"), vec![&b"a,"[..], &b"b"[..]]);
    assert_eq!(pieces(b"a,"), vec![&b"a,"[..]]);
}

#[test]
fn value_is_text_where_it_is_utf8() {
    assert_eq!(HeaderValue::new(b"text/html").to_str(), Some("text/html"));
    assert_eq!(HeaderValue::new("é".as_bytes()).to_str(), Some("é"));
    assert_eq!(HeaderValue::new(b"").to_str(), Some(""));
    assert_eq!(HeaderValue::new(b"\xff").to_str(), None);
    assert_eq!(HeaderValue::new(b"\xc3").to_str(), None);
    assert_eq!(HeaderValue::new(b"text/html").as_bytes(), b"text/html");
}

#[test]
fn quality_is_a_parameter() {
    let parsed = HeaderVWithParams::new(b"*/*;q=0.8").unwrap();
    assert_eq!(parsed.to_str(), Some("*/*"));
    assert_eq!(parsed.value_bytes(), b"*/*");
    assert_eq!(parsed.whole_value_as_str(), Some("*/*;q=0.8"));
    assert_eq!(parsed.whole_value(), b"*/*;q=0.8");
    assert_eq!(parsed.get_param("q"), Some(&b"0.8"[..]));
    assert_eq!(parsed.get_param(";q"), None);
    assert_eq!(parsed.get_param("*/*"), None);
    assert_eq!(parsed.params.named.len(), 1);
    assert_eq!(parsed.params.unnamed, None);
}

#[test]
fn value_without_a_semicolon_is_the_primary_value() {
    let parsed = HeaderVWithParams::new(b"text/html").unwrap();
    assert_eq!(parsed.to_str(), Some("text/html"));
    assert_eq!(parsed.params.named.len(), 0);
    assert_eq!(parsed.params.unnamed, None);
    assert_eq!(parsed.get_param("text/html"), None);
}

#[test]
fn single_space_behind_a_semicolon_is_passed_over() {
    let parsed = HeaderVWithParams::new(b"text/html; charset=utf-8;level=1").unwrap();
    assert_eq!(parsed.to_str(), Some("text/html"));
    assert_eq!(parsed.get_param("charset"), Some(&b"utf-8"[..]));
    assert_eq!(parsed.get_param("level"), Some(&b"1"[..]));
    assert_eq!(parsed.get_param(" charset"), None);
    assert_eq!(parsed.params.named.len(), 2);
}

#[test]
fn other_spaces_are_kept() {
    let wide = HeaderVWithParams::new(b"a;  b=1").unwrap();
    assert_eq!(wide.get_param(" b"), Some(&b"1"[..]));
    assert_eq!(wide.get_param("b"), None);
    let inner = HeaderVWithParams::new(b"a b;c d=e f").unwrap();
    assert_eq!(inner.to_str(), Some("a b"));
    assert_eq!(inner.get_param("c d"), Some(&b"e f"[..]));
    let leading = HeaderVWithParams::new(b" a;b=1").unwrap();
    assert_eq!(leading.to_str(), Some(" a"));
    let spaced = HeaderVWithParams::new(b"a;b= 1").unwrap();
    assert_eq!(spaced.get_param("b"), Some(&b" 1"[..]));
}

#[test]
fn bare_tokens_share_one_key_and_the_last_stays() {
    let parsed = HeaderVWithParams::new(b"attachment; inline; hidden").unwrap();
    assert_eq!(parsed.to_str(), Some("attachment"));
    assert_eq!(parsed.params.unnamed, Some(&b"hidden"[..]));
    assert_eq!(parsed.get_param("hidden"), Some(&b"hidden"[..]));
    assert_eq!(parsed.get_param("inline"), None);
    assert_eq!(parsed.get_param("attachment"), None);
    assert_eq!(parsed.params.named.len(), 0);
}

#[test]
fn named_parameter_goes_before_a_bare_token_of_the_same_text() {
    let parsed = HeaderVWithParams::new(b"v;x=1;x").unwrap();
    assert_eq!(parsed.get_param("x"), Some(&b"1"[..]));
    assert_eq!(parsed.params.unnamed, Some(&b"x"[..]));
}

#[test]
fn leading_named_parameter_is_no_primary_value() {
    let parsed = HeaderVWithParams::new(b"a=1;b;c=2").unwrap();
    assert_eq!(parsed.to_str(), Some("a=1;b;c=2"));
    assert_eq!(parsed.get_param("a"), Some(&b"1"[..]));
    assert_eq!(parsed.get_param("c"), Some(&b"2"[..]));
    assert_eq!(parsed.get_param("b"), Some(&b"b"[..]));
    let alone = HeaderVWithParams::new(b"a=1").unwrap();
    assert_eq!(alone.to_str(), Some("a=1"));
    assert_eq!(alone.get_param("a"), Some(&b"1"[..]));
}

#[test]
fn last_equals_sign_parts_name_and_bytes() {
    let parsed = HeaderVWithParams::new(b"v;a=b=c").unwrap();
    assert_eq!(parsed.get_param("b"), Some(&b"c"[..]));
    assert_eq!(parsed.get_param("a"), None);
    assert_eq!(parsed.params.named.len(), 1);
}

#[test]
fn later_parameter_replaces_an_earlier_one() {
    let parsed = HeaderVWithParams::new(b"v;q=1;q=2").unwrap();
    assert_eq!(parsed.get_param("q"), Some(&b"2"[..]));
    assert_eq!(parsed.params.named.len(), 1);
}

#[test]
fn empty_pieces_are_taken_as_they_are() {
    let empty = HeaderVWithParams::new(b"").unwrap();
    assert_eq!(empty.to_str(), Some(""));
    assert_eq!(empty.params.unnamed, None);
    let semicolon = HeaderVWithParams::new(b";").unwrap();
    assert_eq!(semicolon.to_str(), Some(""));
    assert_eq!(semicolon.params.unnamed, Some(&b""[..]));
    assert_eq!(semicolon.get_param(""), Some(&b""[..]));
    let nameless = HeaderVWithParams::new(b"v;=1;x=;y=2").unwrap();
    assert_eq!(nameless.get_param(""), Some(&b"1"[..]));
    assert_eq!(nameless.get_param("x"), Some(&b""[..]));
    assert_eq!(nameless.get_param("y"), Some(&b"2"[..]));
}

#[test]
fn value_that_ends_with_an_equals_sign_is_refused() {
    assert!(HeaderVWithParams::new(b"q=").is_err());
    assert!(HeaderVWithParams::new(b"=").is_err());
    assert!(HeaderVWithParams::new(b"a;b=1;c=").is_err());
}

#[test]
fn value_that_ends_behind_a_semicolon_and_a_space_is_refused() {
    assert!(HeaderVWithParams::new(b"a; ").is_err());
    assert!(HeaderVWithParams::new(b"; ").is_err());
    assert!(HeaderVWithParams::new(b"a;").is_ok());
    assert!(HeaderVWithParams::new(b"a ").is_ok());
    assert!(HeaderVWithParams::new(b" ").is_ok());
}

#[test]
fn primary_value_that_is_no_text_has_no_text() {
    let parsed = HeaderVWithParams::new(b"\xff;q=1").unwrap();
    assert_eq!(parsed.to_str(), None);
    assert_eq!(parsed.whole_value_as_str(), None);
    assert_eq!(parsed.value_bytes(), b"\xff");
    assert_eq!(parsed.get_param("q"), Some(&b"1"[..]));
}

#[test]
fn values_of_a_header_are_taken_apart_one_by_one() {
    let value = HeaderValue::new(b"*/*;q=0.8, text/html");
    let values = value.all_injected_values_with_params();
    assert_eq!(values.len(), 2);
    assert_eq!(values[0].to_str(), Some("*/*"));
    assert_eq!(values[0].get_param("q"), Some(&b"0.8"[..]));
    assert_eq!(values[1].to_str(), Some("text/html"));
    assert_eq!(values[1].params.named.len(), 0);
}

#[test]
fn refused_values_are_left_out() {
    let value = HeaderValue::new(b"a;q=1, b=, c, d; ");
    let values = value.all_injected_values_with_params();
    assert_eq!(values.len(), 2);
    assert_eq!(values[0].whole_value(), b"a;q=1");
    assert_eq!(values[1].whole_value(), b"c");
}

#[test]
fn parameters_are_inserted_and_found() {
    let params = HeaderParams::new();
    assert_eq!(params.get(b"a"), None);
    let params = params.insert(Some(b"a"), b"1").insert(None, b"flag").insert(Some(b"a"), b"2");
    assert_eq!(params.get(b"a"), Some(&b"2"[..]));
    assert_eq!(params.get(b"flag"), Some(&b"flag"[..]));
    assert_eq!(params.get(b"fla"), None);
    let params = params.insert(None, b"other");
    assert_eq!(params.get(b"flag"), None);
    assert_eq!(params.get(b"other"), Some(&b"other"[..]));
}
