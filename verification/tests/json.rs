use janus::json::Json;
use janus::text::stands_before;

#[test]
fn json_round_trip() {
    let j = Json::parse(b"{\"b\":[1,2.5,null,true],\"a\":\"x\\ny\"}").unwrap();
    assert_eq!(j.render(), "{\"a\":\"x\\ny\",\"b\":[1,2.5,null,true]}");
    assert!(Json::parse(b"{").is_none());
}

#[test]
fn fields_are_read_and_set() {
    let mut j = Json::parse(b"{\"a\":1,\"t\":\"x\",\"l\":[true]}").unwrap();
    assert_eq!(j.get("a").and_then(|v| v.as_u64()), Some(1));
    assert_eq!(j.text_of("t"), Some("x"));
    assert!(j.text_is("t", "x") && !j.text_is("a", "x"));
    assert_eq!(j.items_of("l").unwrap()[0].as_bool(), Some(true));
    assert!(j.get("missing").is_none());
    j.put("a", Json::number(7));
    j.put("n", Json::text("new"));
    j.remove("t");
    assert_eq!(j.render(), "{\"a\":7,\"l\":[true],\"n\":\"new\"}");
    assert_eq!(j.copy().render(), j.render());
    assert!(Json::parse(b"-1").unwrap().as_u64().is_none());
}

#[test]
fn plain_values_are_told_from_others() {
    let j = Json::parse(b"{\"a\":[1,{\"b\":null}]}").unwrap();
    assert!(j.is_plain(3) && !j.is_plain(2));
    assert!(!Json::parse(b"[1.5]").unwrap().is_plain(9));
    let reserved = "$serde_json::private::RawValue".to_string();
    assert!(!Json::Object(vec![(reserved, Json::text("1"))]).is_plain(9));
    let written = j.render();
    assert_eq!(Json::parse(written.as_bytes()).unwrap().render(), written);
}

#[test]
fn the_reserved_key_may_stand_behind_another() {
    let reserved = "$serde_json::private::RawValue".to_string();
    let j = Json::Object(vec![(reserved, Json::text("1")), ("!".to_string(), Json::number(2))]);
    assert!(j.is_plain(1));
    let written = j.render();
    assert_eq!(Json::parse(written.as_bytes()).unwrap().render(), written);
}

#[test]
fn texts_are_ordered_as_the_standard_library_orders_them() {
    let texts = ["", "!", "$", "$a", "a", "aa", "ab", "b", "é", "🦀", "\u{ffff}"];
    for a in texts {
        for b in texts {
            let x: Vec<char> = a.chars().collect();
            let y: Vec<char> = b.chars().collect();
            assert_eq!(stands_before(&x, &y), a < b, "{} {}", a, b);
        }
    }
}
