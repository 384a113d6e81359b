use macos_candles::text::{chars_contain, chars_of, str_equal};

#[test]
fn equality_is_by_characters() {
    assert!(str_equal("1min", "1min"));
    assert!(!str_equal("1min", "1mi"));
    assert!(!str_equal("5s", "5S"));
    assert!(str_equal("", ""));
    assert!(str_equal("温度", "温度"));
}

#[test]
fn substring_search() {
    let s = chars_of("pACC MTR Temp Sensor2");
    assert!(chars_contain(&s, "pACC"));
    assert!(chars_contain(&s, "Sensor2"));
    assert!(chars_contain(&s, ""));
    assert!(!chars_contain(&s, "Die"));
    assert!(!chars_contain(&chars_of("Te"), "Temp"));
    assert_eq!(chars_of("aé"), vec!['a', 'é']);
}
