use jsonconfig::config::Config;
use jsonconfig::errors::ConfigError;
use jsonconfig::sample::SampleConfig;

#[test]
fn config() {
    let config_file = Config::<SampleConfig>::default();

    let config_json_compact = "{\"hello\":\"hello\",\"world\":\"world\"}";
    let config_json_pretty = "{\n  \"hello\": \"hello\",\n  \"world\": \"world\"\n}";

    assert_eq!(
        config_file.to_json().unwrap(),
        config_json_compact.to_string(),
        "Config.to_json()"
    );

    assert_eq!(
        config_file.to_json_pretty().unwrap(),
        config_json_pretty.to_string(),
        "Config.to_json_pretty()"
    );

    let config_file_from_json = Config::<SampleConfig>::from_json_str(config_json_compact).unwrap();
    assert_eq!(config_file, config_file_from_json, "Config::from_json_str()");

    let config_file_from_json =
        Config::<SampleConfig>::from_json_slice(config_json_compact.as_bytes()).unwrap();
    assert_eq!(config_file, config_file_from_json, "Config::from_json_slice()");
}

#[test]
fn round_trip_compact_and_bytes() {
    let payload = SampleConfig {
        hello: "grüß dich, Welt".to_string(),
        world: "tabs stay out, spaces stay in".to_string(),
    };
    let wrapped = Config::new(payload);
    let text = wrapped.to_json().unwrap();
    let back = Config::<SampleConfig>::from_json_str(&text).unwrap();
    assert_eq!(back, wrapped);
    let back_bytes = Config::<SampleConfig>::from_json_slice(text.as_bytes()).unwrap();
    assert_eq!(back_bytes, wrapped);
}

#[test]
fn pretty_compact_equivalence() {
    let payload = SampleConfig {
        hello: "first value".to_string(),
        world: "second value".to_string(),
    };
    let wrapped = Config::new(payload);
    let compact = wrapped.to_json().unwrap();
    let pretty = wrapped.to_json_pretty().unwrap();
    assert_ne!(compact, pretty);
    let from_compact = Config::<SampleConfig>::from_json_str(&compact).unwrap();
    let from_pretty = Config::<SampleConfig>::from_json_str(&pretty).unwrap();
    assert_eq!(from_compact, from_pretty);
}

#[test]
fn decode_failures() {
    let bad_inputs = [
        "",
        "not json at all",
        "{",
        "{}",
        "{\"hello\":\"a\"}",
        "{\"hello\":\"a\",\"world\":1}",
        "{\"hello\":2,\"world\":\"b\"}",
        "{\"hello\":\"a\",\"world\":\"b\"} trailing",
        "{\"hello\":\"a\",\"world\":\"b\"",
        "{\"hello\":\"a\\q\",\"world\":\"b\"}",
        "{\"hello\":\"a\\",
        "{\"hello\":\"a\u{1}b\",\"world\":\"b\"}",
        "{\"hello\":\"\\ud800\",\"world\":\"b\"}",
        "{\"hello\":\"\\u12\",\"world\":\"b\"}",
        "[\"hello\",\"world\"]",
    ];
    for bad in bad_inputs {
        let r = Config::<SampleConfig>::from_json_str(bad);
        assert_eq!(r.unwrap_err(), ConfigError::DecodingError, "input: {}", bad);
    }
}

#[test]
fn decode_rejects_invalid_utf8() {
    let bytes: Vec<u8> = vec![0xff, 0xfe, 0x7b];
    let r = Config::<SampleConfig>::from_json_slice(&bytes);
    assert_eq!(r.unwrap_err(), ConfigError::DecodingError);
}

#[test]
fn decode_accepts_extra_whitespace() {
    let text = "  { \"hello\" : \"a\" ,\n \"world\" :\t\"b\" }  \n";
    let c = Config::<SampleConfig>::from_json_str(text).unwrap();
    assert_eq!(c.get().hello, "a");
    assert_eq!(c.get().world, "b");
}

#[test]
fn decode_member_order_insensitive() {
    let in_order = Config::<SampleConfig>::from_json_str("{\"hello\":\"a\",\"world\":\"b\"}")
        .unwrap();
    let reversed = Config::<SampleConfig>::from_json_str("{\"world\":\"b\",\"hello\":\"a\"}")
        .unwrap();
    assert_eq!(in_order, reversed);
    assert_eq!(reversed.get().hello, "a");
    assert_eq!(reversed.get().world, "b");
}

#[test]
fn escapes_round_trip() {
    let payload = SampleConfig {
        hello: "he said \"hi\"".to_string(),
        world: "two\nlines\tand a \\ slash".to_string(),
    };
    let wrapped = Config::new(payload);
    let compact = wrapped.to_json().unwrap();
    assert_eq!(
        compact,
        "{\"hello\":\"he said \\\"hi\\\"\",\"world\":\"two\\nlines\\tand a \\\\ slash\"}"
    );
    let back = Config::<SampleConfig>::from_json_str(&compact).unwrap();
    assert_eq!(back, wrapped);
    let pretty = wrapped.to_json_pretty().unwrap();
    let back_pretty = Config::<SampleConfig>::from_json_str(&pretty).unwrap();
    assert_eq!(back_pretty, wrapped);
}

#[test]
fn decode_short_escapes() {
    let text = "{\"hello\":\"a\\/b\",\"world\":\"\\b\\f\\r\"}";
    let c = Config::<SampleConfig>::from_json_str(text).unwrap();
    assert_eq!(c.get().hello, "a/b");
    assert_eq!(c.get().world, "\u{8}\u{c}\r");
}

#[test]
fn control_characters_encode_as_unicode_escapes() {
    let payload = SampleConfig {
        hello: "a\u{1}b".to_string(),
        world: "c\u{1f}d".to_string(),
    };
    let wrapped = Config::new(payload);
    let compact = wrapped.to_json().unwrap();
    assert_eq!(
        compact,
        "{\"hello\":\"a\\u0001b\",\"world\":\"c\\u001fd\"}"
    );
    let back = Config::<SampleConfig>::from_json_str(&compact).unwrap();
    assert_eq!(back, wrapped);
}

#[test]
fn unicode_escapes_decode() {
    let text = "{\"hello\":\"\\u0068i\",\"world\":\"\\ud83d\\ude00\"}";
    let c = Config::<SampleConfig>::from_json_str(text).unwrap();
    assert_eq!(c.get().hello, "hi");
    assert_eq!(c.get().world, "\u{1f600}");
}

#[test]
fn unknown_members_are_tolerated() {
    let text = "{\"extra\":\"ignored\",\"hello\":\"a\",\"world\":\"b\",\"more\":\"x\"}";
    let c = Config::<SampleConfig>::from_json_str(text).unwrap();
    assert_eq!(c.get().hello, "a");
    assert_eq!(c.get().world, "b");

    let duplicate = "{\"hello\":\"a\",\"hello\":\"b\",\"world\":\"c\"}";
    assert_eq!(
        Config::<SampleConfig>::from_json_str(duplicate).unwrap_err(),
        ConfigError::DecodingError
    );
}

#[test]
fn wrapper_delegates_to_payload() {
    let mut wrapped = Config::<SampleConfig>::default();
    assert_eq!(wrapped.get().hello, "hello");
    assert_eq!(wrapped.get().world, "world");
    wrapped.get_mut().hello = "goodbye".to_string();
    assert_eq!(wrapped.get().hello, "goodbye");
    assert_ne!(wrapped, Config::<SampleConfig>::default());

    let replacement = SampleConfig {
        hello: "h".to_string(),
        world: "w".to_string(),
    };
    wrapped.set(replacement);
    let payload = wrapped.into_value();
    assert_eq!(payload.hello, "h");
    assert_eq!(payload.world, "w");
}

#[test]
fn error_descriptions() {
    assert_eq!(
        ConfigError::EncodingError.describe(),
        "payload cannot be encoded as JSON"
    );
    assert_eq!(
        ConfigError::DecodingError.describe(),
        "input is not valid JSON for the payload"
    );
    assert_eq!(ConfigError::IoError.describe(), "filesystem operation failed");
}
