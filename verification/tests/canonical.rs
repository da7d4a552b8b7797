//! Canonical text and digests.

use andon_core::canonical::{
    array, digest, member, object, string, to_canonical_string, CanonicalError, Json,
};
use andon_core::schema::enums::{Completeness, EngineFamily};
use andon_core::schema::payload::{HeadKind, MeasurementResult, MetricValue, Ratio};
use andon_core::strmap::StrMap;
use andon_core::testing::{sample_compare_context, sample_result};

#[test]
fn a_ratio_that_cannot_be_carried_never_reaches_a_digest() {
    let ctx = sample_compare_context();
    for bad in [
        Ratio::NotANumber,
        Ratio::Infinite,
        Ratio::NegativeInfinite,
        Ratio::Scaled { digits: 1, zeros: 314 },
        Ratio::Scaled { digits: -1, zeros: 314 },
        Ratio::Scaled { digits: 17976931348623157, zeros: 298 },
    ] {
        let mut result = sample_result();
        result.value = MetricValue::Ratio(bad);
        result.digest = String::new();

        assert!(
            MetricValue::Ratio(bad).to_json().is_err(),
            "canonical serialization accepted {bad:?}"
        );
        assert!(
            result.digest_input(&ctx).digest().is_err(),
            "the digest input accepted {bad:?}"
        );
        assert!(result.seal(&ctx).is_err(), "seal accepted {bad:?}");
        assert!(
            result.digest.is_empty(),
            "a failed seal on {bad:?} must leave no digest behind"
        );
    }
}

#[test]
fn a_failed_reseal_leaves_no_stale_digest() {
    let ctx = sample_compare_context();
    let mut result = sample_result();
    let original = result.digest.clone();
    assert!(!original.is_empty(), "the fixture arrives sealed");

    result.value = MetricValue::Ratio(Ratio::NotANumber);
    assert!(result.seal(&ctx).is_err(), "NaN must not seal");
    assert!(
        result.digest.is_empty(),
        "a failed re-seal left the previous digest in place: {}",
        result.digest
    );
    assert_ne!(result.digest, original);
}

#[test]
fn serde_json_preserves_insertion_order_so_the_key_order_property_is_not_vacuous() {
    let mut map = serde_json::Map::new();
    map.insert("z".to_string(), serde_json::Value::from(1));
    map.insert("a".to_string(), serde_json::Value::from(2));
    let keys: Vec<&String> = map.keys().collect();
    assert_eq!(keys, vec!["z", "a"]);
}

#[test]
fn member_order_does_not_change_the_text_or_the_digest() {
    let forwards = object(vec![
        member("b", string("x")),
        member("a", Json::Unsigned(1)),
    ]);
    let backwards = object(vec![
        member("a", Json::Unsigned(1)),
        member("b", string("x")),
    ]);
    assert_eq!(to_canonical_string(&forwards), r#"{"a":1,"b":"x"}"#);
    assert_eq!(
        to_canonical_string(&forwards),
        to_canonical_string(&backwards)
    );
    assert_eq!(digest(&forwards), digest(&backwards));
}

#[test]
fn a_digest_is_the_sha_256_of_the_canonical_text() {
    assert_eq!(
        digest(&Json::Null),
        "74234e98afe7498fb5daf1f36ac2d78acc339464f950703b8c019892f982b90b"
    );
    let value = object(vec![
        member("b", string("x")),
        member("a", Json::Unsigned(1)),
    ]);
    assert_eq!(
        digest(&value),
        "ecf9e98ec0641e23113ff3ce8bdc78d0ddd249886517fd4a7f68cc83d4e65667"
    );
}

#[test]
fn keys_come_out_in_the_order_of_their_utf_16_code_units() {
    let value = object(vec![
        member("\u{e000}", Json::Null),
        member("\u{10000}", Json::Null),
        member("a", Json::Null),
        member("", Json::Null),
        member("aa", Json::Null),
    ]);
    assert_eq!(
        to_canonical_string(&value),
        "{\"\":null,\"a\":null,\"aa\":null,\"\u{10000}\":null,\"\u{e000}\":null}"
    );
}

#[test]
fn strings_are_escaped_and_nothing_else_is() {
    assert_eq!(
        to_canonical_string(&string("a\"\\/\n\r\t\u{8}\u{c}\u{1}\u{1f}\u{7f}é中")),
        "\"a\\\"\\\\/\\n\\r\\t\\b\\f\\u0001\\u001f\u{7f}é中\""
    );
}

#[test]
fn numbers_have_one_spelling() {
    for (value, text) in [
        (Json::Unsigned(0), "0"),
        (Json::Unsigned(u64::MAX), "18446744073709551615"),
        (Json::Signed(-1), "-1"),
        (Json::Signed(i64::MIN), "-9223372036854775808"),
        (Json::Millionths(0), "0"),
        (Json::Millionths(250_000), "0.25"),
        (Json::Millionths(-1_500_000), "-1.5"),
        (Json::Millionths(2_000_000), "2"),
        (Json::Millionths(1), "0.000001"),
        (Json::Millionths(-1), "-0.000001"),
        (Json::Millionths(i64::MAX), "9223372036854.775807"),
        (Json::Millionths(i64::MIN), "-9223372036854.775808"),
        (Json::Scaled { digits: 0, zeros: 400 }, "0"),
        (Json::Scaled { digits: 25, zeros: 4 }, "0.25"),
        (Json::Scaled { digits: 1, zeros: 26 }, "100000000000000000000"),
        (Json::Scaled { digits: -12345678901234568, zeros: 10 }, "-123456789012345680000"),
        (Json::Scaled { digits: 1, zeros: 27 }, "1e+21"),
        (Json::Scaled { digits: 1000, zeros: 24 }, "1e+21"),
        (Json::Scaled { digits: -15, zeros: 26 }, "-1.5e+21"),
        (Json::Scaled { digits: 17976931348623154, zeros: 292 }, "1.7976931348623154e+302"),
    ] {
        assert_eq!(to_canonical_string(&value), text);
    }
}

#[test]
fn values_nest() {
    let value = object(vec![member(
        "list",
        array(vec![
            Json::Bool(true),
            Json::Bool(false),
            array(Vec::new()),
            object(Vec::new()),
        ]),
    )]);
    let text = to_canonical_string(&value);
    assert_eq!(text, r#"{"list":[true,false,[],{}]}"#);
    assert!(serde_json::from_str::<serde_json::Value>(&text).is_ok());
}

#[test]
fn metric_values_are_tagged_by_kind() {
    for (value, text) in [
        (MetricValue::Count(17), r#"{"kind":"count","value":17}"#),
        (MetricValue::Integer(-4), r#"{"kind":"integer","value":-4}"#),
        (
            MetricValue::Ratio(Ratio::Millionths(500_000)),
            r#"{"kind":"ratio","value":0.5}"#,
        ),
        (
            MetricValue::Duration { millis: 9 },
            r#"{"kind":"duration","value":{"millis":9}}"#,
        ),
        (MetricValue::Flag(true), r#"{"kind":"flag","value":true}"#),
        (
            MetricValue::Text("x".to_string()),
            r#"{"kind":"text","value":"x"}"#,
        ),
    ] {
        assert_eq!(to_canonical_string(&value.to_json().unwrap()), text);
    }
}

#[test]
fn a_digest_depends_on_what_was_measured_and_on_nothing_else() {
    let ctx = sample_compare_context();
    let mut result = sample_result();
    let sealed = result.digest.clone();
    assert_eq!(sealed.len(), 64);

    result.severity = andon_core::schema::enums::Severity::Critical;
    result.evidence.stale = true;
    result.freshness.duration_ms = 1;
    result.seal(&ctx).unwrap();
    assert_eq!(result.digest, sealed);

    result.value = MetricValue::Count(18);
    result.seal(&ctx).unwrap();
    assert_ne!(result.digest, sealed);
}

#[test]
fn an_uncarriable_ratio_reads_as_a_sentence() {
    assert_eq!(
        CanonicalError::UncarriableRatio.describe(),
        "ratio has no canonical JSON representation"
    );
}

#[test]
fn a_string_map_keeps_its_keys_in_byte_order() {
    let mut map: StrMap<u64> = StrMap::new();
    assert!(map.is_empty());
    for (key, value) in [("b", 2), ("a", 1), ("ab", 3), ("é", 4)] {
        assert_eq!(map.insert(key.to_string(), value), None);
    }
    assert_eq!(map.insert("a".to_string(), 9), Some(1));
    let keys: Vec<&str> = (0..map.len()).map(|i| map.key_at(i).as_str()).collect();
    assert_eq!(keys, vec!["a", "ab", "b", "é"]);
    assert_eq!(map.get("a"), Some(&9));
    assert_eq!(map.value_at(1), &3);
    assert_eq!(map.remove("ab"), Some(3));
    assert_eq!(map.remove("ab"), None);
    assert!(!map.contains_key("ab"));
    assert_eq!(map.len(), 3);
}

#[test]
fn different_values_have_different_text() {
    let one = |j: Json| object(vec![member("a", j)]);
    let values = vec![
        Json::Null,
        Json::Bool(false),
        Json::Unsigned(0),
        Json::Unsigned(10),
        Json::Signed(-10),
        Json::Millionths(1),
        Json::Millionths(-1),
        Json::Millionths(10),
        Json::Millionths(1_000_001),
        Json::Scaled { digits: 1, zeros: 26 },
        Json::Scaled { digits: 1, zeros: 27 },
        Json::Scaled { digits: -1, zeros: 27 },
        Json::Scaled { digits: 1, zeros: 28 },
        Json::Scaled { digits: 11, zeros: 27 },
        string(""),
        string("null"),
        string("\""),
        string("\\\""),
        string("\u{1}"),
        string("\\u0001"),
        string("0"),
        array(vec![]),
        array(vec![Json::Null]),
        array(vec![string(""), string("")]),
        array(vec![string(",")]),
        array(vec![string("\",\"")]),
        object(vec![]),
        one(Json::Null),
        one(one(Json::Null)),
        object(vec![member("a", Json::Null), member("b", Json::Null)]),
        object(vec![member("a\":null,\"b", Json::Null)]),
    ];
    let texts: Vec<String> = values.iter().map(to_canonical_string).collect();
    for i in 0..texts.len() {
        for j in 0..i {
            assert_ne!(texts[i], texts[j], "{:?} and {:?}", values[i], values[j]);
        }
    }
}

#[test]
fn a_whole_number_has_one_text_however_it_is_held() {
    assert_eq!(to_canonical_string(&Json::Unsigned(7)), "7");
    assert_eq!(to_canonical_string(&Json::Signed(7)), "7");
    assert_eq!(to_canonical_string(&Json::Millionths(7_000_000)), "7");
}

#[test]
fn every_fact_a_digest_covers_changes_it() {
    let ctx = sample_compare_context();
    let base = sample_result();
    let sealed = |edit: fn(&mut MeasurementResult)| -> String {
        let mut result = base.clone();
        edit(&mut result);
        result.seal(&ctx).expect("seals");
        result.digest
    };
    let digests = vec![
        sealed(|_| {}),
        sealed(|r| r.engine_id.push('x')),
        sealed(|r| r.metric_id.push('x')),
        sealed(|r| r.claim_id.push('x')),
        sealed(|r| r.family = EngineFamily::Process),
        sealed(|r| r.scope.symbol = Some("elsewhere".to_string())),
        sealed(|r| r.value = MetricValue::Flag(true)),
        sealed(|r| r.delta = Some(MetricValue::Integer(-77))),
        sealed(|r| r.completeness = Completeness::Partial),
    ];
    for i in 0..digests.len() {
        for j in 0..i {
            assert_ne!(digests[i], digests[j], "{i} and {j}");
        }
    }
    let mut other = ctx.clone();
    other.base_oid.push('0');
    let mut result = base.clone();
    result.seal(&other).expect("seals");
    assert!(!digests.contains(&result.digest));
}

#[test]
fn only_a_commit_can_be_recomputed() {
    assert!(HeadKind::Commit.is_witnessable());
    assert!(!HeadKind::UncommittedWorktree.is_witnessable());
    assert!(!HeadKind::UncommittedIndex.is_witnessable());
}

#[test]
fn the_largest_ratio_that_scales_is_carried_and_the_next_is_not() {
    let most = Ratio::Scaled { digits: 17976931348623154, zeros: 292 };
    let least = Ratio::Scaled { digits: -17976931348623154, zeros: 292 };
    for carried in [most, least, Ratio::Scaled { digits: 1, zeros: 308 }, Ratio::Millionths(i64::MIN)] {
        assert!(carried.can_be_carried(), "{carried:?} was refused");
        assert!(MetricValue::Ratio(carried).to_json().is_ok());
    }
    for refused in [
        Ratio::Scaled { digits: 17976931348623155, zeros: 292 },
        Ratio::Scaled { digits: 1797693134862316, zeros: 293 },
        Ratio::Scaled { digits: -1797693134862316, zeros: 293 },
        Ratio::Scaled { digits: 1, zeros: 309 },
    ] {
        assert!(!refused.can_be_carried(), "{refused:?} was carried");
    }
    assert!((17976931348623154e286_f64 * 1e6).is_finite());
    assert!(!(1797693134862316e287_f64 * 1e6).is_finite());
    let json = MetricValue::Ratio(most).to_json().expect("the largest ratio is carried");
    assert_eq!(
        to_canonical_string(&json),
        r#"{"kind":"ratio","value":1.7976931348623154e+302}"#
    );
}

#[test]
fn a_ratio_is_built_from_its_digits() {
    assert_eq!(Ratio::from_digits(25, -2), Some(Ratio::Millionths(250_000)));
    assert_eq!(Ratio::from_digits(-1, -6), Some(Ratio::Millionths(-1)));
    assert_eq!(Ratio::from_digits(1, 12), Some(Ratio::Millionths(1_000_000_000_000_000_000)));
    assert_eq!(Ratio::from_digits(1, 13), Some(Ratio::Scaled { digits: 1, zeros: 19 }));
    assert_eq!(Ratio::from_digits(0, 300), Some(Ratio::Millionths(0)));
    assert_eq!(Ratio::from_digits(1, -7), None);
    assert_eq!(Ratio::from_digits(1, 65530), None);
}
