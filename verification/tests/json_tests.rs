use devtimer::json::{from_json, to_json};
use devtimer::state::TimerData;

#[test]
fn writes_the_compact_object() {
    let s = TimerData { total_spent: 0, current_start: None, paused_elapsed: 0 };
    assert_eq!(
        to_json(&s),
        "{\"total_spent\":0,\"current_start\":null,\"paused_elapsed\":0}"
    );
    let s = TimerData { total_spent: 160, current_start: Some(1200), paused_elapsed: 100 };
    assert_eq!(
        to_json(&s),
        "{\"total_spent\":160,\"current_start\":1200,\"paused_elapsed\":100}"
    );
}

#[test]
fn round_trips_every_shape_of_record() {
    let states = [
        TimerData { total_spent: 0, current_start: None, paused_elapsed: 0 },
        TimerData { total_spent: 5, current_start: None, paused_elapsed: 0 },
        TimerData { total_spent: 0, current_start: Some(0), paused_elapsed: 0 },
        TimerData { total_spent: 160, current_start: Some(1200), paused_elapsed: 100 },
        TimerData {
            total_spent: u64::MAX,
            current_start: Some(u64::MAX),
            paused_elapsed: u64::MAX,
        },
    ];
    for s in states {
        assert_eq!(from_json(&to_json(&s)), s);
    }
}

#[test]
fn heals_empty_and_garbage_input_to_the_fresh_record() {
    let fresh = TimerData::new();
    assert_eq!(from_json(""), fresh);
    assert_eq!(from_json("not json at all"), fresh);
    assert_eq!(from_json("{}"), fresh);
    assert_eq!(from_json("null"), fresh);
    assert_eq!(from_json("{\"total_spent\":1}"), fresh);
    assert_eq!(from_json("[1,2,3]"), fresh);
}

#[test]
fn heals_near_misses_to_the_fresh_record() {
    let fresh = TimerData::new();
    // A leading zero is not canonical.
    assert_eq!(
        from_json("{\"total_spent\":01,\"current_start\":null,\"paused_elapsed\":0}"),
        fresh
    );
    // A number past u64 is no record.
    assert_eq!(
        from_json(
            "{\"total_spent\":18446744073709551616,\"current_start\":null,\"paused_elapsed\":0}"
        ),
        fresh
    );
    // A negative number is no record.
    assert_eq!(
        from_json("{\"total_spent\":-1,\"current_start\":null,\"paused_elapsed\":0}"),
        fresh
    );
    // Only the compact form this library writes is recognized.
    assert_eq!(
        from_json("{ \"total_spent\": 0, \"current_start\": null, \"paused_elapsed\": 0 }"),
        fresh
    );
    // Reordered fields are not the canonical form.
    assert_eq!(
        from_json("{\"current_start\":null,\"total_spent\":0,\"paused_elapsed\":0}"),
        fresh
    );
    // Trailing text is rejected.
    assert_eq!(
        from_json("{\"total_spent\":0,\"current_start\":null,\"paused_elapsed\":0}x"),
        fresh
    );
}

#[test]
fn largest_values_print_all_their_digits() {
    let s = TimerData {
        total_spent: u64::MAX,
        current_start: None,
        paused_elapsed: 1,
    };
    assert_eq!(
        to_json(&s),
        "{\"total_spent\":18446744073709551615,\"current_start\":null,\"paused_elapsed\":1}"
    );
    assert_eq!(from_json(&to_json(&s)), s);
}

#[test]
fn output_is_json_a_standard_parser_reads_back() {
    let s = TimerData { total_spent: 160, current_start: Some(1200), paused_elapsed: 100 };
    let text = to_json(&s);
    let v: serde_json::Value = serde_json::from_str(&text).unwrap();
    assert_eq!(v["total_spent"].as_u64(), Some(160));
    assert_eq!(v["current_start"].as_u64(), Some(1200));
    assert_eq!(v["paused_elapsed"].as_u64(), Some(100));

    let s = TimerData::new();
    let text = to_json(&s);
    let v: serde_json::Value = serde_json::from_str(&text).unwrap();
    assert_eq!(v["total_spent"].as_u64(), Some(0));
    assert!(v["current_start"].is_null());
    assert_eq!(v["paused_elapsed"].as_u64(), Some(0));
}
