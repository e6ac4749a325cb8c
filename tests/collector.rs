use mavlink::dialects::common::MavMessage;
use mavlink::Message;
use mavsnark::collector::Collector;
use mavsnark::fields::fields_from_debug;
use mavsnark::record::{Hue, MavMsg};

fn make_msg(msg: MavMessage, sys_id: u8, comp_id: u8) -> MavMsg {
    let debug = format!("{:?}", msg);
    MavMsg::new(
        sys_id,
        comp_id,
        msg.message_name().to_string(),
        fields_from_debug(&debug).to_string(),
        chrono::Utc::now().timestamp_millis(),
    )
}

fn record(name: &str, sys_id: u8, comp_id: u8, fields: &str, timestamp: i64) -> MavMsg {
    MavMsg::new(sys_id, comp_id, name.to_string(), fields.to_string(), timestamp)
}

#[test]
fn new_collector_is_empty() {
    let c = Collector::new();
    assert!(c.stream().is_empty());
    assert!(c.messages().is_empty());
}

#[test]
fn push_stream_message() {
    let mut c = Collector::new();
    let msg = make_msg(
        MavMessage::HEARTBEAT(mavlink::dialects::common::HEARTBEAT_DATA::default()),
        1,
        1,
    );
    c.push(msg);
    assert_eq!(c.stream().len(), 1);
    assert!(c.messages().is_empty());
}

#[test]
fn push_discrete_message() {
    let mut c = Collector::new();
    let msg = make_msg(
        MavMessage::COMMAND_LONG(mavlink::dialects::common::COMMAND_LONG_DATA::default()),
        1,
        1,
    );
    c.push(msg);
    assert!(c.stream().is_empty());
    assert_eq!(c.messages().len(), 1);
}

#[test]
fn stream_upsert_deduplicates() {
    let mut c = Collector::new();
    let msg1 = make_msg(
        MavMessage::HEARTBEAT(mavlink::dialects::common::HEARTBEAT_DATA::default()),
        1,
        1,
    );
    let msg2 = make_msg(
        MavMessage::HEARTBEAT(mavlink::dialects::common::HEARTBEAT_DATA::default()),
        1,
        1,
    );
    c.push(msg1);
    c.push(msg2);
    assert_eq!(c.stream().len(), 1);
}

#[test]
fn stream_different_keys_preserved() {
    let mut c = Collector::new();
    c.push(make_msg(
        MavMessage::HEARTBEAT(mavlink::dialects::common::HEARTBEAT_DATA::default()),
        1,
        1,
    ));
    c.push(make_msg(
        MavMessage::ATTITUDE(mavlink::dialects::common::ATTITUDE_DATA::default()),
        1,
        1,
    ));
    assert_eq!(c.stream().len(), 2);
    assert_eq!(c.stream()[0].name, "HEARTBEAT");
    assert_eq!(c.stream()[1].name, "ATTITUDE");
}

#[test]
fn mixed_stream_and_messages() {
    let mut c = Collector::new();
    c.push(make_msg(
        MavMessage::HEARTBEAT(mavlink::dialects::common::HEARTBEAT_DATA::default()),
        1,
        1,
    ));
    c.push(make_msg(
        MavMessage::COMMAND_LONG(mavlink::dialects::common::COMMAND_LONG_DATA::default()),
        1,
        1,
    ));
    c.push(make_msg(
        MavMessage::ATTITUDE(mavlink::dialects::common::ATTITUDE_DATA::default()),
        1,
        1,
    ));
    c.push(make_msg(
        MavMessage::COMMAND_ACK(mavlink::dialects::common::COMMAND_ACK_DATA::default()),
        1,
        1,
    ));
    assert_eq!(c.stream().len(), 2);
    assert_eq!(c.messages().len(), 2);
}

#[test]
fn toggle_stream_to_message() {
    let mut c = Collector::new();
    c.push(make_msg(
        MavMessage::HEARTBEAT(mavlink::dialects::common::HEARTBEAT_DATA::default()),
        1,
        1,
    ));
    c.push(make_msg(
        MavMessage::ATTITUDE(mavlink::dialects::common::ATTITUDE_DATA::default()),
        1,
        1,
    ));
    assert_eq!(c.stream().len(), 2);

    c.toggle_category("HEARTBEAT", true);
    assert_eq!(c.stream().len(), 1);
    assert_eq!(c.stream()[0].name, "ATTITUDE");

    // New HEARTBEAT pushes now go to messages
    c.push(make_msg(
        MavMessage::HEARTBEAT(mavlink::dialects::common::HEARTBEAT_DATA::default()),
        1,
        1,
    ));
    assert_eq!(c.stream().len(), 1);
    assert_eq!(c.messages().len(), 1);
    assert_eq!(c.messages()[0].name, "HEARTBEAT");
}

#[test]
fn toggle_message_to_stream() {
    let mut c = Collector::new();
    c.push(make_msg(
        MavMessage::COMMAND_LONG(mavlink::dialects::common::COMMAND_LONG_DATA::default()),
        1,
        1,
    ));
    c.push(make_msg(
        MavMessage::COMMAND_ACK(mavlink::dialects::common::COMMAND_ACK_DATA::default()),
        1,
        1,
    ));
    assert_eq!(c.messages().len(), 2);

    c.toggle_category("COMMAND_LONG", false);
    assert_eq!(c.messages().len(), 1);
    assert_eq!(c.messages()[0].name, "COMMAND_ACK");

    // New COMMAND_LONG pushes now go to stream
    c.push(make_msg(
        MavMessage::COMMAND_LONG(mavlink::dialects::common::COMMAND_LONG_DATA::default()),
        1,
        1,
    ));
    assert_eq!(c.stream().len(), 1);
    assert_eq!(c.stream()[0].name, "COMMAND_LONG");
}

#[test]
fn double_toggle_restores_default() {
    let mut c = Collector::new();
    // HEARTBEAT starts as stream
    c.push(make_msg(
        MavMessage::HEARTBEAT(mavlink::dialects::common::HEARTBEAT_DATA::default()),
        1,
        1,
    ));
    assert_eq!(c.stream().len(), 1);

    // Toggle to message
    c.toggle_category("HEARTBEAT", true);
    assert_eq!(c.stream().len(), 0);

    // Toggle back to stream
    c.toggle_category("HEARTBEAT", false);

    // New push goes to stream again
    c.push(make_msg(
        MavMessage::HEARTBEAT(mavlink::dialects::common::HEARTBEAT_DATA::default()),
        1,
        1,
    ));
    assert_eq!(c.stream().len(), 1);
    assert!(c.messages().is_empty());
}

#[test]
fn toggle_does_not_affect_other_types() {
    let mut c = Collector::new();
    c.push(make_msg(
        MavMessage::HEARTBEAT(mavlink::dialects::common::HEARTBEAT_DATA::default()),
        1,
        1,
    ));
    c.push(make_msg(
        MavMessage::ATTITUDE(mavlink::dialects::common::ATTITUDE_DATA::default()),
        1,
        1,
    ));
    c.push(make_msg(
        MavMessage::COMMAND_LONG(mavlink::dialects::common::COMMAND_LONG_DATA::default()),
        1,
        1,
    ));

    c.toggle_category("HEARTBEAT", true);
    // ATTITUDE still in stream, COMMAND_LONG still in messages
    assert_eq!(c.stream().len(), 1);
    assert_eq!(c.stream()[0].name, "ATTITUDE");
    assert_eq!(c.messages().len(), 1);
    assert_eq!(c.messages()[0].name, "COMMAND_LONG");
}

#[test]
fn heartbeat_twice_keeps_one_row_with_latest_fields() {
    let mut c = Collector::new();
    c.push(record("HEARTBEAT", 1, 1, "custom_mode: 0", 100));
    c.push(record("HEARTBEAT", 1, 1, "custom_mode: 4", 200));
    assert_eq!(c.stream().len(), 1);
    assert_eq!(c.stream()[0].fields, "custom_mode: 4");
    assert_eq!(c.stream()[0].timestamp, 200);
}

#[test]
fn commands_go_to_log_in_arrival_order() {
    let mut c = Collector::new();
    c.push(record("COMMAND_LONG", 1, 1, "command: 400", 1));
    c.push(record("COMMAND_ACK", 1, 1, "result: 0", 2));
    assert_eq!(c.messages().len(), 2);
    assert_eq!(c.messages()[0].name, "COMMAND_LONG");
    assert_eq!(c.messages()[1].name, "COMMAND_ACK");
    assert!(c.stream().is_empty());
}

#[test]
fn live_rows_count_distinct_producers_and_types() {
    let mut c = Collector::new();
    let inputs = [
        ("HEARTBEAT", 1, 1, "a"),
        ("HEARTBEAT", 2, 1, "b"),
        ("ATTITUDE", 1, 1, "c"),
        ("HEARTBEAT", 1, 2, "d"),
        ("HEARTBEAT", 2, 1, "e"),
        ("SOMETHING_NEW", 1, 1, "f"),
        ("ATTITUDE", 1, 1, "g"),
    ];
    for (i, (name, sys, comp, fields)) in inputs.iter().enumerate() {
        c.push(record(name, *sys, *comp, fields, i as i64));
    }
    let rows: Vec<(String, u8, u8, String)> = c
        .stream()
        .iter()
        .map(|e| (e.name.clone(), e.sys_id, e.comp_id, e.fields.clone()))
        .collect();
    assert_eq!(
        rows,
        vec![
            ("HEARTBEAT".to_string(), 1, 1, "a".to_string()),
            ("HEARTBEAT".to_string(), 2, 1, "e".to_string()),
            ("ATTITUDE".to_string(), 1, 1, "g".to_string()),
            ("HEARTBEAT".to_string(), 1, 2, "d".to_string()),
        ]
    );
    assert_eq!(c.messages().len(), 1);
    assert_eq!(c.messages()[0].name, "SOMETHING_NEW");
}

#[test]
fn rows_carry_colors_of_producer_and_type() {
    let mut c = Collector::new();
    c.push(record("HEARTBEAT", 1, 1, "", 0));
    c.push(record("COMMAND_LONG", 2, 1, "", 0));
    assert_eq!(c.stream()[0].color, Hue::Yellow);
    assert_eq!(c.stream()[0].msg_color, Some(Hue::Magenta));
    assert_eq!(c.messages()[0].color, Hue::Blue);
    assert_eq!(c.messages()[0].msg_color, None);
}

#[test]
fn toggled_back_type_starts_fresh_rows() {
    let mut c = Collector::new();
    c.push(record("HEARTBEAT", 1, 1, "old", 0));
    c.push(record("ATTITUDE", 1, 1, "att", 0));
    c.toggle("HEARTBEAT");
    c.push(record("HEARTBEAT", 1, 1, "logged", 1));
    assert_eq!(c.messages().len(), 1);
    c.toggle("HEARTBEAT");
    assert!(c.messages().is_empty());
    c.push(record("HEARTBEAT", 1, 1, "new", 2));
    assert_eq!(c.stream().len(), 2);
    assert_eq!(c.stream()[0].name, "ATTITUDE");
    assert_eq!(c.stream()[1].name, "HEARTBEAT");
    assert_eq!(c.stream()[1].fields, "new");
}

#[test]
fn toggle_unknown_type_into_stream() {
    let mut c = Collector::new();
    assert!(!c.is_stream_type(&"CUSTOM".to_string()));
    c.toggle("CUSTOM");
    assert!(c.is_stream_type(&"CUSTOM".to_string()));
    c.push(record("CUSTOM", 3, 3, "x: 1", 0));
    c.push(record("CUSTOM", 3, 3, "x: 2", 1));
    assert_eq!(c.stream().len(), 1);
    assert_eq!(c.stream()[0].fields, "x: 2");
}

#[test]
fn clear_keeps_classification() {
    let mut c = Collector::new();
    c.toggle_category("HEARTBEAT", true);
    c.push(record("HEARTBEAT", 1, 1, "", 0));
    c.push(record("ATTITUDE", 1, 1, "", 0));
    c.clear();
    assert!(c.stream().is_empty());
    assert!(c.messages().is_empty());
    c.push(record("HEARTBEAT", 1, 1, "", 0));
    assert_eq!(c.messages().len(), 1);
    assert!(c.stream().is_empty());
}

#[test]
fn toggle_keeps_index_of_remaining_rows() {
    let mut c = Collector::new();
    c.push(record("HEARTBEAT", 1, 1, "h", 0));
    c.push(record("ATTITUDE", 1, 1, "a1", 0));
    c.push(record("VFR_HUD", 1, 1, "v1", 0));
    c.toggle_category("HEARTBEAT", true);
    c.push(record("VFR_HUD", 1, 1, "v2", 1));
    c.push(record("ATTITUDE", 1, 1, "a2", 1));
    assert_eq!(c.stream().len(), 2);
    assert_eq!(c.stream()[0].fields, "a2");
    assert_eq!(c.stream()[1].fields, "v2");
}

#[test]
fn toggle_category_flips_whatever_the_flag_says() {
    let mut c = Collector::new();
    c.push(record("COMMAND_LONG", 1, 1, "a", 0));
    c.push(record("HEARTBEAT", 1, 1, "h", 0));
    // COMMAND_LONG is a log type: it moves to the live table even though the
    // caller claims it is live.
    c.toggle_category("COMMAND_LONG", true);
    assert!(c.is_stream_type(&"COMMAND_LONG".to_string()));
    assert!(c.messages().is_empty());
    // HEARTBEAT is live: it moves to the log even though the caller claims
    // it is not.
    c.toggle_category("HEARTBEAT", false);
    assert!(!c.is_stream_type(&"HEARTBEAT".to_string()));
    assert!(c.stream().is_empty());
    c.push(record("HEARTBEAT", 1, 1, "h2", 1));
    c.push(record("COMMAND_LONG", 1, 1, "b", 1));
    assert_eq!(c.messages().len(), 1);
    assert_eq!(c.messages()[0].name, "HEARTBEAT");
    assert_eq!(c.stream().len(), 1);
    assert_eq!(c.stream()[0].name, "COMMAND_LONG");
}
