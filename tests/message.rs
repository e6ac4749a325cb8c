use mavlink::dialects::common::MavMessage;
use mavlink::Message;
use mavsnark::fields::fields_from_debug;
use mavsnark::record::{is_command, origin_color, type_color, Hue, MavMsg};

fn make(msg: MavMessage, sys_id: u8, comp_id: u8) -> MavMsg {
    let debug = format!("{:?}", msg);
    MavMsg::new(
        sys_id,
        comp_id,
        msg.message_name().to_string(),
        fields_from_debug(&debug).to_string(),
        chrono::Utc::now().timestamp_millis(),
    )
}

#[test]
fn heartbeat_is_not_message() {
    let m = make(
        MavMessage::HEARTBEAT(mavlink::dialects::common::HEARTBEAT_DATA::default()),
        1,
        1,
    );
    assert!(!m.is_message());
}

#[test]
fn command_long_is_message() {
    let m = make(
        MavMessage::COMMAND_LONG(mavlink::dialects::common::COMMAND_LONG_DATA::default()),
        1,
        1,
    );
    assert!(m.is_message());
}

#[test]
fn mission_item_int_is_message() {
    let m = make(
        MavMessage::MISSION_ITEM_INT(mavlink::dialects::common::MISSION_ITEM_INT_DATA::default()),
        1,
        1,
    );
    assert!(m.is_message());
}

#[test]
fn color_deterministic() {
    let m1 = make(
        MavMessage::HEARTBEAT(mavlink::dialects::common::HEARTBEAT_DATA::default()),
        1,
        1,
    );
    let m2 = make(
        MavMessage::HEARTBEAT(mavlink::dialects::common::HEARTBEAT_DATA::default()),
        1,
        1,
    );
    assert_eq!(m1.color(), m2.color());
}

#[test]
fn color_varies_by_id() {
    let m1 = make(
        MavMessage::HEARTBEAT(mavlink::dialects::common::HEARTBEAT_DATA::default()),
        1,
        1,
    );
    let m2 = make(
        MavMessage::HEARTBEAT(mavlink::dialects::common::HEARTBEAT_DATA::default()),
        2,
        1,
    );
    // (1*31+1)%6=2, (2*31+1)%6=3
    assert_ne!(m1.color(), m2.color());
}

#[test]
fn msg_color_heartbeat() {
    let m = make(
        MavMessage::HEARTBEAT(mavlink::dialects::common::HEARTBEAT_DATA::default()),
        1,
        1,
    );
    assert_eq!(m.msg_color(), Some(Hue::Magenta));
}

#[test]
fn msg_color_attitude() {
    let m = make(
        MavMessage::ATTITUDE(mavlink::dialects::common::ATTITUDE_DATA::default()),
        1,
        1,
    );
    assert_eq!(m.msg_color(), Some(Hue::Blue));
}

#[test]
fn msg_color_none() {
    let m = make(
        MavMessage::SYS_STATUS(mavlink::dialects::common::SYS_STATUS_DATA::default()),
        1,
        1,
    );
    assert_eq!(m.msg_color(), None);
}

#[test]
fn fields_parses_debug() {
    let m = make(
        MavMessage::HEARTBEAT(mavlink::dialects::common::HEARTBEAT_DATA::default()),
        1,
        1,
    );
    let fields = m.fields();
    assert!(fields.contains("mavtype"));
}

#[test]
fn msg_type_returns_name() {
    let m = make(
        MavMessage::HEARTBEAT(mavlink::dialects::common::HEARTBEAT_DATA::default()),
        1,
        1,
    );
    assert_eq!(m.msg_type(), "HEARTBEAT");
}

#[test]
fn origin_palette_cycles_in_order() {
    let expected = [Hue::Red, Hue::Green, Hue::Yellow, Hue::Blue, Hue::Magenta, Hue::Cyan];
    for comp in 0..12u8 {
        assert_eq!(origin_color(0, comp), expected[(comp % 6) as usize]);
    }
    assert_eq!(origin_color(255, 255), expected[(255 * 31 + 255) % 6]);
}

#[test]
fn type_colors_of_the_colored_types() {
    assert_eq!(type_color(&"MANUAL_CONTROL".to_string()), Some(Hue::Green));
    assert_eq!(type_color(&"GLOBAL_POSITION_INT".to_string()), Some(Hue::Blue));
    assert_eq!(type_color(&"HEARTBEAT_".to_string()), None);
}

#[test]
fn operator_input_types_are_commands() {
    assert!(is_command(&"MANUAL_CONTROL".to_string()));
    assert!(is_command(&"GIMBAL_MANAGER_SET_PITCHYAW".to_string()));
    assert!(is_command(&"COMMAND_LONG".to_string()));
    assert!(!is_command(&"HEARTBEAT".to_string()));
    assert!(!is_command(&"ATTITUDE".to_string()));
}
