use vstd::prelude::*;

use crate::fields::{first_of, lemma_first_of_at};

verus! {

/// Display colours the core assigns; the renderer maps them to its own.
#[derive(Clone, Copy, Debug, PartialEq, Eq, Structural)]
pub enum Hue {
    Red,
    Green,
    Yellow,
    Blue,
    Magenta,
    Cyan,
}

/// The origin palette, in order.
pub open spec fn palette(i: int) -> Hue {
    if i == 0 {
        Hue::Red
    } else if i == 1 {
        Hue::Green
    } else if i == 2 {
        Hue::Yellow
    } else if i == 3 {
        Hue::Blue
    } else if i == 4 {
        Hue::Magenta
    } else {
        Hue::Cyan
    }
}

/// Colour of a producer: the palette entry at `(system * 31 + component) mod 6`.
pub open spec fn origin_hue(system_id: u8, component_id: u8) -> Hue {
    palette((system_id * 31 + component_id) % 6)
}

/// Colour of a message type, for the few types that have one.
pub open spec fn type_hue(name: Seq<char>) -> Option<Hue> {
    if name == "HEARTBEAT"@ {
        Some(Hue::Magenta)
    } else if name == "MANUAL_CONTROL"@ {
        Some(Hue::Green)
    } else if name == "ATTITUDE"@ || name == "GLOBAL_POSITION_INT"@ {
        Some(Hue::Blue)
    } else {
        None
    }
}

/// Types that go to the live table unless toggled.
pub open spec fn default_stream_names() -> Seq<Seq<char>> {
    seq![
        "HEARTBEAT"@, "SYS_STATUS"@, "SYSTEM_TIME"@, "GPS_RAW_INT"@, "GPS_STATUS"@,
        "GPS2_RAW"@, "RAW_IMU"@, "SCALED_IMU"@, "SCALED_IMU2"@, "SCALED_IMU3"@,
        "HIGHRES_IMU"@, "RAW_PRESSURE"@, "SCALED_PRESSURE"@, "SCALED_PRESSURE2"@,
        "SCALED_PRESSURE3"@, "ATTITUDE"@, "ATTITUDE_QUATERNION"@, "LOCAL_POSITION_NED"@,
        "GLOBAL_POSITION_INT"@, "POSITION_TARGET_LOCAL_NED"@, "POSITION_TARGET_GLOBAL_INT"@,
        "RC_CHANNELS"@, "RC_CHANNELS_RAW"@, "SERVO_OUTPUT_RAW"@, "MANUAL_CONTROL"@,
        "VFR_HUD"@, "NAV_CONTROLLER_OUTPUT"@, "BATTERY_STATUS"@, "POWER_STATUS"@,
        "ALTITUDE"@, "ESTIMATOR_STATUS"@, "VIBRATION"@, "HOME_POSITION"@,
        "EXTENDED_SYS_STATE"@, "WIND_COV"@, "TERRAIN_REPORT"@, "DISTANCE_SENSOR"@,
        "OPTICAL_FLOW"@, "ODOMETRY"@, "UTM_GLOBAL_POSITION"@, "MISSION_CURRENT"@,
        "AUTOPILOT_VERSION"@, "TIMESYNC"@, "PING"@, "LINK_NODE_STATUS"@,
        "ACTUATOR_OUTPUT_STATUS"@, "FLIGHT_INFORMATION"@
    ]
}

/// Types of the command, mission, setter and safety protocols: one-shot
/// messages rather than periodic state.
pub open spec fn command_names() -> Seq<Seq<char>> {
    seq![
        "COMMAND_INT"@, "COMMAND_LONG"@, "COMMAND_ACK"@, "COMMAND_CANCEL"@,
        "MISSION_ITEM"@, "MISSION_ITEM_INT"@, "MISSION_REQUEST"@, "MISSION_REQUEST_INT"@,
        "MISSION_REQUEST_LIST"@, "MISSION_REQUEST_PARTIAL_LIST"@, "MISSION_SET_CURRENT"@,
        "MISSION_WRITE_PARTIAL_LIST"@, "MISSION_COUNT"@, "MISSION_CLEAR_ALL"@,
        "MISSION_ACK"@, "SET_MODE"@, "SET_GPS_GLOBAL_ORIGIN"@, "SET_HOME_POSITION"@,
        "PARAM_SET"@, "PARAM_EXT_SET"@, "SAFETY_SET_ALLOWED_AREA"@
    ]
}

/// Types that carry operator input: commands, mission transfer, setpoints,
/// manual control, parameter, safety and gimbal settings.
pub open spec fn operator_input_names() -> Seq<Seq<char>> {
    seq![
        "COMMAND_INT"@, "COMMAND_LONG"@, "COMMAND_ACK"@, "COMMAND_CANCEL"@,
        "MISSION_ITEM"@, "MISSION_ITEM_INT"@, "MISSION_REQUEST"@, "MISSION_REQUEST_INT"@,
        "MISSION_REQUEST_LIST"@, "MISSION_REQUEST_PARTIAL_LIST"@, "MISSION_SET_CURRENT"@,
        "MISSION_WRITE_PARTIAL_LIST"@, "MISSION_COUNT"@, "MISSION_CLEAR_ALL"@,
        "MISSION_ACK"@, "SET_MODE"@, "SET_ATTITUDE_TARGET"@, "SET_POSITION_TARGET_LOCAL_NED"@,
        "SET_POSITION_TARGET_GLOBAL_INT"@, "SET_ACTUATOR_CONTROL_TARGET"@,
        "SET_GPS_GLOBAL_ORIGIN"@, "SET_HOME_POSITION"@, "MANUAL_CONTROL"@,
        "MANUAL_SETPOINT"@, "RC_CHANNELS_OVERRIDE"@, "PARAM_SET"@, "PARAM_EXT_SET"@,
        "SAFETY_SET_ALLOWED_AREA"@, "GIMBAL_DEVICE_SET_ATTITUDE"@,
        "GIMBAL_MANAGER_SET_ATTITUDE"@, "GIMBAL_MANAGER_SET_MANUAL_CONTROL"@,
        "GIMBAL_MANAGER_SET_PITCHYAW"@
    ]
}

pub open spec fn text_views(v: Seq<&'static str>) -> Seq<Seq<char>> {
    v.map_values(|s: &'static str| s@)
}

pub fn default_stream_types() -> (r: Vec<&'static str>)
    ensures
        text_views(r@) == default_stream_names(),
{
    let r = vec![
        "HEARTBEAT", "SYS_STATUS", "SYSTEM_TIME", "GPS_RAW_INT", "GPS_STATUS",
        "GPS2_RAW", "RAW_IMU", "SCALED_IMU", "SCALED_IMU2", "SCALED_IMU3",
        "HIGHRES_IMU", "RAW_PRESSURE", "SCALED_PRESSURE", "SCALED_PRESSURE2",
        "SCALED_PRESSURE3", "ATTITUDE", "ATTITUDE_QUATERNION", "LOCAL_POSITION_NED",
        "GLOBAL_POSITION_INT", "POSITION_TARGET_LOCAL_NED", "POSITION_TARGET_GLOBAL_INT",
        "RC_CHANNELS", "RC_CHANNELS_RAW", "SERVO_OUTPUT_RAW", "MANUAL_CONTROL",
        "VFR_HUD", "NAV_CONTROLLER_OUTPUT", "BATTERY_STATUS", "POWER_STATUS",
        "ALTITUDE", "ESTIMATOR_STATUS", "VIBRATION", "HOME_POSITION",
        "EXTENDED_SYS_STATE", "WIND_COV", "TERRAIN_REPORT", "DISTANCE_SENSOR",
        "OPTICAL_FLOW", "ODOMETRY", "UTM_GLOBAL_POSITION", "MISSION_CURRENT",
        "AUTOPILOT_VERSION", "TIMESYNC", "PING", "LINK_NODE_STATUS",
        "ACTUATOR_OUTPUT_STATUS", "FLIGHT_INFORMATION",
    ];
    assert(text_views(r@) =~= default_stream_names());
    r
}

pub fn command_types() -> (r: Vec<&'static str>)
    ensures
        text_views(r@) == command_names(),
{
    let r = vec![
        "COMMAND_INT", "COMMAND_LONG", "COMMAND_ACK", "COMMAND_CANCEL",
        "MISSION_ITEM", "MISSION_ITEM_INT", "MISSION_REQUEST", "MISSION_REQUEST_INT",
        "MISSION_REQUEST_LIST", "MISSION_REQUEST_PARTIAL_LIST", "MISSION_SET_CURRENT",
        "MISSION_WRITE_PARTIAL_LIST", "MISSION_COUNT", "MISSION_CLEAR_ALL",
        "MISSION_ACK", "SET_MODE", "SET_GPS_GLOBAL_ORIGIN", "SET_HOME_POSITION",
        "PARAM_SET", "PARAM_EXT_SET", "SAFETY_SET_ALLOWED_AREA",
    ];
    assert(text_views(r@) =~= command_names());
    r
}

pub fn operator_input_types() -> (r: Vec<&'static str>)
    ensures
        text_views(r@) == operator_input_names(),
{
    let r = vec![
        "COMMAND_INT", "COMMAND_LONG", "COMMAND_ACK", "COMMAND_CANCEL",
        "MISSION_ITEM", "MISSION_ITEM_INT", "MISSION_REQUEST", "MISSION_REQUEST_INT",
        "MISSION_REQUEST_LIST", "MISSION_REQUEST_PARTIAL_LIST", "MISSION_SET_CURRENT",
        "MISSION_WRITE_PARTIAL_LIST", "MISSION_COUNT", "MISSION_CLEAR_ALL",
        "MISSION_ACK", "SET_MODE", "SET_ATTITUDE_TARGET", "SET_POSITION_TARGET_LOCAL_NED",
        "SET_POSITION_TARGET_GLOBAL_INT", "SET_ACTUATOR_CONTROL_TARGET",
        "SET_GPS_GLOBAL_ORIGIN", "SET_HOME_POSITION", "MANUAL_CONTROL",
        "MANUAL_SETPOINT", "RC_CHANNELS_OVERRIDE", "PARAM_SET", "PARAM_EXT_SET",
        "SAFETY_SET_ALLOWED_AREA", "GIMBAL_DEVICE_SET_ATTITUDE",
        "GIMBAL_MANAGER_SET_ATTITUDE", "GIMBAL_MANAGER_SET_MANUAL_CONTROL",
        "GIMBAL_MANAGER_SET_PITCHYAW",
    ];
    assert(text_views(r@) =~= operator_input_names());
    r
}

/// Whether messages of type `name` carry operator input.
pub fn is_command(name: &String) -> (r: bool)
    ensures
        r == operator_input_names().contains(name@),
{
    let list = operator_input_types();
    listed(&list, name)
}

/// Whether `name` is one of `list`.
fn listed(list: &Vec<&'static str>, name: &String) -> (r: bool)
    ensures
        r == text_views(list@).contains(name@),
{
    let mut i: usize = 0;
    while i < list.len()
        invariant
            i <= list@.len(),
            forall|j: int| 0 <= j < i ==> list@[j]@ != name@,
        decreases list@.len() - i,
    {
        if String::from_str(list[i]) == *name {
            assert(text_views(list@)[i as int] == name@);
            return true;
        }
        i = i + 1;
    }
    assert(!text_views(list@).contains(name@)) by {
        if text_views(list@).contains(name@) {
            let j = choose|j: int| 0 <= j < list@.len() && text_views(list@)[j] == name@;
            assert(list@[j]@ == name@);
        }
    }
    false
}

fn same_text(a: &String, b: &'static str) -> (r: bool)
    ensures
        r == (a@ == b@),
{
    *a == String::from_str(b)
}

/// Colour of the producer `(system_id, component_id)`.
pub fn origin_color(system_id: u8, component_id: u8) -> (r: Hue)
    ensures
        r == origin_hue(system_id, component_id),
{
    let i = (system_id as u32 * 31 + component_id as u32) % 6;
    if i == 0 {
        Hue::Red
    } else if i == 1 {
        Hue::Green
    } else if i == 2 {
        Hue::Yellow
    } else if i == 3 {
        Hue::Blue
    } else if i == 4 {
        Hue::Magenta
    } else {
        Hue::Cyan
    }
}

/// Colour of the message type `name`, if it has one.
pub fn type_color(name: &String) -> (r: Option<Hue>)
    ensures
        r == type_hue(name@),
{
    if same_text(name, "HEARTBEAT") {
        Some(Hue::Magenta)
    } else if same_text(name, "MANUAL_CONTROL") {
        Some(Hue::Green)
    } else if same_text(name, "ATTITUDE") || same_text(name, "GLOBAL_POSITION_INT") {
        Some(Hue::Blue)
    } else {
        None
    }
}

/// The plain values of a record, as the contracts speak of them.
pub struct RecordView {
    pub system_id: u8,
    pub component_id: u8,
    pub name: Seq<char>,
    pub fields: Seq<char>,
    pub timestamp: i64,
}

/// A decoded message: who sent it, its type, its payload rendered as
/// `"key: value, key: value"`, and when it was captured (milliseconds since
/// the Unix epoch).
pub struct MavMsg {
    pub system_id: u8,
    pub component_id: u8,
    pub name: String,
    pub fields: String,
    pub timestamp: i64,
}

impl View for MavMsg {
    type V = RecordView;

    open spec fn view(&self) -> RecordView {
        RecordView {
            system_id: self.system_id,
            component_id: self.component_id,
            name: self.name@,
            fields: self.fields@,
            timestamp: self.timestamp,
        }
    }
}

impl MavMsg {
    pub fn new(system_id: u8, component_id: u8, name: String, fields: String, timestamp: i64) -> (r: Self)
        ensures
            r@ == (RecordView { system_id, component_id, name: name@, fields: fields@, timestamp }),
    {
        MavMsg { system_id, component_id, name, fields, timestamp }
    }

    /// Colour of the message's producer.
    pub fn color(&self) -> (r: Hue)
        ensures
            r == origin_hue(self.system_id, self.component_id),
    {
        origin_color(self.system_id, self.component_id)
    }

    /// Colour of the message's type, if it has one.
    pub fn msg_color(&self) -> (r: Option<Hue>)
        ensures
            r == type_hue(self.name@),
    {
        type_color(&self.name)
    }

    pub fn msg_type(&self) -> (r: &str)
        ensures
            r@ == self.name@,
    {
        self.name.as_str()
    }

    pub fn fields(&self) -> (r: &str)
        ensures
            r@ == self.fields@,
    {
        self.fields.as_str()
    }

    /// Whether the message belongs to the command, mission, setter or safety
    /// protocols.
    pub fn is_message(&self) -> (r: bool)
        ensures
            r == command_names().contains(self.name@),
    {
        let list = command_types();
        listed(&list, &self.name)
    }
}

} // verus!
