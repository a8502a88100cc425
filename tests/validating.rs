use ingest_gateway::validation::{
    Validator, NAME_EMPTY, NAME_TOO_LONG, SENSOR_ID_BAD_CHARS, SENSOR_ID_EMPTY, SENSOR_ID_TOO_LONG,
    UNIT_BAD_CHARS, UNIT_EMPTY, UNIT_TOO_LONG,
};

#[test]
fn sensor_id_accepts_letters_digits_dash_underscore() {
    assert_eq!(Validator::sensor_id("temp-sensor_01"), Ok(()));
    assert_eq!(Validator::sensor_id("Ünïcødé9"), Ok(()));
}

#[test]
fn sensor_id_rejections() {
    assert_eq!(Validator::sensor_id(""), Err(SENSOR_ID_EMPTY.to_string()));
    assert_eq!(Validator::sensor_id(&"a".repeat(101)), Err(SENSOR_ID_TOO_LONG.to_string()));
    assert_eq!(Validator::sensor_id(&"a".repeat(100)), Ok(()));
    assert_eq!(Validator::sensor_id("bad id"), Err(SENSOR_ID_BAD_CHARS.to_string()));
    assert_eq!(Validator::sensor_id("x.y"), Err(SENSOR_ID_BAD_CHARS.to_string()));
    assert_eq!(SENSOR_ID_TOO_LONG, "Sensor ID exceeds maximum length of 100");
}

#[test]
fn sensor_id_length_counts_bytes() {
    // 51 two-byte characters: 102 bytes
    assert_eq!(Validator::sensor_id(&"é".repeat(51)), Err(SENSOR_ID_TOO_LONG.to_string()));
    assert_eq!(Validator::sensor_id(&"é".repeat(50)), Ok(()));
}

#[test]
fn unit_checks() {
    assert_eq!(Validator::unit("°C"), Ok(()));
    assert_eq!(Validator::unit("km/h"), Ok(()));
    assert_eq!(Validator::unit("50 %"), Ok(()));
    assert_eq!(Validator::unit(""), Err(UNIT_EMPTY.to_string()));
    assert_eq!(Validator::unit(&"m".repeat(51)), Err(UNIT_TOO_LONG.to_string()));
    assert_eq!(Validator::unit("m^2"), Err(UNIT_BAD_CHARS.to_string()));
    assert_eq!(Validator::unit("a-b"), Err(UNIT_BAD_CHARS.to_string()));
}

#[test]
fn api_key_name_checks() {
    assert_eq!(Validator::api_key_name("ingest bot"), Ok(()));
    assert_eq!(Validator::api_key_name(""), Err(NAME_EMPTY.to_string()));
    assert_eq!(Validator::api_key_name(&"n".repeat(255)), Ok(()));
    assert_eq!(Validator::api_key_name(&"n".repeat(256)), Err(NAME_TOO_LONG.to_string()));
}
