use climate_controller::status::{Info, ServerData};

#[test]
fn empty_record() {
    let data = ServerData::new();
    assert_eq!(data.stage_for(&String::from("vents")), None);
    assert_eq!(data.last_temperature(), 0);
    assert!(data.set_states().is_empty());
}

#[test]
fn entered_stage_is_read_back() {
    let mut data = ServerData::new();
    data.apply(Info::StateEnter(String::from("vents"), String::from("Open")));
    data.apply(Info::StateEnter(String::from("heat"), String::from("Off")));
    assert_eq!(data.stage_for(&String::from("vents")), Some(String::from("Open")));
    assert_eq!(data.stage_for(&String::from("heat")), Some(String::from("Off")));
    data.apply(Info::StateEnter(String::from("vents"), String::from("Closed")));
    assert_eq!(data.stage_for(&String::from("vents")), Some(String::from("Closed")));
    assert_eq!(data.stage_for(&String::from("heat")), Some(String::from("Off")));
    assert_eq!(data.set_states().len(), 2);
}

#[test]
fn temperature_is_replaced() {
    let mut data = ServerData::new();
    data.apply(Info::StateEnter(String::from("vents"), String::from("Open")));
    data.apply(Info::TemperatureGot(72.5f32.to_bits()));
    assert_eq!(f32::from_bits(data.last_temperature()), 72.5);
    assert_eq!(data.stage_for(&String::from("vents")), Some(String::from("Open")));
}
