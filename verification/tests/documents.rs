use mtcap::answers::{
    check_status, login_token, read_document, zero_runs_are_short, MtcapError,
};
use mtcap::devices::{Class, Device, DeviceProfile, Eui, Key};
use mtcap::hex::ParseError;
use mtcap::network::{mode_request, Mode};
use mtcap::queue::{queue_path, queued_packets, read_port, Packet};
use mtcap::sessions::{active_sessions, eviction_request, old_devices};
use mtcap::timestamp::Date;
use mtcap::devices::AllowlistEntry;
use mtcap::wire::{
    add_request, count_devices, enable_request, entries_from_json, entry_from_json, entry_to_json,
    overwrite_entry, remove_request, same_texts, selected_devices, updated_devices,
};

fn eui(last: u8) -> Eui {
    Eui::new([0x00, 0x80, 0x00, 0x00, 0xa0, 0x00, 0x0f, last])
}

fn device(last: u8, fill: u8) -> Device {
    Device::new(
        eui(last),
        Eui::new([0x70, 0xb3, 0xd5, 0x7e, 0xd0, 0x00, 0x00, 0x01]),
        Key::new([fill; 16]),
        Class::C,
        DeviceProfile::Eu868,
        Class::A,
    )
}

fn reported(body: &str) -> String {
    format!("{{\"status\":\"success\",\"result\":{}}}", body)
}

const THREE: &str = "{\"result\":{\"devices\":[\
    {\"deveui\":\"00-80-00-00-a0-00-0f-0a\",\"appeui\":\"x\",\"appkey\":\"ka\",\"class\":\"A\",\
     \"device_profile_id\":\"LW102-OTA-US915\",\"network_profile_id\":\"DEFAULT-CLASS-A\"},\
    {\"deveui\":\"00-80-00-00-a0-00-0f-0b\",\"appeui\":\"y\",\"appkey\":\"kb\",\"class\":\"B\",\
     \"device_profile_id\":\"LW102-OTA-US915\",\"network_profile_id\":\"DEFAULT-CLASS-A\"},\
    {\"deveui\":\"00-80-00-00-a0-00-0f-0c\",\"appeui\":\"z\",\"appkey\":\"k\\\"c\",\"class\":\"C\",\
     \"device_profile_id\":\"LW102-OTA-US915\",\"network_profile_id\":\"DEFAULT-CLASS-A\"}],\
    \"enabled\":false,\"note\":\"kept\"}}";

#[test]
fn the_count_is_the_number_of_reported_devices() {
    assert!(matches!(count_devices(THREE), Ok(3)));
    assert!(matches!(
        count_devices("{\"result\":{\"devices\":[]}}"),
        Ok(0)
    ));
    assert!(matches!(
        count_devices("{\"result\":{\"devices\":[null,1]}}"),
        Ok(2)
    ));
    assert!(matches!(count_devices("{"), Err(MtcapError::Json(_))));
    assert!(matches!(count_devices(""), Err(MtcapError::Json(_))));
}

#[test]
fn enabling_for_nothing_gives_an_empty_enabled_allowlist() {
    let body = json::parse(&enable_request(&[])).unwrap();
    assert!(body["devices"].is_array());
    assert_eq!(body["devices"].len(), 0);
    assert_eq!(body["enabled"], json::JsonValue::Boolean(true));
    assert_eq!(body.len(), 2);
}

#[test]
fn enabling_replaces_the_allowlist_by_the_devices() {
    let body = json::parse(&enable_request(&[device(2, 0x11), device(1, 0x22)])).unwrap();
    assert_eq!(body["enabled"], json::JsonValue::Boolean(true));
    assert_eq!(body["devices"].len(), 2);
    let first = &body["devices"][0];
    assert_eq!(first["deveui"], "00-80-00-00-a0-00-0f-02");
    assert_eq!(first["appeui"], "70-b3-d5-7e-d0-00-00-01");
    assert_eq!(first["appkey"], "11111111111111111111111111111111");
    assert_eq!(first["class"], "C");
    assert_eq!(first["device_profile_id"], "LW102-OTA-EU868");
    assert_eq!(first["network_profile_id"], "DEFAULT-CLASS-A");
    assert_eq!(first.len(), 6);
    assert_eq!(body["devices"][1]["deveui"], "00-80-00-00-a0-00-0f-01");
    assert_eq!(
        body["devices"][1]["appkey"],
        "22222222222222222222222222222222"
    );
}

#[test]
fn adding_twice_leaves_one_entry_of_the_identity() {
    let wanted = [device(0x0b, 0x33)];
    let once = add_request(THREE, &wanted).unwrap();
    let twice = add_request(&reported(&once), &wanted).unwrap();
    assert_eq!(once, twice);
    let body = json::parse(&twice).unwrap();
    assert_eq!(body["devices"].len(), 3);
    assert_eq!(body["devices"][0]["appkey"], "ka");
    assert_eq!(body["devices"][1]["deveui"], "00-80-00-00-a0-00-0f-0b");
    assert_eq!(
        body["devices"][1]["appkey"],
        "33333333333333333333333333333333"
    );
    assert_eq!(body["devices"][1]["appeui"], "70-b3-d5-7e-d0-00-00-01");
    assert_eq!(body["devices"][1]["class"], "C");
    assert_eq!(body["devices"][1]["device_profile_id"], "LW102-OTA-EU868");
    assert_eq!(body["devices"][2]["appkey"], "k\"c");
    assert_eq!(body["enabled"], json::JsonValue::Boolean(false));
    assert_eq!(body["note"], "kept");
}

#[test]
fn adding_an_unknown_device_appends_it() {
    let wanted = [device(0x0d, 0x44)];
    let body = json::parse(&add_request(THREE, &wanted).unwrap()).unwrap();
    assert_eq!(body["devices"].len(), 4);
    assert_eq!(body["devices"][3]["deveui"], "00-80-00-00-a0-00-0f-0d");
    let again = add_request(&reported(&body.dump()), &wanted).unwrap();
    assert_eq!(json::parse(&again).unwrap()["devices"].len(), 4);

    let empty = add_request("{\"result\":{\"devices\":[]}}", &wanted).unwrap();
    let body = json::parse(&empty).unwrap();
    assert_eq!(body["devices"].len(), 1);
    assert_eq!(body["devices"][0]["deveui"], "00-80-00-00-a0-00-0f-0d");
}

#[test]
fn removing_two_of_three_leaves_the_third_on_the_gateway() {
    let body = remove_request(THREE, &[eui(0x0a), eui(0x0b)]).unwrap();
    let body = json::parse(&body).unwrap();
    assert_eq!(body["devices"].len(), 1);
    assert_eq!(body["devices"][0]["deveui"], "00-80-00-00-a0-00-0f-0c");
    assert_eq!(body["devices"][0]["appeui"], "z");
    assert_eq!(body["devices"][0]["appkey"], "k\"c");
    assert_eq!(body["devices"][0]["class"], "C");
    assert_eq!(body["enabled"], json::JsonValue::Boolean(false));
    assert_eq!(body["note"], "kept");

    let all = remove_request(THREE, &[eui(0x0a), eui(0x0b), eui(0x0c)]).unwrap();
    let all = json::parse(&all).unwrap();
    assert!(all["devices"].is_array());
    assert_eq!(all["devices"].len(), 0);

    let none = remove_request(THREE, &[eui(0x01)]).unwrap();
    assert_eq!(json::parse(&none).unwrap()["devices"].len(), 3);
}

#[test]
fn documents_that_cannot_be_read_are_refused() {
    assert!(matches!(
        add_request("not json", &[device(1, 1)]),
        Err(MtcapError::Json(_))
    ));
    assert!(matches!(
        remove_request("[1,", &[eui(1)]),
        Err(MtcapError::Json(_))
    ));
    assert!(matches!(
        eviction_request("", &[eui(1)]),
        Err(MtcapError::Json(_))
    ));
    assert!(matches!(active_sessions("{"), Err(MtcapError::Json(_))));
    assert!(matches!(
        old_devices("}", &Date::new(2024, 1, 1)),
        Err(MtcapError::Json(_))
    ));
    assert!(matches!(check_status("<html>"), Err(MtcapError::Json(_))));
    assert!(matches!(
        mode_request("", Mode::Disabled),
        Err(MtcapError::Json(_))
    ));
    assert!(matches!(queued_packets("]"), Err(MtcapError::Json(_))));
}

#[test]
fn an_unreadable_identity_on_the_gateway_is_reported() {
    let response = "{\"result\":{\"devices\":[{\"deveui\":\"00-80\"},{\"deveui\":\"\"}]}}";
    assert!(matches!(
        add_request(response, &[device(1, 1)]),
        Err(MtcapError::Parse(ParseError::LengthMismatch))
    ));
    assert!(matches!(
        remove_request(response, &[]),
        Err(MtcapError::Parse(ParseError::LengthMismatch))
    ));
    let body = add_request(response, &[]).unwrap();
    let body = json::parse(&body).unwrap();
    assert_eq!(body["devices"].len(), 2);
    assert_eq!(body["devices"][0]["deveui"], "00-80");
    assert_eq!(body["devices"][1]["deveui"], "");
}

#[test]
fn a_device_without_a_name_is_of_the_wrong_shape() {
    let wrong = [
        "{\"result\":{\"devices\":[{\"appkey\":\"k\"}]}}",
        "{\"result\":{\"devices\":[{\"deveui\":\"00-80-00-00-a0-00-0f-01\"},{\"deveui\":7}]}}",
        "{\"result\":{\"devices\":[{\"deveui\":null}]}}",
        "{\"result\":{\"devices\":[\"00-80-00-00-a0-00-0f-01\"]}}",
        "{\"result\":{\"devices\":[[]]}}",
    ];
    for response in wrong {
        assert!(matches!(
            add_request(response, &[device(1, 1)]),
            Err(MtcapError::Protocol)
        ));
        assert!(matches!(
            add_request(response, &[]),
            Err(MtcapError::Protocol)
        ));
        assert!(matches!(
            remove_request(response, &[]),
            Err(MtcapError::Protocol)
        ));
        assert!(matches!(
            count_devices(response),
            Err(MtcapError::Protocol)
        ));
    }
    let lists = [
        "{\"result\":[{\"last_seen\":\"2024-05-09T23:59:59Z\"}]}",
        "{\"result\":[{\"deveui\":\"00-80-00-00-a0-00-0f-01\"},{\"deveui\":true}]}",
        "{\"result\":[7]}",
    ];
    for response in lists {
        assert!(matches!(
            active_sessions(response),
            Err(MtcapError::Protocol)
        ));
        assert!(matches!(
            eviction_request(response, &[]),
            Err(MtcapError::Protocol)
        ));
        assert!(matches!(
            old_devices(response, &Date::new(2024, 1, 1)),
            Err(MtcapError::Protocol)
        ));
        assert!(matches!(
            queued_packets(response),
            Err(MtcapError::Protocol)
        ));
    }
    let after_null = "{\"result\":[{\"deveui\":\"00-80-00-00-a0-00-0f-01\"},null,{}]}";
    assert_eq!(active_sessions(after_null).unwrap().len(), 1);
    assert!(eviction_request(after_null, &[]).is_ok());
    assert!(matches!(
        old_devices(after_null, &Date::new(2024, 1, 1)),
        Err(MtcapError::Protocol)
    ));
}

#[test]
fn the_allowlist_is_read_up_to_its_first_null() {
    let response = "{\"result\":{\"devices\":[\
        {\"deveui\":\"00-80-00-00-a0-00-0f-0a\"},null,{\"deveui\":\"bad\"}]}}";
    let body = remove_request(response, &[]).unwrap();
    let body = json::parse(&body).unwrap();
    assert_eq!(body["devices"].len(), 1);
    assert_eq!(body["devices"][0]["deveui"], "00-80-00-00-a0-00-0f-0a");
    assert!(body["devices"][0]["appkey"].is_null());
    assert_eq!(body["devices"][0].len(), 1);
}

const ACTIVE: &str = "{\"result\":[\
    {\"deveui\":\"00-80-00-00-a0-00-0f-01\",\"last_seen\":\"2024-05-09T23:59:59Z\",\
     \"created_at\":\"2020-01-01T00:00:00Z\"},\
    {\"deveui\":\"00-80-00-00-a0-00-0f-02\",\"last_seen\":\"2024-05-10T00:00:00Z\"},\
    {\"deveui\":\"00-80-00-00-a0-00-0f-03\",\"created_at\":\"2024-05-09T08:00:00Z\"},\
    {\"deveui\":\"00-80-00-00-a0-00-0f-04\",\"last_seen\":\"soon\",\"created_at\":17},\
    {\"deveui\":\"00-80-00-00-a0-00-0f-05\"}]}";

#[test]
fn active_sessions_are_read_as_texts() {
    let active = active_sessions(ACTIVE).unwrap();
    assert_eq!(active.len(), 5);
    assert_eq!(active[0].deveui, "00-80-00-00-a0-00-0f-01");
    assert_eq!(active[0].last_seen, "2024-05-09T23:59:59Z");
    assert_eq!(active[0].created_at, "2020-01-01T00:00:00Z");
    assert_eq!(active[1].created_at, "null");
    assert_eq!(active[2].last_seen, "null");
    assert_eq!(active[3].created_at, "17");
    assert_eq!(active_sessions("{\"result\":[]}").unwrap(), vec![]);
    let cut = active_sessions("{\"result\":[{\"deveui\":\"a\"},null,{\"deveui\":\"b\"}]}");
    assert_eq!(cut.unwrap().len(), 1);
}

#[test]
fn old_devices_are_those_last_seen_before_the_cutoff() {
    assert_eq!(
        old_devices(ACTIVE, &Date::new(2024, 5, 10)).unwrap(),
        vec![eui(1), eui(3)]
    );
    assert_eq!(
        old_devices(ACTIVE, &Date::new(2024, 5, 11)).unwrap(),
        vec![eui(1), eui(2), eui(3)]
    );
    assert_eq!(
        old_devices(ACTIVE, &Date::new(2024, 5, 9)).unwrap(),
        vec![]
    );
    let past_null = "{\"result\":[null,{\"deveui\":\"00-80-00-00-a0-00-0f-01\",\
        \"last_seen\":\"2024-05-09T23:59:59Z\"}]}";
    assert!(matches!(
        old_devices(past_null, &Date::new(2024, 5, 10)),
        Err(MtcapError::Protocol)
    ));
    let unreadable = "{\"result\":[{\"deveui\":\"0080\",\"last_seen\":\"2024-05-09T23:59:59Z\"}]}";
    assert!(matches!(
        old_devices(unreadable, &Date::new(2024, 5, 10)),
        Err(MtcapError::Parse(ParseError::LengthMismatch))
    ));
    assert_eq!(
        old_devices(unreadable, &Date::new(2024, 5, 9)).unwrap(),
        vec![]
    );
}

#[test]
fn sessions_are_evicted_by_identity() {
    let plan = eviction_request(ACTIVE, &[eui(5), eui(2)]).unwrap();
    assert_eq!(plan.sessions, vec![eui(2), eui(5)]);
    assert_eq!(plan.failure, None);
    let broken = "{\"result\":[{\"deveui\":\"00-80-00-00-a0-00-0f-01\"},{\"deveui\":\"x\"},\
        {\"deveui\":\"00-80-00-00-a0-00-0f-02\"}]}";
    let plan = eviction_request(broken, &[eui(1), eui(2)]).unwrap();
    assert_eq!(plan.sessions, vec![eui(1)]);
    assert_eq!(plan.failure, Some(ParseError::LengthMismatch));
}

#[test]
fn a_successful_status_is_accepted() {
    assert!(check_status("{\"status\":\"success\"}").is_ok());
    assert!(check_status("{\"code\":200,\"status\":\"success\",\"result\":[]}").is_ok());
    assert!(check_status("{\"status\":\"success\",\"error\":\"ignored\"}").is_ok());
}

#[test]
fn a_failure_carries_the_gateway_message() {
    match check_status("{\"status\":\"fail\",\"error\":\"invalid token\"}") {
        Err(MtcapError::Other(message)) => assert_eq!(message, "invalid token"),
        other => panic!("{:?}", other),
    }
    match check_status("{\"error\":\"no status\"}") {
        Err(MtcapError::Other(message)) => assert_eq!(message, "no status"),
        other => panic!("{:?}", other),
    }
    match check_status("{\"status\":\"fail\",\"error\":\"\"}") {
        Err(MtcapError::Other(message)) => assert_eq!(message, ""),
        other => panic!("{:?}", other),
    }
}

#[test]
fn a_failure_without_a_message_says_so() {
    assert!(matches!(
        check_status("{\"status\":\"fail\",\"error\":null}"),
        Err(MtcapError::Failed)
    ));
    assert!(matches!(
        check_status("{\"status\":\"Success\"}"),
        Err(MtcapError::Failed)
    ));
    assert!(matches!(check_status("{}"), Err(MtcapError::Failed)));
    assert!(matches!(check_status("[]"), Err(MtcapError::Failed)));
}

#[test]
fn a_mode_sets_two_flags_and_keeps_the_rest() {
    let reported = "{\"enabled\":false,\"packetForwarderMode\":true,\"lora\":{\"netID\":\"1\"}}";
    let server = json::parse(&mode_request(reported, Mode::NetworkServer).unwrap()).unwrap();
    assert_eq!(server["enabled"], json::JsonValue::Boolean(true));
    assert_eq!(server["packetForwarderMode"], json::JsonValue::Boolean(false));
    assert_eq!(server["lora"]["netID"], "1");
    let forwarder = json::parse(&mode_request(reported, Mode::PacketForwarder).unwrap()).unwrap();
    assert_eq!(forwarder["enabled"], json::JsonValue::Boolean(true));
    assert_eq!(forwarder["packetForwarderMode"], json::JsonValue::Boolean(true));
    let off = json::parse(&mode_request("{}", Mode::Disabled).unwrap()).unwrap();
    assert_eq!(off["enabled"], json::JsonValue::Boolean(false));
    assert_eq!(off["packetForwarderMode"], json::JsonValue::Boolean(false));
    assert_eq!(off.len(), 2);
}

#[test]
fn mode_flags() {
    assert!(Mode::NetworkServer.is_enabled());
    assert!(!Mode::NetworkServer.is_packet_forwarder());
    assert!(Mode::PacketForwarder.is_enabled());
    assert!(Mode::PacketForwarder.is_packet_forwarder());
    assert!(!Mode::Disabled.is_enabled());
    assert!(!Mode::Disabled.is_packet_forwarder());
}

#[test]
fn queued_packets_are_read() {
    let response = "{\"result\":[\
        {\"deveui\":\"00-80-00-00-a0-00-0f-01\",\"port\":7,\"data\":\"AQID\"},\
        {\"deveui\":\"00800000a0000f02\",\"port\":\"255\",\"data\":\"\"}]}";
    let packets = queued_packets(response).unwrap();
    assert_eq!(packets.len(), 2);
    assert!(packets[0].device_eui().equals(&eui(1)));
    assert_eq!(packets[0].port(), 7);
    assert_eq!(packets[0].data(), "AQID");
    assert_eq!(*packets[1].device_eui(), eui(2));
    assert_eq!(packets[1].port(), 255);
    assert_eq!(packets[1].data(), "");
    assert_eq!(queued_packets("{\"result\":[]}").unwrap().len(), 0);
}

#[test]
fn a_packet_that_cannot_be_read_fails_the_listing() {
    let port = "{\"result\":[{\"deveui\":\"00-80-00-00-a0-00-0f-01\",\"port\":256}]}";
    match queued_packets(port) {
        Err(MtcapError::Other(text)) => assert_eq!(text, "256"),
        other => panic!("{:?}", other.map(|p| p.len())),
    }
    let missing = "{\"result\":[{\"deveui\":\"00-80-00-00-a0-00-0f-01\"}]}";
    match queued_packets(missing) {
        Err(MtcapError::Other(text)) => assert_eq!(text, "null"),
        other => panic!("{:?}", other.map(|p| p.len())),
    }
    let identity = "{\"result\":[{\"deveui\":\"00-80\",\"port\":256}]}";
    assert!(matches!(
        queued_packets(identity),
        Err(MtcapError::Parse(ParseError::LengthMismatch))
    ));
}

#[test]
fn a_packet_holds_what_it_was_made_of() {
    let packet = Packet::new("AQID".to_string(), eui(9), 12);
    assert_eq!(*packet.device_eui(), eui(9));
    assert_eq!(packet.port(), 12);
    assert_eq!(packet.data(), "AQID");
    assert_eq!(
        queue_path(&eui(9)),
        "lora/packets/queue/00-80-00-00-a0-00-0f-09"
    );
}

#[test]
fn the_token_of_a_login() {
    let response = "{\"code\":200,\"result\":{\"token\":\"A1B2C3\",\"permission\":\"admin\"}}";
    assert_eq!(login_token(response).unwrap(), "A1B2C3");
    assert_eq!(login_token("{\"result\":{\"token\":\"\"}}").unwrap(), "");
    assert!(matches!(
        login_token("{\"result\":{}}"),
        Err(MtcapError::Protocol)
    ));
    assert!(matches!(login_token("{}"), Err(MtcapError::Protocol)));
    assert!(matches!(
        login_token("{\"result\":{\"token\":17}}"),
        Err(MtcapError::Protocol)
    ));
    assert!(matches!(
        login_token("{\"result\":{\"token\":null}}"),
        Err(MtcapError::Protocol)
    ));
    assert!(matches!(login_token("nothing"), Err(MtcapError::Json(_))));
}

#[test]
fn what_else_the_gateway_reported_is_sent_back() {
    let response = "{\"result\":{\"enabled\":true,\"devices\":[\
        {\"deveui\":\"00-80-00-00-A0-00-0F-0A\",\"class\":1,\"serial\":[1,2]},\
        {\"deveui\":\"00800000a0000f0b\",\"appkey\":\"old\",\"serial\":{\"n\":7}}]}}";
    let body = add_request(response, &[device(0x0b, 0x55), device(0x0c, 0x66)]).unwrap();
    let body = json::parse(&body).unwrap();
    let reported = json::parse(response).unwrap();
    assert_eq!(body["enabled"], json::JsonValue::Boolean(true));
    assert_eq!(body.len(), 2);
    assert_eq!(body["devices"].len(), 3);
    assert_eq!(body["devices"][0], reported["result"]["devices"][0]);
    assert_eq!(body["devices"][0]["class"], 1);
    assert_eq!(body["devices"][1]["deveui"], "00-80-00-00-a0-00-0f-0b");
    assert_eq!(
        body["devices"][1]["appkey"],
        "55555555555555555555555555555555"
    );
    assert_eq!(body["devices"][1]["serial"]["n"], 7);
    assert_eq!(body["devices"][1].len(), 7);
    assert_eq!(body["devices"][2]["deveui"], "00-80-00-00-a0-00-0f-0c");
    assert_eq!(body["devices"][2].len(), 6);

    let removed = remove_request(response, &[eui(0x0b)]).unwrap();
    let removed = json::parse(&removed).unwrap();
    assert_eq!(removed["devices"].len(), 1);
    assert_eq!(removed["devices"][0], reported["result"]["devices"][0]);
    assert_eq!(removed["enabled"], json::JsonValue::Boolean(true));
}

fn entry(deveui: &str, appkey: &str) -> AllowlistEntry {
    AllowlistEntry {
        deveui: deveui.to_string(),
        appeui: "70-b3-d5-7e-d0-00-00-01".to_string(),
        appkey: appkey.to_string(),
        class: "A".to_string(),
        device_profile_id: "LW102-OTA-US915".to_string(),
        network_profile_id: "DEFAULT-CLASS-A".to_string(),
    }
}

#[test]
fn an_entry_is_written_and_read_back() {
    let written = entry_to_json(&entry("00-80-00-00-a0-00-0f-0a", "k\\\"1"));
    assert_eq!(written.len(), 6);
    assert_eq!(written["deveui"], "00-80-00-00-a0-00-0f-0a");
    assert_eq!(written["appkey"], "k\\\"1");
    assert_eq!(written["class"], "A");
    assert_eq!(written["device_profile_id"], "LW102-OTA-US915");
    assert_eq!(written["network_profile_id"], "DEFAULT-CLASS-A");
    assert_eq!(
        entry_from_json(&written),
        entry("00-80-00-00-a0-00-0f-0a", "k\\\"1")
    );
    let reparsed = json::parse(&written.dump()).unwrap();
    assert_eq!(entry_from_json(&reparsed), entry_from_json(&written));
}

#[test]
fn missing_members_read_as_null() {
    let value = json::parse("{\"deveui\":\"x\",\"class\":2,\"appkey\":true}").unwrap();
    let read = entry_from_json(&value);
    assert_eq!(read.deveui, "x");
    assert_eq!(read.class, "2");
    assert_eq!(read.appkey, "true");
    assert_eq!(read.appeui, "null");
    assert_eq!(read.device_profile_id, "null");
    assert_eq!(read.network_profile_id, "null");
    assert_eq!(entry_from_json(&json::JsonValue::Null).deveui, "null");
}

#[test]
fn entries_are_read_up_to_the_first_null() {
    let array = json::parse("[{\"deveui\":\"a\"},{\"deveui\":\"b\"},null,{\"deveui\":\"c\"}]");
    let read = entries_from_json(&array.unwrap());
    assert_eq!(read.len(), 2);
    assert_eq!(read[0].deveui, "a");
    assert_eq!(read[1].deveui, "b");
    assert_eq!(entries_from_json(&json::parse("[]").unwrap()), vec![]);
    assert_eq!(entries_from_json(&json::parse("{\"a\":1}").unwrap()), vec![]);
    assert_eq!(entries_from_json(&json::parse("7").unwrap()), vec![]);
}

#[test]
fn overwriting_keeps_other_members() {
    let before = json::parse("{\"deveui\":\"old\",\"extra\":[1],\"class\":3}").unwrap();
    let after = overwrite_entry(before, &entry("new", "key"));
    assert_eq!(after.len(), 7);
    assert_eq!(after["deveui"], "new");
    assert_eq!(after["appkey"], "key");
    assert_eq!(after["class"], "A");
    assert_eq!(after["extra"][0], 1);
    let from_nothing = overwrite_entry(json::JsonValue::Null, &entry("new", "key"));
    assert_eq!(from_nothing, entry_to_json(&entry("new", "key")));
}

#[test]
fn entries_compare_by_their_six_texts() {
    assert!(same_texts(&entry("a", "k"), &entry("a", "k")));
    assert!(!same_texts(&entry("a", "k"), &entry("b", "k")));
    assert!(!same_texts(&entry("a", "k"), &entry("a", "l")));
    let mut other = entry("a", "k");
    other.network_profile_id = "DEFAULT-CLASS-B".to_string();
    assert!(!same_texts(&entry("a", "k"), &other));
}

#[test]
fn updated_and_selected_devices() {
    let reported = json::parse(
        "[{\"deveui\":\"a\",\"n\":1},{\"deveui\":\"b\",\"n\":2},{\"deveui\":\"c\",\"n\":3}]",
    )
    .unwrap();
    let read = entries_from_json(&reported);
    let mut list = vec![read[0].clone(), entry("b", "changed"), read[2].clone()];
    list.push(entry("d", "new"));
    let updated = updated_devices(&reported, &list);
    assert_eq!(updated.len(), 4);
    assert_eq!(updated[0], reported[0]);
    assert_eq!(updated[1]["appkey"], "changed");
    assert_eq!(updated[1]["n"], 2);
    assert_eq!(updated[2], reported[2]);
    assert_eq!(updated[3], entry_to_json(&entry("d", "new")));
    assert_eq!(entries_from_json(&updated), list);

    let selected = selected_devices(&reported, &vec![2, 0]);
    assert_eq!(selected.len(), 2);
    assert_eq!(selected[0], reported[2]);
    assert_eq!(selected[1], reported[0]);
    assert_eq!(selected_devices(&reported, &vec![]).len(), 0);
    assert!(selected_devices(&reported, &vec![]).is_array());
    assert!(selected_devices(&reported, &vec![7])[0].is_null());
}

#[test]
fn an_answer_without_an_array_of_devices_is_of_the_wrong_shape() {
    let wrong = [
        "{\"result\":{}}",
        "{}",
        "[]",
        "null",
        "{\"result\":[]}",
        "{\"result\":{\"devices\":null}}",
        "{\"result\":{\"devices\":{}}}",
        "{\"result\":{\"devices\":\"none\"}}",
        "{\"result\":{\"devices\":0}}",
        "{\"result\":{\"devices\":false}}",
        "{\"devices\":[]}",
    ];
    for response in wrong {
        assert!(matches!(
            add_request(response, &[device(1, 1)]),
            Err(MtcapError::Protocol)
        ));
        assert!(matches!(
            add_request(response, &[]),
            Err(MtcapError::Protocol)
        ));
        assert!(matches!(
            remove_request(response, &[eui(1)]),
            Err(MtcapError::Protocol)
        ));
        assert!(matches!(
            remove_request(response, &[]),
            Err(MtcapError::Protocol)
        ));
        assert!(matches!(
            count_devices(response),
            Err(MtcapError::Protocol)
        ));
    }
}

#[test]
fn an_answer_without_a_list_is_of_the_wrong_shape() {
    let wrong = [
        "{}",
        "[]",
        "7",
        "{\"result\":{}}",
        "{\"result\":{\"a\":1}}",
        "{\"result\":null}",
        "{\"result\":\"none\"}",
        "{\"results\":[]}",
    ];
    for response in wrong {
        assert!(matches!(
            active_sessions(response),
            Err(MtcapError::Protocol)
        ));
        assert!(matches!(
            eviction_request(response, &[eui(1)]),
            Err(MtcapError::Protocol)
        ));
        assert!(matches!(
            old_devices(response, &Date::new(2024, 1, 1)),
            Err(MtcapError::Protocol)
        ));
        assert!(matches!(
            queued_packets(response),
            Err(MtcapError::Protocol)
        ));
    }
    assert_eq!(
        old_devices("{\"result\":[]}", &Date::new(2024, 1, 1)).unwrap(),
        vec![]
    );
    let plan = eviction_request("{\"result\":[]}", &[eui(1)]).unwrap();
    assert_eq!(plan.sessions, vec![]);
    assert_eq!(plan.failure, None);
}

#[test]
fn settings_that_are_no_object_are_of_the_wrong_shape() {
    for response in ["[]", "null", "7", "\"on\"", "true"] {
        assert!(matches!(
            mode_request(response, Mode::NetworkServer),
            Err(MtcapError::Protocol)
        ));
    }
}

#[test]
fn runs_of_zeros_are_measured() {
    assert!(zero_runs_are_short(""));
    assert!(zero_runs_are_short("0"));
    assert!(zero_runs_are_short(&"0".repeat(32748)));
    assert!(!zero_runs_are_short(&"0".repeat(32749)));
    let broken = format!("{}1{}", "0".repeat(32748), "0".repeat(32748));
    assert!(zero_runs_are_short(&broken));
    let late = format!("{}.{}", "0".repeat(20000), "0".repeat(32749));
    assert!(!zero_runs_are_short(&late));
    let other = "1".repeat(40000);
    assert!(zero_runs_are_short(&other));
    let wide = format!("\u{e9}{}\u{e9}", "0".repeat(32748));
    assert!(zero_runs_are_short(&wide));
}

#[test]
fn a_text_with_too_long_a_run_of_zeros_is_refused_unread() {
    let fraction = format!("0.{}", "0".repeat(32749));
    let answer = format!("{{\"result\":{{\"devices\":[],\"n\":{}}}}}", fraction);
    assert!(matches!(read_document(&fraction), Err(MtcapError::Overlong)));
    assert!(matches!(read_document(&answer), Err(MtcapError::Overlong)));
    assert!(matches!(count_devices(&answer), Err(MtcapError::Overlong)));
    assert!(matches!(
        add_request(&answer, &[device(1, 1)]),
        Err(MtcapError::Overlong)
    ));
    assert!(matches!(
        remove_request(&answer, &[eui(1)]),
        Err(MtcapError::Overlong)
    ));
    assert!(matches!(active_sessions(&answer), Err(MtcapError::Overlong)));
    assert!(matches!(
        eviction_request(&answer, &[eui(1)]),
        Err(MtcapError::Overlong)
    ));
    assert!(matches!(
        old_devices(&answer, &Date::new(2024, 1, 1)),
        Err(MtcapError::Overlong)
    ));
    assert!(matches!(check_status(&answer), Err(MtcapError::Overlong)));
    assert!(matches!(login_token(&answer), Err(MtcapError::Overlong)));
    assert!(matches!(queued_packets(&answer), Err(MtcapError::Overlong)));
    assert!(matches!(
        mode_request(&answer, Mode::Disabled),
        Err(MtcapError::Overlong)
    ));
    let no_json = "0".repeat(32749);
    assert!(matches!(read_document(&no_json), Err(MtcapError::Overlong)));
}

#[test]
fn the_longest_run_of_zeros_that_is_read() {
    let fraction = format!("0.{}", "0".repeat(32748));
    let answer = format!("{{\"result\":{{\"devices\":[],\"n\":{}}}}}", fraction);
    assert!(read_document(&fraction).is_ok());
    assert!(matches!(count_devices(&answer), Ok(0)));
    let body = add_request(&answer, &[]).unwrap();
    assert_eq!(json::parse(&body).unwrap()["n"], 0);
    let digits = format!("0.{}12345678901234567890123e5", "0".repeat(32748));
    assert!(read_document(&digits).unwrap().is_number());
    let text = format!("\"{}\"", "0".repeat(32748));
    assert_eq!(read_document(&text).unwrap(), "0".repeat(32748).as_str());
    assert!(matches!(read_document("{"), Err(MtcapError::Json(_))));
}

#[test]
fn a_port_is_an_optional_plus_and_digits_below_256() {
    assert_eq!(read_port("0"), Some(0));
    assert_eq!(read_port("7"), Some(7));
    assert_eq!(read_port("255"), Some(255));
    assert_eq!(read_port("+255"), Some(255));
    assert_eq!(read_port("+0"), Some(0));
    assert_eq!(read_port("007"), Some(7));
    assert_eq!(read_port("0000000000000000000000255"), Some(255));
    assert_eq!(read_port("256"), None);
    assert_eq!(read_port("1000"), None);
    assert_eq!(read_port("99999999999999999999999"), None);
    assert_eq!(read_port(""), None);
    assert_eq!(read_port("+"), None);
    assert_eq!(read_port("-"), None);
    assert_eq!(read_port("-0"), None);
    assert_eq!(read_port("-1"), None);
    assert_eq!(read_port("++1"), None);
    assert_eq!(read_port("1+"), None);
    assert_eq!(read_port(" 1"), None);
    assert_eq!(read_port("1 "), None);
    assert_eq!(read_port("1.0"), None);
    assert_eq!(read_port("0x10"), None);
    assert_eq!(read_port("null"), None);
    assert_eq!(read_port("\u{661}"), None);
    assert_eq!(read_port("1\u{e9}"), None);
    for text in ["0", "+12", "255", "256", "", "+", "-3", "0012", "12a", "\u{ff11}"] {
        assert_eq!(read_port(text), text.parse::<u8>().ok());
    }
}

#[test]
fn the_flags_of_a_body_are_booleans() {
    let body = json::parse(&enable_request(&[])).unwrap();
    assert!(body["enabled"].is_boolean());
    assert!(body["devices"].is_array());
    let mode = json::parse(&mode_request("{\"enabled\":\"yes\"}", Mode::Disabled).unwrap());
    let mode = mode.unwrap();
    assert!(mode["enabled"].is_boolean());
    assert!(mode["packetForwarderMode"].is_boolean());
    assert_eq!(mode["enabled"], json::JsonValue::Boolean(false));
}
