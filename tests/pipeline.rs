use heidpi::config::{Config, Event, GeoIP};
use heidpi::connection::{ConnAction, ConnEvent, ConnectionManager, ConnectionState};
use heidpi::filter::{add_geoip_info, geoip_address, process, remove_attributes, remove_risks};
use heidpi::frame::FrameDecoder;
use heidpi::logging::{Logging, Sinks};
use heidpi::router::{classify, dispatch, route, HeiDPIEventType};
use serde_json::Value;
use std::path::PathBuf;

fn frame(json: &str) -> Vec<u8> {
    let mut v = format!("{:05}", json.len()).into_bytes();
    v.extend_from_slice(json.as_bytes());
    v.push(b'\n');
    v
}

fn parse(s: &str) -> Value {
    serde_json::from_str(s).unwrap()
}

fn city(city_name: &str, country_name: &str) -> Value {
    let mut m = serde_json::Map::new();
    m.insert("city_name".to_string(), Value::String(city_name.to_string()));
    m.insert("country_name".to_string(), Value::String(country_name.to_string()));
    m.insert("latitude".to_string(), Value::Null);
    m.insert("longitude".to_string(), Value::Null);
    Value::Object(m)
}

fn strings(xs: &[&str]) -> Vec<String> {
    xs.iter().map(|s| s.to_string()).collect()
}

fn sinks() -> Sinks {
    Sinks::new(
        Logging::new("flow".to_string(), PathBuf::from("flow.log")),
        Logging::new("daemon".to_string(), PathBuf::from("daemon.log")),
        Logging::new("packet".to_string(), PathBuf::from("packet.log")),
        Logging::new("error".to_string(), PathBuf::from("error.log")),
    )
}

fn geo_config() -> Config {
    let mut config = Config::defaults();
    config.flow_event.geoip = Some(GeoIP {
        enabled: true,
        filepath: "city.mmdb".to_string(),
        keys: vec![],
    });
    config
}

#[test]
fn end_to_end_flow_record_is_enriched() {
    let mut manager = ConnectionManager::new();
    assert_eq!(manager.handle(ConnEvent::Begin), ConnAction::Connect);
    assert_eq!(manager.handle(ConnEvent::ConnectSucceeded), ConnAction::Configure(60, 15));
    let chunk = b"00018{\"event_type\":\"flow\",\"ip\":\"1.2.3.4\"}\n";
    let records = manager.on_data(chunk);
    assert_eq!(records.len(), 1);
    let event = route(records.into_iter().next().unwrap()).unwrap();
    assert_eq!(event.event_type, HeiDPIEventType::FLOW);
    assert_eq!(geoip_address(&event.data), Some("1.2.3.4".to_string()));
    let config = geo_config();
    let all = sinks();
    let sink = all.select(event.event_type);
    assert_eq!(sink.log_type(), "flow");
    assert_eq!(sink.filepath(), &PathBuf::from("flow.log"));
    let out = dispatch(event, &config, Some(city("X", "Y")));
    assert_eq!(out["geoip"]["city_name"], Value::String("X".to_string()));
    assert_eq!(out["geoip"]["country_name"], Value::String("Y".to_string()));
    assert_eq!(out["event_type"], Value::String("flow".to_string()));
    assert_eq!(out["ip"], Value::String("1.2.3.4".to_string()));
}

#[test]
fn two_failed_connects_then_success() {
    let mut manager = ConnectionManager::new();
    let events = [
        ConnEvent::Begin,
        ConnEvent::ConnectFailed,
        ConnEvent::BackoffElapsed,
        ConnEvent::ConnectFailed,
        ConnEvent::BackoffElapsed,
        ConnEvent::ConnectSucceeded,
        ConnEvent::Data,
    ];
    let actions: Vec<ConnAction> = events.iter().map(|e| manager.handle(*e)).collect();
    assert_eq!(
        actions,
        vec![
            ConnAction::Connect,
            ConnAction::Backoff(5000),
            ConnAction::Connect,
            ConnAction::Backoff(5000),
            ConnAction::Connect,
            ConnAction::Configure(60, 15),
            ConnAction::Read,
        ]
    );
    let delays = actions.iter().filter(|a| matches!(a, ConnAction::Backoff(_))).count();
    assert_eq!(delays, 2);
    let connects = actions.iter().filter(|a| **a == ConnAction::Connect).count();
    assert_eq!(connects, 3);
    let first_read = actions
        .iter()
        .position(|a| matches!(a, ConnAction::Configure(_, _) | ConnAction::Read))
        .unwrap();
    assert_eq!(events[first_read], ConnEvent::ConnectSucceeded);
    assert_eq!(manager.state(), ConnectionState::Connected);
}

#[test]
fn bogus_event_type_is_decoded_but_dropped() {
    let mut decoder = FrameDecoder::new();
    let records = decoder.append(&frame("{\"event_type\":\"bogus\",\"x\":1}"));
    assert_eq!(records.len(), 1);
    assert_eq!(classify(&records[0]), None);
    assert!(route(records[0].clone()).is_none());
}

#[test]
fn missing_or_non_string_event_type_is_unknown() {
    assert_eq!(classify(&parse("{\"x\":1}")), None);
    assert_eq!(classify(&parse("{\"event_type\":3}")), None);
    assert_eq!(classify(&parse("[1,2]")), None);
    assert_eq!(classify(&parse("{\"event_type\":\"daemon\"}")), Some(HeiDPIEventType::DAEMON));
    assert_eq!(classify(&parse("{\"event_type\":\"packet\"}")), Some(HeiDPIEventType::PACKET));
    assert_eq!(classify(&parse("{\"event_type\":\"error\"}")), Some(HeiDPIEventType::ERROR));
    assert_eq!(classify(&parse("{\"event_type\":\"Flow\"}")), None);
}

#[test]
fn any_split_gives_the_same_records() {
    let mut stream = Vec::new();
    stream.extend(frame("{\"event_type\":\"flow\",\"n\":1}"));
    stream.extend(frame("{\"event_type\":\"daemon\",\"n\":2}"));
    stream.extend(frame("{\"event_type\":\"packet\",\"n\":3}"));
    let whole = FrameDecoder::new().append(&stream);
    assert_eq!(whole.len(), 3);
    for a in 0..=stream.len() {
        for b in a..=stream.len() {
            let mut d = FrameDecoder::new();
            let mut got = d.append(&stream[..a]);
            got.extend(d.append(&stream[a..b]));
            got.extend(d.append(&stream[b..]));
            assert_eq!(got, whole);
            assert!(d.buffered().is_empty());
        }
    }
}

#[test]
fn byte_by_byte_feeding() {
    let stream = frame("{\"a\":[1,2,3]}");
    let mut d = FrameDecoder::new();
    let mut got = Vec::new();
    for b in &stream {
        got.extend(d.append(&[*b]));
    }
    assert_eq!(got, vec![parse("{\"a\":[1,2,3]}")]);
}

#[test]
fn long_header_waits_for_more_bytes() {
    let json = "{\"event_type\":\"flow\",\"payload\":\"0123456789\"}";
    let full = frame(json);
    let mut d = FrameDecoder::new();
    let first = d.append(&full[..20]);
    assert!(first.is_empty());
    assert_eq!(d.buffered(), &full[..20].to_vec());
    let second = d.append(&full[20..full.len() - 1]);
    assert!(second.is_empty());
    let third = d.append(&full[full.len() - 1..]);
    assert_eq!(third, vec![parse(json)]);
}

#[test]
fn early_newline_is_not_two_frames() {
    let mut d = FrameDecoder::new();
    // declares 50 bytes: everything waits, the newline inside does not end it
    let out = d.append(b"00050{\"a\":1}\n00007{\"b\":2}\n");
    assert!(out.is_empty());
    assert_eq!(d.buffered().len(), 26);
}

#[test]
fn payload_with_newline_is_one_frame() {
    assert_eq!(FrameDecoder::new().append(b"00003{\n}\n"), vec![parse("{}")]);
    let mut d = FrameDecoder::new();
    assert!(d.append(b"00003{").is_empty());
    assert_eq!(d.append(b"\n}\n"), vec![parse("{}")]);
    // a line inside the payload that looks like a frame of its own
    let json = "[\n12345,7\n]";
    let mut stream = frame(json);
    stream.extend(frame("{\"n\":2}"));
    assert_eq!(FrameDecoder::new().append(&stream), vec![parse(json), parse("{\"n\":2}")]);
}

#[test]
fn corrupt_frame_between_frames_with_newlines() {
    let mut stream = frame("{\"n\":\n1}");
    stream.extend(b"zz999{\"n\":9}\n");
    stream.extend(frame("{\n\"n\":3}"));
    assert_eq!(
        FrameDecoder::new().append(&stream),
        vec![parse("{\"n\":1}"), parse("{\"n\":3}")]
    );
}

#[test]
fn corrupt_frame_between_good_frames() {
    let mut stream = Vec::new();
    stream.extend(frame("{\"n\":1}"));
    stream.extend(b"0x012{\"n\":9}\n");
    stream.extend(frame("{\"n\":3}"));
    assert_eq!(
        FrameDecoder::new().append(&stream),
        vec![parse("{\"n\":1}"), parse("{\"n\":3}")]
    );

    let mut stream = Vec::new();
    stream.extend(frame("{\"n\":1}"));
    stream.extend(b"00007{\"n\":\n");
    stream.extend(frame("{\"n\":3}"));
    assert_eq!(
        FrameDecoder::new().append(&stream),
        vec![parse("{\"n\":1}"), parse("{\"n\":3}")]
    );
}

#[test]
fn short_lines_and_bad_utf8_are_noise() {
    let mut stream = Vec::new();
    stream.extend(b"123\n\n00000\n");
    stream.extend(b"00003\xff\xfe\xfd\n");
    stream.extend(frame("{\"ok\":true}"));
    assert_eq!(FrameDecoder::new().append(&stream), vec![parse("{\"ok\":true}")]);
}

#[test]
fn header_values() {
    let line = b"00042rest".to_vec();
    assert_eq!(heidpi::frame::header_len(&line, 0, line.len()), Some(42));
    let line = b"99999".to_vec();
    assert_eq!(heidpi::frame::header_len(&line, 0, line.len()), Some(99999));
    let line = b"0042".to_vec();
    assert_eq!(heidpi::frame::header_len(&line, 0, line.len()), None);
    let line = b"00a42x".to_vec();
    assert_eq!(heidpi::frame::header_len(&line, 0, line.len()), None);
    let line = b"00002ab".to_vec();
    assert_eq!(heidpi::frame::frame_payload(&line, 0, line.len()), Some(b"ab".to_vec()));
    assert_eq!(heidpi::frame::frame_payload(&line, 0, 6), None);
}

#[test]
fn filter_is_idempotent() {
    let mut config = Event::plain("flow.log".to_string());
    config.ignore_risks = strings(&["risk"]);
    config.ignore_fields = strings(&["geoip", "b"]);
    config.flow_event_name = strings(&["c"]);
    let r = parse("{\"risk\":1,\"b\":2,\"c\":3,\"d\":4,\"ip\":\"10.0.0.1\"}");
    let once = process(r, Some(city("X", "Y")), &config);
    let twice = process(once.clone(), Some(city("X", "Y")), &config);
    assert_eq!(once, twice);
    assert_eq!(once, parse("{\"d\":4,\"ip\":\"10.0.0.1\",\"geoip\":{\"city_name\":\"X\",\"country_name\":\"Y\",\"latitude\":null,\"longitude\":null}}"));
}

#[test]
fn removing_absent_keys_is_a_no_op() {
    let r = parse("{\"a\":1,\"b\":{\"c\":2}}");
    assert_eq!(remove_risks(r.clone(), &strings(&["x", "y"])), r);
    assert_eq!(remove_attributes(r.clone(), &strings(&["c"])), r);
    assert_eq!(remove_attributes(r.clone(), &strings(&["a"])), parse("{\"b\":{\"c\":2}}"));
    let not_object = parse("[\"a\"]");
    assert_eq!(remove_risks(not_object.clone(), &strings(&["a"])), not_object);
}

#[test]
fn enrichment_only_with_address_and_location() {
    let with_ip = parse("{\"ip\":\"1.2.3.4\"}");
    assert_eq!(add_geoip_info(with_ip.clone(), None), with_ip);
    let without_ip = parse("{\"src\":\"1.2.3.4\"}");
    assert_eq!(add_geoip_info(without_ip.clone(), Some(city("X", "Y"))), without_ip);
    let numeric_ip = parse("{\"ip\":1234}");
    assert_eq!(add_geoip_info(numeric_ip.clone(), Some(city("X", "Y"))), numeric_ip);
    let out = add_geoip_info(with_ip, Some(city("X", "Y")));
    assert_eq!(out["geoip"], city("X", "Y"));
    assert_eq!(geoip_address(&numeric_ip), None);
}

#[test]
fn enrichment_off_ignores_location() {
    let config = Config::defaults();
    let r = parse("{\"event_type\":\"flow\",\"ip\":\"1.2.3.4\"}");
    let event = route(r.clone()).unwrap();
    assert_eq!(dispatch(event, &config, Some(city("X", "Y"))), r);
}

#[test]
fn defaults_are_plain() {
    let c = Config::defaults();
    assert_eq!(c.logging.level, "info");
    assert_eq!(c.logging.format, "plain");
    assert_eq!(c.flow_event.filename, "flow.log");
    assert_eq!(c.daemon_event.filename, "daemon.log");
    assert_eq!(c.packet_event.filename, "packet.log");
    assert_eq!(c.error_event.filename, "error.log");
    assert!(!c.flow_event.geo_enrichment());
    assert_eq!(c.event_for(HeiDPIEventType::ERROR).filename, "error.log");
}

#[test]
fn stall_and_close_handling() {
    let mut m = ConnectionManager::new();
    assert!(m.on_data(b"00007{\"a\":1}\n").is_empty());
    m.handle(ConnEvent::Begin);
    m.handle(ConnEvent::ConnectSucceeded);
    assert_eq!(m.handle(ConnEvent::Stalled), ConnAction::PauseRead(10));
    assert!(m.on_data(b"00007{\"a\"").is_empty());
    assert_eq!(m.handle(ConnEvent::Closed), ConnAction::TearDown);
    assert_eq!(m.state(), ConnectionState::Draining);
    assert_eq!(m.handle(ConnEvent::TornDown), ConnAction::Connect);
    assert_eq!(m.handle(ConnEvent::ConnectSucceeded), ConnAction::Configure(60, 15));
    // the partial frame from the old connection is gone
    assert_eq!(m.on_data(b":1}\n00007{\"b\":2}\n"), vec![parse("{\"b\":2}")]);
    assert_eq!(m.handle(ConnEvent::TornDown), ConnAction::Ignore);
}

#[test]
fn address_joins_host_and_port() {
    let a = heidpi::cli::connection_address(&"127.0.0.1".to_string(), &"7000".to_string());
    assert_eq!(a, "127.0.0.1:7000");
}

#[test]
fn disabled_categories_are_not_routed() {
    let enabled = heidpi::router::CategorySet { flow: true, daemon: false, packet: false, error: true };
    let flow = parse("{\"event_type\":\"flow\"}");
    let daemon = parse("{\"event_type\":\"daemon\"}");
    let e = heidpi::router::route_enabled(flow.clone(), &enabled).unwrap();
    assert_eq!(e.event_type, HeiDPIEventType::FLOW);
    assert_eq!(e.data, flow);
    assert!(heidpi::router::route_enabled(daemon, &enabled).is_none());
    assert!(heidpi::router::route_enabled(parse("{}"), &enabled).is_none());
}

#[test]
fn from_name_matches_exactly() {
    assert_eq!(HeiDPIEventType::from_name(&"flow".to_string()), Some(HeiDPIEventType::FLOW));
    assert_eq!(HeiDPIEventType::from_name(&"flows".to_string()), None);
    assert_eq!(HeiDPIEventType::from_name(&"".to_string()), None);
}

#[test]
fn lookup_only_where_enrichment_applies() {
    let r = parse("{\"event_type\":\"flow\",\"ip\":\"1.2.3.4\"}");
    let off = Event::plain("flow.log".to_string());
    assert_eq!(heidpi::filter::lookup_address(&r, &off), None);
    let mut on = Event::plain("flow.log".to_string());
    on.geoip = Some(GeoIP { enabled: true, filepath: "db".to_string(), keys: vec![] });
    assert_eq!(heidpi::filter::lookup_address(&r, &on), Some("1.2.3.4".to_string()));
    on.ignore_fields = strings(&["ip"]);
    assert_eq!(heidpi::filter::lookup_address(&r, &on), None);
    on.ignore_fields = strings(&["x"]);
    assert_eq!(heidpi::filter::lookup_address(&parse("{\"ip\":5}"), &on), None);
}

#[test]
fn database_failure_is_reported_once() {
    let mut e = heidpi::filter::Enrichment::new(true);
    assert!(e.database_failed());
    assert!(!e.active);
    assert!(!e.database_failed());
}
