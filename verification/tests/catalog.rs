use device_bus::payload::{decode_list_payload, decode_methods_payload};
use device_bus::response::{decode_response, Response};
use device_bus::types::{Direction, RobotActionResult, RotationDirection};

const LIST_REPLY: &[u8] =
    b"{\"type\":\"list\",\"data\":[{\"deviceId\":\"00000000-0000-0000-0000-000000000001\",\"typeNames\":[\"redstone\"]}]}";

#[test]
fn list_reply_yields_one_descriptor() {
    let reply = decode_response(&LIST_REPLY.to_vec()).unwrap();
    let blob = match reply {
        Response::Response(Some(blob)) => blob,
        _ => panic!("expected a payload"),
    };
    let list = decode_list_payload(&blob).unwrap();
    assert_eq!(list.0.len(), 1);
    assert_eq!(
        list.0[0].device_id.as_bytes(),
        &b"00000000-0000-0000-0000-000000000001".to_vec()
    );
    assert_eq!(list.0[0].type_names, vec![b"redstone".to_vec()]);
}

#[test]
fn capability_lookup_finds_redstone_but_not_sound() {
    let reply = decode_response(&LIST_REPLY.to_vec()).unwrap();
    let blob = match reply {
        Response::Response(Some(blob)) => blob,
        _ => panic!("expected a payload"),
    };
    let list = decode_list_payload(&blob).unwrap();
    assert_eq!(list.find_by_name(&b"redstone".to_vec()), Some(0));
    assert_eq!(list.find_by_name(&b"sound".to_vec()), None);
}

#[test]
fn lookup_returns_the_first_match() {
    let text = b"[{\"deviceId\":\"00000000-0000-0000-0000-000000000001\",\"typeNames\":[\"sound\"]},{\"deviceId\":\"00000000-0000-0000-0000-000000000002\",\"typeNames\":[\"redstone\",\"sound\"]},{\"deviceId\":\"00000000-0000-0000-0000-000000000003\",\"typeNames\":[\"redstone\"]}]";
    let list = decode_list_payload(&text.to_vec()).unwrap();
    assert_eq!(list.0.len(), 3);
    assert_eq!(list.find_by_name(&b"redstone".to_vec()), Some(1));
    assert_eq!(list.find_by_name(&b"sound".to_vec()), Some(0));
    assert_eq!(list.find_by_name(&b"robot".to_vec()), None);
}

#[test]
fn empty_list_payload_decodes() {
    let list = decode_list_payload(&b"[]".to_vec()).unwrap();
    assert_eq!(list.0.len(), 0);
}

#[test]
fn malformed_list_payload_is_rejected() {
    assert!(decode_list_payload(&b"".to_vec()).is_err());
    assert!(decode_list_payload(&b"[{\"deviceId\":\"bad\",\"typeNames\":[]}]".to_vec()).is_err());
    assert!(decode_list_payload(&b"[] ".to_vec()).is_err());
}

#[test]
fn methods_payload_decodes_signatures() {
    let text = b"[{\"name\":\"getRedstoneInput\",\"returnType\":\"number\",\"description\":\"Reads one side.\",\"parameters\":[{\"name\":\"side\",\"description\":\"Which side.\",\"type\":\"string\"}]},{\"name\":\"reset\",\"returnType\":\"void\",\"description\":\"\",\"parameters\":[]}]";
    let methods = decode_methods_payload(&text.to_vec()).unwrap();
    assert_eq!(methods.0.len(), 2);
    assert_eq!(methods.0[0].name, b"getRedstoneInput".to_vec());
    assert_eq!(methods.0[0].return_type, b"number".to_vec());
    assert_eq!(methods.0[0].description, b"Reads one side.".to_vec());
    assert_eq!(methods.0[0].parameters.len(), 1);
    assert_eq!(methods.0[0].parameters[0].name, b"side".to_vec());
    assert_eq!(methods.0[0].parameters[0].description, b"Which side.".to_vec());
    assert_eq!(methods.0[0].parameters[0].ty, b"string".to_vec());
    assert_eq!(methods.0[1].name, b"reset".to_vec());
    assert_eq!(methods.0[1].parameters.len(), 0);
}

#[test]
fn malformed_methods_payload_is_rejected() {
    assert!(decode_methods_payload(&b"[{\"name\":\"x\"}]".to_vec()).is_err());
}

#[test]
fn directions_serialize_to_their_wire_names() {
    assert_eq!(Direction::Up.as_json(), b"\"up\"".to_vec());
    assert_eq!(Direction::Down.as_json(), b"\"down\"".to_vec());
    assert_eq!(Direction::Front.as_json(), b"\"front\"".to_vec());
    assert_eq!(Direction::Back.as_json(), b"\"back\"".to_vec());
    assert_eq!(Direction::Left.as_json(), b"\"left\"".to_vec());
    assert_eq!(Direction::Right.as_json(), b"\"right\"".to_vec());
    assert_eq!(RotationDirection::Left.as_json(), b"\"left\"".to_vec());
    assert_eq!(RotationDirection::Right.as_json(), b"\"right\"".to_vec());
}

#[test]
fn robot_action_results_parse_from_their_wire_names() {
    assert_eq!(
        RobotActionResult::from_json(&b"\"INCOMPLETE\"".to_vec()),
        Some(RobotActionResult::Incomplete)
    );
    assert_eq!(
        RobotActionResult::from_json(&b"\"SUCCESS\"".to_vec()),
        Some(RobotActionResult::Success)
    );
    assert_eq!(
        RobotActionResult::from_json(&b"\"FAILURE\"".to_vec()),
        Some(RobotActionResult::Failure)
    );
    assert_eq!(RobotActionResult::from_json(&b"\"DONE\"".to_vec()), None);
}

#[test]
fn lookup_on_an_empty_catalog_finds_nothing() {
    let list = decode_list_payload(&b"[]".to_vec()).unwrap();
    assert_eq!(list.find_by_name(&b"redstone".to_vec()), None);
}

#[test]
fn trailing_comma_in_a_catalog_is_rejected() {
    let text = b"[{\"deviceId\":\"00000000-0000-0000-0000-000000000001\",\"typeNames\":[\"redstone\",]},]";
    assert!(decode_list_payload(&text.to_vec()).is_err());
}
