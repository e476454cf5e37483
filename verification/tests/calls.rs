use device_bus::call::{Call, CallKind};
use device_bus::error::Error;
use device_bus::id::DeviceId;
use device_bus::wire::{decode_call, encode_message};
use device_bus::MAX_MESSAGE_SIZE;

const DEV: &[u8] = b"00000000-0000-0000-0000-000000000001";

fn dev_id() -> DeviceId {
    DeviceId::new(DEV.to_vec()).unwrap()
}

#[test]
fn list_call_has_no_data_field() {
    let bytes = Call::list().encode().unwrap();
    assert_eq!(bytes, b"{\"type\":\"list\"}".to_vec());
}

#[test]
fn methods_call_names_the_device() {
    let bytes = Call::methods(dev_id()).encode().unwrap();
    assert_eq!(
        bytes,
        b"{\"type\":\"methods\",\"data\":{\"deviceId\":\"00000000-0000-0000-0000-000000000001\"}}"
            .to_vec()
    );
}

#[test]
fn invoke_call_carries_name_and_parameters() {
    let call = Call::invoke(
        dev_id(),
        b"getRedstoneInput".to_vec(),
        vec![b"\"up\"".to_vec(), b"5".to_vec()],
    );
    let bytes = call.encode().unwrap();
    assert_eq!(
        bytes,
        b"{\"type\":\"invoke\",\"data\":{\"deviceId\":\"00000000-0000-0000-0000-000000000001\",\"name\":\"getRedstoneInput\",\"parameters\":[\"up\",5]}}"
            .to_vec()
    );
}

#[test]
fn invoke_call_with_no_parameters() {
    let call = Call::invoke(dev_id(), b"durability".to_vec(), vec![]);
    let bytes = call.encode().unwrap();
    assert_eq!(
        bytes,
        b"{\"type\":\"invoke\",\"data\":{\"deviceId\":\"00000000-0000-0000-0000-000000000001\",\"name\":\"durability\",\"parameters\":[]}}"
            .to_vec()
    );
}

#[test]
fn list_call_round_trips() {
    let bytes = Call::list().encode().unwrap();
    let back = decode_call(&bytes).unwrap();
    assert!(matches!(back.kind, CallKind::List(_)));
}

#[test]
fn methods_call_round_trips() {
    let bytes = Call::methods(dev_id()).encode().unwrap();
    let back = decode_call(&bytes).unwrap();
    match back.kind {
        CallKind::Methods(m) => assert_eq!(m.device_id.as_bytes(), &DEV.to_vec()),
        _ => panic!("wrong kind decoded"),
    }
}

#[test]
fn invoke_call_round_trips() {
    let params = vec![b"\"front\"".to_vec(), b"12".to_vec(), b"[1,2]".to_vec()];
    let call = Call::invoke(dev_id(), b"move".to_vec(), params.clone());
    let bytes = call.encode().unwrap();
    let back = decode_call(&bytes).unwrap();
    match back.kind {
        CallKind::Invoke(inv) => {
            assert_eq!(inv.device_id.as_bytes(), &DEV.to_vec());
            assert_eq!(inv.name, b"move".to_vec());
            assert_eq!(inv.parameters, params);
        },
        _ => panic!("wrong kind decoded"),
    }
}

#[test]
fn invoke_round_trips_with_escaped_name() {
    let name = b"a\"b\\c\nd".to_vec();
    let call = Call::invoke(dev_id(), name.clone(), vec![]);
    let bytes = call.encode().unwrap();
    assert_eq!(
        bytes,
        b"{\"type\":\"invoke\",\"data\":{\"deviceId\":\"00000000-0000-0000-0000-000000000001\",\"name\":\"a\\\"b\\\\c\\u000ad\",\"parameters\":[]}}"
            .to_vec()
    );
    let back = decode_call(&bytes).unwrap();
    match back.kind {
        CallKind::Invoke(inv) => assert_eq!(inv.name, name),
        _ => panic!("wrong kind decoded"),
    }
}

#[test]
fn garbage_does_not_decode_as_a_call() {
    assert!(decode_call(&b"{\"type\":\"reset\"}".to_vec()).is_none());
    assert!(decode_call(&b"".to_vec()).is_none());
    assert!(decode_call(&b"{\"type\":\"list\"} ".to_vec()).is_none());
}

#[test]
fn unsplittable_parameter_is_a_serialization_failure() {
    let call = Call::invoke(dev_id(), b"move".to_vec(), vec![b"1,2".to_vec()]);
    assert_eq!(call.encode(), Err(Error::SerializationFailure));
}

#[test]
fn parameter_with_embedded_nul_is_a_serialization_failure() {
    let call = Call::invoke(dev_id(), b"move".to_vec(), vec![b"\"a\x00b\"".to_vec()]);
    assert_eq!(call.encode(), Err(Error::SerializationFailure));
}

#[test]
fn empty_parameter_is_a_serialization_failure() {
    let call = Call::invoke(dev_id(), b"move".to_vec(), vec![Vec::new()]);
    assert_eq!(call.encode(), Err(Error::SerializationFailure));
}

#[test]
fn oversized_call_fails_without_a_frame() {
    let call = Call::invoke(dev_id(), vec![b'x'; MAX_MESSAGE_SIZE], vec![]);
    assert_eq!(encode_message(&call), Err(Error::MessageTooLarge));
}

#[test]
fn message_is_the_framed_call() {
    let frame = encode_message(&Call::list()).unwrap();
    let mut expected = vec![0u8];
    expected.extend_from_slice(b"{\"type\":\"list\"}");
    expected.push(0u8);
    assert_eq!(frame, expected);
}

#[test]
fn call_new_wraps_a_kind() {
    let call = Call::new(CallKind::List(device_bus::call::List));
    assert_eq!(call.encode().unwrap(), b"{\"type\":\"list\"}".to_vec());
}

#[test]
fn device_id_validation() {
    assert!(DeviceId::new(DEV.to_vec()).is_some());
    assert!(DeviceId::new(b"00000000-0000-0000-0000-00000000001".to_vec()).is_none());
    assert!(DeviceId::new(b"00000000-0000-0000-0000-00000000000G".to_vec()).is_none());
    assert!(DeviceId::new(b"00000000-0000-0000-0000-00000000000A".to_vec()).is_none());
    assert!(DeviceId::new(b"00000000x0000-0000-0000-000000000001".to_vec()).is_none());
    assert!(DeviceId::new(Vec::new()).is_none());
}

#[test]
fn decode_rejects_an_uppercase_identifier() {
    let text =
        b"{\"type\":\"methods\",\"data\":{\"deviceId\":\"00000000-0000-0000-0000-00000000000A\"}}";
    assert!(decode_call(&text.to_vec()).is_none());
}

#[test]
fn decode_rejects_a_truncated_invoke() {
    let text =
        b"{\"type\":\"invoke\",\"data\":{\"deviceId\":\"00000000-0000-0000-0000-000000000001\",\"name\":\"move\",\"parameters\":[";
    assert!(decode_call(&text.to_vec()).is_none());
}

#[test]
fn every_control_byte_in_a_name_round_trips() {
    let mut name = Vec::new();
    for b in 0u8..0x20u8 {
        name.push(b);
        name.push(b'x');
    }
    let call = Call::invoke(dev_id(), name.clone(), vec![]);
    let bytes = call.encode().unwrap();
    let back = decode_call(&bytes).unwrap();
    match back.kind {
        CallKind::Invoke(inv) => assert_eq!(inv.name, name),
        _ => panic!("wrong kind decoded"),
    }
}

#[test]
fn multi_byte_text_in_a_name_round_trips() {
    let name = "gerät-läuft".as_bytes().to_vec();
    let call = Call::invoke(dev_id(), name.clone(), vec![]);
    let bytes = call.encode().unwrap();
    let back = decode_call(&bytes).unwrap();
    match back.kind {
        CallKind::Invoke(inv) => assert_eq!(inv.name, name),
        _ => panic!("wrong kind decoded"),
    }
}

#[test]
fn trailing_comma_in_parameters_is_rejected() {
    let text =
        b"{\"type\":\"invoke\",\"data\":{\"deviceId\":\"00000000-0000-0000-0000-000000000001\",\"name\":\"move\",\"parameters\":[1,]}}";
    assert!(decode_call(&text.to_vec()).is_none());
}
