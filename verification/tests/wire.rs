use adb_daemon::auth::{
    public_key_message, signature_message, AuthMode, AuthStep, AuthTransport, SigningKey, CONN_STR,
};
use adb_daemon::banner::{split, Banner, DeviceType};
use adb_daemon::error::{Detail, Error, ErrorKind, TransferError, UsbError};
use adb_daemon::le::{read_u32, write_u32, write_u64};
use adb_daemon::message::{AdbCommand, AdbMessage, AdbMessageHeader};
use adb_daemon::number::{decimal, parse_number, to_digits, to_padded_digits};
use adb_daemon::protocol::{
    read_data, read_length, read_protocol_string, write_length, write_protocol_string,
    ProtocolError,
};
use adb_daemon::pubkey::{encode_public_key, to_base64};
use adb_daemon::usb::{
    adb_interface, known_device, transfer_error, UsbConnection, UsbEndpoint, UsbInterface,
};
use rsa::pkcs8::{EncodePrivateKey, LineEnding};
use rsa::{BigUint, RsaPrivateKey};

const N: &[u8] = b"151378073716051187490287299072827923994874178223596193434273484010102830353681941220501096955047867932553455920469304453803197371595305020699401951288604472759868915203613434814808024183066030616277722260705417335459153983182024284005742527315197219668452394921476039717990922047147446596378395830526719336949";
const D: &[u8] = b"109946996488762630644333360328770147888307534422435857721156260415961895186463530556721427820319491487091940458280648976929554219569655598902780610667829954554718219322369391925030267433791014885640362619590442446313698982721088757640480018308560937247096258076714416797486099341375091911785932112468806889473";
const P: &[u8] = b"11979852173652468376977711840321545256758879042163900786717540519009693739396400674454672471385051178379720283482107798023428157708444110988390925905276341";
const Q: &[u8] = b"12636055230212276930975946842752101409517898418647222722495984582657719545519758762632308940999651665875168133046398914610960676725576159957169540557818689";
const SIGNATURE: &str = "607438e02d8af2ef5a05f4606a55d6ceb9d8783f97f48c420e3e4020a7a0259a6d56b835d7a601a805af08a26ffbc472520539af66b6fe2d2c16e19e3cdcd5724ae2324907bd4e1d3f44dde6923abc7dec73dd77a79d8e559eee2ff9ebf056378a1752929f7d4ccd36328793e313bc65ac0571514ebea4bfebec93d4b4af76f0";

const PUBLIC_KEY: &str = "IAAAAKO9L5D1oYQ8EXVxjGIUvsF2rBxa7gkSzHiAwimXTy5klYae8mKNFlyF6V4fCnz1P2pHZihsdN977I5jlQYQrbdA2vyZ8mpqTVnGZ6FnRP/dBLU79vNNfuK26a0oRel1QpnMG/uo9KVmp+81bWWHN6LDAgwI5gk+TsvrwQQxQ5xC4syR1zH2jNryBC/g5o/FCMga75PDp6VFr/fmWJCcf0RA9Z3PWJlGof82PKwxbZnUBvuQzKhStbLxbwP8/acQetu4t3ikjfCi4mTfXt5UHbTcWpe5wyZTkjPdEKF6lc7LkdU7mOBKr4k5DjvP56hKXxFbkmWTw1YomWvJNfyZOm0jq9tiAQABAA== adb-daemon";

fn big(digits: &[u8]) -> BigUint {
    BigUint::parse_bytes(digits, 10).unwrap()
}

fn pem() -> String {
    RsaPrivateKey::from_components(
        big(N),
        BigUint::from(65537u32),
        big(D),
        vec![big(P), big(Q)],
    )
    .unwrap()
    .to_pkcs8_pem(LineEnding::LF)
    .unwrap()
    .to_string()
}

fn hex(bytes: &[u8]) -> String {
    bytes.iter().map(|b| format!("{b:02x}")).collect()
}

fn closed_error(kind: ErrorKind, detail: Detail) -> Error {
    Error { kind, detail }
}

#[test]
fn protocol_strings_carry_their_length() {
    assert_eq!(write_protocol_string(b"host:version"), b"000chost:version");
    assert_eq!(write_protocol_string(b""), b"0000");
    assert_eq!(write_length(0x12345), b"12345");
    assert_eq!(read_protocol_string(b"000chost:versionmore"), Ok(("host:version".into(), 16)));
    assert_eq!(read_length(b"00fF"), Ok(255));
    assert_eq!(read_length(b"+0ff"), Ok(255));
}

#[test]
fn protocol_strings_read_back() {
    for text in ["", "x", "host:devices", "h\u{f6}st \u{1F4F1}"] {
        let framed = write_protocol_string(text.as_bytes());
        assert_eq!(read_protocol_string(&framed), Ok((text.to_string(), framed.len())));
    }
}

#[test]
fn malformed_protocol_strings_are_refused() {
    assert_eq!(read_protocol_string(b"000"), Err(ProtocolError::UnexpectedEof));
    assert_eq!(read_protocol_string(b"0004abc"), Err(ProtocolError::UnexpectedEof));
    assert_eq!(read_protocol_string(b"00g0"), Err(ProtocolError::Length));
    assert_eq!(read_protocol_string(&[0xff, 0xff, 0xff, 0xff]), Err(ProtocolError::LengthNotUtf8));
    assert_eq!(read_protocol_string(b"0001\xff"), Err(ProtocolError::DataNotUtf8));
    assert_eq!(read_length(b"-001"), Err(ProtocolError::Length));
    assert_eq!(read_data(vec![0xc3, 0xb6]), Ok("\u{f6}".to_string()));
}

#[test]
fn numbers_are_written_and_read() {
    assert_eq!(decimal(0), "0");
    assert_eq!(decimal(u64::MAX), "18446744073709551615");
    assert_eq!(to_digits(255, 16), "ff");
    assert_eq!(to_padded_digits(7, 10, 3), "007");
    assert_eq!(parse_number("+42", 10, 100), Some(42));
    assert_eq!(parse_number("101", 10, 100), None);
    assert_eq!(parse_number("+", 10, 100), None);
    assert_eq!(parse_number("", 10, 100), None);
    assert_eq!(write_u32(0x0102_0304), vec![4, 3, 2, 1]);
    assert_eq!(write_u64(0x0102_0304_0506_0708), vec![8, 7, 6, 5, 4, 3, 2, 1]);
    assert_eq!(read_u32(&[0, 4, 3, 2, 1], 1), 0x0102_0304);
}

#[test]
fn headers_read_back() {
    let msg = AdbMessage::new(AdbCommand::OPEN, 1, 2, vec![1, 2, 250]);
    assert_eq!(msg.header.data_length, 3);
    assert_eq!(msg.header.data_check, 253);
    let bytes = msg.header.to_vec();
    assert_eq!(
        bytes,
        b"OPEN\x01\0\0\0\x02\0\0\0\x03\0\0\0\xfd\0\0\0\xb0\xaf\xba\xb1".to_vec()
    );
    assert_eq!(AdbMessageHeader::read(&bytes), Ok(msg.header));

    let unknown = AdbMessage::new(AdbCommand::Unknown(7), 0, 0, vec![]);
    assert_eq!(AdbMessageHeader::read(&unknown.header.to_vec()), Ok(unknown.header));
}

#[test]
fn malformed_headers_are_refused() {
    let malformed = Err(closed_error(ErrorKind::InvalidData, Detail::MalformedHeader));
    let mut bytes = AdbMessage::new(AdbCommand::OKAY, 1, 2, vec![]).header.to_vec();
    assert_eq!(AdbMessageHeader::read(&bytes[..23]), malformed);
    bytes[20] ^= 1;
    assert_eq!(AdbMessageHeader::read(&bytes), malformed);
}

#[test]
fn commands_have_their_codes() {
    for command in [
        AdbCommand::CNXN,
        AdbCommand::AUTH,
        AdbCommand::OPEN,
        AdbCommand::OKAY,
        AdbCommand::CLSE,
        AdbCommand::WRTE,
        AdbCommand::Unknown(0),
    ] {
        assert_eq!(AdbCommand::from_code(command.code()), command);
    }
    assert_eq!(AdbCommand::WRTE.code().to_le_bytes(), *b"WRTE");
}

#[test]
fn banners_are_parsed() {
    let banner = Banner::parse(
        "device::ro.product.name=a;ro.product.model=b c;features=shell_v2,delayed_ack;x",
    )
    .unwrap();
    assert_eq!(banner.device_type, DeviceType::Device);
    assert_eq!(banner.getprop("ro.product.model"), Some("b c"));
    assert_eq!(banner.getprop("x"), None);
    assert!(banner.has_feature("delayed_ack"));
    assert!(!banner.has_feature("delayed"));
    assert_eq!(banner.features_str(), "shell_v2,delayed_ack");

    let other = Banner::parse("recovery::").unwrap();
    assert_eq!(other.device_type, DeviceType::Other("recovery".into()));
    assert_eq!(other.features_str(), "");
    assert_eq!(Banner::parse("device:x"), None);
    assert_eq!(Banner::parse("device"), None);
}

#[test]
fn splitting_and_joining_are_inverse() {
    for text in ["", ",", "a", "a,b", ",a,,b,"] {
        assert_eq!(split(text, ',').join(","), text);
    }
    assert_eq!(split("a,,b", ',').len(), 3);
}

#[test]
fn the_first_message_presents_the_host() {
    let (state, msg) = AuthTransport::new();
    assert!(state.last_auth.is_none());
    assert_eq!(msg.header.command, AdbCommand::CNXN);
    assert_eq!(msg.header.arg0, 0x01000001);
    assert_eq!(msg.header.arg1, 1024 * 1024);
    assert_eq!(msg.payload, CONN_STR.as_bytes());
    assert!(CONN_STR.ends_with(",delayed_ack"));
}

#[test]
fn challenges_are_signed() {
    let key = SigningKey::from_pem(pem()).unwrap();
    let digest: Vec<u8> = (1..=20).collect();
    assert_eq!(hex(&key.sign(&digest).unwrap()), SIGNATURE);
    assert_eq!(key.sign(&digest[..19]), None);
    assert!(SigningKey::from_pem("no key".into()).is_none());

    let (mut state, _) = AuthTransport::new();
    let mut mode = Some(AuthMode::Existing(&key));
    let challenge = AdbMessage::new(AdbCommand::AUTH, 1, 0, digest);
    match state.auth(&mut mode, challenge).unwrap() {
        AuthStep::Send(msg) => {
            assert_eq!(msg.header.command, AdbCommand::AUTH);
            assert_eq!(msg.header.arg0, 2);
            assert_eq!(hex(&msg.payload), SIGNATURE);
        }
        _ => panic!("the challenge was not answered"),
    }
    assert!(mode.is_none());
}

#[test]
fn a_challenge_that_cannot_be_signed_is_an_error() {
    let key = SigningKey::from_pem(pem()).unwrap();
    let (mut state, _) = AuthTransport::new();
    let mut mode = Some(AuthMode::Existing(&key));
    let challenge = AdbMessage::new(AdbCommand::AUTH, 1, 0, vec![1, 2, 3]);
    let err = state.auth(&mut mode, challenge).err();
    assert_eq!(err, Some(closed_error(ErrorKind::Sign, Detail::Nothing)));
    assert_eq!(
        signature_message(None),
        Err(closed_error(ErrorKind::Sign, Detail::Nothing))
    );
    assert_eq!(signature_message(Some(vec![9])).unwrap().payload, vec![9]);
}

#[test]
fn a_key_is_offered_once_and_the_next_challenge_is_kept() {
    let key = SigningKey::from_pem(pem()).unwrap();
    let (mut state, _) = AuthTransport::new();
    let mut mode = Some(AuthMode::New(&key));
    let challenge = AdbMessage::new(AdbCommand::AUTH, 1, 0, vec![7; 20]);
    assert!(matches!(
        state.auth(&mut mode, AdbMessage::new(AdbCommand::WRTE, 0, 0, vec![])),
        Ok(AuthStep::Continue)
    ));
    match state.auth(&mut mode, challenge.clone()).unwrap() {
        AuthStep::Send(msg) => {
            assert_eq!(msg.header.arg0, 3);
            assert_eq!(msg.payload, PUBLIC_KEY.as_bytes());
        }
        _ => panic!("the key was not offered"),
    }
    assert!(matches!(state.auth(&mut mode, challenge.clone()), Ok(AuthStep::Rejected)));
    let kept = state.next_message().unwrap();
    assert_eq!(kept, challenge);
    assert_eq!(state.next_message(), None);
    let mut mode = Some(AuthMode::Existing(&key));
    assert!(matches!(state.auth(&mut mode, kept), Ok(AuthStep::Send(msg)) if msg.header.arg0 == 2));
    assert!(state.last_auth.is_none());
}

#[test]
fn connection_strings_open_connections() {
    let open = |payload: &[u8]| {
        AuthTransport::handle_cnxn(AdbMessage::new(AdbCommand::CNXN, 0, 0, payload.to_vec()))
    };
    let transport = open(b"device::features=delayed_ack").unwrap();
    assert!(transport.inbound);
    assert!(!transport.is_closed());
    assert_eq!(transport.banner().features_str(), "delayed_ack");
    assert_eq!(
        open(b"\xff").err(),
        Some(closed_error(ErrorKind::InvalidData, Detail::MalformedConnStr))
    );
    assert_eq!(
        open(b"device").err(),
        Some(closed_error(ErrorKind::ParseBanner, Detail::MalformedBanner))
    );
    assert_eq!(
        open(b"device::features=shell_v2").err(),
        Some(closed_error(ErrorKind::DelayedAckNotAvailable, Detail::Nothing))
    );
}

#[test]
fn public_keys_are_encoded() {
    assert_eq!(to_base64(&b"".to_vec()), "");
    assert_eq!(to_base64(&b"f".to_vec()), "Zg==");
    assert_eq!(to_base64(&b"fo".to_vec()), "Zm8=");
    assert_eq!(to_base64(&b"foobar".to_vec()), "Zm9vYmFy");
    assert_eq!(to_base64(&vec![0xfb, 0xff, 0xfe]), "+//+");
    let key = |n: &[u8], e: &[u8], name| encode_public_key(&n.to_vec(), &e.to_vec(), name);
    assert_eq!(
        key(&[1, 2, 3, 4], &[1, 0, 1], "me"),
        Some(b"AQAAAP8B//8BAgME+u7fAAEAAQA= me".to_vec())
    );
    assert_eq!(key(&[0xa1, 0x0c], &[17], "x"), Some(b"AAAAAJ8on2ahDIMEEQAAAA== x".to_vec()));
    assert_eq!(key(&[1, 2, 3, 4], &[1, 0, 1, 0, 0], "me"), key(&[1, 2, 3, 4], &[1, 0, 1], "me"));
    assert_eq!(key(&[2, 2, 3, 4], &[1, 0, 1], "me"), None);
    assert_eq!(key(&[], &[1, 0, 1], "me"), None);
    assert_eq!(key(&[1, 2, 3, 4], &[1, 0, 0, 0, 1], "me"), None);
}

#[test]
fn the_offered_key_belongs_to_the_private_key() {
    let key = SigningKey::from_pem(pem()).unwrap();
    assert_eq!(key.public_key("adb-daemon"), Some(PUBLIC_KEY.as_bytes().to_vec()));
    assert!(key.public_key("me").unwrap().ends_with(b"== me"));
    let none = SigningKey { pem: "no key".into() };
    assert_eq!(none.public_key("me"), None);

    let (mut state, _) = AuthTransport::new();
    let mut mode = Some(AuthMode::New(&none));
    let challenge = AdbMessage::new(AdbCommand::AUTH, 1, 0, vec![7; 20]);
    assert_eq!(
        state.auth(&mut mode, challenge).err(),
        Some(closed_error(ErrorKind::Other, Detail::PublicKey))
    );
    assert_eq!(
        public_key_message(None),
        Err(closed_error(ErrorKind::Other, Detail::PublicKey))
    );
    assert_eq!(public_key_message(Some(vec![9])).unwrap().header.arg0, 3);
}

#[test]
fn the_adb_interface_is_the_first_of_its_class() {
    let interface =
        |number, class| UsbInterface { number, class, subclass: 0x42, protocol: 1 };
    assert_eq!(adb_interface(&vec![interface(0, 3), interface(1, 0xff), interface(2, 0xff)]), Ok(1));
    let unsupported = closed_error(ErrorKind::Usb(UsbError::Unsupported), Detail::Nothing);
    assert_eq!(adb_interface(&vec![interface(0, 3)]), Err(unsupported.clone()));
    assert_eq!(known_device(0x18D1, 0x4EE7), Ok(()));
    assert_eq!(known_device(0x18D1, 0x4EE8), Err(unsupported));
}

#[test]
fn endpoints_are_chosen_by_direction() {
    let endpoint = |address, bulk, input, max_packet_size| UsbEndpoint {
        address,
        bulk,
        input,
        max_packet_size,
    };
    let usb = |kind, detail| Err(closed_error(ErrorKind::Usb(kind), detail));
    let opened = UsbConnection::new(Some(&vec![
        endpoint(0x80, false, true, 64),
        endpoint(0x81, true, true, 512),
        endpoint(0x02, true, false, 512),
        endpoint(0x83, true, true, 64),
    ]))
    .unwrap();
    assert_eq!(opened.in_address, 0x81);
    assert_eq!(opened.out_address, 0x02);
    assert_eq!(opened.connection, UsbConnection { packet_size: 512, in_header: None });
    assert_eq!(UsbConnection::new(None), usb(UsbError::Other, Detail::NoInterface));
    assert_eq!(
        UsbConnection::new(Some(&vec![endpoint(2, true, false, 8)])),
        usb(UsbError::Unsupported, Detail::NoInEndpoint)
    );
    assert_eq!(
        UsbConnection::new(Some(&vec![endpoint(1, true, true, 8)])),
        usb(UsbError::Unsupported, Detail::NoOutEndpoint)
    );
    assert_eq!(
        UsbConnection::new(Some(&vec![endpoint(1, true, true, 8), endpoint(2, true, false, 16)])),
        usb(UsbError::Other, Detail::PacketSizesDiffer)
    );
}

#[test]
fn transfers_put_messages_together_again() {
    let sender = UsbConnection { packet_size: 4, in_header: None };
    for (payload, count) in [(vec![], 1), (vec![1, 2, 3], 2), (vec![1, 2, 3, 4], 3)] {
        let msg = AdbMessage::new(AdbCommand::WRTE, 1, 2, payload.clone());
        let list = sender.write_message(msg.clone());
        assert_eq!(list.len(), count);

        let mut receiver = UsbConnection { packet_size: 4, in_header: None };
        let first = receiver.read_transfer(list[0].clone()).unwrap();
        if payload.is_empty() {
            assert_eq!(first.requests, vec![24]);
            assert_eq!(first.message, Some(msg));
        } else {
            assert_eq!(first.requests, vec![payload.len(), 24]);
            assert_eq!(first.message, None);
            let second = receiver.read_transfer(list[1].clone()).unwrap();
            assert!(second.requests.is_empty());
            assert_eq!(second.message, Some(msg));
        }
        assert_eq!(receiver.in_header, None);
    }
    assert_eq!(UsbConnection::first_request(0), Some(24));
    assert_eq!(UsbConnection::first_request(1), None);
}

#[test]
fn transfers_that_are_no_header_are_refused() {
    let mut connection = UsbConnection { packet_size: 4, in_header: None };
    assert_eq!(
        connection.read_transfer(vec![0; 24]).err(),
        Some(closed_error(ErrorKind::InvalidData, Detail::MalformedHeader))
    );
    assert_eq!(connection.in_header, None);
    assert_eq!(
        transfer_error(TransferError::Stall).kind,
        ErrorKind::Usb(UsbError::Transfer(TransferError::Stall))
    );
}
