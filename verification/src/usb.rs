//! A device connection over USB: which interface and endpoints it uses, and
//! how messages are cut into transfers and put together from them.

use vstd::prelude::*;
use crate::error::{Detail, Error, ErrorKind, TransferError, UsbError};
use crate::message::{
    canonical, header_bytes, law_header_reads_back, parsed_header, AdbMessage, AdbMessageHeader,
    MessageView, HEADER_LENGTH,
};

verus! {

/// The class of an ADB interface.
pub const ADB_CLASS: u8 = 0xff;

/// The subclass of an ADB interface.
pub const ADB_SUBCLASS: u8 = 0x42;

/// The protocol of an ADB interface.
pub const ADB_PROTOCOL: u8 = 0x1;

/// The vendor of the devices that are opened where interfaces cannot be seen
/// before a device is opened.
pub const ADB_VENDOR: u16 = 0x18D1;

/// The product number of those devices.
pub const ADB_PRODUCT: u16 = 0x4EE7;

/// An interface of a device.
#[derive(Debug, Clone, Copy, PartialEq, Eq)]
pub struct UsbInterface {
    pub number: u8,
    pub class: u8,
    pub subclass: u8,
    pub protocol: u8,
}

/// An endpoint of an interface.
#[derive(Debug, Clone, Copy, PartialEq, Eq)]
pub struct UsbEndpoint {
    pub address: u8,
    /// Whether its transfers are bulk transfers.
    pub bulk: bool,
    /// Whether data flows from the device to the host.
    pub input: bool,
    pub max_packet_size: usize,
}

/// Whether ADB is spoken on the interface.
pub open spec fn speaks_adb(interface: UsbInterface) -> bool {
    interface.class == ADB_CLASS && interface.subclass == ADB_SUBCLASS && interface.protocol
        == ADB_PROTOCOL
}

/// The number of the first ADB interface.
pub open spec fn first_adb_interface(interfaces: Seq<UsbInterface>) -> Option<u8>
    decreases interfaces.len(),
{
    if interfaces.len() == 0 {
        None
    } else if speaks_adb(interfaces[0]) {
        Some(interfaces[0].number)
    } else {
        first_adb_interface(interfaces.skip(1))
    }
}

/// The first bulk endpoint in the direction.
pub open spec fn first_bulk_endpoint(endpoints: Seq<UsbEndpoint>, input: bool) -> Option<
    UsbEndpoint,
>
    decreases endpoints.len(),
{
    if endpoints.len() == 0 {
        None
    } else if endpoints[0].bulk && endpoints[0].input == input {
        Some(endpoints[0])
    } else {
        first_bulk_endpoint(endpoints.skip(1), input)
    }
}

/// The interface of a device on which ADB is spoken.
pub fn adb_interface(interfaces: &Vec<UsbInterface>) -> (number: Result<u8, Error>)
    ensures
        number == match first_adb_interface(interfaces@) {
            Some(n) => Ok(n),
            None => Err(
                Error { kind: ErrorKind::Usb(UsbError::Unsupported), detail: Detail::Nothing },
            ),
        },
{
    let mut i: usize = 0;
    assert(interfaces@.skip(0) =~= interfaces@);
    while i < interfaces.len()
        invariant
            i <= interfaces@.len(),
            first_adb_interface(interfaces@) == first_adb_interface(interfaces@.skip(i as int)),
        decreases interfaces@.len() - i,
    {
        let interface = interfaces[i];
        assert(interfaces@.skip(i as int).skip(1) =~= interfaces@.skip(i + 1));
        if interface.class == ADB_CLASS && interface.subclass == ADB_SUBCLASS
            && interface.protocol == ADB_PROTOCOL {
            return Ok(interface.number);
        }
        i += 1;
    }
    Err(Error::new(ErrorKind::Usb(UsbError::Unsupported)))
}

/// Whether the device is opened where it is known by its numbers only.
pub fn known_device(vendor: u16, product: u16) -> (res: Result<(), Error>)
    ensures
        res == if vendor == ADB_VENDOR && product == ADB_PRODUCT {
            Ok::<(), Error>(())
        } else {
            Err(Error { kind: ErrorKind::Usb(UsbError::Unsupported), detail: Detail::Nothing })
        },
{
    if vendor != ADB_VENDOR || product != ADB_PRODUCT {
        return Err(Error::new(ErrorKind::Usb(UsbError::Unsupported)));
    }
    Ok(())
}

fn bulk_endpoint(endpoints: &Vec<UsbEndpoint>, input: bool) -> (endpoint: Option<UsbEndpoint>)
    ensures
        endpoint == first_bulk_endpoint(endpoints@, input),
{
    let mut i: usize = 0;
    assert(endpoints@.skip(0) =~= endpoints@);
    while i < endpoints.len()
        invariant
            i <= endpoints@.len(),
            first_bulk_endpoint(endpoints@, input) == first_bulk_endpoint(
                endpoints@.skip(i as int),
                input,
            ),
        decreases endpoints@.len() - i,
    {
        let endpoint = endpoints[i];
        assert(endpoints@.skip(i as int).skip(1) =~= endpoints@.skip(i + 1));
        if endpoint.bulk && endpoint.input == input {
            return Some(endpoint);
        }
        i += 1;
    }
    None
}

/// The state of a connection over USB.
#[derive(Debug, PartialEq, Eq)]
pub struct UsbConnection {
    pub packet_size: usize,
    /// The header of a message whose payload is still to come.
    pub in_header: Option<AdbMessageHeader>,
}

/// A connection, and the endpoints that its transfers go through.
#[derive(Debug, PartialEq, Eq)]
pub struct Opened {
    pub connection: UsbConnection,
    pub in_address: u8,
    pub out_address: u8,
}

/// What a claimed interface gives: `None` stands for an interface without a
/// descriptor.
pub open spec fn opened_on(descriptor: Option<Seq<UsbEndpoint>>) -> Result<Opened, Error> {
    match descriptor {
        None => Err(Error { kind: ErrorKind::Usb(UsbError::Other), detail: Detail::NoInterface }),
        Some(endpoints) => match first_bulk_endpoint(endpoints, true) {
            None => Err(
                Error { kind: ErrorKind::Usb(UsbError::Unsupported), detail: Detail::NoInEndpoint },
            ),
            Some(in_ep) => match first_bulk_endpoint(endpoints, false) {
                None => Err(
                    Error {
                        kind: ErrorKind::Usb(UsbError::Unsupported),
                        detail: Detail::NoOutEndpoint,
                    },
                ),
                Some(out_ep) => if in_ep.max_packet_size != out_ep.max_packet_size {
                    Err(
                        Error {
                            kind: ErrorKind::Usb(UsbError::Other),
                            detail: Detail::PacketSizesDiffer,
                        },
                    )
                } else {
                    Ok(
                        Opened {
                            connection: UsbConnection {
                                packet_size: in_ep.max_packet_size,
                                in_header: None,
                            },
                            in_address: in_ep.address,
                            out_address: out_ep.address,
                        },
                    )
                },
            },
        },
    }
}

/// What is done after a transfer from the device.
pub struct UsbRead {
    /// The lengths of the transfers to ask for, in order.
    pub requests: Vec<usize>,
    /// The message that is complete with it.
    pub message: Option<AdbMessage>,
}

/// What is done after a transfer from the device.
#[verifier::ext_equal]
pub struct UsbReadView {
    pub requests: Seq<usize>,
    pub message: Option<MessageView>,
}

impl View for UsbRead {
    type V = UsbReadView;

    open spec fn view(&self) -> UsbReadView {
        UsbReadView {
            requests: self.requests@,
            message: match self.message {
                Some(m) => Some(m@),
                None => None,
            },
        }
    }
}

/// What is done after the transfer `bytes`, and which header then waits for
/// its payload. Nothing is done where the bytes should be a header and are
/// not.
pub open spec fn after_transfer(in_header: Option<AdbMessageHeader>, bytes: Seq<u8>) -> Option<
    (Option<AdbMessageHeader>, UsbReadView),
> {
    match in_header {
        Some(header) => Some(
            (
                None,
                UsbReadView {
                    requests: seq![],
                    message: Some(MessageView { header, payload: bytes }),
                },
            ),
        ),
        None => match parsed_header(bytes) {
            None => None,
            Some(header) => if header.data_length == 0 {
                Some(
                    (
                        None,
                        UsbReadView {
                            requests: seq![HEADER_LENGTH],
                            message: Some(MessageView { header, payload: seq![] }),
                        },
                    ),
                )
            } else {
                Some(
                    (
                        Some(header),
                        UsbReadView {
                            requests: seq![header.data_length as usize, HEADER_LENGTH],
                            message: None,
                        },
                    ),
                )
            },
        },
    }
}

/// The transfers for a header and a payload of the given length: the header,
/// the payload unless it is empty, and an empty transfer where the payload
/// would otherwise not end with a packet that is not full.
pub open spec fn cut(header: Seq<u8>, payload: Seq<u8>, length: int, packet_size: int) -> Seq<
    Seq<u8>,
> {
    if payload.len() == 0 {
        seq![header]
    } else if length % packet_size != 0 {
        seq![header, payload]
    } else {
        seq![header, payload, seq![]]
    }
}

/// The transfers that a message is sent in.
pub open spec fn transfers(msg: MessageView, packet_size: int) -> Seq<Seq<u8>> {
    cut(header_bytes(msg.header), msg.payload, msg.header.data_length as int, packet_size)
}

/// The contents of transfers.
pub open spec fn contents(list: Seq<Vec<u8>>) -> Seq<Seq<u8>> {
    list.map_values(|bytes: Vec<u8>| bytes@)
}

/// The error for a failed transfer.
pub fn transfer_error(error: TransferError) -> (res: Error)
    ensures
        res == (Error {
            kind: ErrorKind::Usb(UsbError::Transfer(error)),
            detail: Detail::Nothing,
        }),
{
    Error::new(ErrorKind::Usb(UsbError::Transfer(error)))
}

impl UsbConnection {
    /// Chooses the endpoints on a claimed interface, by the endpoints of its
    /// first descriptor.
    pub fn new(descriptor: Option<&Vec<UsbEndpoint>>) -> (res: Result<Opened, Error>)
        ensures
            res == opened_on(
                match descriptor {
                    Some(endpoints) => Some(endpoints@),
                    None => None,
                },
            ),
    {
        let endpoints = match descriptor {
            Some(e) => e,
            None => {
                return Err(Error::with(ErrorKind::Usb(UsbError::Other), Detail::NoInterface));
            },
        };
        let in_ep = match bulk_endpoint(endpoints, true) {
            Some(e) => e,
            None => {
                return Err(
                    Error::with(ErrorKind::Usb(UsbError::Unsupported), Detail::NoInEndpoint),
                );
            },
        };
        let out_ep = match bulk_endpoint(endpoints, false) {
            Some(e) => e,
            None => {
                return Err(
                    Error::with(ErrorKind::Usb(UsbError::Unsupported), Detail::NoOutEndpoint),
                );
            },
        };
        if in_ep.max_packet_size != out_ep.max_packet_size {
            return Err(Error::with(ErrorKind::Usb(UsbError::Other), Detail::PacketSizesDiffer));
        }
        Ok(
            Opened {
                connection: UsbConnection {
                    packet_size: in_ep.max_packet_size,
                    in_header: None,
                },
                in_address: in_ep.address,
                out_address: out_ep.address,
            },
        )
    }

    /// The transfer to ask for before a message is read, where none is under
    /// way.
    pub fn first_request(pending: usize) -> (length: Option<usize>)
        ensures
            length == if pending == 0 {
                Some(HEADER_LENGTH)
            } else {
                None
            },
    {
        if pending == 0 {
            Some(HEADER_LENGTH)
        } else {
            None
        }
    }

    /// Takes in a transfer from the device.
    pub fn read_transfer(&mut self, bytes: Vec<u8>) -> (res: Result<UsbRead, Error>)
        ensures
            final(self).packet_size == old(self).packet_size,
            match after_transfer(old(self).in_header, bytes@) {
                Some((in_header, view)) => {
                    &&& final(self).in_header == in_header
                    &&& res matches Ok(read)
                    &&& read@ == view
                },
                None => {
                    &&& *final(self) == *old(self)
                    &&& res matches Err(e)
                    &&& e == (Error {
                        kind: ErrorKind::InvalidData,
                        detail: Detail::MalformedHeader,
                    })
                },
            },
    {
        match self.in_header.take() {
            Some(header) => Ok(
                UsbRead {
                    requests: Vec::new(),
                    message: Some(AdbMessage { header, payload: bytes }),
                },
            ),
            None => {
                let header = match AdbMessageHeader::read(bytes.as_slice()) {
                    Ok(h) => h,
                    Err(e) => {
                        return Err(e);
                    },
                };
                let mut requests: Vec<usize> = Vec::new();
                if header.data_length > 0 {
                    requests.push(header.data_length as usize);
                }
                requests.push(HEADER_LENGTH);
                if header.data_length == 0 {
                    let read = UsbRead {
                        requests,
                        message: Some(AdbMessage { header, payload: Vec::new() }),
                    };
                    assert(read.message->0@.payload =~= seq![]);
                    assert(read@.requests =~= seq![HEADER_LENGTH]);
                    return Ok(read);
                }
                self.in_header = Some(header);
                assert(requests@ =~= seq![header.data_length as usize, HEADER_LENGTH]);
                Ok(UsbRead { requests, message: None })
            },
        }
    }

    /// Cuts a message into transfers.
    pub fn write_message(&self, msg: AdbMessage) -> (list: Vec<Vec<u8>>)
        requires
            msg.payload@.len() > 0 ==> self.packet_size as int % 0x1_0000_0000 != 0,
        ensures
            contents(list@) == transfers(msg@, self.packet_size as int % 0x1_0000_0000),
    {
        let mut list: Vec<Vec<u8>> = Vec::new();
        list.push(msg.header.to_vec());
        if msg.payload.len() != 0 {
            let packet_size: u32 = (self.packet_size as u64 % 0x1_0000_0000) as u32;
            list.push(msg.payload);
            if msg.header.data_length % packet_size == 0 {
                list.push(Vec::new());
                assert(contents(list@)[2] =~= seq![]);
            }
        }
        assert(contents(list@) =~= transfers(msg@, self.packet_size as int % 0x1_0000_0000));
        list
    }
}

/// Whether the transfers `first` and `second` put the message together: the
/// first alone where the payload is empty.
pub open spec fn put_together(msg: MessageView, first: Seq<u8>, second: Seq<u8>) -> bool {
    match after_transfer(None, first) {
        Some((None, read)) => msg.payload.len() == 0 && read.message == Some(msg),
        Some((Some(header), read)) => {
            &&& msg.payload.len() > 0
            &&& read.message is None
            &&& read.requests[0] == second.len()
            &&& after_transfer(Some(header), second) matches Some((None, whole))
            &&& whole.message == Some(msg)
        },
        None => false,
    }
}

proof fn lemma_put_together(msg: MessageView, first: Seq<u8>)
    requires
        parsed_header(first) == Some(msg.header),
        msg.header.data_length == msg.payload.len(),
    ensures
        put_together(msg, first, msg.payload),
{
    if msg.payload.len() == 0 {
        assert(msg.payload =~= seq![]);
    }
}

proof fn lemma_cut(header: Seq<u8>, payload: Seq<u8>, length: int, packet_size: int)
    ensures
        ({
            let sent = cut(header, payload, length, packet_size);
            &&& sent.len() >= 1
            &&& sent[0] == header
            &&& payload.len() == 0 ==> sent.len() == 1
            &&& payload.len() > 0 ==> sent.len() > 1 && sent[1] == payload
        }),
{
}

proof fn lemma_header_reads_back(header: AdbMessageHeader)
    requires
        canonical(header.command),
    ensures
        parsed_header(header_bytes(header)) == Some(header),
{
    law_header_reads_back(header, seq![]);
    assert(header_bytes(header) + seq![] =~= header_bytes(header));
}

/// A message that was cut into transfers is put together again from the first
/// two of them, or from the first alone where its payload is empty.
pub proof fn law_transfers_read_back(msg: MessageView, packet_size: int)
    requires
        canonical(msg.header.command),
        msg.header.data_length == msg.payload.len(),
        packet_size > 0,
    ensures
        ({
            let sent = transfers(msg, packet_size);
            let second = if sent.len() > 1 {
                sent[1]
            } else {
                seq![]
            };
            put_together(msg, sent[0], second)
        }),
{
    lemma_header_reads_back(msg.header);
    lemma_put_together(msg, header_bytes(msg.header));
    lemma_cut(
        header_bytes(msg.header),
        msg.payload,
        msg.header.data_length as int,
        packet_size,
    );
    if msg.payload.len() == 0 {
        assert(msg.payload =~= seq![]);
    }
}

/// The last transfer of a payload is not a full packet: a device sees where
/// the payload ends.
pub proof fn law_payload_ends_with_a_short_packet(msg: MessageView, packet_size: int)
    requires
        msg.header.data_length == msg.payload.len(),
        packet_size > 0,
    ensures
        ({
            let sent = transfers(msg, packet_size);
            msg.payload.len() > 0 ==> sent.last().len() as int % packet_size != 0
                || sent.last().len() == 0
        }),
{
}

/// ADB is spoken on the first interface of the class, subclass and protocol of
/// ADB; a device without one is not supported.
pub proof fn law_the_first_adb_interface_is_used(
    interfaces: &Vec<UsbInterface>,
    res: Result<u8, Error>,
)
    requires
        call_ensures(adb_interface, (interfaces,), res),
    ensures
        match res {
            Ok(n) => exists|i: int|
                0 <= i < interfaces@.len() && is_adb(#[trigger] interfaces@[i])
                    && interfaces@[i].number == n && forall|j: int|
                    0 <= j < i ==> !is_adb(#[trigger] interfaces@[j]),
            Err(e) => e.kind == ErrorKind::Usb(UsbError::Unsupported) && forall|i: int|
                0 <= i < interfaces@.len() ==> !is_adb(#[trigger] interfaces@[i]),
        },
{
    lemma_first_interface(interfaces@);
}

/// Whether the numbers of the interface are those of ADB.
pub open spec fn is_adb(interface: UsbInterface) -> bool {
    interface.class == 0xff && interface.subclass == 0x42 && interface.protocol == 1
}

proof fn lemma_first_interface(list: Seq<UsbInterface>)
    ensures
        match first_adb_interface(list) {
            Some(n) => exists|i: int|
                0 <= i < list.len() && is_adb(#[trigger] list[i]) && list[i].number == n && forall|
                    j: int,
                |
                    0 <= j < i ==> !is_adb(#[trigger] list[j]),
            None => forall|i: int| 0 <= i < list.len() ==> !is_adb(#[trigger] list[i]),
        },
    decreases list.len(),
{
    if list.len() > 0 && !speaks_adb(list[0]) {
        let rest = list.skip(1);
        lemma_first_interface(rest);
        match first_adb_interface(rest) {
            Some(n) => {
                let i = choose|i: int|
                    0 <= i < rest.len() && is_adb(#[trigger] rest[i]) && rest[i].number == n
                        && forall|j: int| 0 <= j < i ==> !is_adb(#[trigger] rest[j]);
                assert(list[i + 1] == rest[i]);
                assert forall|j: int| 0 <= j < i + 1 implies !is_adb(#[trigger] list[j]) by {
                    if j > 0 {
                        assert(list[j] == rest[j - 1]);
                    }
                }
            },
            None => {
                assert forall|j: int| 0 <= j < list.len() implies !is_adb(#[trigger] list[j]) by {
                    if j > 0 {
                        assert(list[j] == rest[j - 1]);
                    }
                }
            },
        }
    } else if list.len() > 0 {
        assert(is_adb(list[0]));
    }
}

/// Whether the endpoint at `i` is the first for bulk transfers in the direction.
pub open spec fn is_first_bulk(list: Seq<UsbEndpoint>, input: bool, i: int) -> bool {
    &&& 0 <= i < list.len()
    &&& list[i].bulk && list[i].input == input
    &&& forall|j: int| 0 <= j < i ==> !((#[trigger] list[j]).bulk && list[j].input == input)
}

proof fn lemma_first_bulk(list: Seq<UsbEndpoint>, input: bool)
    ensures
        match first_bulk_endpoint(list, input) {
            Some(e) => exists|i: int| #[trigger] is_first_bulk(list, input, i) && list[i] == e,
            None => forall|i: int|
                0 <= i < list.len() ==> !((#[trigger] list[i]).bulk && list[i].input == input),
        },
    decreases list.len(),
{
    if list.len() > 0 {
        let rest = list.skip(1);
        if list[0].bulk && list[0].input == input {
            assert(is_first_bulk(list, input, 0));
        } else {
            lemma_first_bulk(rest, input);
            match first_bulk_endpoint(rest, input) {
                Some(e) => {
                    let i = choose|i: int| #[trigger]
                        is_first_bulk(rest, input, i) && rest[i] == e;
                    assert(list[i + 1] == rest[i]);
                    assert forall|j: int| 0 <= j < i + 1 implies !((#[trigger] list[j]).bulk
                        && list[j].input == input) by {
                        if j > 0 {
                            assert(list[j] == rest[j - 1]);
                        }
                    }
                    assert(is_first_bulk(list, input, i + 1));
                },
                None => {
                    assert forall|j: int| 0 <= j < list.len() implies !((#[trigger] list[j]).bulk
                        && list[j].input == input) by {
                        if j > 0 {
                            assert(list[j] == rest[j - 1]);
                        }
                    }
                },
            }
        }
    }
}

/// A connection reads from the first bulk endpoint towards the host and writes to
/// the first away from it, and their packets are equally large; without them there
/// is no connection.
pub proof fn law_endpoints_are_chosen_by_direction(
    endpoints: &Vec<UsbEndpoint>,
    res: Result<Opened, Error>,
    none: Result<Opened, Error>,
)
    requires
        call_ensures(UsbConnection::new, (Some(endpoints),), res),
        call_ensures(UsbConnection::new, (None,), none),
    ensures
        none matches Err(e) && e.kind == ErrorKind::Usb(UsbError::Other),
        match res {
            Ok(o) => exists|i: int, j: int| #[trigger]
                is_first_bulk(endpoints@, true, i) && #[trigger] is_first_bulk(
                    endpoints@,
                    false,
                    j,
                ) && o.in_address == endpoints@[i].address && o.out_address
                    == endpoints@[j].address && o.connection.packet_size
                    == endpoints@[i].max_packet_size && o.connection.packet_size
                    == endpoints@[j].max_packet_size && o.connection.in_header is None,
            Err(e) => if e.kind == ErrorKind::Usb(UsbError::Unsupported) {
                ||| forall|i: int| !#[trigger] is_first_bulk(endpoints@, true, i)
                ||| forall|i: int| !#[trigger] is_first_bulk(endpoints@, false, i)
            } else {
                exists|i: int, j: int| #[trigger]
                    is_first_bulk(endpoints@, true, i) && #[trigger] is_first_bulk(
                        endpoints@,
                        false,
                        j,
                    ) && endpoints@[i].max_packet_size != endpoints@[j].max_packet_size
            },
        },
{
    lemma_first_bulk(endpoints@, true);
    lemma_first_bulk(endpoints@, false);
    if first_bulk_endpoint(endpoints@, true) is Some && first_bulk_endpoint(endpoints@, false)
        is Some {
        let i = choose|i: int| #[trigger]
            is_first_bulk(endpoints@, true, i) && endpoints@[i] == first_bulk_endpoint(
                endpoints@,
                true,
            )->0;
        let j = choose|j: int| #[trigger]
            is_first_bulk(endpoints@, false, j) && endpoints@[j] == first_bulk_endpoint(
                endpoints@,
                false,
            )->0;
        assert(is_first_bulk(endpoints@, true, i) && is_first_bulk(endpoints@, false, j));
    }
}

/// A message that is written in transfers is read back from them: its header
/// first, for which 24 bytes are always asked, and then its payload, for which as
/// many bytes are asked as it has, before the next header. A payload that is a
/// multiple of the packets, and only that, is followed by an empty transfer.
pub proof fn law_messages_go_over_in_transfers(
    sender: &UsbConnection,
    msg: AdbMessage,
    list: Vec<Vec<u8>>,
    receiver: &mut UsbConnection,
    header: Vec<u8>,
    first: Result<UsbRead, Error>,
    later: &mut UsbConnection,
    payload: Vec<u8>,
    second: Result<UsbRead, Error>,
)
    requires
        canonical(msg.header.command),
        msg.header.data_length == msg.payload@.len(),
        0 < sender.packet_size < 0x1_0000_0000,
        call_ensures(UsbConnection::write_message, (sender, msg), list),
        old(receiver).in_header is None,
        list@.len() > 0 ==> header@ == list@[0]@,
        call_ensures(UsbConnection::read_transfer, (receiver, header), first),
        *old(later) == *final(receiver),
        list@.len() > 1 ==> payload@ == list@[1]@,
        call_ensures(UsbConnection::read_transfer, (later, payload), second),
    ensures
        list@.len() >= 1,
        list@[0]@.len() == 24,
        list@.len() == if msg.payload@.len() == 0 {
            1int
        } else if msg.payload@.len() as int % sender.packet_size as int == 0 {
            3
        } else {
            2
        },
        list@.len() == 3 ==> list@[2]@.len() == 0,
        list@.len() > 1 ==> list@[1]@ == msg.payload@,
        msg.payload@.len() == 0 ==> {
            &&& first matches Ok(r) && r.requests@ == seq![24usize] && (r.message matches Some(m)
                && m@ == msg@)
            &&& final(receiver).in_header is None
        },
        msg.payload@.len() > 0 ==> {
            &&& first matches Ok(r) && r.message is None && r.requests@ == seq![
                msg.payload@.len() as usize,
                24usize,
            ]
            &&& second matches Ok(r) && r.requests@.len() == 0 && (r.message matches Some(m) && m@
                == msg@)
            &&& final(later).in_header is None
        },
{
    lemma_header_reads_back(msg.header);
    law_header_reads_back(msg.header, seq![]);
    let sent = contents(list@);
    lemma_cut(
        header_bytes(msg.header),
        msg.payload@,
        msg.header.data_length as int,
        sender.packet_size as int,
    );
    assert(sent.len() == list@.len());
    assert(sent[0] == list@[0]@);
    if msg.payload@.len() > 0 {
        assert(sent[1] == list@[1]@);
    } else {
        assert(msg.payload@ =~= seq![]);
        assert(msg@.payload =~= Seq::<u8>::empty());
    }
    if sent.len() == 3 {
        assert(sent[2] == list@[2]@);
    }
    if let Ok(r) = first {
        assert(r@.requests == r.requests@);
    }
    if let Ok(r) = second {
        assert(r@.requests == r.requests@);
    }
}

/// Bytes that should be a header and are none change nothing and are refused;
/// bytes that should be a payload are taken as they are.
pub proof fn law_transfers_are_headers_and_payloads_in_turn(
    connection: &mut UsbConnection,
    bytes: Vec<u8>,
    slice: &[u8],
    read: Result<AdbMessageHeader, Error>,
    res: Result<UsbRead, Error>,
)
    requires
        slice@ == bytes@,
        call_ensures(AdbMessageHeader::read, (slice,), read),
        call_ensures(UsbConnection::read_transfer, (connection, bytes), res),
    ensures
        final(connection).packet_size == old(connection).packet_size,
        old(connection).in_header is None && read is Err ==> *final(connection) == *old(connection)
            && (res matches Err(e) && e.kind == ErrorKind::InvalidData),
        old(connection).in_header is None ==> (read matches Ok(h) ==> {
            &&& res matches Ok(r)
            &&& r.requests@.last() == 24
            &&& h.data_length > 0 ==> final(connection).in_header == Some(h) && r.message is None
                && r.requests@ == seq![h.data_length as usize, 24usize]
            &&& h.data_length == 0 ==> final(connection).in_header is None && r.requests@ == seq![
                24usize,
            ] && (r.message matches Some(m) && m.header == h && m.payload@.len() == 0)
        }),
        old(connection).in_header matches Some(h) ==> {
            &&& final(connection).in_header is None
            &&& res matches Ok(r)
            &&& r.requests@.len() == 0
            &&& r.message matches Some(m)
            &&& m.header == h
            &&& m.payload@ == bytes@
        },
{
    if let Ok(r) = res {
        assert(r@.requests == r.requests@);
        if let Some(m) = r.message {
            assert(m@.header == m.header && m@.payload == m.payload@);
        }
    }
}

/// A header is asked for where nothing is under way; where only its numbers tell
/// a device, exactly one kind is opened; and a failed transfer is told as that.
pub proof fn law_headers_devices_and_faults(
    pending: usize,
    asked: Option<usize>,
    vendor: u16,
    product: u16,
    known: Result<(), Error>,
    failure: TransferError,
    error: Error,
)
    requires
        call_ensures(UsbConnection::first_request, (pending,), asked),
        call_ensures(known_device, (vendor, product), known),
        call_ensures(transfer_error, (failure,), error),
    ensures
        asked is Some <==> pending == 0,
        asked matches Some(n) ==> n == 24,
        known is Ok <==> vendor == 0x18d1 && product == 0x4ee7,
        known matches Err(e) ==> e.kind == ErrorKind::Usb(UsbError::Unsupported),
        error.kind == ErrorKind::Usb(UsbError::Transfer(failure)),
{
}

} // verus!
