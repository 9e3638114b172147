//! The side of the daemon that clients talk to: status replies, the choice of
//! a device, and the list of devices.

use std::sync::Arc;
use vstd::prelude::*;
use vstd::utf8::encode_utf8;
use crate::banner::{lookup, Banner, BannerView};
use crate::connection::{
    conn_views, found, is_open, lists, open_part, ConnView, ConnectionMgr, MgrView, Standing,
    WeakConnection, DISCONNECTED,
};
use crate::le::{law_bytes_have_their_weights, le64, write_u64};
use crate::number::{decimal, digits};
use crate::proto::{proto_text, Proto, ProtoView};
use crate::protocol::{
    framed, law_read_back, read_text, write_protocol_string, ProtocolError,
};
use crate::text::{
    chars_of, has_prefix, law_cut_at_the_first, law_cut_takes_one_separator_out,
    law_prefix_comes_off, split_at_first, split_once, string_of, strip_prefix, stripped,
};

verus! {

/// The size of the buffers through which data is passed on.
pub const BUF_SIZE: usize = 0x10_0000;

/// How a request went.
#[derive(Debug, Clone, Copy, PartialEq, Eq)]
pub enum Status {
    Okay,
    Fail,
}

/// A status as it is sent: `OKAY` or `FAIL`.
pub open spec fn status_bytes(status: Status) -> Seq<u8> {
    match status {
        Status::Okay => seq![0x4f, 0x4b, 0x41, 0x59],
        Status::Fail => seq![0x46, 0x41, 0x49, 0x4c],
    }
}

/// A status with a text.
pub open spec fn status_with(status: Status, text: Seq<char>) -> Seq<u8> {
    status_bytes(status) + framed(encode_utf8(text))
}

impl Status {
    /// The status as it is sent.
    pub fn bytes(&self) -> (bytes: [u8; 4])
        ensures
            bytes@ == status_bytes(*self),
    {
        let bytes: [u8; 4] = match self {
            Status::Okay => [0x4f, 0x4b, 0x41, 0x59],
            Status::Fail => [0x46, 0x41, 0x49, 0x4c],
        };
        assert(bytes@ =~= status_bytes(*self));
        bytes
    }
}

/// Why no device was picked.
#[derive(Debug, PartialEq, Eq)]
pub enum PickDeviceError {
    NotSelected,
    NoDevices,
    MoreThanOne,
    NotFound(String),
}

/// Why no device was picked.
#[verifier::ext_equal]
pub enum PickError {
    NotSelected,
    NoDevices,
    MoreThanOne,
    NotFound(Seq<char>),
}

impl View for PickDeviceError {
    type V = PickError;

    open spec fn view(&self) -> PickError {
        match self {
            PickDeviceError::NotSelected => PickError::NotSelected,
            PickDeviceError::NoDevices => PickError::NoDevices,
            PickDeviceError::MoreThanOne => PickError::MoreThanOne,
            PickDeviceError::NotFound(serial) => PickError::NotFound(serial@),
        }
    }
}

/// What the client is told where no device was picked.
pub open spec fn pick_error_text(e: PickError) -> Seq<char> {
    match e {
        PickError::NotSelected => "no device selected"@,
        PickError::NoDevices => "no devices/emulators found"@,
        PickError::MoreThanOne => "more than one device/emulator"@,
        PickError::NotFound(serial) => "device '"@ + serial + "' not found"@,
    }
}

impl PickDeviceError {
    /// What the client is told.
    pub fn text(&self) -> (text: String)
        ensures
            text@ == pick_error_text(self@),
    {
        match self {
            PickDeviceError::NotSelected => "no device selected".to_owned(),
            PickDeviceError::NoDevices => "no devices/emulators found".to_owned(),
            PickDeviceError::MoreThanOne => "more than one device/emulator".to_owned(),
            PickDeviceError::NotFound(serial) => {
                let mut text = "device '".to_owned();
                text.append(serial.as_str());
                text.append("' not found");
                text
            },
        }
    }
}

/// Why a request failed.
#[derive(Debug, PartialEq, Eq)]
pub enum ServiceError {
    /// The request could not be read.
    ReadService,
    /// The request names a serial number and nothing to do.
    Malformed,
    /// Nothing goes by the name in the request.
    NotFound,
    Pick(PickDeviceError),
    Disconnected,
    /// The client sent something while it should wait.
    UnexpectedData,
    OpenSocket,
    /// A forward has no second end.
    Invalid,
    ParseLocal,
    ParseRemote,
    ParsePort,
    UnsupportedProtocol(Proto),
    AlreadyBound,
    Bind,
    MalformedReverse,
    WouldFail,
    /// Something outside failed, in its own words.
    Outside(String),
}

/// Why a request failed.
#[verifier::ext_equal]
pub enum Failed {
    ReadService,
    Malformed,
    NotFound,
    Pick(PickError),
    Disconnected,
    UnexpectedData,
    OpenSocket,
    Invalid,
    ParseLocal,
    ParseRemote,
    ParsePort,
    UnsupportedProtocol(ProtoView),
    AlreadyBound,
    Bind,
    MalformedReverse,
    WouldFail,
    Outside(Seq<char>),
}

impl View for ServiceError {
    type V = Failed;

    open spec fn view(&self) -> Failed {
        match self {
            ServiceError::ReadService => Failed::ReadService,
            ServiceError::Malformed => Failed::Malformed,
            ServiceError::NotFound => Failed::NotFound,
            ServiceError::Pick(e) => Failed::Pick(e@),
            ServiceError::Disconnected => Failed::Disconnected,
            ServiceError::UnexpectedData => Failed::UnexpectedData,
            ServiceError::OpenSocket => Failed::OpenSocket,
            ServiceError::Invalid => Failed::Invalid,
            ServiceError::ParseLocal => Failed::ParseLocal,
            ServiceError::ParseRemote => Failed::ParseRemote,
            ServiceError::ParsePort => Failed::ParsePort,
            ServiceError::UnsupportedProtocol(p) => Failed::UnsupportedProtocol(p@),
            ServiceError::AlreadyBound => Failed::AlreadyBound,
            ServiceError::Bind => Failed::Bind,
            ServiceError::MalformedReverse => Failed::MalformedReverse,
            ServiceError::WouldFail => Failed::WouldFail,
            ServiceError::Outside(text) => Failed::Outside(text@),
        }
    }
}

/// What the client is told where a request failed.
pub open spec fn failure_text(e: Failed) -> Seq<char> {
    match e {
        Failed::ReadService => "read service"@,
        Failed::Malformed => "malformed service"@,
        Failed::NotFound => "service not found"@,
        Failed::Pick(e) => pick_error_text(e),
        Failed::Disconnected => DISCONNECTED@,
        Failed::UnexpectedData => "should not read anything"@,
        Failed::OpenSocket => "open socket"@,
        Failed::Invalid => "invalid"@,
        Failed::ParseLocal => "parse local"@,
        Failed::ParseRemote => "parse remote"@,
        Failed::ParsePort => "parse port"@,
        Failed::UnsupportedProtocol(p) => "unsupported protocol: "@ + proto_text(p),
        Failed::AlreadyBound => "already bound"@,
        Failed::Bind => "bind"@,
        Failed::MalformedReverse => "malformed reverse service"@,
        Failed::WouldFail => "already bound, would fail"@,
        Failed::Outside(text) => text,
    }
}

impl ServiceError {
    /// What the client is told.
    pub fn text(&self) -> (text: String)
        ensures
            text@ == failure_text(self@),
    {
        match self {
            ServiceError::ReadService => "read service".to_owned(),
            ServiceError::Malformed => "malformed service".to_owned(),
            ServiceError::NotFound => "service not found".to_owned(),
            ServiceError::Pick(e) => e.text(),
            ServiceError::Disconnected => DISCONNECTED.to_owned(),
            ServiceError::UnexpectedData => "should not read anything".to_owned(),
            ServiceError::OpenSocket => "open socket".to_owned(),
            ServiceError::Invalid => "invalid".to_owned(),
            ServiceError::ParseLocal => "parse local".to_owned(),
            ServiceError::ParseRemote => "parse remote".to_owned(),
            ServiceError::ParsePort => "parse port".to_owned(),
            ServiceError::UnsupportedProtocol(p) => {
                let mut text = "unsupported protocol: ".to_owned();
                text.append(p.text().as_str());
                text
            },
            ServiceError::AlreadyBound => "already bound".to_owned(),
            ServiceError::Bind => "bind".to_owned(),
            ServiceError::MalformedReverse => "malformed reverse service".to_owned(),
            ServiceError::WouldFail => "already bound, would fail".to_owned(),
            ServiceError::Outside(text) => text.clone(),
        }
    }
}

/// Which device the client wants.
#[derive(Debug, Clone)]
pub enum DeviceSelector {
    Connection(Arc<WeakConnection>),
    Serial(String),
    Any,
    Unset,
}

/// Which device the client wants.
#[verifier::ext_equal]
pub enum Selector {
    Connection(ConnView),
    Serial(Seq<char>),
    Any,
    Unset,
}

impl View for DeviceSelector {
    type V = Selector;

    open spec fn view(&self) -> Selector {
        match self {
            DeviceSelector::Connection(conn) => Selector::Connection(conn@),
            DeviceSelector::Serial(serial) => Selector::Serial(serial@),
            DeviceSelector::Any => Selector::Any,
            DeviceSelector::Unset => Selector::Unset,
        }
    }
}

impl DeviceSelector {
    /// Whether a connection in it is in order.
    pub open spec fn wf(self) -> bool {
        self matches DeviceSelector::Connection(conn) ==> conn.banner.wf()
    }

    /// The same choice once more.
    pub fn copy(&self) -> (copy: DeviceSelector)
        ensures
            copy@ == self@,
            self.wf() ==> copy.wf(),
    {
        match self {
            DeviceSelector::Connection(conn) => DeviceSelector::Connection(Arc::clone(conn)),
            DeviceSelector::Serial(serial) => DeviceSelector::Serial(serial.clone()),
            DeviceSelector::Any => DeviceSelector::Any,
            DeviceSelector::Unset => DeviceSelector::Unset,
        }
    }
}

/// Whether the serial number is that of the one connection there is.
pub open spec fn only(all: Map<Seq<char>, ConnView>, serial: Seq<char>) -> bool {
    &&& all.contains_key(serial)
    &&& forall|other: Seq<char>| #[trigger] all.contains_key(other) ==> other == serial
}

/// The connection that the choice comes down to.
pub open spec fn picked(all: MgrView, standing: Standing, selector: Selector) -> Result<
    ConnView,
    PickError,
> {
    let open = open_part(all.by_serial, standing);
    match selector {
        Selector::Connection(conn) => Ok(conn),
        Selector::Serial(serial) => match found(all, standing, serial) {
            Some(conn) => Ok(conn),
            None => Err(PickError::NotFound(serial)),
        },
        Selector::Any => if open.dom() == Set::<Seq<char>>::empty() {
            Err(PickError::NoDevices)
        } else if exists|serial: Seq<char>| only(open, serial) {
            Ok(open[choose|serial: Seq<char>| only(open, serial)])
        } else {
            Err(PickError::MoreThanOne)
        },
        Selector::Unset => Err(PickError::NotSelected),
    }
}

/// The choice after it was tried: fixed on the connection, if there was one.
pub open spec fn after_pick(all: MgrView, standing: Standing, selector: Selector) -> Selector {
    match picked(all, standing, selector) {
        Ok(conn) => Selector::Connection(conn),
        Err(_) => selector,
    }
}

/// What a request asks for that only chooses a device, and whether in the old
/// way, which tells no number of the connection.
pub open spec fn transport_request(service: Seq<char>) -> Option<(bool, Selector)> {
    match stripped(service, "host:transport:"@) {
        Some(serial) => Some((true, Selector::Serial(serial))),
        None => match stripped(service, "host:tport:"@) {
            Some(s) => Some(
                (
                    false,
                    match stripped(s, "serial:"@) {
                        Some(serial) => Selector::Serial(serial),
                        None => Selector::Any,
                    },
                ),
            ),
            None => None,
        },
    }
}

/// What a request with a choice of device in it comes down to: the choice and
/// the rest of the request.
pub open spec fn addressed_request(service: Seq<char>, selector: Selector) -> Result<
    (Selector, Seq<char>),
    Failed,
> {
    match stripped(service, "host-serial:"@) {
        Some(s) => match split_at_first(s, ':') {
            Some((serial, rest)) => Ok((Selector::Serial(serial), "host:"@ + rest)),
            None => Err(Failed::Malformed),
        },
        None => if has_prefix(service, "host:"@) {
            Ok((Selector::Any, service))
        } else {
            Ok((selector, service))
        },
    }
}

/// The reply to a request that only chooses a device.
pub open spec fn transport_reply(legacy: bool, conn: ConnView) -> Seq<u8> {
    if legacy {
        status_bytes(Status::Okay)
    } else {
        status_bytes(Status::Okay) + le64(conn.id)
    }
}

/// What became of the choice of device in a request.
pub enum Selection {
    /// The device is chosen: send the reply, and read the request for it.
    Chosen(Vec<u8>),
    /// This is the request.
    Service(String),
}

/// A client.
#[derive(Debug)]
pub struct SmartSocket {
    pub device: DeviceSelector,
}

/// The reply to a request that failed.
pub fn failure_reply(error: &ServiceError) -> (bytes: Vec<u8>)
    ensures
        bytes@ == status_with(Status::Fail, failure_text(error@)),
{
    SmartSocket::respond_data(Status::Fail, error.text().as_str())
}

impl SmartSocket {
    /// A client that has not chosen a device.
    pub fn new() -> (socket: SmartSocket)
        ensures
            socket.device is Unset,
            socket.device.wf(),
    {
        SmartSocket { device: DeviceSelector::Unset }
    }

    /// A status, as it is sent.
    pub fn respond(status: Status) -> (bytes: Vec<u8>)
        ensures
            bytes@ == status_bytes(status),
    {
        let status = status.bytes();
        let mut bytes: Vec<u8> = Vec::new();
        bytes.push(status[0]);
        bytes.push(status[1]);
        bytes.push(status[2]);
        bytes.push(status[3]);
        assert(bytes@ =~= status@);
        bytes
    }

    /// A status with a text, as it is sent.
    pub fn respond_data(status: Status, data: &str) -> (bytes: Vec<u8>)
        ensures
            bytes@ == status_with(status, data@),
    {
        let mut bytes = Self::respond(status);
        let data = data.as_bytes_vec();
        let mut framed = write_protocol_string(data.as_slice());
        bytes.append(&mut framed);
        bytes
    }

    /// The list of the open connections.
    pub fn list_devices(mgr: &ConnectionMgr, standing: &Standing, long: bool) -> (text: String)
        requires
            mgr.wf(),
        ensures
            is_device_list(text@, mgr@, *standing, long),
    {
        let list = mgr.iter(standing);
        device_list(&list, long)
    }

    /// Picks the device that the client wants; the choice then stays.
    pub fn pick_connection(&mut self, mgr: &ConnectionMgr, standing: &Standing) -> (res: Result<
        Arc<WeakConnection>,
        PickDeviceError,
    >)
        requires
            mgr.wf(),
            old(self).device.wf(),
        ensures
            final(self).device.wf(),
            final(self).device@ == after_pick(mgr@, *standing, old(self).device@),
            match res {
                Ok(conn) => picked(mgr@, *standing, old(self).device@) == Ok::<_, PickError>(
                    conn@,
                ) && conn.banner.wf(),
                Err(e) => picked(mgr@, *standing, old(self).device@) == Err::<ConnView, _>(e@),
            },
    {
        let conn = match &self.device {
            DeviceSelector::Connection(conn) => {
                return Ok(Arc::clone(conn));
            },
            DeviceSelector::Serial(serial) => match mgr.get(standing, serial.as_str()) {
                Some(conn) => conn,
                None => {
                    return Err(PickDeviceError::NotFound(serial.clone()));
                },
            },
            DeviceSelector::Any => {
                let list = mgr.iter(standing);
                let ghost open = open_part(mgr@.by_serial, *standing);
                let ghost views = conn_views(list@);
                if list.len() == 0 {
                    assert(open.dom() =~= Set::<Seq<char>>::empty());
                    return Err(PickDeviceError::NoDevices);
                }
                assert(open.contains_key(views[0].serial));
                if list.len() > 1 {
                    proof {
                        assert(open.contains_key(views[1].serial));
                        assert(views[0].serial != views[1].serial);
                    }
                    return Err(PickDeviceError::MoreThanOne);
                }
                assert(only(open, views[0].serial));
                Arc::clone(&list[0])
            },
            DeviceSelector::Unset => {
                return Err(PickDeviceError::NotSelected);
            },
        };
        self.device = DeviceSelector::Connection(Arc::clone(&conn));
        Ok(conn)
    }

    /// Takes the choice of a device out of a request.
    pub fn consume_device_selector(
        &mut self,
        mgr: &ConnectionMgr,
        standing: &Standing,
        service: &str,
    ) -> (res: Result<Selection, ServiceError>)
        requires
            mgr.wf(),
            old(self).device.wf(),
        ensures
            final(self).device.wf(),
            match transport_request(service@) {
                Some((legacy, selector)) => {
                    &&& final(self).device@ == after_pick(mgr@, *standing, selector)
                    &&& match picked(mgr@, *standing, selector) {
                        Ok(conn) => res matches Ok(Selection::Chosen(reply)) && reply@
                            == transport_reply(legacy, conn),
                        Err(e) => res matches Err(err) && err@ == Failed::Pick(e),
                    }
                },
                None => match addressed_request(service@, old(self).device@) {
                    Ok((selector, rest)) => {
                        &&& final(self).device@ == selector
                        &&& res matches Ok(Selection::Service(s))
                        &&& s@ == rest
                    },
                    Err(e) => {
                        &&& final(self).device@ == old(self).device@
                        &&& res matches Err(err)
                        &&& err@ == e
                    },
                },
            },
    {
        let legacy: bool;
        match strip_prefix(service, "host:transport:") {
            Some(serial) => {
                legacy = true;
                self.device = DeviceSelector::Serial(serial.to_owned());
            },
            None => match strip_prefix(service, "host:tport:") {
                Some(s) => {
                    legacy = false;
                    self.device = match strip_prefix(s, "serial:") {
                        Some(serial) => DeviceSelector::Serial(serial.to_owned()),
                        None => DeviceSelector::Any,
                    };
                },
                None => {
                    return self.consume_address(service);
                },
            },
        }
        match self.pick_connection(mgr, standing) {
            Ok(conn) => {
                let mut reply = Self::respond(Status::Okay);
                if !legacy {
                    let mut id = write_u64(conn.id);
                    reply.append(&mut id);
                }
                Ok(Selection::Chosen(reply))
            },
            Err(e) => Err(ServiceError::Pick(e)),
        }
    }

    fn consume_address(&mut self, service: &str) -> (res: Result<Selection, ServiceError>)
        requires
            old(self).device.wf(),
        ensures
            final(self).device.wf(),
            match addressed_request(service@, old(self).device@) {
                Ok((selector, rest)) => {
                    &&& final(self).device@ == selector
                    &&& res matches Ok(Selection::Service(s))
                    &&& s@ == rest
                },
                Err(e) => {
                    &&& final(self).device@ == old(self).device@
                    &&& res matches Err(err)
                    &&& err@ == e
                },
            },
    {
        if let Some(s) = strip_prefix(service, "host-serial:") {
            match split_once(s, ':') {
                Some((serial, rest)) => {
                    self.device = DeviceSelector::Serial(serial.to_owned());
                    let mut service = "host:".to_owned();
                    service.append(rest);
                    Ok(Selection::Service(service))
                },
                None => Err(ServiceError::Malformed),
            }
        } else {
            if strip_prefix(service, "host:").is_some() {
                self.device = DeviceSelector::Any;
            }
            Ok(Selection::Service(service.to_owned()))
        }
    }
}

/// The property that holds the name of the product.
pub const PRODUCT_NAME: &'static str = "ro.product.name";

/// The property that holds the model of the product.
pub const PRODUCT_MODEL: &'static str = "ro.product.model";

/// The property that holds the name of the device.
pub const PRODUCT_DEVICE: &'static str = "ro.product.device";

/// How wide the serial number is in a long list.
pub const SERIAL_WIDTH: usize = 22;

/// Whether it is a letter or a digit of ASCII.
pub open spec fn is_ascii_alphanumeric(c: char) -> bool {
    'a' <= c <= 'z' || 'A' <= c <= 'Z' || '0' <= c <= '9'
}

/// The text with an underscore in place of everything that is no letter or
/// digit of ASCII.
pub open spec fn cleaned(s: Seq<char>) -> Seq<char> {
    s.map_values(
        |c: char|
            if is_ascii_alphanumeric(c) {
                c
            } else {
                '_'
            },
    )
}

/// The text with spaces behind it, up to the given length.
pub open spec fn space_padded(s: Seq<char>, width: int) -> Seq<char> {
    if s.len() >= width {
        s
    } else {
        s + Seq::new((width - s.len()) as nat, |i: int| ' ')
    }
}

/// What a long list says of a property of a device.
pub open spec fn property_text(banner: BannerView, key: Seq<char>) -> Seq<char> {
    cleaned(
        match lookup(banner.props, key) {
            Some(value) => value,
            None => "Unknown"@,
        },
    )
}

/// The line of a device in the list of devices.
pub open spec fn device_line(conn: ConnView, long: bool) -> Seq<char> {
    if long {
        space_padded(conn.serial, SERIAL_WIDTH as int) + "\t"@ + conn.banner.device_type + " "@
            + digits(conn.id as int, 10) + " product:"@ + property_text(
            conn.banner,
            PRODUCT_NAME@,
        ) + " model:"@ + property_text(conn.banner, PRODUCT_MODEL@) + " device:"@ + property_text(
            conn.banner,
            PRODUCT_DEVICE@,
        ) + " transport_id:"@ + digits(conn.id as int, 10) + "\n"@
    } else {
        conn.serial + "\t"@ + conn.banner.device_type + "\n"@
    }
}

/// The lines of devices, one after the other.
pub open spec fn device_lines(list: Seq<ConnView>, long: bool) -> Seq<char>
    decreases list.len(),
{
    if list.len() == 0 {
        seq![]
    } else {
        device_lines(list.drop_last(), long) + device_line(list.last(), long)
    }
}

/// Whether the text lists every open connection once, in some order.
pub open spec fn is_device_list(
    text: Seq<char>,
    all: MgrView,
    standing: Standing,
    long: bool,
) -> bool {
    exists|list: Seq<ConnView>| #[trigger]
        lists(list, open_part(all.by_serial, standing)) && text == device_lines(list, long)
}

fn clean(s: &str) -> (out: String)
    ensures
        out@ == cleaned(s@),
{
    let v = chars_of(s);
    let mut out: Vec<char> = Vec::new();
    let mut i: usize = 0;
    while i < v.len()
        invariant
            v@ == s@,
            i <= v@.len(),
            out@ == cleaned(s@).take(i as int),
        decreases v@.len() - i,
    {
        let c = v[i];
        if ('a' <= c && c <= 'z') || ('A' <= c && c <= 'Z') || ('0' <= c && c <= '9') {
            out.push(c);
        } else {
            out.push('_');
        }
        i += 1;
        assert(out@ =~= cleaned(s@).take(i as int));
    }
    assert(out@ =~= cleaned(s@));
    string_of(&out)
}

fn pad_with_spaces(s: &str, width: usize) -> (out: String)
    ensures
        out@ == space_padded(s@, width as int),
{
    let mut out = s.to_owned();
    let mut len = s.unicode_len();
    while len < width
        invariant
            len == out@.len(),
            s@.len() <= len,
            out@ == s@ + Seq::new((len - s@.len()) as nat, |i: int| ' '),
            len <= width || len == s@.len(),
        decreases width - len,
    {
        out.push(' ');
        len += 1;
        assert(out@ =~= s@ + Seq::new((len - s@.len()) as nat, |i: int| ' '));
    }
    assert(out@ =~= space_padded(s@, width as int));
    out
}

fn append_property(line: &mut String, banner: &Banner, label: &str, key: &str)
    ensures
        final(line)@ == old(line)@ + label@ + property_text(banner@, key@),
{
    let value = match banner.getprop(key) {
        Some(value) => clean(value),
        None => clean("Unknown"),
    };
    line.append(label);
    line.append(value.as_str());
}

fn line_of(conn: &WeakConnection, long: bool) -> (line: String)
    ensures
        line@ == device_line(conn@, long),
{
    if long {
        let id = decimal(conn.id);
        let mut line = pad_with_spaces(conn.serial.as_str(), SERIAL_WIDTH);
        line.append("\t");
        line.append(conn.banner.device_type.text().as_str());
        line.append(" ");
        line.append(id.as_str());
        append_property(&mut line, &conn.banner, " product:", PRODUCT_NAME);
        append_property(&mut line, &conn.banner, " model:", PRODUCT_MODEL);
        append_property(&mut line, &conn.banner, " device:", PRODUCT_DEVICE);
        line.append(" transport_id:");
        line.append(id.as_str());
        line.append("\n");
        line
    } else {
        let mut line = conn.serial.clone();
        line.append("\t");
        line.append(conn.banner.device_type.text().as_str());
        line.append("\n");
        line
    }
}

/// The lines of devices, one after the other.
pub fn device_list(list: &Vec<Arc<WeakConnection>>, long: bool) -> (text: String)
    ensures
        text@ == device_lines(conn_views(list@), long),
{
    let mut text = String::new();
    let ghost views = conn_views(list@);
    let mut i: usize = 0;
    assert(views.take(0) =~= seq![]);
    while i < list.len()
        invariant
            views == conn_views(list@),
            i <= list@.len(),
            text@ == device_lines(views.take(i as int), long),
        decreases list@.len() - i,
    {
        let ghost head = views.take(i + 1);
        assert(head.drop_last() =~= views.take(i as int));
        assert(head.last() == list@[i as int]@);
        text.append(line_of(&list[i], long).as_str());
        i += 1;
    }
    assert(views.take(i as int) =~= views);
    text
}

/// Once a device is picked, the choice stays, whatever becomes of the other
/// devices.
pub proof fn law_picked_device_stays(
    all: MgrView,
    standing: Standing,
    later: MgrView,
    later_standing: Standing,
    selector: Selector,
)
    requires
        picked(all, standing, selector) is Ok,
    ensures
        picked(later, later_standing, after_pick(all, standing, selector)) == picked(
            all,
            standing,
            selector,
        ),
{
}

/// Any device is the same choice as the serial number of the only one.
pub proof fn law_any_is_the_only_device(all: MgrView, standing: Standing, serial: Seq<char>)
    requires
        only(open_part(all.by_serial, standing), serial),
    ensures
        picked(all, standing, Selector::Any) == picked(all, standing, Selector::Serial(serial)),
{
    let open = open_part(all.by_serial, standing);
    assert(open.contains_key(serial));
}

/// A device that is picked by its serial number or as the only one is open.
pub proof fn law_picked_device_is_open(all: MgrView, standing: Standing, selector: Selector)
    requires
        selector !is Connection,
        picked(all, standing, selector) is Ok,
    ensures
        !standing.is_closed(picked(all, standing, selector)->Ok_0.id),
{
}

/// The old way to choose a device by its serial number chooses the same one
/// as the new way; only the number of the connection is missing in the reply.
pub proof fn law_both_ways_choose_the_same(serial: Seq<char>)
    ensures
        transport_request("host:transport:"@ + serial) == Some((true, Selector::Serial(serial))),
        transport_request("host:tport:serial:"@ + serial) == Some(
            (false, Selector::Serial(serial)),
        ),
{
    reveal_strlit("host:transport:");
    reveal_strlit("host:tport:");
    reveal_strlit("host:tport:serial:");
    reveal_strlit("serial:");
    let old_way = "host:transport:"@ + serial;
    assert(old_way.take("host:transport:"@.len() as int) =~= "host:transport:"@);
    assert(old_way.skip("host:transport:"@.len() as int) =~= serial);
    let new_way = "host:tport:serial:"@ + serial;
    if has_prefix(new_way, "host:transport:"@) {
        assert(new_way.take("host:transport:"@.len() as int)[6] == "host:transport:"@[6]);
    }
    assert(new_way.take("host:tport:"@.len() as int) =~= "host:tport:"@);
    let rest = new_way.skip("host:tport:"@.len() as int);
    assert(rest =~= "serial:"@ + serial);
    assert(rest.take("serial:"@.len() as int) =~= "serial:"@);
    assert(rest.skip("serial:"@.len() as int) =~= serial);
}

/// A status is four letters.
pub proof fn law_statuses_are_spelled(okay: Vec<u8>, fail: Vec<u8>)
    requires
        call_ensures(SmartSocket::respond, (Status::Okay,), okay),
        call_ensures(SmartSocket::respond, (Status::Fail,), fail),
    ensures
        okay@ == seq!['O' as u8, 'K' as u8, 'A' as u8, 'Y' as u8],
        fail@ == seq!['F' as u8, 'A' as u8, 'I' as u8, 'L' as u8],
{
    assert(okay@ =~= seq![0x4fu8, 0x4b, 0x41, 0x59]);
    assert(fail@ =~= seq![0x46u8, 0x41, 0x49, 0x4c]);
}

/// A reply with a text is the status, and then the text, which a client reads
/// back.
pub proof fn law_replies_read_back(status: Status, data: &str, bytes: Vec<u8>)
    requires
        call_ensures(SmartSocket::respond_data, (status, data), bytes),
        encode_utf8(data@).len() <= 0xffff,
    ensures
        bytes@.take(4) == match status {
            Status::Okay => seq!['O' as u8, 'K' as u8, 'A' as u8, 'Y' as u8],
            Status::Fail => seq!['F' as u8, 'A' as u8, 'I' as u8, 'L' as u8],
        },
        read_text(bytes@.skip(4)) == Ok::<_, ProtocolError>((data@, bytes@.len() - 4)),
{
    let body = framed(encode_utf8(data@));
    assert(bytes@.take(4) =~= match status {
        Status::Okay => seq![0x4fu8, 0x4b, 0x41, 0x59],
        Status::Fail => seq![0x46u8, 0x41, 0x49, 0x4c],
    });
    assert(bytes@.skip(4) =~= body);
    law_read_back(data@, seq![]);
    assert(body + Seq::<u8>::empty() =~= body);
}

/// A request that failed is answered with `FAIL` and with the reason.
pub proof fn law_failures_are_told(error: &ServiceError, bytes: Vec<u8>, text: String)
    requires
        call_ensures(failure_reply, (error,), bytes),
        call_ensures(ServiceError::text, (error,), text),
        encode_utf8(text@).len() <= 0xffff,
    ensures
        bytes@.take(4) == seq!['F' as u8, 'A' as u8, 'I' as u8, 'L' as u8],
        read_text(bytes@.skip(4)) == Ok::<_, ProtocolError>((text@, bytes@.len() - 4)),
{
    let body = framed(encode_utf8(text@));
    assert(bytes@.take(4) =~= seq![0x46u8, 0x41, 0x49, 0x4c]);
    assert(bytes@.skip(4) =~= body);
    law_read_back(text@, seq![]);
    assert(body + Seq::<u8>::empty() =~= body);
}

/// A device that is asked for by its serial number is picked exactly if an open
/// connection stands under that serial number, and then it is that one; else the
/// client is told which one was not found. The choice then stays.
pub proof fn law_picking_by_serial_number(
    socket: &mut SmartSocket,
    mgr: &ConnectionMgr,
    standing: &Standing,
    res: Result<Arc<WeakConnection>, PickDeviceError>,
    serial: Seq<char>,
)
    requires
        call_ensures(SmartSocket::pick_connection, (socket, mgr, standing), res),
        old(socket).device@ == Selector::Serial(serial),
    ensures
        res is Ok <==> is_open(mgr@, *standing, serial),
        res matches Ok(conn) ==> conn@ == mgr@.by_serial[serial] && final(socket).device@
            == Selector::Connection(conn@),
        res matches Err(e) ==> e@ == PickError::NotFound(serial) && final(socket).device@ == old(
            socket,
        ).device@,
{
}

/// Where any device will do, the only one that is open is picked; the client is
/// told where there is none, and where there are several.
pub proof fn law_picking_the_only_device(
    socket: &mut SmartSocket,
    mgr: &ConnectionMgr,
    standing: &Standing,
    res: Result<Arc<WeakConnection>, PickDeviceError>,
    one: Seq<char>,
    other: Seq<char>,
)
    requires
        call_ensures(SmartSocket::pick_connection, (socket, mgr, standing), res),
        old(socket).device@ == Selector::Any,
    ensures
        is_open(mgr@, *standing, one) && is_open(mgr@, *standing, other) && one != other ==> (
        res matches Err(e) && e@ == PickError::MoreThanOne),
        is_open(mgr@, *standing, one) && (forall|s: Seq<char>| #[trigger]
            mgr@.by_serial.contains_key(s) && s != one ==> !is_open(mgr@, *standing, s)) ==> (
        res matches Ok(conn) && conn@ == mgr@.by_serial[one]),
        (forall|s: Seq<char>| #[trigger]
            mgr@.by_serial.contains_key(s) ==> !is_open(mgr@, *standing, s)) ==> (
        res matches Err(e) && e@ == PickError::NoDevices),
        res matches Ok(conn) ==> final(socket).device@ == Selector::Connection(conn@),
        res is Err ==> final(socket).device@ == old(socket).device@,
{
    let open = open_part(mgr@.by_serial, *standing);
    assert forall|s: Seq<char>| open.contains_key(s) == is_open(mgr@, *standing, s) by {}
    if is_open(mgr@, *standing, one) {
        assert(open.contains_key(one));
    }
    if is_open(mgr@, *standing, one) && is_open(mgr@, *standing, other) && one != other {
        assert(open.contains_key(other));
        assert forall|s: Seq<char>| !only(open, s) by {
            if only(open, s) {
                assert(one == s && other == s);
            }
        }
    }
    if is_open(mgr@, *standing, one) && (forall|s: Seq<char>| #[trigger]
        mgr@.by_serial.contains_key(s) && s != one ==> !is_open(mgr@, *standing, s)) {
        assert forall|s: Seq<char>| #[trigger] open.contains_key(s) implies s == one by {
            assert(mgr@.by_serial.contains_key(s));
        }
        assert(only(open, one));
        let s = choose|s: Seq<char>| only(open, s);
        assert(s == one);
    }
    if forall|s: Seq<char>| #[trigger]
        mgr@.by_serial.contains_key(s) ==> !is_open(mgr@, *standing, s) {
        assert forall|s: Seq<char>| !open.dom().contains(s) by {
            if open.contains_key(s) {
                assert(mgr@.by_serial.contains_key(s));
            }
        }
        assert(open.dom() =~= Set::<Seq<char>>::empty());
    }
}

/// A choice that was made stays, and without a choice no device is picked.
pub proof fn law_picking_again(
    socket: &mut SmartSocket,
    mgr: &ConnectionMgr,
    standing: &Standing,
    res: Result<Arc<WeakConnection>, PickDeviceError>,
)
    requires
        call_ensures(SmartSocket::pick_connection, (socket, mgr, standing), res),
    ensures
        old(socket).device@ matches Selector::Connection(conn) ==> (res matches Ok(c) && c@
            == conn),
        old(socket).device@ is Unset ==> (res matches Err(e) && e@ is NotSelected),
        old(socket).device@ is Connection || old(socket).device@ is Unset ==> final(socket).device@
            == old(socket).device@,
{
}

/// Every request that starts with `host:tport:`, whatever follows, is answered
/// with `OKAY` and the eight bytes of the number of the connection, where a
/// device is picked; a request that starts with `host:transport:` is answered
/// with `OKAY` alone; and no other request is answered so.
pub proof fn law_transport_requests_are_answered(
    socket: &mut SmartSocket,
    mgr: &ConnectionMgr,
    standing: &Standing,
    service: &str,
    res: Result<Selection, ServiceError>,
)
    requires
        call_ensures(
            SmartSocket::consume_device_selector,
            (socket, mgr, standing, service),
            res,
        ),
    ensures
        ({
            let new_way = has_prefix(service@, "host:tport:"@);
            let old_way = has_prefix(service@, "host:transport:"@);
            &&& !(new_way && old_way)
            &&& new_way || old_way ==> !(res matches Ok(Selection::Service(_)))
            &&& res matches Ok(Selection::Chosen(reply)) ==> {
                &&& new_way || old_way
                &&& final(socket).device@ matches Selector::Connection(conn)
                &&& reply@.take(4) == seq!['O' as u8, 'K' as u8, 'A' as u8, 'Y' as u8]
                &&& old_way ==> reply@.len() == 4
                &&& new_way ==> {
                    let b = reply@.skip(4);
                    &&& b.len() == 8
                    &&& conn.id == b[0] + 0x100 * b[1] + 0x1_0000 * b[2] + 0x100_0000 * b[3]
                        + 0x1_0000_0000 * (b[4] + 0x100 * b[5] + 0x1_0000 * b[6] + 0x100_0000
                        * b[7])
                }
            }
        }),
{
    reveal_strlit("host:transport:");
    reveal_strlit("host:tport:");
    if has_prefix(service@, "host:tport:"@) && has_prefix(service@, "host:transport:"@) {
        assert(service@.take(11)[6] == "host:tport:"@[6]);
        assert(service@.take(15)[6] == "host:transport:"@[6]);
    }
    if let Ok(Selection::Chosen(reply)) = res {
        let conn = final(socket).device@->Connection_0;
        law_bytes_have_their_weights(0, conn.id);
        assert(reply@.take(4) =~= seq![0x4fu8, 0x4b, 0x41, 0x59]);
        if has_prefix(service@, "host:tport:"@) {
            assert(reply@.skip(4) =~= le64(conn.id));
        }
    }
}

/// A request that chooses a device by its serial number, in the old or the new
/// way, chooses the open connection under that serial number, or fails and says
/// which one was not found.
pub proof fn law_devices_are_chosen_by_serial_number(
    socket: &mut SmartSocket,
    mgr: &ConnectionMgr,
    standing: &Standing,
    service: &str,
    res: Result<Selection, ServiceError>,
    serial: Seq<char>,
)
    requires
        call_ensures(
            SmartSocket::consume_device_selector,
            (socket, mgr, standing, service),
            res,
        ),
        service@ == "host:transport:"@ + serial || service@ == "host:tport:serial:"@ + serial,
    ensures
        is_open(mgr@, *standing, serial) ==> (res matches Ok(Selection::Chosen(_)))
            && final(socket).device@ == Selector::Connection(mgr@.by_serial[serial]),
        !is_open(mgr@, *standing, serial) ==> (res matches Err(e) && e@ == Failed::Pick(
            PickError::NotFound(serial),
        )) && final(socket).device@ == Selector::Serial(serial),
{
    law_both_ways_choose_the_same(serial);
}

/// A request for any transport chooses the only open device, and fails where
/// there is none or several.
pub proof fn law_any_transport_is_the_only_device(
    socket: &mut SmartSocket,
    mgr: &ConnectionMgr,
    standing: &Standing,
    service: &str,
    res: Result<Selection, ServiceError>,
    rest: Seq<char>,
    picker: &mut SmartSocket,
    pick: Result<Arc<WeakConnection>, PickDeviceError>,
)
    requires
        call_ensures(
            SmartSocket::consume_device_selector,
            (socket, mgr, standing, service),
            res,
        ),
        service@ == "host:tport:"@ + rest,
        !has_prefix(rest, "serial:"@),
        old(picker).device is Any,
        call_ensures(SmartSocket::pick_connection, (picker, mgr, standing), pick),
    ensures
        pick is Ok <==> res is Ok,
        pick matches Ok(conn) ==> final(socket).device@ == Selector::Connection(conn@),
        pick matches Err(e) ==> (res matches Err(err) && err@ == Failed::Pick(e@))
            && final(socket).device@ == Selector::Any,
{
    reveal_strlit("host:transport:");
    reveal_strlit("host:tport:");
    law_prefix_comes_off("host:tport:"@, rest);
    if has_prefix(service@, "host:transport:"@) {
        assert(service@.take(15)[6] == "host:transport:"@[6]);
        assert(service@[6] == 'p');
    }
}

/// A request that names a serial number in front of what it asks for is for that
/// device, and goes on as the request for the daemon that it names. A request
/// for the daemon without one is for any device, a request without either keeps
/// the choice that was made, and both go on as they are.
pub proof fn law_addressed_requests(
    socket: &mut SmartSocket,
    mgr: &ConnectionMgr,
    standing: &Standing,
    service: &str,
    res: Result<Selection, ServiceError>,
    serial: Seq<char>,
    rest: Seq<char>,
)
    requires
        call_ensures(
            SmartSocket::consume_device_selector,
            (socket, mgr, standing, service),
            res,
        ),
        !serial.contains(':'),
    ensures
        service@ == "host-serial:"@ + serial + ":"@ + rest ==> {
            &&& res matches Ok(Selection::Service(s))
            &&& s@ == "host:"@ + rest
            &&& final(socket).device@ == Selector::Serial(serial)
        },
        service@ == "host-serial:"@ + serial ==> (res matches Err(e) && e@ is Malformed)
            && final(socket).device@ == old(socket).device@,
        service@ == "host:"@ + rest && !has_prefix(rest, "transport:"@) && !has_prefix(
            rest,
            "tport:"@,
        ) ==> {
            &&& res matches Ok(Selection::Service(s))
            &&& s@ == service@
            &&& final(socket).device@ == Selector::Any
        },
        !has_prefix(service@, "host:"@) && !has_prefix(service@, "host-serial:"@) ==> {
            &&& res matches Ok(Selection::Service(s))
            &&& s@ == service@
            &&& final(socket).device@ == old(socket).device@
        },
{
    reveal_strlit("host:");
    reveal_strlit("host-serial:");
    reveal_strlit("host:transport:");
    reveal_strlit("host:tport:");
    reveal_strlit("transport:");
    reveal_strlit("tport:");
    reveal_strlit(":");
    let s = service@;
    if s == "host-serial:"@ + serial + ":"@ + rest || s == "host-serial:"@ + serial {
        assert(s[4] == '-');
        lemma_no_transport(s);
        let tail = serial + ":"@ + rest;
        law_prefix_comes_off("host-serial:"@, tail);
        law_prefix_comes_off("host-serial:"@, serial);
        assert("host-serial:"@ + serial + ":"@ + rest =~= "host-serial:"@ + tail);
        law_cut_at_the_first(serial, ':', rest);
        assert(":"@ =~= seq![':']);
        law_cut_takes_one_separator_out(serial, ':');
        if let Some((a, b)) = split_at_first(serial, ':') {
            assert(serial[a.len() as int] == ':');
        }
        if s == "host-serial:"@ + serial && s == "host-serial:"@ + serial + ":"@ + rest {
            assert(("host-serial:"@ + serial).len() < ("host-serial:"@ + serial + ":"@
                + rest).len());
        }
    } else if s == "host:"@ + rest {
        if has_prefix(s, "host:transport:"@) {
            assert(rest.take(10) =~= s.take(15).skip(5));
            assert("host:transport:"@.skip(5) =~= "transport:"@);
        }
        if has_prefix(s, "host:tport:"@) {
            assert(rest.take(6) =~= s.take(11).skip(5));
            assert("host:tport:"@.skip(5) =~= "tport:"@);
        }
        if has_prefix(s, "host-serial:"@) {
            assert(s.take(12)[4] == "host-serial:"@[4]);
            assert(s[4] == ':');
        }
        law_prefix_comes_off("host:"@, rest);
    }
    if !has_prefix(s, "host:"@) {
        if has_prefix(s, "host:transport:"@) {
            assert(s.take(5) =~= s.take(15).take(5));
            assert("host:transport:"@.take(5) =~= "host:"@);
        }
        if has_prefix(s, "host:tport:"@) {
            assert(s.take(5) =~= s.take(11).take(5));
            assert("host:tport:"@.take(5) =~= "host:"@);
        }
    }
}

proof fn lemma_no_transport(s: Seq<char>)
    requires
        s.len() > 4,
        s[4] == '-',
    ensures
        !has_prefix(s, "host:transport:"@),
        !has_prefix(s, "host:tport:"@),
{
    reveal_strlit("host:transport:");
    reveal_strlit("host:tport:");
    if has_prefix(s, "host:transport:"@) {
        assert(s.take(15)[4] == "host:transport:"@[4]);
    }
    if has_prefix(s, "host:tport:"@) {
        assert(s.take(11)[4] == "host:tport:"@[4]);
    }
}

/// A list of devices holds one line for each connection and nothing else, in
/// their order: one connection more is one line more. The line says the serial
/// number and the kind of the device.
pub proof fn law_every_device_has_its_line(
    list: &Vec<Arc<WeakConnection>>,
    text: String,
    longer: &Vec<Arc<WeakConnection>>,
    more: String,
    conn: Arc<WeakConnection>,
)
    requires
        call_ensures(device_list, (list, false), text),
        longer@ == list@.push(conn),
        call_ensures(device_list, (longer, false), more),
    ensures
        list@.len() == 0 ==> text@.len() == 0,
        more@ == text@ + conn.serial@ + "\t"@ + conn.banner.device_type.name() + "\n"@,
{
    lemma_one_line_more(list@, conn, false);
    assert(more@ =~= text@ + conn.serial@ + "\t"@ + conn.banner.device_type.name() + "\n"@);
}

proof fn lemma_one_line_more(list: Seq<Arc<WeakConnection>>, conn: Arc<WeakConnection>, long: bool)
    ensures
        device_lines(conn_views(list.push(conn)), long) == device_lines(conn_views(list), long)
            + device_line(conn@, long),
        list.len() == 0 ==> device_lines(conn_views(list), long).len() == 0,
{
    assert(conn_views(list.push(conn)).drop_last() =~= conn_views(list));
}

/// A long list holds one line for each connection too: the serial number, with
/// spaces behind it up to 22 characters, the kind of the device, the number of
/// the connection, three properties of the device, and the number again.
pub proof fn law_every_device_has_its_long_line(
    list: &Vec<Arc<WeakConnection>>,
    text: String,
    longer: &Vec<Arc<WeakConnection>>,
    more: String,
    conn: Arc<WeakConnection>,
    id: String,
    spaces: Seq<char>,
    name: Option<&str>,
    model: Option<&str>,
    device: Option<&str>,
    texts: (Seq<char>, Seq<char>, Seq<char>),
)
    requires
        call_ensures(device_list, (list, true), text),
        longer@ == list@.push(conn),
        call_ensures(device_list, (longer, true), more),
        call_ensures(decimal, (conn.id,), id),
        forall|i: int| 0 <= i < spaces.len() ==> spaces[i] == ' ',
        spaces.len() == if conn.serial@.len() < 22 {
            22 - conn.serial@.len()
        } else {
            0
        },
        call_ensures(Banner::getprop, (&conn.banner, "ro.product.name"), name),
        call_ensures(Banner::getprop, (&conn.banner, "ro.product.model"), model),
        call_ensures(Banner::getprop, (&conn.banner, "ro.product.device"), device),
        shows(texts.0, name),
        shows(texts.1, model),
        shows(texts.2, device),
    ensures
        list@.len() == 0 ==> text@.len() == 0,
        more@ == text@ + (conn.serial@ + spaces + "\t"@ + conn.banner.device_type.name() + " "@
            + id@ + " product:"@ + texts.0 + " model:"@ + texts.1 + " device:"@ + texts.2
            + " transport_id:"@ + id@ + "\n"@),
{
    lemma_one_line_more(list@, conn, true);
    assert(space_padded(conn.serial@, SERIAL_WIDTH as int) =~= conn.serial@ + spaces);
    lemma_shown(texts.0, name);
    lemma_shown(texts.1, model);
    lemma_shown(texts.2, device);
}

/// Whether the text shows the value of a property: as many characters, the
/// letters and digits of ASCII as they are, and an underscore for everything
/// else; or that it is unknown.
pub open spec fn shows(text: Seq<char>, value: Option<&str>) -> bool {
    match value {
        Some(value) => {
            &&& text.len() == value@.len()
            &&& forall|i: int|
                0 <= i < text.len() ==> #[trigger] text[i] == if 'a' <= value@[i] <= 'z' || 'A'
                    <= value@[i] <= 'Z' || '0' <= value@[i] <= '9' {
                    value@[i]
                } else {
                    '_'
                }
        },
        None => text == "Unknown"@,
    }
}

proof fn lemma_shown(text: Seq<char>, value: Option<&str>)
    requires
        shows(text, value),
    ensures
        text == cleaned(
            match value {
                Some(value) => value@,
                None => "Unknown"@,
            },
        ),
{
    reveal_strlit("Unknown");
    match value {
        Some(value) => {
            assert(text =~= cleaned(value@));
        },
        None => {
            assert(text =~= cleaned("Unknown"@));
        },
    }
}

/// The list of devices that a client gets is the list of all open connections,
/// in some order: for two of them it is the line of the one, and then the line
/// of the other, in either order.
pub proof fn law_two_devices_are_both_listed(
    mgr: &ConnectionMgr,
    standing: &Standing,
    long: bool,
    text: String,
    a: Arc<WeakConnection>,
    b: Arc<WeakConnection>,
    one: &Vec<Arc<WeakConnection>>,
    one_text: String,
    two: &Vec<Arc<WeakConnection>>,
    two_text: String,
)
    requires
        call_ensures(SmartSocket::list_devices, (mgr, standing, long), text),
        a@.serial != b@.serial,
        mgr@.by_serial.contains_pair(a@.serial, a@) && !standing.is_closed(a@.id),
        mgr@.by_serial.contains_pair(b@.serial, b@) && !standing.is_closed(b@.id),
        forall|s: Seq<char>| #[trigger]
            mgr@.by_serial.contains_key(s) && s != a@.serial && s != b@.serial ==> !is_open(
                mgr@,
                *standing,
                s,
            ),
        one@ == seq![a, b],
        two@ == seq![b, a],
        call_ensures(device_list, (one, long), one_text),
        call_ensures(device_list, (two, long), two_text),
    ensures
        text@ == one_text@ || text@ == two_text@,
{
    let open = open_part(mgr@.by_serial, *standing);
    let list = choose|list: Seq<ConnView>| #[trigger]
        lists(list, open) && text@ == device_lines(list, long);
    assert(open.contains_key(a@.serial) && open.contains_key(b@.serial));
    let i = choose|i: int| 0 <= i < list.len() && (#[trigger] list[i]).serial == a@.serial;
    let j = choose|j: int| 0 <= j < list.len() && (#[trigger] list[j]).serial == b@.serial;
    assert(open.contains_pair(list[i].serial, list[i]));
    assert(open.contains_pair(list[j].serial, list[j]));
    assert(list.len() == 2) by {
        if list.len() > 2 {
            let k = if i != 0 && j != 0 {
                0
            } else if i != 1 && j != 1 {
                1
            } else {
                2int
            };
            assert(open.contains_pair(list[k].serial, list[k]));
            assert(mgr@.by_serial.contains_key(list[k].serial));
            if k < i {
                assert(list[k].serial != list[i].serial);
            } else {
                assert(list[i].serial != list[k].serial);
            }
            if k < j {
                assert(list[k].serial != list[j].serial);
            } else {
                assert(list[j].serial != list[k].serial);
            }
        }
    }
    if i == 0 {
        assert(list =~= conn_views(one@));
    } else {
        assert(list =~= conn_views(two@));
    }
}

/// Every open connection has its line in the list that a client gets: the list
/// is that of a walk over all open connections, each of them once.
pub proof fn law_every_open_device_is_listed(
    mgr: &ConnectionMgr,
    standing: &Standing,
    long: bool,
    text: String,
    serial: Seq<char>,
)
    requires
        call_ensures(SmartSocket::list_devices, (mgr, standing, long), text),
    ensures
        exists|list: Seq<ConnView>|
            #![trigger device_lines(list, long)]
            {
                &&& text@ == device_lines(list, long)
                &&& forall|i: int|
                    0 <= i < list.len() ==> is_open(mgr@, *standing, (#[trigger] list[i]).serial)
                        && list[i] == mgr@.by_serial[list[i].serial]
                &&& forall|i: int, j: int|
                    0 <= i < j < list.len() ==> (#[trigger] list[i]).serial != (
                    #[trigger] list[j]).serial
                &&& is_open(mgr@, *standing, serial) ==> exists|i: int|
                    0 <= i < list.len() && (#[trigger] list[i]).serial == serial
            },
{
    let open = open_part(mgr@.by_serial, *standing);
    let list = choose|list: Seq<ConnView>| #[trigger]
        lists(list, open) && text@ == device_lines(list, long);
    assert forall|i: int| 0 <= i < list.len() implies is_open(
        mgr@,
        *standing,
        (#[trigger] list[i]).serial,
    ) && list[i] == mgr@.by_serial[list[i].serial] by {
        assert(open.contains_pair(list[i].serial, list[i]));
    }
    if is_open(mgr@, *standing, serial) {
        assert(open.contains_key(serial));
    }
    assert(text@ == device_lines(list, long));
}

/// A client that has just come has chosen no device. A choice that is copied is
/// the same choice.
pub proof fn law_clients_come_without_a_choice(
    socket: SmartSocket,
    choice: &DeviceSelector,
    copy: DeviceSelector,
)
    requires
        call_ensures(SmartSocket::new, (), socket),
        call_ensures(DeviceSelector::copy, (choice,), copy),
    ensures
        socket.device is Unset,
        copy@ == choice@,
{
}

/// Why no device was picked is told in words, with the serial number where one
/// was asked for; where a request fails for that reason, the same words are told.
pub proof fn law_what_was_not_picked_is_told(
    error: PickDeviceError,
    text: String,
    wrapped: ServiceError,
    told: String,
)
    requires
        call_ensures(PickDeviceError::text, (&error,), text),
        wrapped@ == Failed::Pick(error@),
        call_ensures(ServiceError::text, (&wrapped,), told),
    ensures
        told@ == text@,
        error@ is NotSelected ==> text@ == "no device selected"@,
        error@ is NoDevices ==> text@ == "no devices/emulators found"@,
        error@ is MoreThanOne ==> text@ == "more than one device/emulator"@,
        error@ matches PickError::NotFound(serial) ==> text@ == "device '"@ + serial
            + "' not found"@,
{
}

/// Why a request failed is told in words.
pub proof fn law_failures_have_their_words(error: &ServiceError, text: String)
    requires
        call_ensures(ServiceError::text, (error,), text),
    ensures
        error@ is ReadService ==> text@ == "read service"@,
        error@ is Malformed ==> text@ == "malformed service"@,
        error@ is NotFound ==> text@ == "service not found"@,
        error@ is Disconnected ==> text@ == "device disconnected"@,
        error@ is UnexpectedData ==> text@ == "should not read anything"@,
        error@ is OpenSocket ==> text@ == "open socket"@,
        error@ is Invalid ==> text@ == "invalid"@,
        error@ is ParseLocal ==> text@ == "parse local"@,
        error@ is ParseRemote ==> text@ == "parse remote"@,
        error@ is ParsePort ==> text@ == "parse port"@,
        error@ matches Failed::UnsupportedProtocol(end) ==> text@ == "unsupported protocol: "@
            + proto_text(end),
        error@ is AlreadyBound ==> text@ == "already bound"@,
        error@ is Bind ==> text@ == "bind"@,
        error@ is MalformedReverse ==> text@ == "malformed reverse service"@,
        error@ is WouldFail ==> text@ == "already bound, would fail"@,
        error@ matches Failed::Outside(words) ==> text@ == words,
{
}

} // verus!
