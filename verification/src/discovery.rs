//! How a device on USB becomes a connection.

use vstd::prelude::*;
use crate::config::{whitelisted, UsbConfig};
use crate::connection::{ConnectionMgr, MgrView};
use crate::error::{Detail, Error, ErrorKind, TransferError, UsbError};

verus! {

/// Whether a device that was found is to be opened: it has a serial number, it
/// is served, and there is no connection to it yet.
pub open spec fn wanted(
    included: Set<Seq<char>>,
    excluded: Set<Seq<char>>,
    all: MgrView,
    serial: Option<Seq<char>>,
) -> bool {
    match serial {
        Some(serial) => whitelisted(included, excluded, serial) && !all.by_serial.contains_key(
            serial,
        ),
        None => false,
    }
}

/// Whether a device that was found is to be opened.
pub fn wants_device(config: &UsbConfig, mgr: &ConnectionMgr, serial: Option<&str>) -> (yes: bool)
    ensures
        yes == wanted(
            config.included@,
            config.excluded@,
            mgr@,
            match serial {
                Some(serial) => Some(serial@),
                None => None,
            },
        ),
{
    match serial {
        Some(serial) => config.is_whitelisted(serial) && !mgr.is_known(serial),
        None => false,
    }
}

/// What is done about a device after it was tried to open it.
#[derive(Debug)]
pub enum Discovery {
    /// Set up a connection.
    Connect,
    /// It is no ADB device.
    Ignore,
    /// It is one, and could not be opened.
    Warn(Error),
}

/// What is done about a device after it was tried to open it.
pub fn opened(res: Result<(), Error>) -> (discovery: Discovery)
    ensures
        discovery == match res {
            Ok(()) => Discovery::Connect,
            Err(e) => if e.kind == ErrorKind::Usb(UsbError::Unsupported) {
                Discovery::Ignore
            } else {
                Discovery::Warn(e)
            },
        },
{
    match res {
        Ok(()) => Discovery::Connect,
        Err(e) => {
            if let ErrorKind::Usb(UsbError::Unsupported) = e.kind {
                return Discovery::Ignore;
            }
            Discovery::Warn(e)
        },
    }
}

/// With which key the device is asked to let the host in.
#[derive(Debug, Clone, Copy, PartialEq, Eq)]
pub enum Offer {
    /// One that it may know: it is signed with.
    Existing,
    /// A new one: it is shown to the user of the device.
    New,
}

/// At what a connection failed while it was set up.
#[derive(Debug, Clone, Copy, PartialEq, Eq)]
pub enum Context {
    CreateTransport,
    AuthError,
    OfferKey,
}

impl Context {
    /// What is said of it.
    pub open spec fn spec_text(self) -> Seq<char> {
        match self {
            Context::CreateTransport => "create transport"@,
            Context::AuthError => "auth error"@,
            Context::OfferKey => "offer key"@,
        }
    }

    /// What is said of it.
    pub fn text(&self) -> (text: String)
        ensures
            text@ == self.spec_text(),
    {
        match self {
            Context::CreateTransport => "create transport".to_owned(),
            Context::AuthError => "auth error".to_owned(),
            Context::OfferKey => "offer key".to_owned(),
        }
    }
}

/// What comes next while a connection is set up.
#[derive(Debug)]
pub enum Setup {
    /// Authenticate.
    Authenticate(Offer),
    /// Reset the device, and leave it at that.
    Reset,
    /// The connection is there.
    Connect,
    /// It will not be.
    Fail(Context, Error),
}

/// What came of the first message to the device.
pub open spec fn after_creation(res: Result<(), Error>) -> Setup {
    match res {
        Ok(()) => Setup::Authenticate(Offer::Existing),
        Err(e) => if e.kind == ErrorKind::Usb(UsbError::Transfer(TransferError::Fault)) {
            Setup::Reset
        } else {
            Setup::Fail(Context::CreateTransport, e)
        },
    }
}

/// What comes after the first message to the device was sent, or could not be.
pub fn created(res: Result<(), Error>) -> (setup: Setup)
    ensures
        setup == after_creation(res),
{
    match res {
        Ok(()) => Setup::Authenticate(Offer::Existing),
        Err(e) => {
            if let ErrorKind::Usb(UsbError::Transfer(TransferError::Fault)) = e.kind {
                return Setup::Reset;
            }
            Setup::Fail(Context::CreateTransport, e)
        },
    }
}

/// Whether the device wants another key: the attempt says so, or it failed for
/// that reason.
pub open spec fn turned_down(res: Result<bool, Error>) -> bool {
    match res {
        Ok(connected) => !connected,
        Err(e) => e.kind is AuthRejected,
    }
}

/// What an attempt to authenticate led to: `Ok(true)` where the connection is
/// open, `Ok(false)` where the device wants another key.
pub open spec fn after_auth(offer: Offer, res: Result<bool, Error>) -> Setup {
    match offer {
        Offer::Existing => if turned_down(res) {
            Setup::Authenticate(Offer::New)
        } else {
            match res {
                Ok(_) => Setup::Connect,
                Err(e) => Setup::Fail(Context::AuthError, e),
            }
        },
        Offer::New => match res {
            Ok(true) => Setup::Connect,
            Ok(false) => Setup::Fail(
                Context::OfferKey,
                Error { kind: ErrorKind::AuthRejected, detail: Detail::Nothing },
            ),
            Err(e) => Setup::Fail(Context::OfferKey, e),
        },
    }
}

/// What comes after an attempt to authenticate.
pub fn authenticated(offer: Offer, res: Result<bool, Error>) -> (setup: Setup)
    ensures
        setup == after_auth(offer, res),
{
    match res {
        Ok(true) => Setup::Connect,
        Ok(false) => match offer {
            Offer::Existing => Setup::Authenticate(Offer::New),
            Offer::New => Setup::Fail(Context::OfferKey, Error::new(ErrorKind::AuthRejected)),
        },
        Err(e) => match offer {
            Offer::Existing => {
                if let ErrorKind::AuthRejected = e.kind {
                    return Setup::Authenticate(Offer::New);
                }
                Setup::Fail(Context::AuthError, e)
            },
            Offer::New => Setup::Fail(Context::OfferKey, e),
        },
    }
}

/// The new key is offered only after the device turned down the one that it
/// may know, and nothing is offered after it.
pub proof fn law_new_key_is_the_last_offer(
    creation: Result<(), Error>,
    offer: Offer,
    res: Result<bool, Error>,
)
    ensures
        after_creation(creation) != Setup::Authenticate(Offer::New),
        after_auth(offer, res) is Authenticate <==> offer is Existing && turned_down(res),
        after_auth(offer, res) != Setup::Authenticate(Offer::Existing),
{
}

/// A device is opened exactly if it has a serial number that is not excluded,
/// that is included where anything is, and under which there is no connection.
pub proof fn law_devices_are_wanted(
    config: &UsbConfig,
    mgr: &ConnectionMgr,
    serial: &str,
    yes: bool,
    without: bool,
)
    requires
        call_ensures(wants_device, (config, mgr, Some(serial)), yes),
        call_ensures(wants_device, (config, mgr, None), without),
    ensures
        !without,
        yes <==> {
            &&& !config.excluded@.contains(serial@)
            &&& config.included@.contains(serial@) || forall|s: Seq<char>|
                !config.included@.contains(s)
            &&& !mgr@.by_serial.contains_key(serial@)
        },
{
    if config.included@.is_empty() {
        assert forall|s: Seq<char>| !config.included@.contains(s) by {
            if config.included@.contains(s) {
                assert(config.included@ == Set::<Seq<char>>::empty());
            }
        }
    }
    if forall|s: Seq<char>| !config.included@.contains(s) {
        assert(config.included@ =~= Set::empty());
    }
}

/// A device that was opened is connected, one that is no ADB device is left
/// alone without a word, and every other failure is told.
pub proof fn law_what_is_no_adb_device_is_ignored(res: Result<(), Error>, discovery: Discovery)
    requires
        call_ensures(opened, (res,), discovery),
    ensures
        res is Ok <==> discovery is Connect,
        discovery is Ignore <==> (res matches Err(e) && e.kind == ErrorKind::Usb(
            UsbError::Unsupported,
        )),
        discovery matches Discovery::Warn(e) ==> res == Err::<(), Error>(e),
{
}

/// The first key that is offered is one that the device may know. A device that
/// faults at the first message is reset; else the failure is told.
pub proof fn law_setting_up_starts_with_the_known_key(res: Result<(), Error>, setup: Setup)
    requires
        call_ensures(created, (res,), setup),
    ensures
        res is Ok <==> setup == Setup::Authenticate(Offer::Existing),
        setup is Reset <==> (res matches Err(e) && e.kind == ErrorKind::Usb(
            UsbError::Transfer(TransferError::Fault),
        )),
        !(setup is Connect),
        setup matches Setup::Fail(context, e) ==> context == Context::CreateTransport && res
            == Err::<(), Error>(e),
{
}

/// A connection is there exactly if the device let the host in. A device that
/// turns the known key down is shown the new one, and one that turns that down
/// too, or where anything else goes wrong, is given up, with the reason.
pub proof fn law_turned_down_devices_are_asked_once_more(
    offer: Offer,
    res: Result<bool, Error>,
    setup: Setup,
)
    requires
        call_ensures(authenticated, (offer, res), setup),
    ensures
        setup is Connect <==> res == Ok::<bool, Error>(true),
        setup is Authenticate <==> offer is Existing && (res == Ok::<bool, Error>(false) || (
        res matches Err(e) && e.kind is AuthRejected)),
        setup is Authenticate ==> setup == Setup::Authenticate(Offer::New),
        !(setup is Reset),
        setup matches Setup::Fail(context, e) ==> {
            &&& context == if offer is Existing {
                Context::AuthError
            } else {
                Context::OfferKey
            }
            &&& res matches Err(err) ==> e == err
            &&& res is Ok ==> e.kind is AuthRejected
        },
{
}

/// Where the setting up of a connection fails, it is said at what.
pub proof fn law_failures_to_connect_have_their_words(create: String, auth: String, offer: String)
    requires
        call_ensures(Context::text, (&Context::CreateTransport,), create),
        call_ensures(Context::text, (&Context::AuthError,), auth),
        call_ensures(Context::text, (&Context::OfferKey,), offer),
    ensures
        create@ == "create transport"@,
        auth@ == "auth error"@,
        offer@ == "offer key"@,
{
}

} // verus!
