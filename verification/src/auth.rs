//! How a connection is opened: the first message, the answers to the device's
//! challenges, and the banner of the device.

use rsa::pkcs8::DecodePrivateKey;
use rsa::{Pkcs1v15Sign, RsaPrivateKey};
use sha1::Sha1;
use vstd::prelude::*;
use vstd::utf8::{decode_utf8, encode_utf8, valid_utf8};
use crate::banner::{parsed_banner, Banner};
use crate::error::{Detail, Error, ErrorKind};
use crate::message::{message, AdbCommand, AdbMessage, MessageView};
use crate::pubkey::offered_with;
use crate::socket::MAX_PAYLOAD;
use crate::text::{has_prefix, has_suffix};
use crate::transport::{Transport, TransportBackend, TransportView};

verus! {

/// The version of the protocol.
pub const VERSION: u32 = 0x0100_0001;

/// The answer to a challenge is a signature.
pub const AUTH_TYPE_SIGNATURE: u32 = 2;

/// The answer to a challenge is a public key.
pub const AUTH_TYPE_PUBLICKEY: u32 = 3;

/// The name under which a public key is offered.
pub const KEY_NAME: &'static str = "adb-daemon";

/// What this side says of itself.
pub const CONN_STR: &'static str = "host::features=shell_v2,cmd,stat_v2,ls_v2,fixed_push_mkdir,apex,abb,fixed_push_symlink_timestamp,abb_exec,remount_shell,track_app,sendrecv_v2,sendrecv_v2_brotli,sendrecv_v2_lz4,sendrecv_v2_zstd,sendrecv_v2_dry_run_send,openscreen_mdns,devicetracker_proto_format,delayed_ack";

/// Whether `RsaPrivateKey::from_pkcs8_pem` takes the text for a private key.
pub uninterp spec fn is_private_key(pem: Seq<char>) -> bool;

/// The signature that `RsaPrivateKey::sign` makes over a SHA-1 digest with
/// PKCS #1 v1.5 padding, with the private key in the PEM text.
pub uninterp spec fn pkcs1v15_sha1_signature(pem: Seq<char>, digest: Seq<u8>) -> Option<Seq<u8>>;

/// `RsaPrivateKey::from_pkcs8_pem` decodes the text or refuses it; which of
/// the two depends on the text alone.
#[verifier::external_body]
fn decodes(pem: &str) -> (yes: bool)
    ensures
        yes == is_private_key(pem@),
{
    RsaPrivateKey::from_pkcs8_pem(pem).is_ok()
}

/// `RsaPrivateKey::sign` with `Pkcs1v15Sign` over SHA-1 and without blinding:
/// the signature depends on the key and the digest alone. It fails where the
/// digest has not the length of a SHA-1 digest; a text that is no private key
/// gives nothing to sign with.
#[verifier::external_body]
fn sign_digest(pem: &str, digest: &[u8]) -> (signature: Option<Vec<u8>>)
    ensures
        match signature {
            Some(s) => pkcs1v15_sha1_signature(pem@, digest@) == Some(s@),
            None => pkcs1v15_sha1_signature(pem@, digest@) is None,
        },
        digest@.len() != 20 ==> signature is None,
        !is_private_key(pem@) ==> signature is None,
{
    let key = RsaPrivateKey::from_pkcs8_pem(pem).ok()?;
    key.sign(Pkcs1v15Sign::new::<Sha1>(), digest).ok()
}

/// A private key, as the text in which it is stored.
#[derive(Debug)]
pub struct SigningKey {
    pub pem: String,
}

impl SigningKey {
    /// Whether the text is a private key.
    pub open spec fn wf(self) -> bool {
        is_private_key(self.pem@)
    }

    /// Takes the text of a private key.
    pub fn from_pem(pem: String) -> (key: Option<SigningKey>)
        ensures
            match key {
                Some(k) => is_private_key(pem@) && k.pem@ == pem@ && k.wf(),
                None => !is_private_key(pem@),
            },
    {
        if decodes(pem.as_str()) {
            Some(SigningKey { pem })
        } else {
            None
        }
    }

    /// Signs a challenge.
    pub fn sign(&self, token: &[u8]) -> (signature: Option<Vec<u8>>)
        ensures
            match signature {
                Some(s) => pkcs1v15_sha1_signature(self.pem@, token@) == Some(s@),
                None => pkcs1v15_sha1_signature(self.pem@, token@) is None,
            },
            token@.len() != 20 ==> signature is None,
    {
        sign_digest(self.pem.as_str(), token)
    }
}

/// How to answer a challenge.
#[derive(Debug)]
pub enum AuthMode<'a> {
    /// With the public key, for the user of the device to accept.
    New(&'a SigningKey),
    /// With a signature, by a key that the device knows.
    Existing(&'a SigningKey),
}

/// A connection that is not open yet.
#[derive(Debug)]
pub struct AuthTransport {
    /// A challenge that was received and not answered.
    pub last_auth: Option<AdbMessage>,
}

/// What to do after a message.
pub enum AuthStep {
    /// Send this message and go on.
    Send(AdbMessage),
    /// The device wants another answer; the attempt is over.
    Rejected,
    /// The connection is open.
    Connected(Transport),
    /// Go on.
    Continue,
}

/// The answer to a challenge, or why there is none.
pub open spec fn answer(mode: AuthMode, token: Seq<u8>) -> Result<MessageView, Error> {
    match mode {
        AuthMode::New(key) => match offered_with(key.pem@, KEY_NAME@) {
            Some(bytes) => Ok(message(AdbCommand::AUTH, AUTH_TYPE_PUBLICKEY, 0, bytes)),
            None => Err(Error { kind: ErrorKind::Other, detail: Detail::PublicKey }),
        },
        AuthMode::Existing(key) => match pkcs1v15_sha1_signature(key.pem@, token) {
            Some(s) => Ok(message(AdbCommand::AUTH, AUTH_TYPE_SIGNATURE, 0, s)),
            None => Err(Error { kind: ErrorKind::Sign, detail: Detail::Nothing }),
        },
    }
}

/// The connection that the device's connection string opens, or why it does
/// not.
pub open spec fn opened_by(payload: Seq<u8>) -> Result<TransportView, Error> {
    if !valid_utf8(payload) {
        Err(Error { kind: ErrorKind::InvalidData, detail: Detail::MalformedConnStr })
    } else {
        match parsed_banner(decode_utf8(payload)) {
            None => Err(Error { kind: ErrorKind::ParseBanner, detail: Detail::MalformedBanner }),
            Some(banner) => if !banner.features.contains("delayed_ack"@) {
                Err(Error { kind: ErrorKind::DelayedAckNotAvailable, detail: Detail::Nothing })
            } else {
                Ok(
                    TransportView {
                        last_id: 1,
                        error: None,
                        routes: Map::empty(),
                        slots: seq![],
                        banner,
                    },
                )
            },
        }
    }
}

/// The message that carries a signature, where signing succeeded.
pub fn signature_message(signature: Option<Vec<u8>>) -> (res: Result<AdbMessage, Error>)
    ensures
        match signature {
            Some(s) => res matches Ok(m) && m@ == message(
                AdbCommand::AUTH,
                AUTH_TYPE_SIGNATURE,
                0,
                s@,
            ),
            None => res == Err::<AdbMessage, Error>(
                Error { kind: ErrorKind::Sign, detail: Detail::Nothing },
            ),
        },
{
    match signature {
        Some(s) => Ok(AdbMessage::new(AdbCommand::AUTH, AUTH_TYPE_SIGNATURE, 0, s)),
        None => Err(Error::new(ErrorKind::Sign)),
    }
}

/// The message that carries a public key, where there is one to offer.
pub fn public_key_message(key: Option<Vec<u8>>) -> (res: Result<AdbMessage, Error>)
    ensures
        match key {
            Some(bytes) => res matches Ok(m) && m@ == message(
                AdbCommand::AUTH,
                AUTH_TYPE_PUBLICKEY,
                0,
                bytes@,
            ),
            None => res == Err::<AdbMessage, Error>(
                Error { kind: ErrorKind::Other, detail: Detail::PublicKey },
            ),
        },
{
    match key {
        Some(bytes) => Ok(AdbMessage::new(AdbCommand::AUTH, AUTH_TYPE_PUBLICKEY, 0, bytes)),
        None => Err(Error::with(ErrorKind::Other, Detail::PublicKey)),
    }
}

/// What a message leads to while a connection is opened.
#[verifier::ext_equal]
pub enum AuthEvent {
    /// An answer is sent, and the attempt goes on without a key.
    Send(MessageView),
    /// The attempt is over, and the message is kept.
    Rejected,
    /// The attempt is over, and the connection is open.
    Connected(TransportView),
    /// The attempt goes on.
    Continue,
    /// The attempt is over.
    Failed(Error),
}

/// What a message leads to; `key` is how to answer a challenge, unless that
/// was used up.
pub open spec fn auth_event(key: Option<AuthMode<'_>>, msg: MessageView) -> AuthEvent {
    match msg.header.command {
        AdbCommand::AUTH => match key {
            Some(mode) => match answer(mode, msg.payload) {
                Ok(m) => AuthEvent::Send(m),
                Err(e) => AuthEvent::Failed(e),
            },
            None => AuthEvent::Rejected,
        },
        AdbCommand::CNXN => match opened_by(msg.payload) {
            Ok(view) => AuthEvent::Connected(view),
            Err(e) => AuthEvent::Failed(e),
        },
        _ => AuthEvent::Continue,
    }
}

impl AuthTransport {
    /// Starts to open a connection; gives the message with which this side
    /// presents itself.
    pub fn new() -> (res: (AuthTransport, AdbMessage))
        ensures
            res.0.last_auth is None,
            res.1@ == message(AdbCommand::CNXN, VERSION, MAX_PAYLOAD, encode_utf8(CONN_STR@)),
    {
        let msg = AdbMessage::new(
            AdbCommand::CNXN,
            VERSION,
            MAX_PAYLOAD,
            CONN_STR.as_bytes_vec(),
        );
        (AuthTransport { last_auth: None }, msg)
    }

    /// The challenge that is still to be answered, if there is one; without
    /// one, the next message has to be read from the device.
    pub fn next_message(&mut self) -> (msg: Option<AdbMessage>)
        ensures
            msg == old(self).last_auth,
            final(self).last_auth is None,
    {
        self.last_auth.take()
    }

    /// Opens the connection with the device's connection string.
    pub fn handle_cnxn(msg: AdbMessage) -> (res: Result<Transport, Error>)
        ensures
            match opened_by(msg.payload@) {
                Ok(view) => res matches Ok(t) && t.wf() && t.inbound && t.inner@ == view
                    && t.inner.banner.wf(),
                Err(e) => res == Err::<Transport, Error>(e),
            },
    {
        let conn_str = match String::from_utf8(msg.payload) {
            Ok(s) => s,
            Err(_) => {
                return Err(Error::with(ErrorKind::InvalidData, Detail::MalformedConnStr));
            },
        };
        let banner = match Banner::parse(conn_str.as_str()) {
            Some(b) => b,
            None => {
                return Err(Error::with(ErrorKind::ParseBanner, Detail::MalformedBanner));
            },
        };
        if !banner.has_feature("delayed_ack") {
            return Err(Error::new(ErrorKind::DelayedAckNotAvailable));
        }
        Ok(Transport { inner: TransportBackend::new(banner), inbound: true })
    }

    /// Takes in a message while the connection is opened. `key` is how to
    /// answer a challenge, and is used up by the first one.
    pub fn auth<'a>(&mut self, key: &mut Option<AuthMode<'a>>, msg: AdbMessage) -> (res: Result<
        AuthStep,
        Error,
    >)
        ensures
            *final(key) == if msg.header.command is AUTH {
                None
            } else {
                *old(key)
            },
            final(self).last_auth == if auth_event(*old(key), msg@) is Rejected {
                Some(msg)
            } else {
                old(self).last_auth
            },
            match auth_event(*old(key), msg@) {
                AuthEvent::Send(view) => res matches Ok(AuthStep::Send(m)) && m@ == view,
                AuthEvent::Rejected => res matches Ok(AuthStep::Rejected),
                AuthEvent::Connected(view) => res matches Ok(AuthStep::Connected(t)) && t.wf()
                    && t.inbound && t.inner@ == view && t.inner.banner.wf(),
                AuthEvent::Continue => res matches Ok(AuthStep::Continue),
                AuthEvent::Failed(e) => res == Err::<AuthStep, Error>(e),
            },
    {
        match msg.header.command {
            AdbCommand::AUTH => match key.take() {
                None => {
                    self.last_auth = Some(msg);
                    Ok(AuthStep::Rejected)
                },
                Some(AuthMode::Existing(k)) => match signature_message(
                    k.sign(msg.payload.as_slice()),
                ) {
                    Ok(m) => Ok(AuthStep::Send(m)),
                    Err(e) => Err(e),
                },
                Some(AuthMode::New(k)) => match public_key_message(k.public_key(KEY_NAME)) {
                    Ok(m) => Ok(AuthStep::Send(m)),
                    Err(e) => Err(e),
                },
            },
            AdbCommand::CNXN => match Self::handle_cnxn(msg) {
                Ok(t) => Ok(AuthStep::Connected(t)),
                Err(e) => Err(e),
            },
            _ => Ok(AuthStep::Continue),
        }
    }
}

/// How an attempt to authenticate ended, as far as messages came.
#[verifier::ext_equal]
pub enum AttemptEnd {
    /// It did not; it waits for the next message.
    Waiting,
    /// The device wants another answer to this challenge, which is kept.
    Rejected(MessageView),
    Connected(TransportView),
    Failed(Error),
}

/// An attempt to authenticate.
#[verifier::ext_equal]
pub struct Attempt {
    /// What was sent, in order.
    pub sent: Seq<MessageView>,
    pub end: AttemptEnd,
    /// How many messages were taken in.
    pub taken: nat,
}

/// The attempt over these messages.
pub open spec fn attempt(key: Option<AuthMode<'_>>, msgs: Seq<MessageView>) -> Attempt
    decreases msgs.len(),
{
    if msgs.len() == 0 {
        Attempt { sent: seq![], end: AttemptEnd::Waiting, taken: 0 }
    } else {
        match auth_event(key, msgs[0]) {
            AuthEvent::Send(m) => {
                let rest = attempt(None, msgs.skip(1));
                Attempt { sent: seq![m] + rest.sent, end: rest.end, taken: rest.taken + 1 }
            },
            AuthEvent::Continue => {
                let rest = attempt(key, msgs.skip(1));
                Attempt { sent: rest.sent, end: rest.end, taken: rest.taken + 1 }
            },
            AuthEvent::Rejected => Attempt {
                sent: seq![],
                end: AttemptEnd::Rejected(msgs[0]),
                taken: 1,
            },
            AuthEvent::Connected(view) => Attempt {
                sent: seq![],
                end: AttemptEnd::Connected(view),
                taken: 1,
            },
            AuthEvent::Failed(e) => Attempt { sent: seq![], end: AttemptEnd::Failed(e), taken: 1 },
        }
    }
}

/// The messages of an attempt: a challenge that was kept, then what the device
/// sends.
pub open spec fn attempt_input(kept: Option<MessageView>, incoming: Seq<MessageView>) -> Seq<
    MessageView,
> {
    match kept {
        Some(msg) => seq![msg] + incoming,
        None => incoming,
    }
}

/// Whether the messages are neither challenges nor connection strings.
pub open spec fn quiet(msgs: Seq<MessageView>) -> bool {
    forall|i: int|
        0 <= i < msgs.len() ==> !((#[trigger] msgs[i]).header.command is AUTH)
            && !(msgs[i].header.command is CNXN)
}

/// Messages that are neither challenges nor connection strings are skipped.
pub proof fn law_other_messages_are_skipped(
    key: Option<AuthMode<'_>>,
    others: Seq<MessageView>,
    rest: Seq<MessageView>,
)
    requires
        quiet(others),
    ensures
        ({
            let after = attempt(key, rest);
            attempt(key, others + rest) == (Attempt { taken: others.len() + after.taken, ..after })
        }),
    decreases others.len(),
{
    if others.len() == 0 {
        assert(others + rest =~= rest);
    } else {
        let msgs = others + rest;
        assert(msgs[0] == others[0]);
        assert(msgs.skip(1) =~= others.skip(1) + rest);
        assert forall|i: int| 0 <= i < others.skip(1).len() implies !((
        #[trigger] others.skip(1)[i]).header.command is AUTH) && !(
        others.skip(1)[i].header.command is CNXN) by {
            assert(others.skip(1)[i] == others[i + 1]);
        }
        law_other_messages_are_skipped(key, others.skip(1), rest);
    }
}

/// The first challenge is answered, and the second one ends the attempt: it is
/// not answered but kept, and nothing after it is taken in.
pub proof fn law_second_challenge_is_kept(
    mode: AuthMode<'_>,
    before: Seq<MessageView>,
    first: MessageView,
    between: Seq<MessageView>,
    second: MessageView,
    rest: Seq<MessageView>,
)
    requires
        quiet(before),
        quiet(between),
        first.header.command is AUTH,
        second.header.command is AUTH,
        answer(mode, first.payload) is Ok,
    ensures
        attempt(Some(mode), before + (seq![first] + (between + (seq![second] + rest)))) == (
        Attempt {
            sent: seq![answer(mode, first.payload)->Ok_0],
            end: AttemptEnd::Rejected(second),
            taken: before.len() + between.len() + 2,
        }),
{
    let last = seq![second] + rest;
    let middle = seq![first] + (between + last);
    assert(last[0] == second);
    law_other_messages_are_skipped(None, between, last);
    assert(middle[0] == first);
    assert(middle.skip(1) =~= between + last);
    law_other_messages_are_skipped(Some(mode), before, middle);
    assert(attempt(Some(mode), before + middle).sent =~= seq![answer(mode, first.payload)->Ok_0]);
}

/// A challenge that an attempt kept is answered by the next attempt before
/// anything more is read: the next attempt goes on as one without a key.
pub proof fn law_kept_challenge_is_answered_first(
    mode: AuthMode<'_>,
    kept: MessageView,
    incoming: Seq<MessageView>,
)
    requires
        kept.header.command is AUTH,
        answer(mode, kept.payload) is Ok,
    ensures
        ({
            let after = attempt(None, incoming);
            attempt(Some(mode), attempt_input(Some(kept), incoming)) == (Attempt {
                sent: seq![answer(mode, kept.payload)->Ok_0] + after.sent,
                end: after.end,
                taken: after.taken + 1,
            })
        }),
{
    let msgs = attempt_input(Some(kept), incoming);
    assert(msgs[0] == kept);
    assert(msgs.skip(1) =~= incoming);
}

/// A connection string ends the attempt, with or without a challenge before
/// it, by opening the connection or by the reason why it does not.
pub proof fn law_connection_string_ends_the_attempt(
    key: Option<AuthMode<'_>>,
    before: Seq<MessageView>,
    cnxn: MessageView,
    rest: Seq<MessageView>,
)
    requires
        quiet(before),
        cnxn.header.command is CNXN,
    ensures
        attempt(key, before + (seq![cnxn] + rest)) == (Attempt {
            sent: seq![],
            end: match opened_by(cnxn.payload) {
                Ok(view) => AttemptEnd::Connected(view),
                Err(e) => AttemptEnd::Failed(e),
            },
            taken: before.len() + 1,
        }),
{
    let last = seq![cnxn] + rest;
    assert(last[0] == cnxn);
    law_other_messages_are_skipped(key, before, last);
}

/// A key is offered at most once, whatever the device sends.
pub proof fn law_key_is_used_once(key: Option<AuthMode<'_>>, msgs: Seq<MessageView>)
    ensures
        attempt(key, msgs).sent.len() <= if key is Some {
            1nat
        } else {
            0nat
        },
    decreases msgs.len(),
{
    if msgs.len() > 0 {
        match auth_event(key, msgs[0]) {
            AuthEvent::Send(_) => {
                law_key_is_used_once(None, msgs.skip(1));
            },
            AuthEvent::Continue => {
                law_key_is_used_once(key, msgs.skip(1));
            },
            _ => {},
        }
    }
}

/// Only a device that acknowledges with delay is connected to.
pub proof fn law_connected_devices_delay_acks(payload: Seq<u8>)
    ensures
        opened_by(payload) matches Ok(t) ==> t.banner.features.contains("delayed_ack"@),
{
}

/// A challenge is answered once, with what the key gives: a signature over this
/// very challenge where the device may know the key, or else the public key that
/// belongs to it. Each goes out under its own number. Where the key gives
/// nothing, the attempt fails.
pub proof fn law_challenges_are_answered_with_the_key(
    state: &mut AuthTransport,
    key: &mut Option<AuthMode<'_>>,
    msg: AdbMessage,
    res: Result<AuthStep, Error>,
    signer: &SigningKey,
    token: &[u8],
    signature: Option<Vec<u8>>,
    offered: Option<Vec<u8>>,
)
    requires
        call_ensures(AuthTransport::auth, (state, key, msg), res),
        msg.header.command is AUTH,
        token@ == msg.payload@,
        call_ensures(SigningKey::sign, (signer, token), signature),
        call_ensures(SigningKey::public_key, (signer, "adb-daemon"), offered),
    ensures
        *final(key) is None,
        *old(key) == Some(AuthMode::Existing(signer)) ==> match signature {
            Some(s) => res matches Ok(AuthStep::Send(m)) && m.header.command == AdbCommand::AUTH
                && m.header.arg0 == 2 && m.header.arg1 == 0 && m.payload@ == s@,
            None => res matches Err(e) && e.kind == ErrorKind::Sign,
        },
        *old(key) == Some(AuthMode::New(signer)) ==> match offered {
            Some(k) => res matches Ok(AuthStep::Send(m)) && m.header.command == AdbCommand::AUTH
                && m.header.arg0 == 3 && m.header.arg1 == 0 && m.payload@ == k@,
            None => res matches Err(e) && e.kind == ErrorKind::Other && e.detail
                == Detail::PublicKey,
        },
        *old(key) is Some ==> final(state).last_auth == old(state).last_auth,
        *old(key) is None ==> (res matches Ok(AuthStep::Rejected)) && final(state).last_auth
            == Some(msg),
{
    if let Ok(AuthStep::Send(m)) = res {
        assert(m@.header == m.header && m@.payload == m.payload@);
    }
}

/// A challenge that was kept is handed out once, before anything more is read.
pub proof fn law_kept_challenges_are_handed_out_once(
    state: &mut AuthTransport,
    kept: Option<AdbMessage>,
    later: &mut AuthTransport,
    again: Option<AdbMessage>,
)
    requires
        call_ensures(AuthTransport::next_message, (state,), kept),
        *old(later) == *final(state),
        call_ensures(AuthTransport::next_message, (later,), again),
    ensures
        kept == old(state).last_auth,
        again is None,
{
}

/// Messages that are neither challenges nor connection strings change nothing,
/// and the attempt goes on with its key.
pub proof fn law_other_messages_change_nothing(
    state: &mut AuthTransport,
    key: &mut Option<AuthMode<'_>>,
    msg: AdbMessage,
    res: Result<AuthStep, Error>,
)
    requires
        call_ensures(AuthTransport::auth, (state, key, msg), res),
    ensures
        !(msg.header.command is AUTH) ==> *final(key) == *old(key) && final(state).last_auth
            == old(state).last_auth,
        !(msg.header.command is AUTH) && !(msg.header.command is CNXN) <==> (res matches Ok(
            AuthStep::Continue,
        )),
{
}

/// A connection string opens the connection exactly if it is a text, is read as
/// one, and lists that the device acknowledges with delay; the connection then
/// knows what the device said, has not failed, and no socket runs over it. Else
/// it is told what was wrong with it.
pub proof fn law_connection_strings_open_connections(
    msg: AdbMessage,
    res: Result<Transport, Error>,
    text: &str,
    banner: Option<Banner>,
    delayed: bool,
)
    requires
        call_ensures(AuthTransport::handle_cnxn, (msg,), res),
        valid_utf8(msg.payload@) ==> text@ == decode_utf8(msg.payload@),
        call_ensures(Banner::parse, (text,), banner),
        banner matches Some(b) ==> call_ensures(Banner::has_feature, (&b, "delayed_ack"), delayed),
    ensures
        res is Ok <==> valid_utf8(msg.payload@) && banner is Some && delayed,
        res matches Ok(t) ==> {
            &&& banner matches Some(b) && t.inner@.banner == b@
            &&& t.inner@.error is None
            &&& t.inner@.last_id == 1
            &&& t.inner@.slots.len() == 0
            &&& forall|id: u64| !t.inner@.routes.contains_key(id)
            &&& t.inbound
        },
        res matches Err(e) ==> if !valid_utf8(msg.payload@) {
            e.kind == ErrorKind::InvalidData
        } else if banner is None {
            e.kind == ErrorKind::ParseBanner
        } else {
            e.kind == ErrorKind::DelayedAckNotAvailable
        },
{
}

/// While a connection is opened, a connection string decides as it does alone.
pub proof fn law_connection_strings_decide(
    state: &mut AuthTransport,
    key: &mut Option<AuthMode<'_>>,
    msg: AdbMessage,
    res: Result<AuthStep, Error>,
    alone: Result<Transport, Error>,
)
    requires
        msg.header.command is CNXN,
        call_ensures(AuthTransport::auth, (state, key, msg), res),
        call_ensures(AuthTransport::handle_cnxn, (msg,), alone),
    ensures
        match alone {
            Ok(t) => res matches Ok(AuthStep::Connected(u)) && u.inner@ == t.inner@ && u.inbound
                == t.inbound,
            Err(e) => res == Err::<AuthStep, Error>(e),
        },
{
}

/// This side presents itself first: with the version and the largest payload that
/// it can take, and with what it can do, delayed acknowledgments among it.
pub proof fn law_the_host_presents_itself(res: (AuthTransport, AdbMessage))
    requires
        call_ensures(AuthTransport::new, (), res),
    ensures
        res.0.last_auth is None,
        res.1.header.command == AdbCommand::CNXN,
        res.1.header.arg0 == 0x0100_0001,
        res.1.header.arg1 == 1024 * 1024,
        res.1.payload@ == encode_utf8(CONN_STR@),
        has_prefix(CONN_STR@, "host::features="@),
        has_suffix(CONN_STR@, ",delayed_ack"@),
{
    let msg = res.1;
    assert(msg@.header == msg.header && msg@.payload == msg.payload@);
    reveal_strlit("host::features=shell_v2,cmd,stat_v2,ls_v2,fixed_push_mkdir,apex,abb,fixed_push_symlink_timestamp,abb_exec,remount_shell,track_app,sendrecv_v2,sendrecv_v2_brotli,sendrecv_v2_lz4,sendrecv_v2_zstd,sendrecv_v2_dry_run_send,openscreen_mdns,devicetracker_proto_format,delayed_ack");
    reveal_strlit("host::features=");
    reveal_strlit(",delayed_ack");
    let front = "host::features="@;
    let end = ",delayed_ack"@;
    assert(front.len() == 15 && end.len() == 12);
    assert(CONN_STR@.take(15) =~= front);
    assert(CONN_STR@.skip(CONN_STR@.len() - 12) =~= end);
}

/// A text is a key exactly if it holds a private key, and the key is kept as it
/// is. Signing is the same for the same key and challenge, and nothing but a
/// challenge of twenty bytes is signed.
pub proof fn law_keys_are_taken_as_they_are(
    pem: String,
    key: Option<SigningKey>,
    signer: &SigningKey,
    token: &[u8],
    first: Option<Vec<u8>>,
    second: Option<Vec<u8>>,
)
    requires
        call_ensures(SigningKey::from_pem, (pem,), key),
        call_ensures(SigningKey::sign, (signer, token), first),
        call_ensures(SigningKey::sign, (signer, token), second),
    ensures
        key is Some <==> is_private_key(pem@),
        key matches Some(k) ==> k.pem@ == pem@,
        first is Some == second is Some,
        first matches Some(s) ==> second->0@ == s@,
        token@.len() != 20 ==> first is None,
{
}

/// A signature goes out under one number and a public key under another, each as
/// it is; where there is none, that is an error.
pub proof fn law_answers_have_their_numbers(
    bytes: Vec<u8>,
    signed: Result<AdbMessage, Error>,
    unsigned: Result<AdbMessage, Error>,
    offered: Result<AdbMessage, Error>,
    withheld: Result<AdbMessage, Error>,
)
    requires
        call_ensures(signature_message, (Some(bytes),), signed),
        call_ensures(signature_message, (None,), unsigned),
        call_ensures(public_key_message, (Some(bytes),), offered),
        call_ensures(public_key_message, (None,), withheld),
    ensures
        signed matches Ok(m) && m.header.command == AdbCommand::AUTH && m.header.arg0 == 2
            && m.header.arg1 == 0 && m.payload@ == bytes@,
        unsigned matches Err(e) && e.kind == ErrorKind::Sign,
        offered matches Ok(m) && m.header.command == AdbCommand::AUTH && m.header.arg0 == 3
            && m.header.arg1 == 0 && m.payload@ == bytes@,
        withheld matches Err(e) && e.kind == ErrorKind::Other && e.detail == Detail::PublicKey,
{
    if let Ok(m) = signed {
        assert(m@.header == m.header && m@.payload == m.payload@);
    }
    if let Ok(m) = offered {
        assert(m@.header == m.header && m@.payload == m.payload@);
    }
}

} // verus!
