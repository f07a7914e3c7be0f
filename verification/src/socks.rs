//! The SOCKS5 dialogue by which the local Tor asks for a connection. Transport
//! arguments travel in the username and password fields.
use crate::bytes::{
    extend, find_spec, find_subslice, lemma_first_match, lemma_match_is_first, stands_at,
};
use crate::crypto::{
    hex_digit, is_key_hex, key_from_digits, key_hex, key_of_hex, law_hex_keys_read_back,
};
use crate::text::{decimal, push_decimal};
use vstd::prelude::*;
use vstd::string::*;

verus! {

pub const SOCKS_VERSION: u8 = 5;

pub const NO_AUTH: u8 = 0;

pub const USERPASS_AUTH: u8 = 2;

pub const NO_METHOD: u8 = 255;

pub const USERPASS_VERSION: u8 = 1;

pub const CONNECT: u8 = 1;

pub const IPV4: u8 = 1;

pub const DOMAIN: u8 = 3;

pub const IPV6: u8 = 4;

/// Why a dialogue failed.
#[derive(Debug)]
pub enum SocksError {
    Io(std::io::Error),
    DomainTargetRejected,
    NoSupportedAuthMethod,
    UnsupportedAddressKind(u8),
    UnsupportedCommand(u8),
    UnsupportedVersion(u8),
}

impl SocksError {
    /// Whether `text` describes this error.
    pub open spec fn described_by(self, text: Seq<char>) -> bool {
        match self {
            SocksError::Io(e) => exists|shown: String|
                #[trigger] to_string_from_display_ensures::<std::io::Error>(&e, shown) && text
                    == "SOCKS I/O error: "@ + shown@,
            SocksError::DomainTargetRejected => text
                == "SOCKS domain target rejected (bridge must be addressed by IP to avoid a DNS leak)"@,
            SocksError::NoSupportedAuthMethod => text
                == "SOCKS client offered no supported auth method"@,
            SocksError::UnsupportedAddressKind(kind) => text == "unsupported SOCKS address kind "@
                + decimal(kind as nat),
            SocksError::UnsupportedCommand(command) => text == "unsupported SOCKS command "@
                + decimal(command as nat),
            SocksError::UnsupportedVersion(version) => text == "unsupported SOCKS version "@
                + decimal(version as nat),
        }
    }

    /// The error in words.
    pub fn message(&self) -> (s: String)
        ensures
            self.described_by(s@),
    {
        match self {
            SocksError::Io(e) => {
                let shown = e.to_string();
                let mut s = String::from_str("SOCKS I/O error: ");
                s.append(shown.as_str());
                s
            },
            SocksError::DomainTargetRejected => String::from_str(
                "SOCKS domain target rejected (bridge must be addressed by IP to avoid a DNS leak)",
            ),
            SocksError::NoSupportedAuthMethod => String::from_str(
                "SOCKS client offered no supported auth method",
            ),
            SocksError::UnsupportedAddressKind(kind) => {
                let mut s = String::from_str("unsupported SOCKS address kind ");
                push_decimal(&mut s, *kind as u128);
                s
            },
            SocksError::UnsupportedCommand(command) => {
                let mut s = String::from_str("unsupported SOCKS command ");
                push_decimal(&mut s, *command as u128);
                s
            },
            SocksError::UnsupportedVersion(version) => {
                let mut s = String::from_str("unsupported SOCKS version ");
                push_decimal(&mut s, *version as u128);
                s
            },
        }
    }
}

impl From<std::io::Error> for SocksError {
    fn from(e: std::io::Error) -> (r: SocksError) {
        SocksError::Io(e)
    }
}

impl vstd::std_specs::convert::FromSpecImpl<std::io::Error> for SocksError {
    open spec fn obeys_from_spec() -> bool {
        true
    }

    open spec fn from_spec(e: std::io::Error) -> SocksError {
        SocksError::Io(e)
    }
}

/// Transport arguments of a connection.
#[derive(Clone, Copy, Debug)]
pub struct ClientArgs {
    /// The server's identity key, where the arguments name it.
    pub cert: Option<[u8; 32]>,
}

impl Default for ClientArgs {
    fn default() -> (a: ClientArgs)
        ensures
            a.cert is None,
    {
        ClientArgs { cert: None }
    }
}

/// The text after which the key stands.
pub open spec fn cert_label() -> Seq<u8> {
    "cert=".spec_bytes()
}

/// Bytes read as ASCII characters.
pub open spec fn ascii(s: Seq<u8>) -> Seq<char> {
    s.map_values(|b: u8| b as char)
}

/// The key in transport arguments: 64 hexadecimal digits behind the first
/// `cert=`.
pub open spec fn cert_in(params: Seq<u8>) -> Option<Seq<u8>> {
    match find_spec(params, cert_label()) {
        None => None,
        Some(at) => {
            let digits = params.skip((at + 5) as int);
            if digits.len() >= 64 && is_key_hex(ascii(digits.take(64))) {
                Some(key_of_hex(ascii(digits.take(64))))
            } else {
                None
            }
        },
    }
}

/// The key in transport arguments, if it is there.
pub fn extract_cert(params: &[u8]) -> (r: Option<[u8; 32]>)
    ensures
        match r {
            Some(key) => cert_in(params@) == Some(key@),
            None => cert_in(params@) is None,
        },
{
    let label = "cert=";
    proof {
        reveal_strlit("cert=");
        broadcast use vstd::string::group_string_axioms;
        assert(label.is_ascii());
        assert(label.spec_bytes().len() == 5);
    }
    let at: usize = match find_subslice(params, label.as_bytes()) {
        Some(at) => at,
        None => {
            return None;
        },
    };
    let total: usize = params.len();
    proof {
        lemma_first_match(params@, cert_label(), 0);
        assert(cert_label().len() == 5);
        assert(at + 5 <= total);
    }
    let start: usize = at + 5;
    if total - start < 64 {
        return None;
    }
    let mut digits: Vec<char> = Vec::new();
    let mut i: usize = 0;
    while i < 64
        invariant
            i <= 64,
            total == params@.len(),
            start + 64 <= total,
            digits@ == ascii(params@.skip(start as int).take(i as int)),
        decreases 64 - i,
    {
        let b: u8 = params[start + i];
        digits.push(b as char);
        i = i + 1;
        assert(digits@ =~= ascii(params@.skip(start as int).take(i as int)));
    }
    key_from_digits(digits.as_slice())
}

/// An address as it stands in a request.
#[derive(Clone, Copy, Debug, PartialEq, Eq)]
pub enum TargetIp {
    V4([u8; 4]),
    V6([u8; 16]),
}

/// Where a request wants to go.
#[derive(Clone, Copy, Debug, PartialEq, Eq)]
pub struct Target {
    pub ip: TargetIp,
    pub port: u16,
}

/// The bytes of an address.
pub open spec fn ip_bytes(ip: TargetIp) -> Seq<u8> {
    match ip {
        TargetIp::V4(octets) => octets@,
        TargetIp::V6(octets) => octets@,
    }
}

/// What the dialogue waits for.
#[derive(Clone, Copy, Debug, PartialEq, Eq, Structural)]
pub enum Stage {
    Greeting,
    Methods(u8),
    AuthVersion,
    UserLen,
    User(u8),
    PassLen,
    Pass(u8),
    Request,
    V4,
    V6,
    DomainLen,
    Domain(u8),
    Port,
    Finished,
}

impl Stage {
    /// Bytes that the stage takes.
    pub open spec fn takes(self) -> nat {
        match self {
            Stage::Greeting => 2,
            Stage::Methods(n) => n as nat,
            Stage::AuthVersion => 1,
            Stage::UserLen => 1,
            Stage::User(n) => n as nat,
            Stage::PassLen => 1,
            Stage::Pass(n) => n as nat,
            Stage::Request => 4,
            Stage::V4 => 4,
            Stage::V6 => 16,
            Stage::DomainLen => 1,
            Stage::Domain(n) => n as nat + 2,
            Stage::Port => 2,
            Stage::Finished => 0,
        }
    }
}

/// What the dialogue does next.
pub enum SocksAction {
    /// Reads on.
    Read,
    /// Sends these bytes and reads on.
    Reply(Vec<u8>),
    /// Sends these bytes; the request is complete.
    Done(Vec<u8>, Target, ClientArgs),
    /// Sends these bytes, if any, and gives up.
    Fail(Vec<u8>, SocksError),
}

/// What the dialogue does next, with the bytes it sends.
pub enum ActionView {
    Read,
    Reply(Seq<u8>),
    Done(Seq<u8>, Seq<u8>, u16, Option<Seq<u8>>),
    Fail(Seq<u8>, SocksError),
}

/// The view of a key that may be there.
pub open spec fn cert_view(cert: Option<[u8; 32]>) -> Option<Seq<u8>> {
    match cert {
        Some(key) => Some(key@),
        None => None,
    }
}

impl View for SocksAction {
    type V = ActionView;

    open spec fn view(&self) -> ActionView {
        match self {
            SocksAction::Read => ActionView::Read,
            SocksAction::Reply(bytes) => ActionView::Reply(bytes@),
            SocksAction::Done(bytes, target, args) => ActionView::Done(
                bytes@,
                ip_bytes(target.ip),
                target.port,
                cert_view(args.cert),
            ),
            SocksAction::Fail(bytes, error) => ActionView::Fail(bytes@, *error),
        }
    }
}

/// Where a dialogue stands: what it waits for, the arguments and the address
/// read so far.
pub struct DialogueState {
    pub stage: Stage,
    pub params: Seq<u8>,
    pub cert: Option<Seq<u8>>,
    pub ip: Seq<u8>,
}

/// The answer to a complete request.
pub open spec fn success_reply() -> Seq<u8> {
    seq![SOCKS_VERSION, 0u8, 0u8, IPV4, 0u8, 0u8, 0u8, 0u8, 0u8, 0u8]
}

impl DialogueState {
    /// The dialogue at another stage.
    pub open spec fn at(self, stage: Stage) -> DialogueState {
        DialogueState { stage, ..self }
    }

    /// The end of a failed dialogue, and what is sent.
    pub open spec fn failed(self, reply: Seq<u8>, error: SocksError) -> (DialogueState, ActionView) {
        (self.at(Stage::Finished), ActionView::Fail(reply, error))
    }

    /// What the bytes that a stage takes lead to.
    pub open spec fn fed(self, bytes: Seq<u8>) -> (DialogueState, ActionView) {
        let silent = Seq::<u8>::empty();
        match self.stage {
            Stage::Greeting => if bytes[0] != SOCKS_VERSION {
                self.failed(silent, SocksError::UnsupportedVersion(bytes[0]))
            } else if bytes[1] == 0 {
                self.failed(silent, SocksError::NoSupportedAuthMethod)
            } else {
                (self.at(Stage::Methods(bytes[1])), ActionView::Read)
            },
            Stage::Methods(_) => if bytes.contains(USERPASS_AUTH) {
                (
                    self.at(Stage::AuthVersion),
                    ActionView::Reply(seq![SOCKS_VERSION, USERPASS_AUTH]),
                )
            } else if bytes.contains(NO_AUTH) {
                (self.at(Stage::Request), ActionView::Reply(seq![SOCKS_VERSION, NO_AUTH]))
            } else {
                self.failed(seq![SOCKS_VERSION, NO_METHOD], SocksError::NoSupportedAuthMethod)
            },
            Stage::AuthVersion => if bytes[0] != USERPASS_VERSION {
                self.failed(silent, SocksError::UnsupportedVersion(bytes[0]))
            } else {
                (self.at(Stage::UserLen), ActionView::Read)
            },
            Stage::UserLen => (self.at(Stage::User(bytes[0])), ActionView::Read),
            Stage::User(_) => (
                DialogueState { stage: Stage::PassLen, params: self.params + bytes, ..self },
                ActionView::Read,
            ),
            Stage::PassLen => (self.at(Stage::Pass(bytes[0])), ActionView::Read),
            Stage::Pass(_) => (
                DialogueState {
                    stage: Stage::Request,
                    params: self.params + bytes,
                    cert: cert_in(self.params + bytes),
                    ..self
                },
                ActionView::Reply(seq![USERPASS_VERSION, 0u8]),
            ),
            Stage::Request => if bytes[0] != SOCKS_VERSION {
                self.failed(silent, SocksError::UnsupportedVersion(bytes[0]))
            } else if bytes[1] != CONNECT {
                self.failed(silent, SocksError::UnsupportedCommand(bytes[1]))
            } else if bytes[3] == IPV4 {
                (self.at(Stage::V4), ActionView::Read)
            } else if bytes[3] == IPV6 {
                (self.at(Stage::V6), ActionView::Read)
            } else if bytes[3] == DOMAIN {
                (self.at(Stage::DomainLen), ActionView::Read)
            } else {
                self.failed(silent, SocksError::UnsupportedAddressKind(bytes[3]))
            },
            Stage::V4 => (
                DialogueState { stage: Stage::Port, ip: bytes, ..self },
                ActionView::Read,
            ),
            Stage::V6 => (
                DialogueState { stage: Stage::Port, ip: bytes, ..self },
                ActionView::Read,
            ),
            Stage::DomainLen => (self.at(Stage::Domain(bytes[0])), ActionView::Read),
            Stage::Domain(_) => self.failed(silent, SocksError::DomainTargetRejected),
            Stage::Port => (
                self.at(Stage::Finished),
                ActionView::Done(
                    success_reply(),
                    self.ip,
                    (bytes[0] * 256 + bytes[1]) as u16,
                    self.cert,
                ),
            ),
            Stage::Finished => (self, ActionView::Read),
        }
    }
}

/// The server's side of the dialogue.
pub struct SocksDialogue {
    stage: Stage,
    params: Vec<u8>,
    cert: Option<[u8; 32]>,
    ip: TargetIp,
    ip_known: bool,
}

impl View for SocksDialogue {
    type V = DialogueState;

    closed spec fn view(&self) -> DialogueState {
        DialogueState {
            stage: self.stage,
            params: self.params@,
            cert: cert_view(self.cert),
            ip: if self.ip_known {
                ip_bytes(self.ip)
            } else {
                Seq::empty()
            },
        }
    }
}

/// Whether `b` is among the bytes.
fn holds_byte(bytes: &[u8], b: u8) -> (r: bool)
    ensures
        r == bytes@.contains(b),
{
    let mut i: usize = 0;
    while i < bytes.len()
        invariant
            i <= bytes@.len(),
            forall|j: int| 0 <= j < i ==> bytes@[j] != b,
        decreases bytes@.len() - i,
    {
        if bytes[i] == b {
            assert(bytes@[i as int] == b);
            return true;
        }
        i = i + 1;
    }
    false
}

/// Two bytes.
fn pair(a: u8, b: u8) -> (v: Vec<u8>)
    ensures
        v@ == seq![a, b],
{
    let mut v: Vec<u8> = Vec::new();
    v.push(a);
    v.push(b);
    assert(v@ =~= seq![a, b]);
    v
}

impl SocksDialogue {
    /// A dialogue that waits for a greeting.
    pub fn new() -> (d: SocksDialogue)
        ensures
            d@ == (DialogueState {
                stage: Stage::Greeting,
                params: Seq::empty(),
                cert: None,
                ip: Seq::empty(),
            }),
    {
        SocksDialogue {
            stage: Stage::Greeting,
            params: Vec::new(),
            cert: None,
            ip: TargetIp::V4([0, 0, 0, 0]),
            ip_known: false,
        }
    }

    /// Bytes to read next.
    pub fn wants(&self) -> (n: usize)
        ensures
            n == self@.stage.takes(),
    {
        match self.stage {
            Stage::Greeting => 2,
            Stage::Methods(n) => n as usize,
            Stage::AuthVersion => 1,
            Stage::UserLen => 1,
            Stage::User(n) => n as usize,
            Stage::PassLen => 1,
            Stage::Pass(n) => n as usize,
            Stage::Request => 4,
            Stage::V4 => 4,
            Stage::V6 => 16,
            Stage::DomainLen => 1,
            Stage::Domain(n) => n as usize + 2,
            Stage::Port => 2,
            Stage::Finished => 0,
        }
    }

    /// Ends the dialogue with an error.
    fn fail(&mut self, reply: Vec<u8>, error: SocksError) -> (a: SocksAction)
        ensures
            (final(self)@, a@) == old(self)@.failed(reply@, error),
    {
        self.stage = Stage::Finished;
        SocksAction::Fail(reply, error)
    }

    /// Takes in the bytes that were to be read next.
    pub fn feed(&mut self, bytes: &[u8]) -> (a: SocksAction)
        requires
            bytes@.len() == old(self)@.stage.takes(),
            old(self)@.stage == Stage::Port ==> old(self)@.ip.len() == 4 || old(self)@.ip.len() == 16,
        ensures
            (final(self)@, a@) == old(self)@.fed(bytes@),
            final(self)@.stage == Stage::Port ==> final(self)@.ip.len() == 4 || final(self)@.ip.len()
                == 16,
    {
        match self.stage {
            Stage::Greeting => {
                if bytes[0] != SOCKS_VERSION {
                    return self.fail(Vec::new(), SocksError::UnsupportedVersion(bytes[0]));
                }
                if bytes[1] == 0 {
                    return self.fail(Vec::new(), SocksError::NoSupportedAuthMethod);
                }
                self.stage = Stage::Methods(bytes[1]);
                SocksAction::Read
            },
            Stage::Methods(_) => {
                if holds_byte(bytes, USERPASS_AUTH) {
                    self.stage = Stage::AuthVersion;
                    return SocksAction::Reply(pair(SOCKS_VERSION, USERPASS_AUTH));
                }
                if holds_byte(bytes, NO_AUTH) {
                    self.stage = Stage::Request;
                    return SocksAction::Reply(pair(SOCKS_VERSION, NO_AUTH));
                }
                self.fail(pair(SOCKS_VERSION, NO_METHOD), SocksError::NoSupportedAuthMethod)
            },
            Stage::AuthVersion => {
                if bytes[0] != USERPASS_VERSION {
                    return self.fail(Vec::new(), SocksError::UnsupportedVersion(bytes[0]));
                }
                self.stage = Stage::UserLen;
                SocksAction::Read
            },
            Stage::UserLen => {
                self.stage = Stage::User(bytes[0]);
                SocksAction::Read
            },
            Stage::User(_) => {
                extend(&mut self.params, bytes);
                self.stage = Stage::PassLen;
                SocksAction::Read
            },
            Stage::PassLen => {
                self.stage = Stage::Pass(bytes[0]);
                SocksAction::Read
            },
            Stage::Pass(_) => {
                extend(&mut self.params, bytes);
                self.cert = extract_cert(self.params.as_slice());
                self.stage = Stage::Request;
                SocksAction::Reply(pair(USERPASS_VERSION, 0))
            },
            Stage::Request => {
                if bytes[0] != SOCKS_VERSION {
                    return self.fail(Vec::new(), SocksError::UnsupportedVersion(bytes[0]));
                }
                if bytes[1] != CONNECT {
                    return self.fail(Vec::new(), SocksError::UnsupportedCommand(bytes[1]));
                }
                let kind: u8 = bytes[3];
                if kind == IPV4 {
                    self.stage = Stage::V4;
                } else if kind == IPV6 {
                    self.stage = Stage::V6;
                } else if kind == DOMAIN {
                    self.stage = Stage::DomainLen;
                } else {
                    return self.fail(Vec::new(), SocksError::UnsupportedAddressKind(kind));
                }
                SocksAction::Read
            },
            Stage::V4 => {
                let octets = [bytes[0], bytes[1], bytes[2], bytes[3]];
                assert(octets@ =~= bytes@);
                self.ip = TargetIp::V4(octets);
                self.ip_known = true;
                self.stage = Stage::Port;
                SocksAction::Read
            },
            Stage::V6 => {
                let mut octets = [0u8; 16];
                let mut i: usize = 0;
                while i < 16
                    invariant
                        i <= 16,
                        bytes@.len() == 16,
                        forall|j: int| 0 <= j < i ==> octets@[j] == bytes@[j],
                    decreases 16 - i,
                {
                    octets[i] = bytes[i];
                    i = i + 1;
                }
                assert(octets@ =~= bytes@);
                self.ip = TargetIp::V6(octets);
                self.ip_known = true;
                self.stage = Stage::Port;
                SocksAction::Read
            },
            Stage::DomainLen => {
                self.stage = Stage::Domain(bytes[0]);
                SocksAction::Read
            },
            Stage::Domain(_) => self.fail(Vec::new(), SocksError::DomainTargetRejected),
            Stage::Port => {
                let port: u16 = bytes[0] as u16 * 256 + bytes[1] as u16;
                let mut reply = pair(SOCKS_VERSION, 0);
                reply.push(0);
                reply.push(IPV4);
                reply.push(0);
                reply.push(0);
                reply.push(0);
                reply.push(0);
                reply.push(0);
                reply.push(0);
                assert(reply@ =~= success_reply());
                self.stage = Stage::Finished;
                SocksAction::Done(
                    reply,
                    Target { ip: self.ip, port },
                    ClientArgs { cert: self.cert },
                )
            },
            Stage::Finished => SocksAction::Read,
        }
    }
}

/// A request for a host name is read to its end and refused: no name ever
/// becomes a target, so none is ever looked up.
pub proof fn law_host_names_are_refused(
    dialogue: DialogueState,
    request: Seq<u8>,
    len: Seq<u8>,
    name_and_port: Seq<u8>,
)
    requires
        dialogue.stage == Stage::Request,
        request.len() == 4 && len.len() == 1,
        request[0] == SOCKS_VERSION && request[1] == CONNECT && request[3] == DOMAIN,
        name_and_port.len() == len[0] + 2,
    ensures
        ({
            let named = dialogue.fed(request).0.fed(len).0;
            &&& named.stage.takes() == name_and_port.len()
            &&& named.fed(name_and_port).1 == ActionView::Fail(
                Seq::empty(),
                SocksError::DomainTargetRejected,
            )
        }),
{
}

/// The transport arguments are the username followed by the password, and the
/// key they name is the one that the finished request carries.
pub proof fn law_arguments_are_username_and_password(
    user_len: Seq<u8>,
    user: Seq<u8>,
    pass_len: Seq<u8>,
    pass: Seq<u8>,
    dialogue: DialogueState,
)
    requires
        dialogue.stage == Stage::UserLen,
        dialogue.params.len() == 0,
        user_len.len() == 1 && pass_len.len() == 1,
        user.len() == user_len[0] && pass.len() == pass_len[0],
    ensures
        ({
            let end = dialogue.fed(user_len).0.fed(user).0.fed(pass_len).0.fed(pass);
            &&& end.0.stage == Stage::Request
            &&& end.0.cert == cert_in(user + pass)
            &&& end.1 == ActionView::Reply(seq![USERPASS_VERSION, 0u8])
        }),
{
    assert(dialogue.params + user =~= user);
}

/// A request for an address and a port is answered with success and hands on
/// that address, that port and the key read before.
pub proof fn law_addressed_requests_succeed(
    dialogue: DialogueState,
    request: Seq<u8>,
    octets: Seq<u8>,
    port: Seq<u8>,
)
    requires
        dialogue.stage == Stage::Request,
        request.len() == 4 && port.len() == 2,
        request[0] == SOCKS_VERSION && request[1] == CONNECT,
        (request[3] == IPV4 && octets.len() == 4) || (request[3] == IPV6 && octets.len() == 16),
    ensures
        dialogue.fed(request).0.fed(octets).0.fed(port).1 == ActionView::Done(
            success_reply(),
            octets,
            (port[0] * 256 + port[1]) as u16,
            dialogue.cert,
        ),
{
}

/// A key in hexadecimal, as ASCII bytes.
pub open spec fn key_hex_bytes(key: Seq<u8>) -> Seq<u8> {
    key_hex(key).map_values(|c: char| c as u8)
}

/// Whether arguments can stand before `cert=` without being taken for it: it does
/// not occur in them, nor begin in them and run into what follows.
pub open spec fn hides_no_label(before: Seq<u8>) -> bool {
    let s = before + seq![99u8, 101u8, 114u8, 116u8, 61u8];
    forall|j: int|
        0 <= j < before.len() ==> !(#[trigger] s[j] == 99 && s[j + 1] == 101 && s[j + 2] == 114 && s[j
            + 3] == 116 && s[j + 4] == 61)
}

/// The key that arguments name is read as it was written: whatever stands before
/// `cert=` and behind the key, a key written there in hexadecimal is the key that
/// is found.
pub proof fn law_certs_read_back(before: Seq<u8>, key: Seq<u8>, behind: Seq<u8>)
    requires
        key.len() == 32,
        hides_no_label(before),
    ensures
        cert_in(
            before + seq![99u8, 101u8, 114u8, 116u8, 61u8] + key_hex_bytes(key) + behind,
        ) == Some(key),
{
    let label = seq![99u8, 101u8, 114u8, 116u8, 61u8];
    lemma_label();
    let hex = key_hex_bytes(key);
    let params = before + label + hex + behind;
    let at = before.len() as int;
    assert(params.subrange(at, at + 5) =~= label);
    assert(stands_at(params, label, at));
    assert forall|j: int| 0 <= j < at implies !stands_at(params, label, j) by {
        if stands_at(params, label, j) {
            let part = params.subrange(j, j + 5);
            let s = before + label;
            assert(s[j] == part[0] && s[j + 1] == part[1] && s[j + 2] == part[2] && s[j + 3]
                == part[3] && s[j + 4] == part[4]);
        }
    }
    lemma_match_is_first(params, label, 0, before.len());
    let digits = params.skip(at + 5);
    assert(digits.take(64) =~= hex);
    lemma_hex_digits_are_ascii(key);
    assert(ascii(hex) =~= key_hex(key));
    lemma_key_hex(key);
}

/// The bytes of the label.
proof fn lemma_label()
    ensures
        cert_label() == seq![99u8, 101u8, 114u8, 116u8, 61u8],
{
    reveal_strlit("cert=");
    broadcast use vstd::string::group_string_axioms;
    broadcast use vstd::utf8::group_utf8_lib;

    assert("cert=".is_ascii());
    assert(cert_label() =~= seq![99u8, 101u8, 114u8, 116u8, 61u8]);
}

/// The digits of a key survive being taken as bytes and as characters again.
proof fn lemma_hex_digits_are_ascii(key: Seq<u8>)
    requires
        key.len() == 32,
    ensures
        forall|i: int| 0 <= i < 64 ==> (#[trigger] key_hex(key)[i] as u8) as char == key_hex(key)[i],
{
    assert forall|i: int| 0 <= i < 64 implies (#[trigger] key_hex(key)[i] as u8) as char == key_hex(
        key,
    )[i] by {
        let d = if i % 2 == 0 {
            key[i / 2] as nat / 16
        } else {
            key[i / 2] as nat % 16
        };
        assert(d < 16);
        assert(key_hex(key)[i] == hex_digit(d));
    }
}

/// The digits of a key write the key.
proof fn lemma_key_hex(key: Seq<u8>)
    requires
        key.len() == 32,
    ensures
        is_key_hex(key_hex(key)),
        key_of_hex(key_hex(key)) == key,
{
    law_hex_keys_read_back(key);
    let s = key_hex(key);
    assert forall|i: int| 0 <= i < 64 implies !crate::text::is_space(#[trigger] s[i]) by {
        let d = if i % 2 == 0 {
            key[i / 2] as nat / 16
        } else {
            key[i / 2] as nat % 16
        };
        assert(d < 16);
        assert(s[i] == hex_digit(d));
    }
    assert(!crate::text::is_space(s[0]) && !crate::text::is_space(s[63]));
    crate::text::lemma_trimmed_keeps(s);
}

/// Which way of authentication is taken: username and password where they are
/// offered, since arguments come that way, else none at all where that is
/// offered, and where neither is, the peer is told so and refused.
pub proof fn law_passwords_are_preferred(dialogue: DialogueState, n: u8, offered: Seq<u8>)
    requires
        dialogue.stage == Stage::Methods(n),
        offered.len() == n,
    ensures
        offered.contains(2u8) ==> dialogue.fed(offered).1 == ActionView::Reply(seq![5u8, 2u8])
            && dialogue.fed(offered).0.stage == Stage::AuthVersion,
        !offered.contains(2u8) && offered.contains(0u8) ==> dialogue.fed(offered).1
            == ActionView::Reply(seq![5u8, 0u8]) && dialogue.fed(offered).0.stage == Stage::Request,
        !offered.contains(2u8) && !offered.contains(0u8) ==> dialogue.fed(offered).1
            == ActionView::Fail(seq![5u8, 255u8], SocksError::NoSupportedAuthMethod),
        dialogue.fed(offered).0.cert == dialogue.cert,
{
}

/// What else is refused, and that nothing is answered then: greetings and requests
/// of another version than the fifth, greetings that offer nothing, logins of
/// another version than the first, other commands than to connect, and other
/// kinds of address. All else is read on.
pub proof fn law_strange_requests_are_refused(dialogue: DialogueState, bytes: Seq<u8>)
    requires
        bytes.len() == dialogue.stage.takes(),
    ensures
        dialogue.stage == Stage::Greeting ==> {
            &&& bytes[0] != 5 ==> dialogue.fed(bytes).1 == ActionView::Fail(
                Seq::empty(),
                SocksError::UnsupportedVersion(bytes[0]),
            )
            &&& bytes[0] == 5 && bytes[1] == 0 ==> dialogue.fed(bytes).1 == ActionView::Fail(
                Seq::empty(),
                SocksError::NoSupportedAuthMethod,
            )
            &&& bytes[0] == 5 && bytes[1] != 0 ==> dialogue.fed(bytes).1 == ActionView::Read
                && dialogue.fed(bytes).0.stage.takes() == bytes[1]
        },
        dialogue.stage == Stage::AuthVersion ==> {
            &&& bytes[0] != 1 ==> dialogue.fed(bytes).1 == ActionView::Fail(
                Seq::empty(),
                SocksError::UnsupportedVersion(bytes[0]),
            )
            &&& bytes[0] == 1 ==> dialogue.fed(bytes).1 == ActionView::Read
                && dialogue.fed(bytes).0.stage == Stage::UserLen
        },
        dialogue.stage == Stage::Request ==> {
            &&& bytes[0] != 5 ==> dialogue.fed(bytes).1 == ActionView::Fail(
                Seq::empty(),
                SocksError::UnsupportedVersion(bytes[0]),
            )
            &&& bytes[0] == 5 && bytes[1] != 1 ==> dialogue.fed(bytes).1 == ActionView::Fail(
                Seq::empty(),
                SocksError::UnsupportedCommand(bytes[1]),
            )
            &&& bytes[0] == 5 && bytes[1] == 1 && bytes[3] != 1 && bytes[3] != 3 && bytes[3] != 4
                ==> dialogue.fed(bytes).1 == ActionView::Fail(
                Seq::empty(),
                SocksError::UnsupportedAddressKind(bytes[3]),
            )
            &&& bytes[0] == 5 && bytes[1] == 1 && bytes[3] == 1 ==> dialogue.fed(bytes).1
                == ActionView::Read && dialogue.fed(bytes).0.stage.takes() == 4
            &&& bytes[0] == 5 && bytes[1] == 1 && bytes[3] == 4 ==> dialogue.fed(bytes).1
                == ActionView::Read && dialogue.fed(bytes).0.stage.takes() == 16
        },
{
}

/// A complete request hands on the address as it stood, the port, the more
/// significant byte first, and the key; the peer gets the ten bytes of success.
pub proof fn law_requests_hand_on_their_target(dialogue: DialogueState, port: Seq<u8>)
    requires
        dialogue.stage == Stage::Port,
        port.len() == 2,
    ensures
        dialogue.fed(port).1 matches ActionView::Done(reply, ip, number, cert) && {
            &&& reply == seq![5u8, 0u8, 0u8, 1u8, 0u8, 0u8, 0u8, 0u8, 0u8, 0u8]
            &&& ip == dialogue.ip
            &&& number == port[0] * 256 + port[1]
            &&& cert == dialogue.cert
        },
{
}

/// Which arguments name a key: those in which the first `cert=` has 64 hexadecimal
/// digits behind it. Where it has not, no key is named, whatever comes later.
pub proof fn law_certs_stand_behind_the_first_label(params: Seq<u8>, label: Seq<u8>, at: int)
    requires
        label == seq![99u8, 101u8, 114u8, 116u8, 61u8],
        stands_at(params, label, at),
        forall|j: int| 0 <= j < at ==> !#[trigger] stands_at(params, label, j),
    ensures
        ({
            let digits = ascii(params.skip(at + 5).take(64));
            &&& cert_in(params) is Some <==> params.len() >= at + 69 && is_key_hex(digits)
            &&& cert_in(params) is Some ==> cert_in(params) == Some(key_of_hex(digits))
        }),
{
    lemma_label();
    lemma_match_is_first(params, cert_label(), 0, at as nat);
}

/// Without `cert=` no key is named.
pub proof fn law_certs_need_a_label(params: Seq<u8>, label: Seq<u8>)
    requires
        label == seq![99u8, 101u8, 114u8, 116u8, 61u8],
        forall|j: int| 0 <= j < params.len() ==> !#[trigger] stands_at(params, label, j),
    ensures
        cert_in(params) is None,
{
    lemma_label();
    lemma_first_match(params, cert_label(), 0);
}

/// A dialogue ends with a failure or with a complete request, and with nothing
/// else; arguments are as long as announced.
pub proof fn law_dialogues_end_once(dialogue: DialogueState, bytes: Seq<u8>)
    requires
        bytes.len() == dialogue.stage.takes(),
        dialogue.stage != Stage::Finished,
    ensures
        dialogue.fed(bytes).0.stage == Stage::Finished <==> dialogue.fed(bytes).1 is Fail
            || dialogue.fed(bytes).1 is Done,
        dialogue.fed(bytes).1 is Done <==> dialogue.stage == Stage::Port,
        dialogue.stage == Stage::UserLen || dialogue.stage == Stage::PassLen ==> dialogue.fed(
            bytes,
        ).0.stage.takes() == bytes[0],
        dialogue.at(Stage::Finished).fed(Seq::empty()) == (
            dialogue.at(Stage::Finished),
            ActionView::Read,
        ),
        !(dialogue.stage is Pass) ==> dialogue.fed(bytes).0.cert == dialogue.cert,
        !(dialogue.stage is User || dialogue.stage is Pass) ==> dialogue.fed(bytes).0.params
            == dialogue.params,
{
}

} // verus!
