//! The plain frame format: a magic word, a kind, a length and a payload.
use crate::bytes::{copy_range, extend};
use crate::text::{decimal, push_decimal};
use vstd::prelude::*;
use vstd::string::*;

verus! {

/// Bytes in a frame's header.
pub const HEADER_LEN: usize = 9;

/// Most bytes in a payload.
pub const DEFAULT_MAX_FRAME_LEN: usize = 65_536;

/// The magic word, `MXT1`.
pub open spec fn magic() -> Seq<u8> {
    seq![77u8, 88u8, 84u8, 49u8]
}

/// What a frame carries.
#[derive(Clone, Copy, Debug, PartialEq, Eq, Structural)]
pub enum FrameKind {
    Real,
    Dummy,
}

impl FrameKind {
    /// The kind's byte.
    pub open spec fn byte(self) -> u8 {
        match self {
            FrameKind::Real => 1,
            FrameKind::Dummy => 2,
        }
    }

    /// The kind's byte.
    pub fn to_byte(self) -> (b: u8)
        ensures
            b == self.byte(),
    {
        match self {
            FrameKind::Real => 1,
            FrameKind::Dummy => 2,
        }
    }

    /// The kind with this byte.
    pub fn from_byte(byte: u8) -> (r: Result<FrameKind, ProtocolError>)
        ensures
            match r {
                Ok(kind) => kind.byte() == byte,
                Err(e) => byte != 1 && byte != 2 && e == ProtocolError::UnknownFrameKind(byte),
            },
    {
        match byte {
            1 => Ok(FrameKind::Real),
            2 => Ok(FrameKind::Dummy),
            _ => Err(ProtocolError::UnknownFrameKind(byte)),
        }
    }
}

/// Why a frame could not be made or read.
#[derive(Debug)]
pub enum ProtocolError {
    Io(std::io::Error),
    BadMagic,
    EmptyPayload,
    FrameTooLarge { len: usize, max: usize },
    UnknownFrameKind(u8),
}

impl ProtocolError {
    /// Whether `text` describes this error.
    pub open spec fn described_by(self, text: Seq<char>) -> bool {
        match self {
            ProtocolError::Io(e) => exists|shown: String|
                #[trigger] to_string_from_display_ensures::<std::io::Error>(&e, shown) && text
                    == "protocol I/O error: "@ + shown@,
            ProtocolError::BadMagic => text == "invalid MixTor frame magic"@,
            ProtocolError::EmptyPayload => text == "frame payload cannot be empty"@,
            ProtocolError::FrameTooLarge { len, max } => text == "frame payload length "@ + decimal(
                len as nat,
            ) + " exceeds maximum "@ + decimal(max as nat),
            ProtocolError::UnknownFrameKind(kind) => text == "unknown frame kind "@ + decimal(
                kind as nat,
            ),
        }
    }

    /// The error in words.
    pub fn message(&self) -> (s: String)
        ensures
            self.described_by(s@),
    {
        match self {
            ProtocolError::Io(e) => {
                let shown = e.to_string();
                let mut s = String::from_str("protocol I/O error: ");
                s.append(shown.as_str());
                s
            },
            ProtocolError::BadMagic => String::from_str("invalid MixTor frame magic"),
            ProtocolError::EmptyPayload => String::from_str("frame payload cannot be empty"),
            ProtocolError::FrameTooLarge { len, max } => {
                let mut s = String::from_str("frame payload length ");
                push_decimal(&mut s, *len as u128);
                s.append(" exceeds maximum ");
                push_decimal(&mut s, *max as u128);
                s
            },
            ProtocolError::UnknownFrameKind(kind) => {
                let mut s = String::from_str("unknown frame kind ");
                push_decimal(&mut s, *kind as u128);
                s
            },
        }
    }
}

impl From<std::io::Error> for ProtocolError {
    fn from(e: std::io::Error) -> (r: ProtocolError) {
        ProtocolError::Io(e)
    }
}

impl vstd::std_specs::convert::FromSpecImpl<std::io::Error> for ProtocolError {
    open spec fn obeys_from_spec() -> bool {
        true
    }

    open spec fn from_spec(e: std::io::Error) -> ProtocolError {
        ProtocolError::Io(e)
    }
}

/// A frame: a kind and a payload, which is neither empty nor too long.
#[derive(Debug, PartialEq, Eq)]
pub struct WireFrame {
    kind: FrameKind,
    payload: Vec<u8>,
}

/// What a frame holds.
pub struct WireView {
    pub kind: FrameKind,
    pub payload: Seq<u8>,
}

impl View for WireFrame {
    type V = WireView;

    closed spec fn view(&self) -> WireView {
        WireView { kind: self.kind, payload: self.payload@ }
    }
}

impl Clone for WireFrame {
    fn clone(&self) -> (f: WireFrame)
        ensures
            f@ == self@,
    {
        proof {
            use_type_invariant(self);
        }
        let payload = self.payload.clone();
        assert(payload@ =~= self.payload@);
        WireFrame { kind: self.kind, payload }
    }
}

/// What is wrong with a payload of this length, if anything.
pub open spec fn length_fault(len: nat) -> Option<ProtocolError> {
    if len == 0 {
        Some(ProtocolError::EmptyPayload)
    } else if len > DEFAULT_MAX_FRAME_LEN {
        Some(
            ProtocolError::FrameTooLarge { len: len as usize, max: DEFAULT_MAX_FRAME_LEN },
        )
    } else {
        None
    }
}

/// A number as four bytes, the most significant first.
pub open spec fn be_bytes(n: nat) -> Seq<u8> {
    seq![
        (n / 16_777_216 % 256) as u8,
        (n / 65_536 % 256) as u8,
        (n / 256 % 256) as u8,
        (n % 256) as u8,
    ]
}

/// The number that four bytes write, the most significant first.
pub open spec fn be_number(b: Seq<u8>) -> nat {
    (b[0] as nat) * 16_777_216 + (b[1] as nat) * 65_536 + (b[2] as nat) * 256 + b[3] as nat
}

impl WireView {
    /// The frame's header.
    pub open spec fn header(self) -> Seq<u8> {
        magic().push(self.kind.byte()) + be_bytes(self.payload.len())
    }

    /// The frame as it goes to the wire.
    pub open spec fn encoded(self) -> Seq<u8> {
        self.header() + self.payload
    }
}

impl WireFrame {
    #[verifier::type_invariant]
    spec fn sized(&self) -> bool {
        0 < self.payload@.len() <= DEFAULT_MAX_FRAME_LEN
    }

    /// A frame that carries a payload.
    pub fn real_frame(payload: Vec<u8>) -> (r: Result<WireFrame, ProtocolError>)
        ensures
            match length_fault(payload@.len()) {
                None => r is Ok && r->Ok_0@ == (WireView {
                    kind: FrameKind::Real,
                    payload: payload@,
                }),
                Some(e) => r == Err::<WireFrame, ProtocolError>(e),
            },
    {
        Self::new(FrameKind::Real, payload)
    }

    /// A frame that is cover.
    pub fn dummy(payload: Vec<u8>) -> (r: Result<WireFrame, ProtocolError>)
        ensures
            match length_fault(payload@.len()) {
                None => r is Ok && r->Ok_0@ == (WireView {
                    kind: FrameKind::Dummy,
                    payload: payload@,
                }),
                Some(e) => r == Err::<WireFrame, ProtocolError>(e),
            },
    {
        Self::new(FrameKind::Dummy, payload)
    }

    /// The frame with this kind and payload.
    pub fn new(kind: FrameKind, payload: Vec<u8>) -> (r: Result<WireFrame, ProtocolError>)
        ensures
            match length_fault(payload@.len()) {
                None => r is Ok && r->Ok_0@ == (WireView { kind, payload: payload@ }),
                Some(e) => r == Err::<WireFrame, ProtocolError>(e),
            },
    {
        if payload.len() == 0 {
            return Err(ProtocolError::EmptyPayload);
        }
        if payload.len() > DEFAULT_MAX_FRAME_LEN {
            return Err(
                ProtocolError::FrameTooLarge { len: payload.len(), max: DEFAULT_MAX_FRAME_LEN },
            );
        }
        Ok(WireFrame { kind, payload })
    }

    /// What the frame carries.
    pub fn kind(&self) -> (k: FrameKind)
        ensures
            k == self@.kind,
    {
        self.kind
    }

    /// The payload.
    pub fn payload(&self) -> (p: &[u8])
        ensures
            p@ == self@.payload,
    {
        self.payload.as_slice()
    }

    /// The payload, taken out of the frame.
    pub fn into_payload(self) -> (p: Vec<u8>)
        ensures
            p@ == self@.payload,
    {
        self.payload
    }

    /// The frame as it goes to the wire.
    pub fn encode(&self) -> (out: Vec<u8>)
        ensures
            out@ == self@.encoded(),
    {
        proof {
            use_type_invariant(self);
        }
        let len: u32 = self.payload.len() as u32;
        let mut out: Vec<u8> = Vec::new();
        out.push(77);
        out.push(88);
        out.push(84);
        out.push(49);
        out.push(self.kind.to_byte());
        out.push((len / 16_777_216 % 256) as u8);
        out.push((len / 65_536 % 256) as u8);
        out.push((len / 256 % 256) as u8);
        out.push((len % 256) as u8);
        assert(out@ =~= self@.header());
        extend(&mut out, self.payload.as_slice());
        out
    }
}

/// What a header says, or what is wrong with it: the magic word is checked
/// first, then the kind, then the length.
pub open spec fn header_says(header: Seq<u8>, r: Result<(FrameKind, usize), ProtocolError>) -> bool {
    let len = be_number(header.subrange(5, 9));
    if header.take(4) != magic() {
        r is Err && r->Err_0 == ProtocolError::BadMagic
    } else if header[4] != 1 && header[4] != 2 {
        r is Err && r->Err_0 == ProtocolError::UnknownFrameKind(header[4])
    } else {
        match length_fault(len) {
            Some(e) => r is Err && r->Err_0 == e,
            None => r is Ok && r->Ok_0.0.byte() == header[4] && r->Ok_0.1 == len,
        }
    }
}

/// Reads a header: the kind and the length of the payload.
pub fn parse_header(header: &[u8]) -> (r: Result<(FrameKind, usize), ProtocolError>)
    requires
        header@.len() == HEADER_LEN,
    ensures
        header_says(header@, r),
{
    if header[0] != 77 || header[1] != 88 || header[2] != 84 || header[3] != 49 {
        assert(header@.take(4)[0] == header@[0] && header@.take(4)[1] == header@[1]
            && header@.take(4)[2] == header@[2] && header@.take(4)[3] == header@[3]);
        return Err(ProtocolError::BadMagic);
    }
    assert(header@.take(4) =~= magic());
    let kind = match FrameKind::from_byte(header[4]) {
        Ok(kind) => kind,
        Err(e) => {
            return Err(e);
        },
    };
    let len: u32 = header[5] as u32 * 16_777_216 + header[6] as u32 * 65_536 + header[7] as u32
        * 256 + header[8] as u32;
    assert(len == be_number(header@.subrange(5, 9)));
    let len: usize = len as usize;
    if len == 0 {
        return Err(ProtocolError::EmptyPayload);
    }
    if len > DEFAULT_MAX_FRAME_LEN {
        return Err(ProtocolError::FrameTooLarge { len, max: DEFAULT_MAX_FRAME_LEN });
    }
    Ok((kind, len))
}

/// What bytes from the wire amount to.
pub enum Decoded {
    /// The header is not complete.
    NeedHeader,
    /// The header is complete, the payload is not.
    NeedPayload,
    /// A whole frame, and how many bytes it took.
    Frame(WireFrame, usize),
}

/// Reads the frame that `bytes` start with.
pub fn decode_frame(bytes: &[u8]) -> (r: Result<Decoded, ProtocolError>)
    ensures
        if bytes@.len() < HEADER_LEN {
            r == Ok::<Decoded, ProtocolError>(Decoded::NeedHeader)
        } else {
            exists|parsed: Result<(FrameKind, usize), ProtocolError>|
                #[trigger] header_says(bytes@.take(HEADER_LEN as int), parsed) && match parsed {
                    Err(e) => r == Err::<Decoded, ProtocolError>(e),
                    Ok((kind, len)) => if bytes@.len() < HEADER_LEN + len {
                        r == Ok::<Decoded, ProtocolError>(Decoded::NeedPayload)
                    } else {
                        &&& r is Ok
                        &&& r->Ok_0 is Frame
                        &&& r->Ok_0->Frame_1 == HEADER_LEN + len
                        &&& r->Ok_0->Frame_0@ == (WireView {
                            kind,
                            payload: bytes@.subrange(HEADER_LEN as int, HEADER_LEN + len),
                        })
                    },
                }
        },
{
    if bytes.len() < HEADER_LEN {
        return Ok(Decoded::NeedHeader);
    }
    let header = copy_range(bytes, 0, HEADER_LEN);
    assert(header@ =~= bytes@.take(HEADER_LEN as int));
    let parsed = parse_header(header.as_slice());
    assert(header_says(bytes@.take(HEADER_LEN as int), parsed));
    let (kind, len) = match parsed {
        Ok(pair) => pair,
        Err(e) => {
            return Err(e);
        },
    };
    if bytes.len() - HEADER_LEN < len {
        return Ok(Decoded::NeedPayload);
    }
    let payload = copy_range(bytes, HEADER_LEN, HEADER_LEN + len);
    match WireFrame::new(kind, payload) {
        Ok(frame) => Ok(Decoded::Frame(frame, HEADER_LEN + len)),
        Err(e) => Err(e),
    }
}

/// A frame survives the wire: the header of an encoded frame says its kind and
/// length, and the payload follows it.
pub proof fn law_encoded_frames_read_back(frame: WireView, rest: Seq<u8>)
    requires
        length_fault(frame.payload.len()) is None,
    ensures
        ({
            let wire = frame.encoded() + rest;
            let len = frame.payload.len();
            &&& forall|r: Result<(FrameKind, usize), ProtocolError>|
                #[trigger] header_says(wire.take(HEADER_LEN as int), r) ==> r
                    == Ok::<(FrameKind, usize), ProtocolError>((frame.kind, len as usize))
            &&& wire.subrange(HEADER_LEN as int, HEADER_LEN + len) == frame.payload
        }),
{
    let wire = frame.encoded() + rest;
    let header = wire.take(HEADER_LEN as int);
    let len = frame.payload.len();
    assert(header =~= frame.header());
    assert(header.take(4) =~= magic());
    assert(header.subrange(5, 9) =~= be_bytes(len));
    assert(be_number(be_bytes(len)) == len);
    assert(wire.subrange(HEADER_LEN as int, HEADER_LEN + len) =~= frame.payload);
}

/// Where things stand in a frame: the magic word, the kind, the length in four
/// bytes, the most significant first, and the payload.
pub proof fn law_frames_have_a_header(frame: WireView)
    requires
        frame.payload.len() <= 65_536,
    ensures
        ({
            let bytes = frame.encoded();
            &&& bytes.len() == 9 + frame.payload.len()
            &&& bytes[0] == 77 && bytes[1] == 88 && bytes[2] == 84 && bytes[3] == 49
            &&& frame.kind == FrameKind::Real ==> bytes[4] == 1
            &&& frame.kind == FrameKind::Dummy ==> bytes[4] == 2
            &&& bytes[5] * 16_777_216 + bytes[6] * 65_536 + bytes[7] * 256 + bytes[8]
                == frame.payload.len()
            &&& bytes.skip(9) == frame.payload
        }),
{
    let bytes = frame.encoded();
    let n = frame.payload.len();
    assert(bytes.skip(9) =~= frame.payload);
    let len = be_bytes(n);
    assert(bytes[5] == len[0] && bytes[6] == len[1] && bytes[7] == len[2] && bytes[8] == len[3]);
    assert(n / 16_777_216 == 0);
    assert(n == n / 65_536 * 65_536 + n / 256 % 256 * 256 + n % 256);
}

/// Which payloads make a frame: those of 1 to 65536 bytes, and no others.
pub proof fn law_frames_have_a_payload(len: nat)
    ensures
        length_fault(len) is None <==> 1 <= len <= 65_536,
        len == 0 ==> length_fault(len) == Some(ProtocolError::EmptyPayload),
        65_536 < len <= usize::MAX ==> length_fault(len) == Some(
            ProtocolError::FrameTooLarge { len: len as usize, max: 65_536 },
        ),
{
}

/// Which headers are refused, and why: those without the magic word, else those of
/// another kind than the two, else those whose length is zero or more than 65536.
/// All others say their kind and their length.
pub proof fn law_bad_headers_are_refused(
    header: Seq<u8>,
    r: Result<(FrameKind, usize), ProtocolError>,
)
    requires
        header.len() == 9,
        header_says(header, r),
    ensures
        ({
            let named = header[0] == 77 && header[1] == 88 && header[2] == 84 && header[3] == 49;
            let known = header[4] == 1 || header[4] == 2;
            let len = header[5] * 16_777_216 + header[6] * 65_536 + header[7] * 256 + header[8];
            &&& r == Err::<(FrameKind, usize), ProtocolError>(ProtocolError::BadMagic) <==> !named
            &&& named && !known ==> r == Err::<(FrameKind, usize), ProtocolError>(
                ProtocolError::UnknownFrameKind(header[4]),
            )
            &&& named && known && len == 0 ==> r == Err::<(FrameKind, usize), ProtocolError>(
                ProtocolError::EmptyPayload,
            )
            &&& named && known && len > 65_536 ==> r == Err::<(FrameKind, usize), ProtocolError>(
                ProtocolError::FrameTooLarge { len: len as usize, max: 65_536 },
            )
            &&& named && header[4] == 1 && 1 <= len <= 65_536 ==> r == Ok::<
                (FrameKind, usize),
                ProtocolError,
            >((FrameKind::Real, len as usize))
            &&& named && header[4] == 2 && 1 <= len <= 65_536 ==> r == Ok::<
                (FrameKind, usize),
                ProtocolError,
            >((FrameKind::Dummy, len as usize))
        }),
{
    let word = header.take(4);
    if header[0] == 77 && header[1] == 88 && header[2] == 84 && header[3] == 49 {
        assert(word =~= magic());
    } else {
        assert(word[0] == header[0] && word[1] == header[1] && word[2] == header[2] && word[3]
            == header[3]);
    }
    let four = header.subrange(5, 9);
    assert(four[0] == header[5] && four[1] == header[6] && four[2] == header[7] && four[3]
        == header[8]);
}

} // verus!
