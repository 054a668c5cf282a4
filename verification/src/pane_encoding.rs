//! Converting pane input and output between UTF-8 and legacy CJK encodings
//! while passing terminal escape sequences through untouched.

use vstd::prelude::*;
use vstd::utf8::*;
use vstd::string::*;
use vstd::slice::*;

verus! {

/// Byte that introduces a 7-bit escape sequence.
pub const ESC: u8 = 0x1b;

/// Single-byte (8-bit) Control Sequence Introducer.
pub const CSI_8BIT: u8 = 0x9b;

/// The text encoding a pane speaks.
#[derive(Debug, Clone, Copy, PartialEq, Eq, Structural)]
pub enum PaneEncoding {
    Utf8,
    Gbk,
    Gb18030,
    Big5,
    EucKr,
    ShiftJis,
}

/// Where the escape-sequence scanner is.
#[derive(Debug, Clone, Copy, PartialEq, Eq, Structural)]
pub enum EscapeState {
    Ground,
    Esc,
    Csi,
    Osc,
    OscEsc,
    Dcs,
    DcsEsc,
}

/// A byte that ends a CSI sequence, or a two-byte escape sequence.
pub open spec fn is_final_byte(byte: u8) -> bool {
    0x40 <= byte <= 0x7e
}

/// One transition of the escape-sequence scanner.
pub open spec fn spec_advance_escape(state: EscapeState, byte: u8) -> EscapeState {
    match state {
        EscapeState::Ground => EscapeState::Ground,
        EscapeState::Esc => {
            if byte == 0x5b {
                EscapeState::Csi
            } else if byte == 0x5d {
                EscapeState::Osc
            } else if byte == 0x50 {
                EscapeState::Dcs
            } else if is_final_byte(byte) {
                EscapeState::Ground
            } else {
                EscapeState::Esc
            }
        },
        EscapeState::Csi => if is_final_byte(byte) {
            EscapeState::Ground
        } else {
            EscapeState::Csi
        },
        EscapeState::Osc => if byte == 0x07 {
            EscapeState::Ground
        } else if byte == ESC {
            EscapeState::OscEsc
        } else {
            EscapeState::Osc
        },
        EscapeState::OscEsc => if byte == 0x5c {
            EscapeState::Ground
        } else {
            EscapeState::Osc
        },
        EscapeState::Dcs => if byte == ESC {
            EscapeState::DcsEsc
        } else {
            EscapeState::Dcs
        },
        EscapeState::DcsEsc => if byte == 0x5c {
            EscapeState::Ground
        } else {
            EscapeState::Dcs
        },
    }
}

/// The state that an escape sequence starts in, given its introducer byte.
pub open spec fn spec_escape_start(byte: u8) -> EscapeState {
    if byte == CSI_8BIT {
        EscapeState::Csi
    } else {
        EscapeState::Esc
    }
}

/// Advance the escape-sequence scanner by one byte.
pub fn advance_escape(state: EscapeState, byte: u8) -> (next: EscapeState)
    ensures
        next == spec_advance_escape(state, byte),
        state == EscapeState::Ground ==> next == EscapeState::Ground,
{
    match state {
        EscapeState::Ground => EscapeState::Ground,
        EscapeState::Esc => {
            if byte == 0x5b {
                EscapeState::Csi
            } else if byte == 0x5d {
                EscapeState::Osc
            } else if byte == 0x50 {
                EscapeState::Dcs
            } else if 0x40 <= byte && byte <= 0x7e {
                EscapeState::Ground
            } else {
                EscapeState::Esc
            }
        },
        EscapeState::Csi => {
            if 0x40 <= byte && byte <= 0x7e {
                EscapeState::Ground
            } else {
                EscapeState::Csi
            }
        },
        EscapeState::Osc => {
            if byte == 0x07 {
                EscapeState::Ground
            } else if byte == ESC {
                EscapeState::OscEsc
            } else {
                EscapeState::Osc
            }
        },
        EscapeState::OscEsc => {
            if byte == 0x5c {
                EscapeState::Ground
            } else {
                EscapeState::Osc
            }
        },
        EscapeState::Dcs => {
            if byte == ESC {
                EscapeState::DcsEsc
            } else {
                EscapeState::Dcs
            }
        },
        EscapeState::DcsEsc => {
            if byte == 0x5c {
                EscapeState::Ground
            } else {
                EscapeState::Dcs
            }
        },
    }
}

/// Start collecting an escape sequence whose introducer is `byte`.
fn begin_escape(state: &mut EscapeState, escape_bytes: &mut Vec<u8>, byte: u8)
    ensures
        *final(state) == spec_escape_start(byte),
        final(escape_bytes)@ == seq![byte],
{
    escape_bytes.clear();
    escape_bytes.push(byte);
    *state = if byte == CSI_8BIT {
        EscapeState::Csi
    } else {
        EscapeState::Esc
    };
}


// ---------------------------------------------------------------------------
// Outside calls: encoding_rs and std's UTF-8 validation.
// ---------------------------------------------------------------------------

/// What `encoding_rs::Encoding::encode` produces for `text` in the given
/// pane encoding (unmappable characters become numeric character references).
pub uninterp spec fn encoding_encode(encoding: PaneEncoding, text: Seq<char>) -> Seq<u8>;

/// What `encoding_rs::Encoding::decode_without_bom_handling_and_without_replacement`
/// produces for `bytes`: `None` on a malformed sequence.
pub uninterp spec fn encoding_decode_strict(encoding: PaneEncoding, bytes: Seq<u8>) -> Option<
    Seq<char>,
>;

/// What `encoding_rs::Encoding::decode` (BOM sniffing, malformed sequences
/// replaced) produces for `bytes`.
pub uninterp spec fn encoding_decode_lossy(encoding: PaneEncoding, bytes: Seq<u8>) -> Seq<char>;

/// What `std::str::Utf8Error::error_len` reports for invalid `bytes`.
pub uninterp spec fn utf8_error_len(bytes: Seq<u8>) -> Option<nat>;

/// What `String::from_utf8_lossy` produces for `bytes`.
pub uninterp spec fn utf8_lossy(bytes: Seq<u8>) -> Seq<char>;

/// Every byte is below 0x80.
pub open spec fn is_ascii_bytes(bytes: Seq<u8>) -> bool {
    forall|i: int| 0 <= i < bytes.len() ==> #[trigger] bytes[i] < 0x80
}

/// The characters that ASCII bytes stand for.
pub open spec fn ascii_bytes_as_chars(bytes: Seq<u8>) -> Seq<char> {
    Seq::new(bytes.len(), |i: int| bytes[i] as char)
}

/// Encodes `text` with encoding_rs's `Encoding::encode` in the encoding that
/// `encoding` names. The contract claims that the result is a function of the
/// encoding and the text, that UTF-8 output is the text's own UTF-8 bytes, and
/// that ASCII-only text comes out as its ASCII bytes (encoding_rs borrows
/// ASCII-only input unchanged for these ASCII-compatible encodings).
#[verifier::external_body]
fn encoding_rs_encode(encoding: PaneEncoding, text: &str) -> (out: Vec<u8>)
    ensures
        out@ == encoding_encode(encoding, text@),
        encoding == PaneEncoding::Utf8 ==> out@ == encode_utf8(text@),
        is_ascii_chars(text@) ==> out@ == encode_utf8(text@),
{
    let enc = match encoding {
        PaneEncoding::Utf8 => encoding_rs::UTF_8,
        PaneEncoding::Gbk => encoding_rs::GBK,
        PaneEncoding::Gb18030 => encoding_rs::GB18030,
        PaneEncoding::Big5 => encoding_rs::BIG5,
        PaneEncoding::EucKr => encoding_rs::EUC_KR,
        PaneEncoding::ShiftJis => encoding_rs::SHIFT_JIS,
    };
    enc.encode(text).0.into_owned()
}

/// Decodes `bytes` with encoding_rs's
/// `Encoding::decode_without_bom_handling_and_without_replacement`. The
/// contract claims that the result is a function of the encoding and the
/// bytes, and that ASCII-only input decodes to the same characters (for these
/// ASCII-compatible encodings encoding_rs borrows such input as it is).
#[verifier::external_body]
fn encoding_rs_decode_strict(encoding: PaneEncoding, bytes: &[u8]) -> (out: Option<String>)
    ensures
        out is None <==> encoding_decode_strict(encoding, bytes@) is None,
        out matches Some(s) ==> encoding_decode_strict(encoding, bytes@) == Some(s@),
        out matches Some(s) ==> (encoding != PaneEncoding::Utf8 && is_ascii_bytes(bytes@) ==> s@ == ascii_bytes_as_chars(bytes@)),
        encoding != PaneEncoding::Utf8 && is_ascii_bytes(bytes@) ==> out is Some,
{
    let enc = match encoding {
        PaneEncoding::Utf8 => encoding_rs::UTF_8,
        PaneEncoding::Gbk => encoding_rs::GBK,
        PaneEncoding::Gb18030 => encoding_rs::GB18030,
        PaneEncoding::Big5 => encoding_rs::BIG5,
        PaneEncoding::EucKr => encoding_rs::EUC_KR,
        PaneEncoding::ShiftJis => encoding_rs::SHIFT_JIS,
    };
    enc.decode_without_bom_handling_and_without_replacement(bytes).map(|s| s.into_owned())
}

/// Decodes `bytes` with encoding_rs's `Encoding::decode` (BOM sniffing,
/// malformed sequences replaced). The contract only claims that the result is
/// a function of the encoding and the bytes.
#[verifier::external_body]
fn encoding_rs_decode(encoding: PaneEncoding, bytes: &[u8]) -> (out: String)
    ensures
        out@ == encoding_decode_lossy(encoding, bytes@),
{
    let enc = match encoding {
        PaneEncoding::Utf8 => encoding_rs::UTF_8,
        PaneEncoding::Gbk => encoding_rs::GBK,
        PaneEncoding::Gb18030 => encoding_rs::GB18030,
        PaneEncoding::Big5 => encoding_rs::BIG5,
        PaneEncoding::EucKr => encoding_rs::EUC_KR,
        PaneEncoding::ShiftJis => encoding_rs::SHIFT_JIS,
    };
    enc.decode(bytes).0.into_owned()
}

/// `k` is the longest prefix length of `bytes` that is valid UTF-8.
pub open spec fn is_longest_valid_prefix(bytes: Seq<u8>, k: int) -> bool {
    &&& 0 <= k <= bytes.len()
    &&& valid_utf8(bytes.take(k))
    &&& forall|j: int| k < j <= bytes.len() ==> !valid_utf8(#[trigger] bytes.take(j))
}

/// The length of the longest prefix of `bytes` that is valid UTF-8.
pub open spec fn longest_valid_prefix(bytes: Seq<u8>) -> int {
    choose|k: int| is_longest_valid_prefix(bytes, k)
}

/// Validates `bytes` with `std::str::from_utf8`. As its documentation says:
/// `Ok` exactly on valid UTF-8, with the decoded text; otherwise
/// `valid_up_to` is the longest valid prefix and `error_len` is `None` when
/// the input ends inside a sequence, or the length of the invalid sequence at
/// `valid_up_to` (at least one byte, inside the input). Which length it
/// reports is left to the name `utf8_error_len`.
#[verifier::external_body]
fn std_str_from_utf8(bytes: &[u8]) -> (out: Result<String, (usize, Option<usize>)>)
    ensures
        out is Ok <==> valid_utf8(bytes@),
        out matches Ok(s) ==> s@ == decode_utf8(bytes@),
        out matches Err((v, e)) ==> {
            &&& is_longest_valid_prefix(bytes@, v as int)
            &&& v < bytes@.len()
            &&& match e {
                Some(n) => utf8_error_len(bytes@) == Some(n as nat) && 1 <= n <= bytes@.len() - v,
                None => utf8_error_len(bytes@) is None,
            }
        },
{
    match std::str::from_utf8(bytes) {
        Ok(s) => Ok(s.to_string()),
        Err(e) => Err((e.valid_up_to(), e.error_len())),
    }
}

/// `String::from_utf8_lossy`; the contract only names its result.
#[verifier::external_body]
fn std_string_from_utf8_lossy(bytes: &[u8]) -> (out: String)
    ensures
        out@ == utf8_lossy(bytes@),
{
    String::from_utf8_lossy(bytes).into_owned()
}


// ---------------------------------------------------------------------------
// Converting text runs.
// ---------------------------------------------------------------------------

/// The bytes that `push_encoded` appends for `text`.
pub open spec fn spec_push_encoded(encoding: PaneEncoding, text: Seq<char>) -> Seq<u8> {
    if encoding == PaneEncoding::Utf8 {
        encode_utf8(text)
    } else {
        encoding_encode(encoding, text)
    }
}

/// Encoding a run of UTF-8 input: the bytes to send and the incomplete UTF-8
/// tail kept for the next call. Valid UTF-8 is re-encoded, each invalid
/// sequence becomes `?`, and a sequence cut off at the end is kept back.
pub open spec fn encode_pending(encoding: PaneEncoding, pending: Seq<u8>) -> (Seq<u8>, Seq<u8>)
    decreases pending.len(),
{
    if pending.len() == 0 {
        (Seq::empty(), Seq::empty())
    } else if valid_utf8(pending) {
        (spec_push_encoded(encoding, decode_utf8(pending)), Seq::empty())
    } else {
        let v = longest_valid_prefix(pending);
        let head = if v > 0 {
            spec_push_encoded(encoding, decode_utf8(pending.take(v)))
        } else {
            Seq::empty()
        };
        match utf8_error_len(pending) {
            None => (head, pending.skip(v)),
            Some(n) => if 1 <= n && 0 <= v && v + n <= pending.len() {
                let rest = encode_pending(encoding, pending.skip(v + n));
                (head + seq![0x3fu8] + rest.0, rest.1)
            } else {
                (head, Seq::empty())
            },
        }
    }
}

/// The largest `split` in `lo..=hi` at which the prefix of `pending` decodes
/// strictly, if any.
pub open spec fn strict_split(encoding: PaneEncoding, pending: Seq<u8>, hi: int, lo: int) -> Option<
    int,
>
    decreases hi - lo + 1,
{
    if hi < lo || hi < 0 {
        None
    } else if encoding_decode_strict(encoding, pending.take(hi)) is Some {
        Some(hi)
    } else {
        strict_split(encoding, pending, hi - 1, lo)
    }
}

/// The shortest prefix that decoding tries: all but at most four bytes, and
/// at least one.
pub open spec fn min_decode_prefix(len: nat) -> int {
    if len > 4 {
        len - 4
    } else {
        1
    }
}

/// Decoding a run of pane output: the UTF-8 bytes produced and the encoded
/// tail kept for the next call. The longest prefix (leaving at most four bytes
/// behind) that decodes without error is converted and the rest kept; if none
/// does, up to four bytes are kept back, and a longer run is decoded with
/// replacement characters.
pub open spec fn decode_pending(encoding: PaneEncoding, pending: Seq<u8>) -> (Seq<u8>, Seq<u8>) {
    if encoding == PaneEncoding::Utf8 {
        (pending, Seq::empty())
    } else {
        match strict_split(encoding, pending, pending.len() as int, min_decode_prefix(pending.len())) {
            Some(split) => (
                encode_utf8(encoding_decode_strict(encoding, pending.take(split))->0),
                pending.skip(split),
            ),
            None => if pending.len() <= 4 {
                (Seq::empty(), pending)
            } else {
                (encode_utf8(encoding_decode_lossy(encoding, pending)), Seq::empty())
            },
        }
    }
}

/// Which way a pane codec converts text.
pub enum Direction {
    /// UTF-8 from the user to the pane's encoding.
    Encode,
    /// The pane's encoding to UTF-8 for display.
    Decode,
}

/// Converting a text run together with the tail kept from before.
pub open spec fn convert_pending(direction: Direction, encoding: PaneEncoding, pending: Seq<u8>) -> (
    Seq<u8>,
    Seq<u8>,
) {
    match direction {
        Direction::Encode => encode_pending(encoding, pending),
        Direction::Decode => decode_pending(encoding, pending),
    }
}

/// Printable ASCII-range text with no escape introducer in it.
pub open spec fn is_plain_ascii_text(data: Seq<u8>) -> bool {
    &&& is_ascii_bytes(data)
    &&& forall|i: int| 0 <= i < data.len() ==> #[trigger] data[i] != ESC
}

/// The codec holds no unfinished escape sequence and no buffered text for
/// `encoding` (or it is set for another encoding, so it will start afresh).
pub open spec fn holds_nothing(codec: CodecView, encoding: PaneEncoding) -> bool {
    codec.encoding != encoding || (codec.state == EscapeState::Ground && codec.pending.len() == 0)
}

/// The abstract state of a pane codec.
pub struct CodecView {
    pub encoding: PaneEncoding,
    pub state: EscapeState,
    pub escape: Seq<u8>,
    pub pending: Seq<u8>,
}

/// A codec before it has seen any bytes, set for `encoding`.
pub open spec fn fresh_codec(encoding: PaneEncoding) -> CodecView {
    CodecView {
        encoding,
        state: EscapeState::Ground,
        escape: Seq::empty(),
        pending: Seq::empty(),
    }
}

/// The scanner's progress through one chunk of bytes.
pub struct Scan {
    pub state: EscapeState,
    pub escape: Seq<u8>,
    pub pending: Seq<u8>,
    /// Text bytes seen since the last escape sequence, not yet converted.
    pub run: Seq<u8>,
    pub out: Seq<u8>,
}

/// Converts the text run, if there is one.
pub open spec fn flush_run(direction: Direction, encoding: PaneEncoding, s: Scan) -> Scan {
    if s.run.len() > 0 {
        let (o, p) = convert_pending(direction, encoding, s.pending + s.run);
        Scan { state: s.state, escape: s.escape, pending: p, run: Seq::empty(), out: s.out + o }
    } else {
        s
    }
}

/// Handling one byte: an introducer in ground state converts the text before
/// it and starts an escape sequence; inside a sequence the byte is collected
/// and a complete sequence is emitted as it is; other bytes are text.
pub open spec fn scan_step(direction: Direction, encoding: PaneEncoding, s: Scan, byte: u8) -> Scan {
    if s.state == EscapeState::Ground && (byte == ESC || byte == CSI_8BIT) {
        let f = flush_run(direction, encoding, s);
        Scan {
            state: spec_escape_start(byte),
            escape: seq![byte],
            pending: f.pending,
            run: Seq::empty(),
            out: f.out,
        }
    } else if s.state != EscapeState::Ground {
        let next = spec_advance_escape(s.state, byte);
        let escape = s.escape.push(byte);
        if next == EscapeState::Ground {
            Scan { state: next, escape: Seq::empty(), pending: s.pending, run: s.run, out: s.out + escape }
        } else {
            Scan { state: next, escape, pending: s.pending, run: s.run, out: s.out }
        }
    } else {
        Scan { state: s.state, escape: s.escape, pending: s.pending, run: s.run.push(byte), out: s.out }
    }
}

/// Handling every byte of `data` in order.
pub open spec fn scan_bytes(direction: Direction, encoding: PaneEncoding, s: Scan, data: Seq<u8>) -> Scan
    decreases data.len(),
{
    if data.len() == 0 {
        s
    } else {
        scan_step(direction, encoding, scan_bytes(direction, encoding, s, data.drop_last()), data.last())
    }
}

/// What one call of `encode` / `decode` returns and leaves behind.
pub open spec fn spec_convert(direction: Direction, codec: CodecView, encoding: PaneEncoding, data: Seq<u8>) -> (
    Seq<u8>,
    CodecView,
) {
    let c = if codec.encoding != encoding {
        fresh_codec(encoding)
    } else {
        codec
    };
    if encoding == PaneEncoding::Utf8 {
        (data, c)
    } else {
        let start = Scan {
            state: c.state,
            escape: c.escape,
            pending: c.pending,
            run: Seq::empty(),
            out: Seq::empty(),
        };
        let scanned = scan_bytes(direction, encoding, start, data);
        let end = if scanned.state == EscapeState::Ground {
            flush_run(direction, encoding, scanned)
        } else {
            scanned
        };
        (end.out, CodecView { encoding, state: end.state, escape: end.escape, pending: end.pending })
    }
}


// ---------------------------------------------------------------------------
// The codecs.
// ---------------------------------------------------------------------------

/// Appends `bytes` to `out`.
fn append_bytes(out: &mut Vec<u8>, bytes: &[u8])
    ensures
        final(out)@ == old(out)@ + bytes@,
{
    let mut i: usize = 0;
    while i < bytes.len()
        invariant
            i <= bytes@.len(),
            out@ == old(out)@ + bytes@.take(i as int),
        decreases bytes@.len() - i,
    {
        out.push(bytes[i]);
        i = i + 1;
        assert(bytes@.take(i as int) == bytes@.take(i - 1).push(bytes@[i - 1]));
    }
    assert(bytes@.take(bytes@.len() as int) == bytes@);
}

/// Text from a pane, as a `String`: UTF-8 when the bytes are valid UTF-8,
/// otherwise decoded from the pane's encoding (or lossily as UTF-8).
pub fn decode_bytes_to_string(encoding: PaneEncoding, raw: &[u8]) -> (text: String)
    ensures
        valid_utf8(raw@) ==> text@ == decode_utf8(raw@),
        !valid_utf8(raw@) && encoding == PaneEncoding::Utf8 ==> text@ == utf8_lossy(raw@),
        !valid_utf8(raw@) && encoding != PaneEncoding::Utf8 ==> text@ == encoding_decode_lossy(encoding, raw@),
{
    match std_str_from_utf8(raw) {
        Ok(text) => text,
        Err(_) => {
            if encoding == PaneEncoding::Utf8 {
                std_string_from_utf8_lossy(raw)
            } else {
                encoding_rs_decode(encoding, raw)
            }
        },
    }
}

/// Converts UTF-8 input typed into a pane to the pane's encoding.
#[derive(Debug)]
pub struct PaneInputEncoder {
    encoding: PaneEncoding,
    state: EscapeState,
    escape_bytes: Vec<u8>,
    pending_utf8: Vec<u8>,
}

impl View for PaneInputEncoder {
    type V = CodecView;

    closed spec fn view(&self) -> CodecView {
        CodecView {
            encoding: self.encoding,
            state: self.state,
            escape: self.escape_bytes@,
            pending: self.pending_utf8@,
        }
    }
}

impl Default for PaneInputEncoder {
    fn default() -> (encoder: Self)
        ensures
            encoder@ == fresh_codec(PaneEncoding::Utf8),
    {
        Self {
            encoding: PaneEncoding::Utf8,
            state: EscapeState::Ground,
            escape_bytes: Vec::new(),
            pending_utf8: Vec::new(),
        }
    }
}

proof fn lemma_longest_valid_prefix_unique(bytes: Seq<u8>, k: int)
    requires
        is_longest_valid_prefix(bytes, k),
    ensures
        longest_valid_prefix(bytes) == k,
{
    let c = longest_valid_prefix(bytes);
    assert(is_longest_valid_prefix(bytes, c));
    if c < k {
        assert(!valid_utf8(bytes.take(k)));
    } else if k < c {
        assert(!valid_utf8(bytes.take(c)));
    }
}

proof fn lemma_scan_plain_text(
    direction: Direction,
    encoding: PaneEncoding,
    start: Scan,
    data: Seq<u8>,
    k: int,
)
    requires
        start.state == EscapeState::Ground,
        start.run.len() == 0,
        is_plain_ascii_text(data),
        0 <= k <= data.len(),
    ensures
        scan_bytes(direction, encoding, start, data.take(k)) == (Scan { run: data.take(k), ..start }),
    decreases k,
{
    if k == 0 {
        assert(start.run =~= data.take(0));
    } else {
        lemma_scan_plain_text(direction, encoding, start, data, k - 1);
        assert(data.take(k).drop_last() == data.take(k - 1));
        assert(data.take(k).last() == data[k - 1]);
        assert(data[k - 1] < 0x80 && data[k - 1] != ESC);
        assert(data.take(k - 1).push(data[k - 1]) == data.take(k));
    }
}

proof fn lemma_ascii_chars_encode_back(bytes: Seq<u8>)
    requires
        is_ascii_bytes(bytes),
    ensures
        is_ascii_chars(ascii_bytes_as_chars(bytes)),
        encode_utf8(ascii_bytes_as_chars(bytes)) == bytes,
{
    let chars = ascii_bytes_as_chars(bytes);
    assert forall|i: int| 0 <= i < chars.len() implies '\0' <= #[trigger] chars[i] <= '\u{7f}' by {
        assert(bytes[i] < 0x80);
    }
    is_ascii_chars_encode_utf8(chars);
    assert(encode_utf8(chars) =~= bytes);
}

/// ASCII bytes are valid UTF-8 and decode to the same characters.
proof fn lemma_ascii_bytes_are_utf8(bytes: Seq<u8>)
    requires
        is_ascii_bytes(bytes),
    ensures
        valid_utf8(bytes),
        decode_utf8(bytes) == ascii_bytes_as_chars(bytes),
        is_ascii_chars(decode_utf8(bytes)),
        encode_utf8(decode_utf8(bytes)) == bytes,
    decreases bytes.len(),
{
    if bytes.len() > 0 {
        let b0 = bytes[0];
        assert(b0 < 0x80);
        assert((b0 & 0x7f) == b0) by (bit_vector)
            requires
                b0 < 0x80,
        ;
        let rest = bytes.subrange(1, bytes.len() as int);
        assert(is_ascii_bytes(rest)) by {
            assert forall|i: int| 0 <= i < rest.len() implies #[trigger] rest[i] < 0x80 by {
                assert(rest[i] == bytes[i + 1]);
            }
        }
        lemma_ascii_bytes_are_utf8(rest);
        assert(pop_first_scalar(bytes) == rest);
        assert(decode_utf8(bytes) =~= ascii_bytes_as_chars(bytes));
    }
    lemma_ascii_chars_encode_back(bytes);
}

impl PaneInputEncoder {
    /// Converts `data` (UTF-8 typed by the user) to `encoding`, passing
    /// escape sequences through as they are. A UTF-8 sequence cut off at the
    /// end of `data`, or an unfinished escape sequence, is kept for the next
    /// call; switching encodings forgets what was kept.
    pub fn encode(&mut self, encoding: PaneEncoding, data: &[u8]) -> (out: Vec<u8>)
        ensures
            (out@, final(self)@) == spec_convert(Direction::Encode, old(self)@, encoding, data@),
            holds_nothing(old(self)@, encoding) && is_plain_ascii_text(data@) ==> out@ == data@,
    {
        if self.encoding != encoding {
            self.encoding = encoding;
            self.state = EscapeState::Ground;
            self.escape_bytes.clear();
            self.pending_utf8.clear();
        }
        if encoding == PaneEncoding::Utf8 {
            return slice_to_vec(data);
        }
        let ghost start = Scan {
            state: self.state,
            escape: self.escape_bytes@,
            pending: self.pending_utf8@,
            run: Seq::empty(),
            out: Seq::empty(),
        };
        let mut output: Vec<u8> = Vec::new();
        let mut text_start: usize = 0;
        let mut idx: usize = 0;
        while idx < data.len()
            invariant
                idx <= data@.len(),
                text_start <= idx,
                self.encoding == encoding,
                encoding != PaneEncoding::Utf8,
                ({
                    let s = scan_bytes(Direction::Encode, encoding, start, data@.take(idx as int));
                    &&& s.state == self.state
                    &&& s.escape == self.escape_bytes@
                    &&& s.pending == self.pending_utf8@
                    &&& s.out == output@
                    &&& s.state == EscapeState::Ground ==> s.run == data@.subrange(text_start as int, idx as int)
                    &&& s.state != EscapeState::Ground ==> s.run.len() == 0
                }),
            decreases data@.len() - idx,
        {
            let byte = data[idx];
            let ghost before = scan_bytes(Direction::Encode, encoding, start, data@.take(idx as int));
            assert(data@.take(idx + 1).drop_last() == data@.take(idx as int));
            if self.state == EscapeState::Ground && (byte == ESC || byte == CSI_8BIT) {
                if idx > text_start {
                    let text = slice_subrange(data, text_start, idx);
                    self.encode_text(encoding, text, &mut output);
                }
                begin_escape(&mut self.state, &mut self.escape_bytes, byte);
                text_start = idx + 1;
            } else if self.state != EscapeState::Ground {
                self.escape_bytes.push(byte);
                self.state = advance_escape(self.state, byte);
                if self.state == EscapeState::Ground {
                    append_bytes(&mut output, self.escape_bytes.as_slice());
                    self.escape_bytes.clear();
                    text_start = idx + 1;
                }
            }
            idx = idx + 1;
            proof {
                if self.state == EscapeState::Ground {
                    assert(data@.subrange(text_start as int, idx as int) =~= scan_bytes(
                        Direction::Encode,
                        encoding,
                        start,
                        data@.take(idx as int),
                    ).run);
                }
            }
        }
        proof {
            if is_plain_ascii_text(data@) && start.pending.len() == 0 && start.state == EscapeState::Ground {
                lemma_scan_plain_text(Direction::Encode, encoding, start, data@, data@.len() as int);
                assert(data@.take(data@.len() as int) == data@);
                assert(text_start == 0);
                assert(data@.subrange(0, data@.len() as int) == data@);
            }
        }
        let ghost out_before = output@;
        if self.state == EscapeState::Ground && text_start < data.len() {
            let text = slice_subrange(data, text_start, data.len());
            proof {
                if is_plain_ascii_text(data@) && start.pending.len() == 0 && start.state == EscapeState::Ground {
                    assert(self.pending_utf8@ + text@ == data@);
                }
            }
            self.encode_text(encoding, text, &mut output);
        }
        proof {
            assert(data@.take(data@.len() as int) == data@);
        }
        output
    }

    /// Converts a run of text bytes, together with the UTF-8 tail kept from
    /// the previous call.
    fn encode_text(&mut self, encoding: PaneEncoding, text: &[u8], output: &mut Vec<u8>)
        ensures
            final(output)@ == old(output)@ + encode_pending(encoding, old(self).pending_utf8@ + text@).0,
            final(self).pending_utf8@ == encode_pending(encoding, old(self).pending_utf8@ + text@).1,
            final(self).encoding == old(self).encoding,
            final(self).state == old(self).state,
            final(self).escape_bytes@ == old(self).escape_bytes@,
            is_ascii_bytes(old(self).pending_utf8@ + text@) ==> final(output)@ == old(output)@ + (old(
                self,
            ).pending_utf8@ + text@),
    {
        let mut pending: Vec<u8> = Vec::new();
        std::mem::swap(&mut pending, &mut self.pending_utf8);
        append_bytes(&mut pending, text);
        let ghost p = pending@;
        let mut cursor: usize = 0;
        assert(p.skip(0) == p);
        while cursor < pending.len()
            invariant
                cursor <= pending@.len(),
                pending@ == p,
                p == old(self).pending_utf8@ + text@,
                self.pending_utf8@ == Seq::<u8>::empty(),
                self.encoding == old(self).encoding,
                self.state == old(self).state,
                self.escape_bytes@ == old(self).escape_bytes@,
                old(output)@ + encode_pending(encoding, p).0 == output@ + encode_pending(
                    encoding,
                    p.skip(cursor as int),
                ).0,
                is_ascii_bytes(p) ==> cursor == 0 && output@ == old(output)@,
                encode_pending(encoding, p).1 == encode_pending(encoding, p.skip(cursor as int)).1,
            decreases pending@.len() - cursor,
        {
            let rest = slice_subrange(pending.as_slice(), cursor, pending.len());
            assert(rest@ == p.skip(cursor as int));
            match std_str_from_utf8(rest) {
                Ok(valid) => {
                    proof {
                        if is_ascii_bytes(p) {
                            lemma_ascii_bytes_are_utf8(p);
                            assert(cursor == 0);
                            assert(rest@ == p);
                        }
                    }
                    assert(rest@.len() > 0);
                    assert(encode_pending(encoding, rest@) == (
                        spec_push_encoded(encoding, decode_utf8(rest@)),
                        Seq::<u8>::empty(),
                    ));
                    self.push_encoded(encoding, valid.as_str(), output);
                    return ;
                },
                Err((valid_len, error_len)) => {
                    proof {
                        lemma_longest_valid_prefix_unique(rest@, valid_len as int);
                        if is_ascii_bytes(p) {
                            lemma_ascii_bytes_are_utf8(p);
                            assert(rest@ == p);
                        }
                    }
                    let ghost out_before = output@;
                    if valid_len > 0 {
                        let valid_slice = slice_subrange(pending.as_slice(), cursor, cursor + valid_len);
                        assert(valid_slice@ == rest@.take(valid_len as int));
                        if let Ok(valid) = std_str_from_utf8(valid_slice) {
                            self.push_encoded(encoding, valid.as_str(), output);
                        }
                    }
                    cursor = cursor + valid_len;
                    match error_len {
                        None => {
                            let tail = slice_subrange(pending.as_slice(), cursor, pending.len());
                            append_bytes(&mut self.pending_utf8, tail);
                            assert(tail@ == rest@.skip(valid_len as int));
                            return ;
                        },
                        Some(n) => {
                            output.push(0x3f);
                            cursor = cursor + n;
                            assert(p.skip(cursor as int) == rest@.skip(valid_len + n));
                        },
                    }
                },
            }
        }
    }

    /// Appends `text` in `encoding`.
    fn push_encoded(&self, encoding: PaneEncoding, text: &str, output: &mut Vec<u8>)
        ensures
            final(output)@ == old(output)@ + spec_push_encoded(encoding, text@),
            is_ascii_chars(text@) ==> final(output)@ == old(output)@ + encode_utf8(text@),
    {
        if encoding == PaneEncoding::Utf8 {
            append_bytes(output, text.as_bytes());
        } else {
            let encoded = encoding_rs_encode(encoding, text);
            append_bytes(output, encoded.as_slice());
        }
    }
}


/// Converts the output of a pane from the pane's encoding to UTF-8.
#[derive(Debug)]
pub struct PaneOutputDecoder {
    encoding: PaneEncoding,
    state: EscapeState,
    escape_bytes: Vec<u8>,
    pending_encoded: Vec<u8>,
}

impl View for PaneOutputDecoder {
    type V = CodecView;

    closed spec fn view(&self) -> CodecView {
        CodecView {
            encoding: self.encoding,
            state: self.state,
            escape: self.escape_bytes@,
            pending: self.pending_encoded@,
        }
    }
}

impl Default for PaneOutputDecoder {
    fn default() -> (decoder: Self)
        ensures
            decoder@ == fresh_codec(PaneEncoding::Utf8),
    {
        Self {
            encoding: PaneEncoding::Utf8,
            state: EscapeState::Ground,
            escape_bytes: Vec::new(),
            pending_encoded: Vec::new(),
        }
    }
}

impl PaneOutputDecoder {
    /// Converts `data` (output of a pane in `encoding`) to UTF-8, passing
    /// escape sequences through as they are. A multibyte character cut off at
    /// the end of `data`, or an unfinished escape sequence, is kept for the
    /// next call; switching encodings forgets what was kept.
    pub fn decode(&mut self, encoding: PaneEncoding, data: &[u8]) -> (out: Vec<u8>)
        ensures
            (out@, final(self)@) == spec_convert(Direction::Decode, old(self)@, encoding, data@),
            holds_nothing(old(self)@, encoding) && is_plain_ascii_text(data@) ==> out@ == data@,
    {
        if self.encoding != encoding {
            self.encoding = encoding;
            self.state = EscapeState::Ground;
            self.escape_bytes.clear();
            self.pending_encoded.clear();
        }
        if encoding == PaneEncoding::Utf8 {
            return slice_to_vec(data);
        }
        let ghost start = Scan {
            state: self.state,
            escape: self.escape_bytes@,
            pending: self.pending_encoded@,
            run: Seq::empty(),
            out: Seq::empty(),
        };
        let mut output: Vec<u8> = Vec::new();
        let mut text_start: usize = 0;
        let mut idx: usize = 0;
        while idx < data.len()
            invariant
                idx <= data@.len(),
                text_start <= idx,
                self.encoding == encoding,
                encoding != PaneEncoding::Utf8,
                ({
                    let s = scan_bytes(Direction::Decode, encoding, start, data@.take(idx as int));
                    &&& s.state == self.state
                    &&& s.escape == self.escape_bytes@
                    &&& s.pending == self.pending_encoded@
                    &&& s.out == output@
                    &&& s.state == EscapeState::Ground ==> s.run == data@.subrange(text_start as int, idx as int)
                    &&& s.state != EscapeState::Ground ==> s.run.len() == 0
                }),
            decreases data@.len() - idx,
        {
            let byte = data[idx];
            let ghost before = scan_bytes(Direction::Decode, encoding, start, data@.take(idx as int));
            assert(data@.take(idx + 1).drop_last() == data@.take(idx as int));
            if self.state == EscapeState::Ground && (byte == ESC || byte == CSI_8BIT) {
                if idx > text_start {
                    let text = slice_subrange(data, text_start, idx);
                    self.decode_text(encoding, text, &mut output);
                }
                begin_escape(&mut self.state, &mut self.escape_bytes, byte);
                text_start = idx + 1;
            } else if self.state != EscapeState::Ground {
                self.escape_bytes.push(byte);
                self.state = advance_escape(self.state, byte);
                if self.state == EscapeState::Ground {
                    append_bytes(&mut output, self.escape_bytes.as_slice());
                    self.escape_bytes.clear();
                    text_start = idx + 1;
                }
            }
            idx = idx + 1;
            proof {
                if self.state == EscapeState::Ground {
                    assert(data@.subrange(text_start as int, idx as int) =~= scan_bytes(
                        Direction::Decode,
                        encoding,
                        start,
                        data@.take(idx as int),
                    ).run);
                }
            }
        }
        proof {
            if is_plain_ascii_text(data@) && start.pending.len() == 0 && start.state == EscapeState::Ground {
                lemma_scan_plain_text(Direction::Decode, encoding, start, data@, data@.len() as int);
                assert(data@.take(data@.len() as int) == data@);
                assert(text_start == 0);
                assert(data@.subrange(0, data@.len() as int) == data@);
            }
        }
        let ghost out_before = output@;
        if self.state == EscapeState::Ground && text_start < data.len() {
            let text = slice_subrange(data, text_start, data.len());
            proof {
                if is_plain_ascii_text(data@) && start.pending.len() == 0 && start.state == EscapeState::Ground {
                    assert(self.pending_encoded@ + text@ == data@);
                }
            }
            self.decode_text(encoding, text, &mut output);
        }
        proof {
            assert(data@.take(data@.len() as int) == data@);
        }
        output
    }

    /// Converts a run of text bytes, together with the encoded tail kept
    /// from the previous call.
    fn decode_text(&mut self, encoding: PaneEncoding, input: &[u8], output: &mut Vec<u8>)
        ensures
            final(output)@ == old(output)@ + decode_pending(encoding, old(self).pending_encoded@ + input@).0,
            final(self).pending_encoded@ == decode_pending(encoding, old(self).pending_encoded@ + input@).1,
            final(self).encoding == old(self).encoding,
            final(self).state == old(self).state,
            final(self).escape_bytes@ == old(self).escape_bytes@,
            is_ascii_bytes(old(self).pending_encoded@ + input@) ==> final(output)@ == old(output)@ + (old(
                self,
            ).pending_encoded@ + input@),
    {
        let mut pending: Vec<u8> = Vec::new();
        std::mem::swap(&mut pending, &mut self.pending_encoded);
        append_bytes(&mut pending, input);
        let ghost p = pending@;
        if encoding == PaneEncoding::Utf8 {
            append_bytes(output, pending.as_slice());
            return ;
        }
        let len = pending.len();
        let min_prefix: usize = if len > 4 {
            len - 4
        } else {
            1
        };
        let mut split = len;
        while split >= min_prefix
            invariant
                pending@ == p,
                len == p.len(),
                p == old(self).pending_encoded@ + input@,
                min_prefix == min_decode_prefix(p.len()),
                min_prefix >= 1,
                split <= len,
                self.pending_encoded@ == Seq::<u8>::empty(),
                self.encoding == old(self).encoding,
                self.state == old(self).state,
                self.escape_bytes@ == old(self).escape_bytes@,
                output@ == old(output)@,
                encoding != PaneEncoding::Utf8,
                is_ascii_bytes(p) ==> split == len,
                strict_split(encoding, p, len as int, min_prefix as int) == strict_split(
                    encoding,
                    p,
                    split as int,
                    min_prefix as int,
                ),
            decreases split,
        {
            let prefix = slice_subrange(pending.as_slice(), 0, split);
            assert(prefix@ == p.take(split as int));
            if let Some(decoded) = encoding_rs_decode_strict(encoding, prefix) {
                proof {
                    if is_ascii_bytes(p) {
                        assert(prefix@ == p);
                        lemma_ascii_chars_encode_back(p);
                    }
                }
                append_bytes(output, decoded.as_str().as_bytes());
                if split < len {
                    let tail = slice_subrange(pending.as_slice(), split, len);
                    append_bytes(&mut self.pending_encoded, tail);
                }
                assert(p.skip(split as int) == if split < len {
                    p.subrange(split as int, len as int)
                } else {
                    Seq::<u8>::empty()
                });
                return ;
            }
            proof {
                if is_ascii_bytes(p) {
                    assert(prefix@ == p);
                    assert(split >= 1);
                }
            }
            split = split - 1;
        }
        proof {
            if is_ascii_bytes(p) {
                assert(len == 0);
                assert(p == Seq::<u8>::empty());
            }
        }
        if len <= 4 {
            append_bytes(&mut self.pending_encoded, pending.as_slice());
            return ;
        }
        let decoded = encoding_rs_decode(encoding, pending.as_slice());
        append_bytes(output, decoded.as_str().as_bytes());
    }
}


// ---------------------------------------------------------------------------
// Laws.
// ---------------------------------------------------------------------------

/// The scanner state after feeding `bytes` to it, one by one.
pub open spec fn escape_state_after(state: EscapeState, bytes: Seq<u8>) -> EscapeState
    decreases bytes.len(),
{
    if bytes.len() == 0 {
        state
    } else {
        spec_advance_escape(escape_state_after(state, bytes.drop_last()), bytes.last())
    }
}

/// `data` is exactly one escape sequence: an introducer, then bytes that
/// bring the scanner back to ground at the last byte and not before.
pub open spec fn is_complete_escape(data: Seq<u8>) -> bool {
    &&& data.len() >= 2
    &&& (data[0] == ESC || data[0] == CSI_8BIT)
    &&& escape_state_after(spec_escape_start(data[0]), data.subrange(1, data.len() as int))
        == EscapeState::Ground
    &&& forall|k: int|
        1 <= k < data.len() ==> escape_state_after(spec_escape_start(data[0]), #[trigger] data.subrange(1, k))
            != EscapeState::Ground
}

/// UTF-8 panes get their bytes as they are, in both directions.
pub proof fn law_utf8_passthrough(direction: Direction, codec: CodecView, data: Seq<u8>)
    ensures
        spec_convert(direction, codec, PaneEncoding::Utf8, data).0 == data,
{
}

/// After `k` bytes of a complete escape sequence, the scanner holds them as
/// the escape collected so far, or has emitted the whole sequence.
spec fn scanned_escape_prefix(s: Scan, start: Scan, data: Seq<u8>, k: int) -> bool {
    &&& s.state == escape_state_after(spec_escape_start(data[0]), data.subrange(1, k))
    &&& s.pending == start.pending
    &&& s.run.len() == 0
    &&& k < data.len() ==> s.escape == data.take(k) && s.out == start.out
    &&& k == data.len() ==> s.escape.len() == 0 && s.out == start.out + data
}

proof fn lemma_scan_inside_escape(
    direction: Direction,
    encoding: PaneEncoding,
    start: Scan,
    data: Seq<u8>,
    k: int,
)
    requires
        start.state == EscapeState::Ground,
        start.run.len() == 0,
        is_complete_escape(data),
        1 <= k <= data.len(),
    ensures
        scanned_escape_prefix(scan_bytes(direction, encoding, start, data.take(k)), start, data, k),
    decreases k,
{
    if k == 1 {
        assert(data.take(1).drop_last() == Seq::<u8>::empty());
        assert(data.subrange(1, 1) == Seq::<u8>::empty());
        assert(data.take(1) == seq![data[0]]);
        assert(scan_bytes(direction, encoding, start, Seq::<u8>::empty()) == start);
        assert(flush_run(direction, encoding, start) == start);
    } else {
        lemma_scan_inside_escape(direction, encoding, start, data, k - 1);
        let prev = scan_bytes(direction, encoding, start, data.take(k - 1));
        assert(data.take(k).drop_last() == data.take(k - 1));
        assert(data.take(k).last() == data[k - 1]);
        assert(data.subrange(1, k).drop_last() == data.subrange(1, k - 1));
        assert(data.subrange(1, k).last() == data[k - 1]);
        assert(data.take(k - 1).push(data[k - 1]) == data.take(k));
        assert(escape_state_after(spec_escape_start(data[0]), data.subrange(1, k - 1))
            != EscapeState::Ground);
        assert(prev.state != EscapeState::Ground);
        assert(escape_state_after(spec_escape_start(data[0]), data.subrange(1, k))
            == spec_advance_escape(prev.state, data[k - 1]));
        if k == data.len() {
            assert(data.take(k) == data);
        } else {
            assert(escape_state_after(spec_escape_start(data[0]), data.subrange(1, k))
                != EscapeState::Ground);
        }
    }
}

/// A complete escape sequence reaching a codec in ground state comes out
/// exactly as it went in, and leaves any buffered text untouched.
pub proof fn law_escape_sequence_passes_through(
    direction: Direction,
    codec: CodecView,
    encoding: PaneEncoding,
    data: Seq<u8>,
)
    requires
        encoding != PaneEncoding::Utf8,
        codec.encoding == encoding,
        codec.state == EscapeState::Ground,
        is_complete_escape(data),
    ensures
        spec_convert(direction, codec, encoding, data).0 == data,
        spec_convert(direction, codec, encoding, data).1 == (CodecView {
            escape: Seq::empty(),
            ..codec
        }),
{
    let start = Scan {
        state: codec.state,
        escape: codec.escape,
        pending: codec.pending,
        run: Seq::empty(),
        out: Seq::empty(),
    };
    lemma_scan_inside_escape(direction, encoding, start, data, data.len() as int);
    assert(data.take(data.len() as int) == data);
    assert(start.out + data == data);
}

/// Scanning the rest of a complete escape sequence, from byte `k` on,
/// with the first `k` bytes already collected: after byte `j` the scanner
/// holds `j` bytes, or has emitted the whole sequence.
proof fn lemma_scan_escape_rest(
    direction: Direction,
    encoding: PaneEncoding,
    start: Scan,
    data: Seq<u8>,
    k: int,
    j: int,
)
    requires
        is_complete_escape(data),
        1 <= k <= j <= data.len(),
        k < data.len(),
        start.state == escape_state_after(spec_escape_start(data[0]), data.subrange(1, k)),
        start.escape == data.take(k),
        start.run.len() == 0,
        start.out.len() == 0,
    ensures
        ({
            let s = scan_bytes(direction, encoding, start, data.subrange(k, j));
            &&& s.state == escape_state_after(spec_escape_start(data[0]), data.subrange(1, j))
            &&& s.pending == start.pending
            &&& s.run.len() == 0
            &&& j < data.len() ==> s.escape == data.take(j) && s.out.len() == 0
            &&& j == data.len() ==> s.escape.len() == 0 && s.out == data
        }),
    decreases j - k,
{
    if j == k {
        assert(data.subrange(k, j) =~= Seq::<u8>::empty());
    } else {
        lemma_scan_escape_rest(direction, encoding, start, data, k, j - 1);
        let prev = scan_bytes(direction, encoding, start, data.subrange(k, j - 1));
        assert(data.subrange(k, j).drop_last() =~= data.subrange(k, j - 1));
        assert(data.subrange(k, j).last() == data[j - 1]);
        assert(data.subrange(1, j).drop_last() =~= data.subrange(1, j - 1));
        assert(data.subrange(1, j).last() == data[j - 1]);
        assert(escape_state_after(spec_escape_start(data[0]), data.subrange(1, j - 1))
            != EscapeState::Ground);
        assert(prev.state != EscapeState::Ground);
        assert(escape_state_after(spec_escape_start(data[0]), data.subrange(1, j))
            == spec_advance_escape(prev.state, data[j - 1]));
        assert(data.take(j - 1).push(data[j - 1]) =~= data.take(j));
        if j == data.len() {
            assert(data.take(j) =~= data);
            assert(prev.out + data =~= data);
        } else {
            assert(escape_state_after(spec_escape_start(data[0]), data.subrange(1, j))
                != EscapeState::Ground);
        }
    }
}

/// An escape sequence split across two reads still passes through whole:
/// the first part comes out as nothing and is held, and the second brings
/// out the complete sequence, leaving the codec as it was before it (any
/// buffered text untouched).
pub proof fn law_split_escape_sequence_passes_through(
    direction: Direction,
    codec: CodecView,
    encoding: PaneEncoding,
    data: Seq<u8>,
    k: int,
)
    requires
        encoding != PaneEncoding::Utf8,
        codec.encoding == encoding,
        codec.state == EscapeState::Ground,
        is_complete_escape(data),
        1 <= k < data.len(),
    ensures
        spec_convert(direction, codec, encoding, data.take(k)).0.len() == 0,
        spec_convert(direction, codec, encoding, data.take(k)).1.pending == codec.pending,
        spec_convert(direction, spec_convert(direction, codec, encoding, data.take(k)).1, encoding, data.skip(k)).0
            == data,
        spec_convert(direction, spec_convert(direction, codec, encoding, data.take(k)).1, encoding, data.skip(k)).1
            == (CodecView { escape: Seq::empty(), ..codec }),
{
    let start = Scan {
        state: codec.state,
        escape: codec.escape,
        pending: codec.pending,
        run: Seq::empty(),
        out: Seq::empty(),
    };
    lemma_scan_inside_escape(direction, encoding, start, data, k);
    assert(data.take(k).take(k) =~= data.take(k));
    let first = scan_bytes(direction, encoding, start, data.take(k));
    assert(first.state != EscapeState::Ground);
    let c1 = spec_convert(direction, codec, encoding, data.take(k)).1;
    assert(c1 == CodecView { encoding, state: first.state, escape: first.escape, pending: first.pending });
    let start2 = Scan { state: c1.state, escape: c1.escape, pending: c1.pending, run: Seq::empty(), out: Seq::empty() };
    lemma_scan_escape_rest(direction, encoding, start2, data, k, data.len() as int);
    assert(data.subrange(k, data.len() as int) =~= data.skip(k));
    let second = scan_bytes(direction, encoding, start2, data.skip(k));
    assert(data.subrange(1, data.len() as int) == data.subrange(1, data.len() as int));
    assert(second.state == EscapeState::Ground);
    assert(flush_run(direction, encoding, second) == second);
}

/// No byte of `data` opens an escape sequence.
pub open spec fn has_no_introducer(data: Seq<u8>) -> bool {
    forall|i: int| 0 <= i < data.len() ==> #[trigger] data[i] != ESC && data[i] != CSI_8BIT
}

proof fn lemma_scan_text_run(
    direction: Direction,
    encoding: PaneEncoding,
    start: Scan,
    data: Seq<u8>,
    k: int,
)
    requires
        start.state == EscapeState::Ground,
        start.run.len() == 0,
        has_no_introducer(data),
        0 <= k <= data.len(),
    ensures
        scan_bytes(direction, encoding, start, data.take(k)) == (Scan { run: data.take(k), ..start }),
    decreases k,
{
    if k == 0 {
        assert(start.run =~= data.take(0));
    } else {
        lemma_scan_text_run(direction, encoding, start, data, k - 1);
        assert(data.take(k).drop_last() == data.take(k - 1));
        assert(data.take(k).last() == data[k - 1]);
        assert(data[k - 1] != ESC && data[k - 1] != CSI_8BIT);
        assert(data.take(k - 1).push(data[k - 1]) == data.take(k));
    }
}

/// One call on text without escape introducers, from a codec in ground
/// state with nothing buffered: the whole of `data` is converted as one run.
proof fn lemma_convert_text(direction: Direction, codec: CodecView, encoding: PaneEncoding, data: Seq<u8>)
    requires
        encoding != PaneEncoding::Utf8,
        codec.encoding == encoding,
        codec.state == EscapeState::Ground,
        codec.pending.len() == 0,
        has_no_introducer(data),
    ensures
        spec_convert(direction, codec, encoding, data).0 == (if data.len() > 0 {
            convert_pending(direction, encoding, data).0
        } else {
            Seq::<u8>::empty()
        }),
{
    let start = Scan {
        state: codec.state,
        escape: codec.escape,
        pending: codec.pending,
        run: Seq::empty(),
        out: Seq::empty(),
    };
    lemma_scan_text_run(direction, encoding, start, data, data.len() as int);
    assert(data.take(data.len() as int) =~= data);
    assert(codec.pending + data =~= data);
    if data.len() > 0 {
        assert(Seq::<u8>::empty() + convert_pending(direction, encoding, data).0 =~= convert_pending(
            direction,
            encoding,
            data,
        ).0);
    }
}

/// Text round-trips through the pane codecs: the bytes the encoder sends
/// for the user's UTF-8 text decode back to that text, whenever the
/// encoding maps the text to bytes and back, and neither form holds a byte
/// that opens an escape sequence (ESC or the 8-bit CSI), which the codecs
/// pass through as terminal control instead.
pub proof fn law_text_round_trips(
    encoder: CodecView,
    decoder: CodecView,
    encoding: PaneEncoding,
    text: Seq<char>,
)
    requires
        encoding != PaneEncoding::Utf8,
        encoder.encoding == encoding && encoder.state == EscapeState::Ground && encoder.pending.len() == 0,
        decoder.encoding == encoding && decoder.state == EscapeState::Ground && decoder.pending.len() == 0,
        has_no_introducer(encode_utf8(text)),
        has_no_introducer(encoding_encode(encoding, text)),
        encoding_decode_strict(encoding, encoding_encode(encoding, text)) == Some(text),
        text.len() > 0 ==> encoding_encode(encoding, text).len() > 0,
    ensures
        spec_convert(
            Direction::Decode,
            decoder,
            encoding,
            spec_convert(Direction::Encode, encoder, encoding, encode_utf8(text)).0,
        ).0 == encode_utf8(text),
{
    broadcast use encode_utf8_valid_utf8, encode_utf8_decode_utf8;

    let bytes = encode_utf8(text);
    let sent = encoding_encode(encoding, text);
    lemma_convert_text(Direction::Encode, encoder, encoding, bytes);
    assert(decode_utf8(bytes) == text);
    if bytes.len() > 0 {
        assert(valid_utf8(bytes));
        assert(encode_pending(encoding, bytes).0 == sent);
    } else {
        assert(text =~= decode_utf8(Seq::<u8>::empty()));
        assert(text.len() == 0);
    }
    let out1 = spec_convert(Direction::Encode, encoder, encoding, bytes).0;
    if text.len() > 0 {
        assert(out1 == sent);
        lemma_convert_text(Direction::Decode, decoder, encoding, sent);
        assert(sent.take(sent.len() as int) =~= sent);
        assert(min_decode_prefix(sent.len()) <= sent.len());
        assert(strict_split(encoding, sent, sent.len() as int, min_decode_prefix(sent.len())) == Some(
            sent.len() as int,
        ));
        assert(decode_pending(encoding, sent).0 == encode_utf8(text));
    } else {
        assert(bytes.len() == 0) by {
            assert(text =~= Seq::<char>::empty());
        }
        assert(out1.len() == 0);
        lemma_convert_text(Direction::Decode, decoder, encoding, out1);
        assert(bytes =~= Seq::<u8>::empty());
    }
}

/// An OSC sequence ended by the string terminator: ESC `]`, the payload,
/// then ESC `\`.
pub open spec fn osc_with_st(payload: Seq<u8>) -> Seq<u8> {
    seq![ESC, 0x5du8] + payload + seq![ESC, 0x5cu8]
}

proof fn lemma_osc_states(payload: Seq<u8>, k: int)
    requires
        forall|i: int| 0 <= i < payload.len() ==> #[trigger] payload[i] != 0x07 && payload[i] != ESC,
        1 <= k <= payload.len() + 4,
    ensures
        ({
            let st = escape_state_after(spec_escape_start(ESC), osc_with_st(payload).subrange(1, k));
            &&& k == 1 ==> st == EscapeState::Esc
            &&& 2 <= k <= payload.len() + 2 ==> st == EscapeState::Osc
            &&& k == payload.len() + 3 ==> st == EscapeState::OscEsc
            &&& k == payload.len() + 4 ==> st == EscapeState::Ground
        }),
    decreases k,
{
    let d = osc_with_st(payload);
    let p = payload.len() as int;
    if k == 1 {
        assert(d.subrange(1, 1) =~= Seq::<u8>::empty());
    } else {
        lemma_osc_states(payload, k - 1);
        assert(d.subrange(1, k).drop_last() =~= d.subrange(1, k - 1));
        assert(d.subrange(1, k).last() == d[k - 1]);
        if k == 2 {
            assert(d[1] == 0x5du8);
        } else if k <= p + 2 {
            assert(d[k - 1] == payload[k - 3]);
        } else if k == p + 3 {
            assert(d[k - 1] == ESC);
        } else {
            assert(d[k - 1] == 0x5cu8);
        }
    }
}

proof fn lemma_scan_append(direction: Direction, encoding: PaneEncoding, s: Scan, a: Seq<u8>, b: Seq<u8>)
    ensures
        scan_bytes(direction, encoding, s, a + b) == scan_bytes(
            direction,
            encoding,
            scan_bytes(direction, encoding, s, a),
            b,
        ),
    decreases b.len(),
{
    if b.len() == 0 {
        assert(a + b =~= a);
    } else {
        lemma_scan_append(direction, encoding, s, a, b.drop_last());
        assert((a + b).drop_last() =~= a + b.drop_last());
        assert((a + b).last() == b.last());
    }
}

/// An OSC sequence (such as a window title) ends at the string terminator
/// ESC `\`: given to a codec in ground state with nothing buffered, the OSC
/// bytes come out unchanged, and the text after them is converted exactly
/// as it would be on its own.
pub proof fn law_osc_ends_at_string_terminator(
    direction: Direction,
    codec: CodecView,
    encoding: PaneEncoding,
    payload: Seq<u8>,
    text: Seq<u8>,
)
    requires
        encoding != PaneEncoding::Utf8,
        codec.encoding == encoding,
        codec.state == EscapeState::Ground,
        codec.pending.len() == 0,
        forall|i: int| 0 <= i < payload.len() ==> #[trigger] payload[i] != 0x07 && payload[i] != ESC,
        has_no_introducer(text),
    ensures
        spec_convert(direction, codec, encoding, osc_with_st(payload) + text).0 == osc_with_st(payload)
            + spec_convert(direction, codec, encoding, text).0,
{
    let d = osc_with_st(payload);
    let p = payload.len() as int;
    assert(d.len() == p + 4);
    assert forall|k: int| 1 <= k < d.len() implies escape_state_after(
        spec_escape_start(d[0]),
        #[trigger] d.subrange(1, k),
    ) != EscapeState::Ground by {
        lemma_osc_states(payload, k);
    }
    lemma_osc_states(payload, d.len() as int);
    assert(is_complete_escape(d));
    let start = Scan {
        state: codec.state,
        escape: codec.escape,
        pending: codec.pending,
        run: Seq::empty(),
        out: Seq::empty(),
    };
    lemma_scan_inside_escape(direction, encoding, start, d, d.len() as int);
    assert(d.take(d.len() as int) =~= d);
    let s1 = scan_bytes(direction, encoding, start, d);
    assert(s1.out =~= d);
    lemma_scan_append(direction, encoding, start, d, text);
    lemma_scan_text_run(direction, encoding, s1, text, text.len() as int);
    assert(text.take(text.len() as int) =~= text);
    let s2 = scan_bytes(direction, encoding, s1, text);
    assert(s2 == Scan { run: text, ..s1 });
    lemma_convert_text(direction, codec, encoding, text);
    assert(s2.pending + s2.run =~= text);
    if text.len() > 0 {
        assert(flush_run(direction, encoding, s2).out == d + convert_pending(direction, encoding, text).0);
    } else {
        assert(d + Seq::<u8>::empty() =~= d);
    }
}

} // verus!
