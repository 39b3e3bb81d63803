//! The binary envelope in which ingestion requests are buffered and retried:
//! a source-kind tag, a fixed-width thread id, then organization id, user
//! identity, an optional stream name and the raw body, each length-prefixed
//! with a big-endian 16-bit length.

use vstd::prelude::*;
use vstd::string::StrSliceExecFns;
use vstd::slice::slice_index_get;
use vstd::slice::slice_subrange;
use vstd::slice::slice_to_vec;
use vstd::utf8::decode_utf8;
use vstd::utf8::encode_utf8;
use vstd::utf8::encode_utf8_decode_utf8;
use vstd::utf8::encode_utf8_valid_utf8;
use vstd::utf8::valid_utf8;

verus! {

/// Which ingestion endpoint a buffered entry came from.
#[derive(Debug, PartialEq, Eq)]
pub enum IngestSource {
    Bulk,
    Multi,
    JSON,
    KinesisFH,
    GCP,
}

/// The wire tag of a source kind.
pub open spec fn spec_source_tag(s: IngestSource) -> u8 {
    match s {
        IngestSource::Bulk => 1,
        IngestSource::Multi => 2,
        IngestSource::JSON => 3,
        IngestSource::KinesisFH => 4,
        IngestSource::GCP => 5,
    }
}

/// The source kind a wire tag stands for, if any.
pub open spec fn spec_source_from_tag(t: u8) -> Option<IngestSource> {
    if t == 1 {
        Option::Some(IngestSource::Bulk)
    } else if t == 2 {
        Option::Some(IngestSource::Multi)
    } else if t == 3 {
        Option::Some(IngestSource::JSON)
    } else if t == 4 {
        Option::Some(IngestSource::KinesisFH)
    } else if t == 5 {
        Option::Some(IngestSource::GCP)
    } else {
        Option::None
    }
}

impl IngestSource {
    /// The wire tag of this source kind.
    pub fn to_u8(&self) -> (r: u8)
        ensures
            r == spec_source_tag(*self),
    {
        match self {
            IngestSource::Bulk => 1,
            IngestSource::Multi => 2,
            IngestSource::JSON => 3,
            IngestSource::KinesisFH => 4,
            IngestSource::GCP => 5,
        }
    }

    /// The source kind of a wire tag, or `None` for an unassigned tag.
    pub fn from_u8(t: u8) -> (r: Option<IngestSource>)
        ensures
            r == spec_source_from_tag(t),
    {
        if t == 1 {
            Option::Some(IngestSource::Bulk)
        } else if t == 2 {
            Option::Some(IngestSource::Multi)
        } else if t == 3 {
            Option::Some(IngestSource::JSON)
        } else if t == 4 {
            Option::Some(IngestSource::KinesisFH)
        } else if t == 5 {
            Option::Some(IngestSource::GCP)
        } else {
            Option::None
        }
    }
}

/// One buffered ingestion request.
#[derive(Debug, PartialEq, Eq)]
pub struct IngestEntry {
    pub source: IngestSource,
    pub thread_id: usize,
    pub org_id: String,
    pub user_email: String,
    pub stream_name: Option<String>,
    pub body: Vec<u8>,
}

/// The mathematical shape of an [`IngestEntry`].
pub struct SpecEntry {
    pub source: IngestSource,
    pub thread_id: usize,
    pub org_id: Seq<char>,
    pub user_email: Seq<char>,
    pub stream_name: Option<Seq<char>>,
    pub body: Seq<u8>,
}

impl View for IngestEntry {
    type V = SpecEntry;

    open spec fn view(&self) -> SpecEntry {
        SpecEntry {
            source: self.source,
            thread_id: self.thread_id,
            org_id: self.org_id@,
            user_email: self.user_email@,
            stream_name: match self.stream_name {
                Option::Some(s) => Option::Some(s@),
                Option::None => Option::None,
            },
            body: self.body@,
        }
    }
}

/// Why an entry failed to encode or decode.
#[derive(Debug, PartialEq, Eq)]
pub enum EntryError {
    /// A field's byte length does not fit the 16-bit length prefix.
    FieldTooLong,
    /// The input ended before a field was complete.
    TruncatedInput,
    /// The source tag is not assigned to any source kind.
    UnknownSource,
    /// A text field does not hold valid UTF-8.
    InvalidUtf8,
}

/// A 16-bit value as two big-endian bytes.
pub open spec fn spec_u16_be(x: u16) -> Seq<u8> {
    seq![(x / 256) as u8, (x % 256) as u8]
}

/// A 64-bit value as eight big-endian bytes.
pub open spec fn spec_u64_be(x: u64) -> Seq<u8> {
    seq![
        ((x / 0x100000000000000) % 256) as u8,
        ((x / 0x1000000000000) % 256) as u8,
        ((x / 0x10000000000) % 256) as u8,
        ((x / 0x100000000) % 256) as u8,
        ((x / 0x1000000) % 256) as u8,
        ((x / 0x10000) % 256) as u8,
        ((x / 0x100) % 256) as u8,
        (x % 256) as u8,
    ]
}

/// A length-prefixed text field: big-endian 16-bit byte length, then the
/// UTF-8 bytes.
pub open spec fn spec_str_field(s: Seq<char>) -> Seq<u8> {
    spec_u16_be(encode_utf8(s).len() as u16) + encode_utf8(s)
}

/// Whether every variable-length field of the entry fits its 16-bit length
/// prefix.
pub open spec fn spec_lengths_ok(e: SpecEntry) -> bool {
    encode_utf8(e.org_id).len() <= 0xffff && encode_utf8(e.user_email).len() <= 0xffff && (match e
        .stream_name {
        Option::Some(s) => encode_utf8(s).len() <= 0xffff,
        Option::None => true,
    }) && e.body.len() <= 0xffff
}

/// The wire encoding of an entry: tag, 64-bit thread id, organization id,
/// user identity, stream-name indicator with the optional stream name, body.
pub open spec fn spec_encode(e: SpecEntry) -> Seq<u8> {
    seq![spec_source_tag(e.source)] + spec_u64_be(e.thread_id as u64) + spec_str_field(e.org_id)
        + spec_str_field(e.user_email) + (match e.stream_name {
        Option::None => seq![0u8],
        Option::Some(s) => seq![1u8] + spec_str_field(s),
    }) + spec_u16_be(e.body.len() as u16) + e.body
}

/// The 16-bit big-endian value at `pos`.
pub open spec fn spec_read_u16(b: Seq<u8>, pos: int) -> u16 {
    ((b[pos] as int) * 256 + (b[pos + 1] as int)) as u16
}

/// Reads a length-prefixed text field at `pos`: the decoded characters and
/// the position after the field.
pub open spec fn spec_parse_str(b: Seq<u8>, pos: int) -> Result<(Seq<char>, int), EntryError> {
    if b.len() < pos + 2 {
        Result::Err(EntryError::TruncatedInput)
    } else {
        let n = spec_read_u16(b, pos) as int;
        if b.len() < pos + 2 + n {
            Result::Err(EntryError::TruncatedInput)
        } else if !valid_utf8(b.subrange(pos + 2, pos + 2 + n)) {
            Result::Err(EntryError::InvalidUtf8)
        } else {
            Result::Ok((decode_utf8(b.subrange(pos + 2, pos + 2 + n)), pos + 2 + n))
        }
    }
}

/// Reads a length-prefixed raw field at `pos`: the bytes and the position
/// after the field.
pub open spec fn spec_parse_bytes(b: Seq<u8>, pos: int) -> Result<(Seq<u8>, int), EntryError> {
    if b.len() < pos + 2 {
        Result::Err(EntryError::TruncatedInput)
    } else {
        let n = spec_read_u16(b, pos) as int;
        if b.len() < pos + 2 + n {
            Result::Err(EntryError::TruncatedInput)
        } else {
            Result::Ok((b.subrange(pos + 2, pos + 2 + n), pos + 2 + n))
        }
    }
}

/// What decoding a byte string yields: the entry, or the first error met
/// reading tag, thread id, organization id, user identity, stream-name
/// indicator, stream name and body in that order.  The decoded thread id is
/// the first of the eight id bytes; bytes after the body are ignored.
pub open spec fn spec_parse(b: Seq<u8>) -> Result<SpecEntry, EntryError> {
    if b.len() < 9 {
        Result::Err(EntryError::TruncatedInput)
    } else {
        match spec_source_from_tag(b[0]) {
            Option::None => Result::Err(EntryError::UnknownSource),
            Option::Some(source) => match spec_parse_str(b, 9) {
                Result::Err(e) => Result::Err(e),
                Result::Ok((org_id, p1)) => match spec_parse_str(b, p1) {
                    Result::Err(e) => Result::Err(e),
                    Result::Ok((user_email, p2)) => if b.len() < p2 + 1 {
                        Result::Err(EntryError::TruncatedInput)
                    } else if b[p2] == 0 {
                        match spec_parse_bytes(b, p2 + 1) {
                            Result::Err(e) => Result::Err(e),
                            Result::Ok((body, _)) => Result::Ok(
                                SpecEntry {
                                    source,
                                    thread_id: b[1] as usize,
                                    org_id,
                                    user_email,
                                    stream_name: Option::None,
                                    body,
                                },
                            ),
                        }
                    } else {
                        match spec_parse_str(b, p2 + 1) {
                            Result::Err(e) => Result::Err(e),
                            Result::Ok((sname, p3)) => match spec_parse_bytes(b, p3) {
                                Result::Err(e) => Result::Err(e),
                                Result::Ok((body, _)) => Result::Ok(
                                    SpecEntry {
                                        source,
                                        thread_id: b[1] as usize,
                                        org_id,
                                        user_email,
                                        stream_name: Option::Some(sname),
                                        body,
                                    },
                                ),
                            },
                        }
                    },
                },
            },
        }
    }
}

/// Two big-endian bytes read back as the value they encode.
proof fn lemma_u16_be_read(b: Seq<u8>, pos: int, x: u16)
    requires
        0 <= pos,
        pos + 2 <= b.len(),
        b[pos] == spec_u16_be(x)[0],
        b[pos + 1] == spec_u16_be(x)[1],
    ensures
        spec_read_u16(b, pos) == x,
{
    assert(spec_u16_be(x)[0] == (x / 256) as u8);
    assert(spec_u16_be(x)[1] == (x % 256) as u8);
    assert(((x / 256) as u8) as int == x as int / 256);
    assert(((x % 256) as u8) as int == x as int % 256);
    assert((x as int / 256) * 256 + (x as int % 256) == x as int);
}

/// A text field laid out at `pos` parses back to its characters.
proof fn lemma_parse_str_at(b: Seq<u8>, pos: int, s: Seq<char>)
    requires
        0 <= pos,
        encode_utf8(s).len() <= 0xffff,
        pos + 2 + encode_utf8(s).len() <= b.len(),
        b.subrange(pos, pos + 2) == spec_u16_be(encode_utf8(s).len() as u16),
        b.subrange(pos + 2, pos + 2 + encode_utf8(s).len() as int) == encode_utf8(s),
    ensures
        spec_parse_str(b, pos) == Result::<(Seq<char>, int), EntryError>::Ok(
            (s, pos + 2 + encode_utf8(s).len()),
        ),
{
    let n = encode_utf8(s).len() as int;
    assert(b[pos] == b.subrange(pos, pos + 2)[0]);
    assert(b[pos + 1] == b.subrange(pos, pos + 2)[1]);
    lemma_u16_be_read(b, pos, encode_utf8(s).len() as u16);
    assert(spec_read_u16(b, pos) as int == n);
    encode_utf8_valid_utf8(s);
    assert(valid_utf8(b.subrange(pos + 2, pos + 2 + n)));
    encode_utf8_decode_utf8(s);
}

/// A raw field laid out at `pos` parses back to its bytes.
proof fn lemma_parse_bytes_at(b: Seq<u8>, pos: int, payload: Seq<u8>)
    requires
        0 <= pos,
        payload.len() <= 0xffff,
        pos + 2 + payload.len() <= b.len(),
        b.subrange(pos, pos + 2) == spec_u16_be(payload.len() as u16),
        b.subrange(pos + 2, pos + 2 + payload.len() as int) == payload,
    ensures
        spec_parse_bytes(b, pos) == Result::<(Seq<u8>, int), EntryError>::Ok(
            (payload, pos + 2 + payload.len()),
        ),
{
    assert(b[pos] == b.subrange(pos, pos + 2)[0]);
    assert(b[pos + 1] == b.subrange(pos, pos + 2)[1]);
    lemma_u16_be_read(b, pos, payload.len() as u16);
    assert(spec_read_u16(b, pos) as int == payload.len() as int);
}

/// Round trip: decoding an encoded entry restores every field except the
/// thread id, which comes back as the most significant of the eight id bytes
/// the encoder wrote — zero for any id below 2^56, and in particular the id
/// itself when the id is zero.
#[verifier::rlimit(100)]
pub proof fn lemma_encode_decode(e: SpecEntry)
    requires
        spec_lengths_ok(e),
    ensures
        match spec_parse(spec_encode(e)) {
            Result::Ok(d) => d.source == e.source && d.thread_id == (((e.thread_id as u64)
                / 0x100000000000000) % 256) as usize && d.org_id == e.org_id && d.user_email
                == e.user_email && d.stream_name == e.stream_name && d.body == e.body,
            Result::Err(_) => false,
        },
{
    let b = spec_encode(e);
    let tid = e.thread_id as u64;
    let enc1 = encode_utf8(e.org_id);
    let enc2 = encode_utf8(e.user_email);
    let n1 = enc1.len() as int;
    let n2 = enc2.len() as int;
    let p1 = 11 + n1;
    let p2 = p1 + 2 + n2;
    assert(b[0] == spec_source_tag(e.source));
    assert(spec_source_from_tag(spec_source_tag(e.source)) == Option::Some(e.source));
    assert(b[1] == spec_u64_be(tid)[0]);
    assert(spec_u64_be(tid)[0] == ((tid / 0x100000000000000) % 256) as u8);
    assert(b.subrange(9, 11) =~= spec_u16_be(enc1.len() as u16));
    assert(b.subrange(11, 11 + n1) =~= enc1);
    lemma_parse_str_at(b, 9, e.org_id);
    assert(b.subrange(p1, p1 + 2) =~= spec_u16_be(enc2.len() as u16));
    assert(b.subrange(p1 + 2, p1 + 2 + n2) =~= enc2);
    lemma_parse_str_at(b, p1, e.user_email);
    match e.stream_name {
        Option::None => {
            assert(b[p2] == 0);
            let pb = p2 + 1;
            assert(b.subrange(pb, pb + 2) =~= spec_u16_be(e.body.len() as u16));
            assert(b.subrange(pb + 2, pb + 2 + e.body.len() as int) =~= e.body);
            lemma_parse_bytes_at(b, pb, e.body);
        },
        Option::Some(s) => {
            let enc3 = encode_utf8(s);
            let n3 = enc3.len() as int;
            assert(b[p2] == 1);
            let ps = p2 + 1;
            assert(b.subrange(ps, ps + 2) =~= spec_u16_be(enc3.len() as u16));
            assert(b.subrange(ps + 2, ps + 2 + n3) =~= enc3);
            lemma_parse_str_at(b, ps, s);
            let pb = ps + 2 + n3;
            assert(b.subrange(pb, pb + 2) =~= spec_u16_be(e.body.len() as u16));
            assert(b.subrange(pb + 2, pb + 2 + e.body.len() as int) =~= e.body);
            lemma_parse_bytes_at(b, pb, e.body);
        },
    }
}

/// Relies on `String::from_utf8`: it succeeds exactly on valid UTF-8 input,
/// returning the string whose characters the bytes encode, and reports
/// invalid input as an error.
#[verifier::external_body]
fn string_from_utf8(bytes: Vec<u8>) -> (r: Option<String>)
    ensures
        match r {
            Option::Some(s) => valid_utf8(bytes@) && s@ == decode_utf8(bytes@),
            Option::None => !valid_utf8(bytes@),
        },
{
    String::from_utf8(bytes).ok()
}

/// Appends a 16-bit value, big-endian.
fn push_u16_be(buf: &mut Vec<u8>, x: u16)
    ensures
        final(buf)@ == old(buf)@ + spec_u16_be(x),
{
    buf.push((x / 256) as u8);
    buf.push((x % 256) as u8);
    proof {
        assert(buf@ =~= old(buf)@ + spec_u16_be(x));
    }
}

/// Appends a 64-bit value, big-endian.
fn push_u64_be(buf: &mut Vec<u8>, x: u64)
    ensures
        final(buf)@ == old(buf)@ + spec_u64_be(x),
{
    buf.push(((x / 0x100000000000000) % 256) as u8);
    buf.push(((x / 0x1000000000000) % 256) as u8);
    buf.push(((x / 0x10000000000) % 256) as u8);
    buf.push(((x / 0x100000000) % 256) as u8);
    buf.push(((x / 0x1000000) % 256) as u8);
    buf.push(((x / 0x10000) % 256) as u8);
    buf.push(((x / 0x100) % 256) as u8);
    buf.push((x % 256) as u8);
    proof {
        assert(buf@ =~= old(buf)@ + spec_u64_be(x));
    }
}

/// Appends a byte string.
#[verifier::loop_isolation(false)]
fn push_bytes(buf: &mut Vec<u8>, b: &Vec<u8>)
    ensures
        final(buf)@ == old(buf)@ + b@,
{
    let mut i: usize = 0;
    while i < b.len()
        invariant
            0 <= i <= b@.len(),
            buf@ == old(buf)@ + b@.subrange(0, i as int),
        decreases b@.len() - i,
    {
        proof {
            assert(b@.subrange(0, i + 1) =~= b@.subrange(0, i as int).push(b@[i as int]));
        }
        buf.push(b[i]);
        i = i + 1;
    }
    proof {
        assert(b@.subrange(0, b@.len() as int) =~= b@);
    }
}

/// Reads the 16-bit big-endian value at `pos`.
fn read_u16_be(value: &[u8], pos: usize) -> (x: u16)
    requires
        pos + 2 <= value@.len(),
    ensures
        x == spec_read_u16(value@, pos as int),
{
    let l = value.len();
    proof {
        assert(pos + 2 <= l);
    }
    let b0 = *slice_index_get(value, pos);
    let b1 = *slice_index_get(value, pos + 1);
    (b0 as u16) * 256 + (b1 as u16)
}

/// Reads a length-prefixed text field at `pos`.
fn parse_str(value: &[u8], pos: usize) -> (r: Result<(String, usize), EntryError>)
    ensures
        match (r, spec_parse_str(value@, pos as int)) {
            (Result::Ok((s, next)), Result::Ok((ss, sn))) => s@ == ss && next as int == sn,
            (Result::Err(a), Result::Err(b)) => a == b,
            _ => false,
        },
{
    if value.len() < 2 || pos > value.len() - 2 {
        return Result::Err(EntryError::TruncatedInput);
    }
    let n = read_u16_be(value, pos) as usize;
    if n > value.len() - (pos + 2) {
        return Result::Err(EntryError::TruncatedInput);
    }
    let seg = slice_to_vec(slice_subrange(value, pos + 2, pos + 2 + n));
    match string_from_utf8(seg) {
        Option::Some(s) => Result::Ok((s, pos + 2 + n)),
        Option::None => Result::Err(EntryError::InvalidUtf8),
    }
}

/// Reads a length-prefixed raw field at `pos`.
fn parse_bytes(value: &[u8], pos: usize) -> (r: Result<(Vec<u8>, usize), EntryError>)
    ensures
        match (r, spec_parse_bytes(value@, pos as int)) {
            (Result::Ok((s, next)), Result::Ok((ss, sn))) => s@ == ss && next as int == sn,
            (Result::Err(a), Result::Err(b)) => a == b,
            _ => false,
        },
{
    if value.len() < 2 || pos > value.len() - 2 {
        return Result::Err(EntryError::TruncatedInput);
    }
    let n = read_u16_be(value, pos) as usize;
    if n > value.len() - (pos + 2) {
        return Result::Err(EntryError::TruncatedInput);
    }
    let seg = slice_to_vec(slice_subrange(value, pos + 2, pos + 2 + n));
    Result::Ok((seg, pos + 2 + n))
}

impl IngestEntry {
    /// A new entry with the given fields.
    pub fn new(
        source: IngestSource,
        thread_id: usize,
        org_id: String,
        user_email: String,
        stream_name: Option<String>,
        body: Vec<u8>,
    ) -> (r: Self)
        ensures
            r == (IngestEntry { source, thread_id, org_id, user_email, stream_name, body }),
    {
        IngestEntry { source, thread_id, org_id, user_email, stream_name, body }
    }

    /// Encodes the entry for buffering.  Fails exactly when a field's byte
    /// length does not fit the 16-bit length prefix of the wire format.
    pub fn into_bytes(&self) -> (r: Result<Vec<u8>, EntryError>)
        ensures
            match r {
                Result::Ok(b) => spec_lengths_ok(self@) && b@ == spec_encode(self@),
                Result::Err(e) => !spec_lengths_ok(self@) && e == EntryError::FieldTooLong,
            },
    {
        let org_bytes = self.org_id.as_str().as_bytes_vec();
        if org_bytes.len() > 0xffff {
            return Result::Err(EntryError::FieldTooLong);
        }
        let email_bytes = self.user_email.as_str().as_bytes_vec();
        if email_bytes.len() > 0xffff {
            return Result::Err(EntryError::FieldTooLong);
        }
        let stream_bytes: Option<Vec<u8>> = match &self.stream_name {
            Option::Some(s) => {
                let b = s.as_str().as_bytes_vec();
                if b.len() > 0xffff {
                    return Result::Err(EntryError::FieldTooLong);
                }
                Option::Some(b)
            },
            Option::None => Option::None,
        };
        if self.body.len() > 0xffff {
            return Result::Err(EntryError::FieldTooLong);
        }
        let mut buf: Vec<u8> = Vec::new();
        buf.push(self.source.to_u8());
        push_u64_be(&mut buf, self.thread_id as u64);
        push_u16_be(&mut buf, org_bytes.len() as u16);
        push_bytes(&mut buf, &org_bytes);
        push_u16_be(&mut buf, email_bytes.len() as u16);
        push_bytes(&mut buf, &email_bytes);
        match &stream_bytes {
            Option::None => {
                buf.push(0);
            },
            Option::Some(b) => {
                buf.push(1);
                push_u16_be(&mut buf, b.len() as u16);
                push_bytes(&mut buf, b);
            },
        }
        push_u16_be(&mut buf, self.body.len() as u16);
        push_bytes(&mut buf, &self.body);
        proof {
            assert(buf@ =~= spec_encode(self@));
        }
        Result::Ok(buf)
    }

    /// Decodes a buffered entry, reporting the first malformed field as an
    /// explicit error.  The thread id comes back as the first of the eight
    /// encoded id bytes; bytes after the body are ignored.
    pub fn from_bytes(value: &[u8]) -> (r: Result<Self, EntryError>)
        ensures
            match (r, spec_parse(value@)) {
                (Result::Ok(e), Result::Ok(se)) => e@ == se,
                (Result::Err(a), Result::Err(b)) => a == b,
                _ => false,
            },
    {
        if value.len() < 9 {
            return Result::Err(EntryError::TruncatedInput);
        }
        let tag = *slice_index_get(value, 0);
        let tid_byte = *slice_index_get(value, 1);
        let source = match IngestSource::from_u8(tag) {
            Option::Some(s) => s,
            Option::None => {
                return Result::Err(EntryError::UnknownSource);
            },
        };
        let thread_id = tid_byte as usize;
        let (org_id, p1) = match parse_str(value, 9) {
            Result::Ok(x) => x,
            Result::Err(e) => {
                return Result::Err(e);
            },
        };
        let (user_email, p2) = match parse_str(value, p1) {
            Result::Ok(x) => x,
            Result::Err(e) => {
                return Result::Err(e);
            },
        };
        if value.len() <= p2 {
            return Result::Err(EntryError::TruncatedInput);
        }
        let ind = *slice_index_get(value, p2);
        if ind == 0 {
            let (body, _) = match parse_bytes(value, p2 + 1) {
                Result::Ok(x) => x,
                Result::Err(e) => {
                    return Result::Err(e);
                },
            };
            Result::Ok(
                IngestEntry {
                    source,
                    thread_id,
                    org_id,
                    user_email,
                    stream_name: Option::None,
                    body,
                },
            )
        } else {
            let (sname, p3) = match parse_str(value, p2 + 1) {
                Result::Ok(x) => x,
                Result::Err(e) => {
                    return Result::Err(e);
                },
            };
            let (body, _) = match parse_bytes(value, p3) {
                Result::Ok(x) => x,
                Result::Err(e) => {
                    return Result::Err(e);
                },
            };
            Result::Ok(
                IngestEntry {
                    source,
                    thread_id,
                    org_id,
                    user_email,
                    stream_name: Option::Some(sname),
                    body,
                },
            )
        }
    }
}

} // verus!
