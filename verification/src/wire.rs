//! Wyoming frame layout on bytes.
//!
//! A frame is a header line (UTF-8 JSON, ended by `\n`), then an optional
//! data segment of `data_length` bytes, then an optional binary payload
//! of `payload_length` bytes. The JSON itself is read and written by the
//! caller; this module finds the header line, enforces the section caps
//! and cuts the sections out of a byte buffer, and lays a frame out.

use vstd::prelude::*;

verus! {

/// Largest data or payload section a frame may announce (16 MiB).
pub const MAX_FRAME_SECTION: usize = 16777216;

/// Which optional section of a frame is meant.
#[derive(Debug, Clone, Copy, PartialEq, Eq, Structural)]
pub enum SectionKind {
    Data,
    Payload,
}

impl SectionKind {
    /// The label used in diagnostics (`"data"` / `"payload"`).
    pub fn label(self) -> (s: &'static str)
        ensures
            self == SectionKind::Data ==> s@ == "data"@,
            self == SectionKind::Payload ==> s@ == "payload"@,
    {
        proof {
            reveal_strlit("data");
            reveal_strlit("payload");
        }
        match self {
            SectionKind::Data => "data",
            SectionKind::Payload => "payload",
        }
    }
}

/// Why a frame could not be cut out of the bytes.
#[derive(Debug, Clone, Copy, PartialEq, Eq, Structural)]
pub enum FrameError {
    /// The header announced a section above [`MAX_FRAME_SECTION`].
    TooLarge { kind: SectionKind, size: usize, cap: usize },
    /// The stream ended before the announced section was complete.
    Truncated { kind: SectionKind, needed: usize, available: usize },
}

/// Result of looking for the next header line.
#[derive(Debug, Clone, Copy, PartialEq, Eq, Structural)]
pub enum HeaderScan {
    /// Only blank lines (or nothing) remain: a clean end of stream.
    Eof,
    /// The header occupies `start..end` (line ending stripped); the
    /// frame's sections begin at `next`.
    Line { start: usize, end: usize, next: usize },
}

pub open spec fn is_line_end_byte(b: u8) -> bool {
    b == 13u8 || b == 10u8
}

/// Index of the first `\n` at or after `pos`, or the length if none.
pub open spec fn find_newline(buf: Seq<u8>, pos: int) -> int
    decreases buf.len() - pos,
{
    if pos >= buf.len() {
        buf.len() as int
    } else if buf[pos] == 10u8 {
        pos
    } else {
        find_newline(buf, pos + 1)
    }
}

/// `end` moved left past trailing `\r` / `\n` bytes, but not below `start`.
pub open spec fn trim_line_end(buf: Seq<u8>, start: int, end: int) -> int
    decreases end - start,
{
    if end > start && is_line_end_byte(buf[end - 1]) {
        trim_line_end(buf, start, end - 1)
    } else {
        end
    }
}

pub proof fn lemma_find_newline_bounds(buf: Seq<u8>, pos: int)
    requires
        0 <= pos,
    ensures
        pos <= buf.len() ==> pos <= find_newline(buf, pos) <= buf.len(),
        pos > buf.len() ==> find_newline(buf, pos) == buf.len(),
        find_newline(buf, pos) < buf.len() ==> buf[find_newline(buf, pos)] == 10u8,
        forall|i: int| pos <= i < find_newline(buf, pos) ==> buf[i] != 10u8,
    decreases buf.len() - pos,
{
    if pos < buf.len() && buf[pos] != 10u8 {
        lemma_find_newline_bounds(buf, pos + 1);
    }
}

pub proof fn lemma_trim_line_end_bounds(buf: Seq<u8>, start: int, end: int)
    requires
        start <= end,
    ensures
        start <= trim_line_end(buf, start, end) <= end,
    decreases end - start,
{
    if end > start && is_line_end_byte(buf[end - 1]) {
        lemma_trim_line_end_bounds(buf, start, end - 1);
    }
}

/// The header line a reader finds from `pos`: blank lines (empty once
/// `\r`/`\n` are stripped) are skipped, a line without a final `\n` runs
/// to the end of the bytes, and nothing but blank lines means `Eof`.
pub open spec fn scan_header(buf: Seq<u8>, pos: int) -> HeaderScan
    decreases buf.len() - pos,
{
    if pos < 0 || pos >= buf.len() {
        HeaderScan::Eof
    } else {
        let k = find_newline(buf, pos);
        let next = if k < buf.len() { k + 1 } else { buf.len() as int };
        let e = trim_line_end(buf, pos, k);
        if e == pos {
            proof {
                lemma_find_newline_bounds(buf, pos);
            }
            scan_header(buf, next)
        } else {
            HeaderScan::Line { start: pos as usize, end: e as usize, next: next as usize }
        }
    }
}

/// Find the header line of the next frame in `buf`, starting at `pos`.
pub fn scan_header_line(buf: &[u8], pos: usize) -> (r: HeaderScan)
    requires
        pos <= buf@.len(),
    ensures
        r == scan_header(buf@, pos as int),
{
    let len = buf.len();
    let mut cur = pos;
    while cur < len
        invariant
            len == buf@.len(),
            pos <= cur <= len,
            scan_header(buf@, pos as int) == scan_header(buf@, cur as int),
        decreases len - cur,
    {
        let mut k = cur;
        while k < len && buf[k] != 10u8
            invariant
                len == buf@.len(),
                cur <= k <= len,
                find_newline(buf@, cur as int) == find_newline(buf@, k as int),
            decreases len - k,
        {
            k += 1;
        }
        let next = if k < len { k + 1 } else { len };
        let mut e = k;
        proof {
            lemma_find_newline_bounds(buf@, cur as int);
        }
        while e > cur && (buf[e - 1] == 13u8 || buf[e - 1] == 10u8)
            invariant
                len == buf@.len(),
                cur <= e <= k <= len,
                trim_line_end(buf@, cur as int, k as int) == trim_line_end(buf@, cur as int, e as int),
            decreases e - cur,
        {
            e -= 1;
        }
        if e > cur {
            return HeaderScan::Line { start: cur, end: e, next };
        }
        cur = next;
    }
    HeaderScan::Eof
}

/// Length of an announced section after the cap check: an absent or zero
/// length means the section is absent (length 0).
pub open spec fn section_verdict(announced: Option<usize>, kind: SectionKind) -> Result<usize, FrameError> {
    match announced {
        Some(n) if n > 0 => if n > MAX_FRAME_SECTION {
            Err(FrameError::TooLarge { kind, size: n, cap: MAX_FRAME_SECTION })
        } else {
            Ok(n)
        },
        _ => Ok(0),
    }
}

/// Check an announced `data_length` / `payload_length` against the cap.
pub fn section_length(announced: Option<usize>, kind: SectionKind) -> (r: Result<usize, FrameError>)
    ensures
        r == section_verdict(announced, kind),
{
    match announced {
        Some(n) if n > 0 => if n > MAX_FRAME_SECTION {
            Err(FrameError::TooLarge { kind, size: n, cap: MAX_FRAME_SECTION })
        } else {
            Ok(n)
        },
        _ => Ok(0),
    }
}

/// The bytes `start..end` of an announced section that begins at `pos`.
pub open spec fn take_section_spec(buf_len: int, pos: int, announced: Option<usize>, kind: SectionKind) -> Result<(usize, usize), FrameError> {
    match section_verdict(announced, kind) {
        Err(e) => Err(e),
        Ok(n) => if pos + n > buf_len {
            Err(FrameError::Truncated { kind, needed: n, available: (buf_len - pos) as usize })
        } else {
            Ok((pos as usize, (pos + n) as usize))
        },
    }
}

/// Cut the section announced in the header out of `buf`, starting at
/// `pos`. An absent section is the empty range `pos..pos`.
pub fn take_section(buf: &[u8], pos: usize, announced: Option<usize>, kind: SectionKind) -> (r: Result<(usize, usize), FrameError>)
    requires
        pos <= buf@.len(),
    ensures
        r == take_section_spec(buf@.len() as int, pos as int, announced, kind),
{
    let n = section_length(announced, kind)?;
    let avail = buf.len() - pos;
    if n > avail {
        Err(FrameError::Truncated { kind, needed: n, available: avail })
    } else {
        Ok((pos, pos + n))
    }
}

/// The bytes of a frame: header line, `\n`, data segment, payload.
pub open spec fn frame_bytes(header: Seq<u8>, data: Seq<u8>, payload: Seq<u8>) -> Seq<u8> {
    header + seq![10u8] + data + payload
}

fn append_bytes(out: &mut Vec<u8>, bytes: &[u8])
    ensures
        final(out)@ == old(out)@ + bytes@,
{
    let mut i: usize = 0;
    while i < bytes.len()
        invariant
            i <= bytes@.len(),
            out@ == old(out)@ + bytes@.subrange(0, i as int),
        decreases bytes@.len() - i,
    {
        out.push(bytes[i]);
        i += 1;
        assert(bytes@.subrange(0, i as int) == bytes@.subrange(0, i - 1) + seq![bytes@[i - 1]]);
    }
    assert(bytes@.subrange(0, bytes@.len() as int) == bytes@);
}

/// Lay out one frame. `data` is empty when the event carries no data,
/// `payload` is empty when it carries none.
pub fn encode_frame(header: &[u8], data: &[u8], payload: &[u8]) -> (out: Vec<u8>)
    ensures
        out@ == frame_bytes(header@, data@, payload@),
{
    let mut out: Vec<u8> = Vec::new();
    append_bytes(&mut out, header);
    out.push(10u8);
    append_bytes(&mut out, data);
    append_bytes(&mut out, payload);
    out
}

proof fn lemma_find_newline_at(buf: Seq<u8>, pos: int, k: int)
    requires
        0 <= pos <= k < buf.len(),
        buf[k] == 10u8,
        forall|i: int| pos <= i < k ==> buf[i] != 10u8,
    ensures
        find_newline(buf, pos) == k,
    decreases k - pos,
{
    if pos < k {
        lemma_find_newline_at(buf, pos + 1, k);
    }
}

/// The length a writer announces for a section: nothing for an empty
/// data segment, the payload's length whenever a payload is attached.
pub open spec fn announced_length(len: nat, present: bool) -> Option<usize> {
    if present { Some(len as usize) } else { None }
}

/// Round trip of the frame layout: a frame laid out by [`encode_frame`],
/// followed by any further bytes, is read back as the same header line,
/// the same data segment and the same payload, and the next frame starts
/// right after it. The header line must be non-empty, hold no `\n` and
/// not end in `\r` (compact JSON never does); data and payload must fit
/// under the cap; an empty data segment is announced as absent.
pub proof fn law_frame_round_trip(
    header: Seq<u8>,
    data: Seq<u8>,
    payload: Seq<u8>,
    has_payload: bool,
    rest: Seq<u8>,
)
    requires
        header.len() > 0,
        forall|i: int| 0 <= i < header.len() ==> header[i] != 10u8,
        !is_line_end_byte(header[header.len() - 1]),
        data.len() <= MAX_FRAME_SECTION,
        payload.len() <= MAX_FRAME_SECTION,
        !has_payload ==> payload.len() == 0,
        frame_bytes(header, data, payload).len() + rest.len() <= usize::MAX,
    ensures
        ({
            let buf = frame_bytes(header, data, payload) + rest;
            let h = header.len() as int;
            let d_end = h + 1 + data.len();
            let p_end = d_end + payload.len();
            &&& scan_header(buf, 0) == HeaderScan::Line { start: 0, end: h as usize, next: (h + 1) as usize }
            &&& buf.subrange(0, h) == header
            &&& take_section_spec(buf.len() as int, h + 1, announced_length(data.len(), data.len() > 0), SectionKind::Data)
                == Ok::<(usize, usize), FrameError>(((h + 1) as usize, d_end as usize))
            &&& buf.subrange(h + 1, d_end) == data
            &&& take_section_spec(buf.len() as int, d_end, announced_length(payload.len(), has_payload), SectionKind::Payload)
                == Ok::<(usize, usize), FrameError>((d_end as usize, p_end as usize))
            &&& buf.subrange(d_end, p_end) == payload
            &&& buf.subrange(p_end, buf.len() as int) == rest
        }),
{
    let buf = frame_bytes(header, data, payload) + rest;
    let h = header.len() as int;
    assert forall|i: int| 0 <= i < h implies buf[i] != 10u8 by {
        assert(buf[i] == header[i]);
    }
    assert(buf[h] == 10u8);
    lemma_find_newline_at(buf, 0, h);
    assert(buf[h - 1] == header[h - 1]);
    assert(trim_line_end(buf, 0, h) == h);
    assert(buf.subrange(0, h) =~= header);
    let d_end = h + 1 + data.len();
    let p_end = d_end + payload.len();
    assert(buf.subrange(h + 1, d_end) =~= data);
    assert(buf.subrange(d_end, p_end) =~= payload);
    assert(buf.subrange(p_end, buf.len() as int) =~= rest);
}

/// A section announced above the cap is refused, wherever it stands.
pub proof fn law_oversized_section_refused(buf_len: int, pos: int, size: usize, kind: SectionKind)
    requires
        size > MAX_FRAME_SECTION,
    ensures
        take_section_spec(buf_len, pos, Some(size), kind)
            == Err::<(usize, usize), FrameError>(FrameError::TooLarge { kind, size, cap: MAX_FRAME_SECTION }),
{
}

/// An empty stream, or one holding only blank lines, ends cleanly.
pub proof fn law_blank_stream_is_eof(buf: Seq<u8>)
    requires
        forall|i: int| 0 <= i < buf.len() ==> is_line_end_byte(#[trigger] buf[i]),
    ensures
        scan_header(buf, 0) == HeaderScan::Eof,
{
    lemma_blank_tail_is_eof(buf, 0);
}

proof fn lemma_blank_tail_is_eof(buf: Seq<u8>, pos: int)
    requires
        0 <= pos,
        forall|i: int| 0 <= i < buf.len() ==> is_line_end_byte(#[trigger] buf[i]),
    ensures
        scan_header(buf, pos) == HeaderScan::Eof,
    decreases buf.len() - pos,
{
    if pos < buf.len() {
        let k = find_newline(buf, pos);
        lemma_find_newline_bounds(buf, pos);
        lemma_trim_all_line_end(buf, pos, k);
        let next = if k < buf.len() { k + 1 } else { buf.len() as int };
        lemma_blank_tail_is_eof(buf, next);
    }
}

proof fn lemma_trim_all_line_end(buf: Seq<u8>, start: int, end: int)
    requires
        0 <= start <= end <= buf.len(),
        forall|i: int| 0 <= i < buf.len() ==> is_line_end_byte(#[trigger] buf[i]),
    ensures
        trim_line_end(buf, start, end) == start,
    decreases end - start,
{
    if end > start {
        assert(is_line_end_byte(buf[end - 1]));
        lemma_trim_all_line_end(buf, start, end - 1);
    }
}

} // verus!
