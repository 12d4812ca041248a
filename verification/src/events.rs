//! Wyoming events: the generic event container and the typed events of
//! every Wyoming domain.
//!
//! An [`Event`] carries its type, the merged key/value pairs of its data
//! segments and an optional binary payload. JSON encoding and decoding
//! happen at the edge; here a data value is only what the readers look
//! at: an unsigned integer, `null`, or anything else.

use vstd::prelude::*;

use crate::text::str_eq;

verus! {

/// One value of an event's data map, as far as the typed readers look at it.
#[derive(Debug, Clone, Copy, PartialEq, Eq, Structural)]
pub enum DataValue {
    /// A JSON number that fits in `u64`.
    Unsigned(u64),
    /// JSON `null`.
    Null,
    /// Any other JSON value.
    Other,
}

/// Abstract form of an [`Event`].
pub struct EventView {
    pub event_type: Seq<char>,
    pub data: Seq<(Seq<char>, DataValue)>,
    pub payload: Option<Seq<u8>>,
}

/// A decoded Wyoming frame: type, data (keys unique, as in a JSON
/// object) and optional payload.
#[derive(Debug, Clone)]
pub struct Event {
    pub event_type: String,
    pub data: Vec<(String, DataValue)>,
    pub payload: Option<Vec<u8>>,
}

pub open spec fn data_view(d: Seq<(String, DataValue)>) -> Seq<(Seq<char>, DataValue)> {
    d.map_values(|p: (String, DataValue)| (p.0@, p.1))
}

impl View for Event {
    type V = EventView;

    open spec fn view(&self) -> EventView {
        EventView {
            event_type: self.event_type@,
            data: data_view(self.data@),
            payload: match self.payload {
                Some(p) => Some(p@),
                None => None,
            },
        }
    }
}

impl Event {
    /// An event of type `event_type` with no data and no payload.
    pub fn new(event_type: String) -> (e: Event)
        ensures
            e@.event_type == event_type@,
            e@.data.len() == 0,
            e@.payload is None,
    {
        Event { event_type, data: Vec::new(), payload: None }
    }

    /// Replace the data map.
    pub fn with_data(self, data: Vec<(String, DataValue)>) -> (e: Event)
        ensures
            e@.event_type == self@.event_type,
            e@.data == data_view(data@),
            e@.payload == self@.payload,
    {
        Event { data, ..self }
    }

    /// Attach a payload.
    pub fn with_payload(self, payload: Vec<u8>) -> (e: Event)
        ensures
            e@.event_type == self@.event_type,
            e@.data == self@.data,
            e@.payload == Some(payload@),
    {
        Event { payload: Some(payload), ..self }
    }
}

/// The value stored under `key`: the first entry with that key.
pub open spec fn data_lookup(data: Seq<(Seq<char>, DataValue)>, key: Seq<char>) -> Option<DataValue>
    decreases data.len(),
{
    if data.len() == 0 {
        None
    } else if data[0].0 == key {
        Some(data[0].1)
    } else {
        data_lookup(data.drop_first(), key)
    }
}

/// `serde_json::Value::as_u64` on an optional value.
pub open spec fn as_u64(v: Option<DataValue>) -> Option<u64> {
    match v {
        Some(DataValue::Unsigned(n)) => Some(n),
        _ => None,
    }
}

proof fn lemma_lookup_step(data: Seq<(Seq<char>, DataValue)>, key: Seq<char>, i: int)
    requires
        0 <= i < data.len(),
    ensures
        data_lookup(data.subrange(i, data.len() as int), key) == if data[i].0 == key {
            Some(data[i].1)
        } else {
            data_lookup(data.subrange(i + 1, data.len() as int), key)
        },
{
    assert(data.subrange(i, data.len() as int).drop_first() =~= data.subrange(i + 1, data.len() as int));
}

/// The value stored under `key`, if any.
pub fn lookup(data: &Vec<(String, DataValue)>, key: &str) -> (r: Option<DataValue>)
    ensures
        r == data_lookup(data_view(data@), key@),
{
    let ghost dv = data_view(data@);
    let mut i: usize = 0;
    assert(dv.subrange(0, dv.len() as int) =~= dv);
    while i < data.len()
        invariant
            dv == data_view(data@),
            i <= data@.len(),
            data_lookup(dv, key@) == data_lookup(dv.subrange(i as int, dv.len() as int), key@),
        decreases data@.len() - i,
    {
        proof {
            lemma_lookup_step(dv, key@, i as int);
        }
        if str_eq(data[i].0.as_str(), key) {
            return Some(data[i].1);
        }
        i += 1;
    }
    None
}

/// Error of a typed event reader.
#[derive(Debug, Clone)]
pub enum EventError {
    /// The event is of another type than the reader expects.
    WrongType { expected: &'static str, actual: String },
    /// A required data field is absent or not an unsigned integer.
    MissingField(&'static str),
}

pub ghost enum EventErrorView {
    WrongType { expected: Seq<char>, actual: Seq<char> },
    MissingField(Seq<char>),
}

impl View for EventError {
    type V = EventErrorView;

    open spec fn view(&self) -> EventErrorView {
        match self {
            EventError::WrongType { expected, actual } => EventErrorView::WrongType {
                expected: expected@,
                actual: actual@,
            },
            EventError::MissingField(f) => EventErrorView::MissingField(f@),
        }
    }
}

/// Sample format of an audio stream. `width` is bytes per sample.
#[derive(Debug, Clone, Copy, PartialEq, Eq, Structural)]
pub struct AudioFormat {
    pub rate: u32,
    pub width: u8,
    pub channels: u8,
}

impl AudioFormat {
    /// 16 kHz, 16-bit, mono: the format wakeword models consume.
    pub fn wakeword_default() -> (f: AudioFormat)
        ensures
            f == (AudioFormat { rate: 16000, width: 2, channels: 1 }),
    {
        AudioFormat { rate: 16000, width: 2, channels: 1 }
    }
}

/// `audio-start`: a stream of the given format begins.
#[derive(Debug, Clone, PartialEq)]
pub struct AudioStart {
    pub rate: u32,
    pub width: u8,
    pub channels: u8,
    /// Microseconds since the audio source started, if tracked.
    pub timestamp: Option<u64>,
}

/// `audio-chunk`: PCM bytes (`samples * width * channels` of them) in the
/// payload, their format in the data.
#[derive(Debug, Clone, PartialEq)]
pub struct AudioChunk {
    pub rate: u32,
    pub width: u8,
    pub channels: u8,
    pub timestamp: Option<u64>,
    pub audio: Vec<u8>,
}

/// `audio-stop`: the stream ended.
#[derive(Debug, Clone, PartialEq)]
pub struct AudioStop {
    pub timestamp: Option<u64>,
}

/// Abstract form of an [`AudioChunk`].
pub struct ChunkView {
    pub rate: u32,
    pub width: u8,
    pub channels: u8,
    pub timestamp: Option<u64>,
    pub audio: Seq<u8>,
}

impl View for AudioChunk {
    type V = ChunkView;

    open spec fn view(&self) -> ChunkView {
        ChunkView {
            rate: self.rate,
            width: self.width,
            channels: self.channels,
            timestamp: self.timestamp,
            audio: self.audio@,
        }
    }
}

pub open spec fn audio_chunk_type() -> Seq<char> {
    seq!['a', 'u', 'd', 'i', 'o', '-', 'c', 'h', 'u', 'n', 'k']
}

/// What [`AudioChunk::from_event`] makes of an event: the event type is
/// checked first, then `rate`, `width` and `channels` in that order; each
/// is truncated to its field's width. A missing timestamp or payload is
/// no error.
pub open spec fn chunk_verdict(e: EventView) -> Result<ChunkView, EventErrorView> {
    if e.event_type != audio_chunk_type() {
        Err(EventErrorView::WrongType { expected: audio_chunk_type(), actual: e.event_type })
    } else if as_u64(data_lookup(e.data, seq!['r', 'a', 't', 'e'])) is None {
        Err(EventErrorView::MissingField(seq!['r', 'a', 't', 'e']))
    } else if as_u64(data_lookup(e.data, seq!['w', 'i', 'd', 't', 'h'])) is None {
        Err(EventErrorView::MissingField(seq!['w', 'i', 'd', 't', 'h']))
    } else if as_u64(data_lookup(e.data, seq!['c', 'h', 'a', 'n', 'n', 'e', 'l', 's'])) is None {
        Err(EventErrorView::MissingField(seq!['c', 'h', 'a', 'n', 'n', 'e', 'l', 's']))
    } else {
        Ok(ChunkView {
            rate: as_u64(data_lookup(e.data, seq!['r', 'a', 't', 'e'])).unwrap() as u32,
            width: as_u64(data_lookup(e.data, seq!['w', 'i', 'd', 't', 'h'])).unwrap() as u8,
            channels: as_u64(data_lookup(e.data, seq!['c', 'h', 'a', 'n', 'n', 'e', 'l', 's'])).unwrap() as u8,
            timestamp: as_u64(data_lookup(e.data, seq!['t', 'i', 'm', 'e', 's', 't', 'a', 'm', 'p'])),
            audio: match e.payload {
                Some(p) => p,
                None => Seq::empty(),
            },
        })
    }
}

/// The event [`AudioChunk::into_event`] builds: the four data fields in a
/// fixed order (`null` for an absent timestamp), the audio as payload.
pub open spec fn chunk_event(c: ChunkView) -> EventView {
    EventView {
        event_type: audio_chunk_type(),
        data: seq![
            (seq!['r', 'a', 't', 'e'], DataValue::Unsigned(c.rate as u64)),
            (seq!['w', 'i', 'd', 't', 'h'], DataValue::Unsigned(c.width as u64)),
            (seq!['c', 'h', 'a', 'n', 'n', 'e', 'l', 's'], DataValue::Unsigned(c.channels as u64)),
            (seq!['t', 'i', 'm', 'e', 's', 't', 'a', 'm', 'p'], match c.timestamp {
                Some(t) => DataValue::Unsigned(t),
                None => DataValue::Null,
            }),
        ],
        payload: Some(c.audio),
    }
}

fn required_u64(data: &Vec<(String, DataValue)>, key: &'static str) -> (r: Result<u64, EventError>)
    ensures
        match r {
            Ok(n) => as_u64(data_lookup(data_view(data@), key@)) == Some(n),
            Err(e) => as_u64(data_lookup(data_view(data@), key@)) is None
                && e@ == EventErrorView::MissingField(key@),
        },
{
    match lookup(data, key) {
        Some(DataValue::Unsigned(n)) => Ok(n),
        _ => Err(EventError::MissingField(key)),
    }
}

impl AudioChunk {
    /// Read an `audio-chunk` event.
    pub fn from_event(event: &Event) -> (r: Result<AudioChunk, EventError>)
        ensures
            match r {
                Ok(c) => chunk_verdict(event@) == Ok::<ChunkView, EventErrorView>(c@),
                Err(e) => chunk_verdict(event@) == Err::<ChunkView, EventErrorView>(e@),
            },
    {
        proof {
            reveal_strlit("audio-chunk");
            reveal_strlit("rate");
            reveal_strlit("width");
            reveal_strlit("channels");
            reveal_strlit("timestamp");
            assert("audio-chunk"@ =~= audio_chunk_type());
            assert("rate"@ =~= seq!['r', 'a', 't', 'e']);
            assert("width"@ =~= seq!['w', 'i', 'd', 't', 'h']);
            assert("channels"@ =~= seq!['c', 'h', 'a', 'n', 'n', 'e', 'l', 's']);
            assert("timestamp"@ =~= seq!['t', 'i', 'm', 'e', 's', 't', 'a', 'm', 'p']);
        }
        if !str_eq(event.event_type.as_str(), "audio-chunk") {
            assert(event@.event_type != audio_chunk_type());
            return Err(EventError::WrongType {
                expected: "audio-chunk",
                actual: event.event_type.clone(),
            });
        }
        let rate = match required_u64(&event.data, "rate") {
            Ok(n) => n,
            Err(e) => {
                return Err(e);
            },
        };
        let width = match required_u64(&event.data, "width") {
            Ok(n) => n,
            Err(e) => {
                return Err(e);
            },
        };
        let channels = match required_u64(&event.data, "channels") {
            Ok(n) => n,
            Err(e) => {
                return Err(e);
            },
        };
        let timestamp = match lookup(&event.data, "timestamp") {
            Some(DataValue::Unsigned(t)) => Some(t),
            _ => None,
        };
        let audio = match &event.payload {
            Some(p) => p.clone(),
            None => Vec::new(),
        };
        let c = AudioChunk {
            rate: #[verifier::truncate] (rate as u32),
            width: #[verifier::truncate] (width as u8),
            channels: #[verifier::truncate] (channels as u8),
            timestamp,
            audio,
        };
        assert(c@.audio == chunk_verdict(event@)->Ok_0.audio);
        Ok(c)
    }

    /// Build the `audio-chunk` event for this chunk.
    pub fn into_event(self) -> (e: Event)
        ensures
            e@ == chunk_event(self@),
    {
        let ghost v = self@;
        let ts = match self.timestamp {
            Some(t) => DataValue::Unsigned(t),
            None => DataValue::Null,
        };
        let mut data: Vec<(String, DataValue)> = Vec::new();
        data.push(("rate".to_owned(), DataValue::Unsigned(self.rate as u64)));
        data.push(("width".to_owned(), DataValue::Unsigned(self.width as u64)));
        data.push(("channels".to_owned(), DataValue::Unsigned(self.channels as u64)));
        data.push(("timestamp".to_owned(), ts));
        let e = Event::new("audio-chunk".to_owned()).with_data(data).with_payload(self.audio);
        proof {
            reveal_strlit("audio-chunk");
            reveal_strlit("rate");
            reveal_strlit("width");
            reveal_strlit("channels");
            reveal_strlit("timestamp");
            assert("audio-chunk"@ =~= audio_chunk_type());
            assert("rate"@ =~= seq!['r', 'a', 't', 'e']);
            assert("width"@ =~= seq!['w', 'i', 'd', 't', 'h']);
            assert("channels"@ =~= seq!['c', 'h', 'a', 'n', 'n', 'e', 'l', 's']);
            assert("timestamp"@ =~= seq!['t', 'i', 'm', 'e', 's', 't', 'a', 'm', 'p']);
            assert(e@.data =~= chunk_event(v).data);
        }
        e
    }
}

/// Reading back the event written for a chunk gives the chunk.
pub proof fn law_chunk_round_trip(c: ChunkView)
    ensures
        chunk_verdict(chunk_event(c)) == Ok::<ChunkView, EventErrorView>(c),
{
    reveal_with_fuel(data_lookup, 5);
    let d = chunk_event(c).data;
    assert(d.drop_first() =~= d.subrange(1, 4));
    assert(d.drop_first().drop_first() =~= d.subrange(2, 4));
    assert(d.drop_first().drop_first().drop_first() =~= d.subrange(3, 4));
    assert(data_lookup(d, seq!['r', 'a', 't', 'e']) == Some(DataValue::Unsigned(c.rate as u64)));
    assert(seq!['w', 'i', 'd', 't', 'h'] != seq!['r', 'a', 't', 'e']);
    assert(data_lookup(d, seq!['w', 'i', 'd', 't', 'h']) == Some(DataValue::Unsigned(c.width as u64)));
    assert(seq!['c', 'h', 'a', 'n', 'n', 'e', 'l', 's'] != seq!['r', 'a', 't', 'e']);
    assert(seq!['c', 'h', 'a', 'n', 'n', 'e', 'l', 's'] != seq!['w', 'i', 'd', 't', 'h']);
    assert(data_lookup(d, seq!['c', 'h', 'a', 'n', 'n', 'e', 'l', 's']) == Some(DataValue::Unsigned(c.channels as u64)));
    let ts = seq!['t', 'i', 'm', 'e', 's', 't', 'a', 'm', 'p'];
    assert(ts != seq!['r', 'a', 't', 'e']);
    assert(ts != seq!['w', 'i', 'd', 't', 'h']);
    assert(ts[0] != seq!['c', 'h', 'a', 'n', 'n', 'e', 'l', 's'][0]);
    assert(as_u64(data_lookup(d, ts)) == c.timestamp);
}

/// `transcribe`: ask an ASR service for a transcript.
#[derive(Debug, Clone, PartialEq)]
pub struct Transcribe {
    pub name: Option<String>,
    pub language: Option<String>,
}

/// `transcript`: the recognised text.
#[derive(Debug, Clone, PartialEq)]
pub struct Transcript {
    pub text: String,
}

/// `handled`: an intent handler's answer.
#[derive(Debug, Clone, PartialEq)]
pub struct Handled {
    pub text: String,
}

/// `not-handled`: the handler could not act on the request.
#[derive(Debug, Clone, PartialEq)]
pub struct NotHandled {
    pub text: String,
}

/// `recognize`: ask an intent service to recognise `text`.
#[derive(Debug, Clone, PartialEq)]
pub struct Recognize {
    pub text: String,
}

/// `not-recognized`: no intent matched.
#[derive(Debug, Clone, PartialEq)]
pub struct NotRecognized {
    pub text: String,
}

/// `played`: playback finished.
#[derive(Debug, Clone, PartialEq)]
pub struct Played {}

/// `timer-started`.
#[derive(Debug, Clone, PartialEq)]
pub struct TimerStarted {
    pub id: String,
    pub total_seconds: u64,
    pub name: Option<String>,
}

/// `timer-cancelled`.
#[derive(Debug, Clone, PartialEq)]
pub struct TimerCancelled {
    pub id: String,
}

/// `timer-updated`.
#[derive(Debug, Clone, PartialEq)]
pub struct TimerUpdated {
    pub id: String,
    pub total_seconds: u64,
}

/// `timer-finished`.
#[derive(Debug, Clone, PartialEq)]
pub struct TimerFinished {
    pub id: String,
}

/// `detect`: start detection, optionally restricted to `names`.
#[derive(Debug, Clone, PartialEq)]
pub struct Detect {
    pub names: Vec<String>,
}

/// `detection`: a wakeword fired, `timestamp` in milliseconds.
#[derive(Debug, Clone, PartialEq)]
pub struct Detection {
    pub name: String,
    pub timestamp: Option<u64>,
    pub speaker: Option<String>,
}

/// `not-detected`.
#[derive(Debug, Clone, PartialEq)]
pub struct NotDetected {}

/// `describe`: ask a service for its `info`.
#[derive(Debug, Clone, PartialEq)]
pub struct Describe {}


/// Key/value pairs by their keys' views.
pub open spec fn pairs_view<V>(d: Seq<(String, V)>) -> Seq<(Seq<char>, V)> {
    d.map_values(|p: (String, V)| (p.0@, p.1))
}

/// Index of the first pair with key `k`, `-1` if none.
pub open spec fn key_index<V>(d: Seq<(Seq<char>, V)>, k: Seq<char>) -> int
    decreases d.len(),
{
    if d.len() == 0 {
        -1
    } else if d[0].0 == k {
        0
    } else {
        let r = key_index(d.drop_first(), k);
        if r < 0 { -1 } else { r + 1 }
    }
}

/// The value of the first pair with key `k`.
pub open spec fn first_value<V>(d: Seq<(Seq<char>, V)>, k: Seq<char>) -> Option<V>
    decreases d.len(),
{
    if d.len() == 0 {
        None
    } else if d[0].0 == k {
        Some(d[0].1)
    } else {
        first_value(d.drop_first(), k)
    }
}

/// The value of the last pair with key `k`.
pub open spec fn last_value<V>(d: Seq<(Seq<char>, V)>, k: Seq<char>) -> Option<V>
    decreases d.len(),
{
    if d.len() == 0 {
        None
    } else if d.last().0 == k {
        Some(d.last().1)
    } else {
        last_value(d.drop_last(), k)
    }
}

/// `d` with `k` set to `v`: the first pair of that key replaced in place,
/// or a new pair appended.
pub open spec fn with_entry<V>(d: Seq<(Seq<char>, V)>, k: Seq<char>, v: V) -> Seq<(Seq<char>, V)> {
    let i = key_index(d, k);
    if i >= 0 { d.update(i, (k, v)) } else { d.push((k, v)) }
}

/// `d` updated with every pair of `extra` in turn (a JSON object's
/// `extend`).
pub open spec fn merged<V>(d: Seq<(Seq<char>, V)>, extra: Seq<(Seq<char>, V)>) -> Seq<(Seq<char>, V)>
    decreases extra.len(),
{
    if extra.len() == 0 {
        d
    } else {
        let e = extra.last();
        with_entry(merged(d, extra.drop_last()), e.0, e.1)
    }
}

proof fn lemma_key_index<V>(d: Seq<(Seq<char>, V)>, k: Seq<char>)
    ensures
        -1 <= key_index(d, k) < d.len(),
        key_index(d, k) >= 0 ==> d[key_index(d, k)].0 == k && first_value(d, k) == Some(d[key_index(d, k)].1),
        key_index(d, k) < 0 ==> first_value(d, k) is None,
    decreases d.len(),
{
    if d.len() > 0 && d[0].0 != k {
        lemma_key_index(d.drop_first(), k);
    }
}

proof fn lemma_first_value_update<V>(d: Seq<(Seq<char>, V)>, k: Seq<char>, v: V, k2: Seq<char>)
    requires
        key_index(d, k) >= 0,
    ensures
        first_value(d.update(key_index(d, k), (k, v)), k2) == if k2 == k { Some(v) } else { first_value(d, k2) },
    decreases d.len(),
{
    lemma_key_index(d, k);
    let i = key_index(d, k);
    let u = d.update(i, (k, v));
    if i == 0 {
        assert(u.drop_first() =~= d.drop_first());
    } else {
        let t = d.drop_first();
        assert(key_index(t, k) == i - 1);
        assert(u.drop_first() =~= t.update(i - 1, (k, v)));
        lemma_first_value_update(t, k, v, k2);
    }
}

proof fn lemma_first_value_push<V>(d: Seq<(Seq<char>, V)>, k: Seq<char>, v: V, k2: Seq<char>)
    ensures
        first_value(d.push((k, v)), k2) == match first_value(d, k2) {
            Some(x) => Some(x),
            None => if k2 == k { Some(v) } else { None },
        },
    decreases d.len(),
{
    if d.len() > 0 {
        assert(d.push((k, v))[0] == d[0]);
        assert(d.push((k, v)).drop_first() =~= d.drop_first().push((k, v)));
        lemma_first_value_push(d.drop_first(), k, v, k2);
    } else {
        assert(d.push((k, v))[0] == (k, v));
        assert(d.push((k, v)).drop_first() =~= Seq::<(Seq<char>, V)>::empty());
        assert(first_value(Seq::<(Seq<char>, V)>::empty(), k2) is None);
    }
}

proof fn lemma_with_entry<V>(d: Seq<(Seq<char>, V)>, k: Seq<char>, v: V, k2: Seq<char>)
    ensures
        first_value(with_entry(d, k, v), k2) == if k2 == k { Some(v) } else { first_value(d, k2) },
{
    lemma_key_index(d, k);
    if key_index(d, k) >= 0 {
        lemma_first_value_update(d, k, v, k2);
    } else {
        lemma_first_value_push(d, k, v, k2);
    }
}

/// After merging, a key of `extra` has its last value there; any other
/// key keeps its value in `d`: the data segment overrides the header's
/// inline data.
pub proof fn law_merged_lookup<V>(d: Seq<(Seq<char>, V)>, extra: Seq<(Seq<char>, V)>, k: Seq<char>)
    ensures
        first_value(merged(d, extra), k) == match last_value(extra, k) {
            Some(v) => Some(v),
            None => first_value(d, k),
        },
    decreases extra.len(),
{
    if extra.len() > 0 {
        let e = extra.last();
        law_merged_lookup(d, extra.drop_last(), k);
        lemma_with_entry(merged(d, extra.drop_last()), e.0, e.1, k);
    }
}

fn key_position<V>(d: &Vec<(String, V)>, k: &str) -> (r: Option<usize>)
    ensures
        match r {
            Some(i) => key_index(pairs_view(d@), k@) == i,
            None => key_index(pairs_view(d@), k@) == -1,
        },
{
    let ghost dv = pairs_view(d@);
    proof {
        lemma_key_index(dv, k@);
    }
    let mut i: usize = 0;
    while i < d.len()
        invariant
            dv == pairs_view(d@),
            i <= d@.len(),
            -1 <= key_index(dv, k@) < dv.len(),
            key_index(dv, k@) >= 0 ==> dv[key_index(dv, k@)].0 == k@,
            forall|j: int| 0 <= j < i ==> #[trigger] dv[j].0 != k@,
        decreases d@.len() - i,
    {
        assert(dv[i as int].0 == d@[i as int].0@);
        if str_eq(d[i].0.as_str(), k) {
            proof {
                lemma_key_index_first(dv, k@, i as int);
            }
            return Some(i);
        }
        i += 1;
    }
    proof {
        if key_index(dv, k@) >= 0 {
            assert(dv[key_index(dv, k@)].0 != k@);
        }
    }
    None
}

proof fn lemma_key_index_first<V>(d: Seq<(Seq<char>, V)>, k: Seq<char>, i: int)
    requires
        0 <= i < d.len(),
        d[i].0 == k,
        forall|j: int| 0 <= j < i ==> #[trigger] d[j].0 != k,
    ensures
        key_index(d, k) == i,
    decreases i,
{
    if i > 0 {
        let t = d.drop_first();
        assert forall|j: int| 0 <= j < i - 1 implies #[trigger] t[j].0 != k by {
            assert(t[j] == d[j + 1]);
        }
        lemma_key_index_first(t, k, i - 1);
    }
}

/// Merge the data segment's pairs `extra` into the header's inline data,
/// as a JSON object's `extend` does: each pair, in turn, replaces the
/// first pair of its key or is appended.
pub fn merge_data<V>(inline: Vec<(String, V)>, extra: Vec<(String, V)>) -> (r: Vec<(String, V)>)
    ensures
        pairs_view(r@) == merged(pairs_view(inline@), pairs_view(extra@)),
{
    let ghost e = pairs_view(extra@);
    let ghost n0 = extra@.len();
    let mut out = inline;
    let mut rest = extra;
    assert(e.subrange(0, 0) =~= Seq::<(Seq<char>, V)>::empty());
    assert(pairs_view(rest@) =~= e.subrange(0, n0 as int));
    while rest.len() > 0
        invariant
            n0 == e.len(),
            rest@.len() <= n0,
            pairs_view(rest@) == e.subrange(n0 - rest@.len(), n0 as int),
            pairs_view(out@) == merged(pairs_view(inline@), e.subrange(0, n0 - rest@.len())),
        decreases rest@.len(),
    {
        let ghost m = n0 - rest@.len();
        let ghost before = pairs_view(out@);
        let ghost rv = pairs_view(rest@);
        let ghost old_rest = rest@;
        let (k, v) = rest.remove(0);
        assert(rv[0] == (old_rest[0].0@, old_rest[0].1));
        assert(e[m] == (k@, v)) by {
            assert(rv[0] == e[m]);
        }
        assert(e.subrange(0, m + 1).drop_last() =~= e.subrange(0, m));
        assert(e.subrange(0, m + 1).last() == e[m]);
        proof {
            lemma_key_index(before, k@);
        }
        match key_position(&out, k.as_str()) {
            Some(i) => {
                let _ = out.remove(i);
                out.insert(i, (k, v));
                assert(pairs_view(out@) =~= before.update(i as int, (e[m].0, e[m].1)));
            },
            None => {
                out.push((k, v));
                assert(pairs_view(out@) =~= before.push((e[m].0, e[m].1)));
            },
        }
        assert(rest@ =~= old_rest.subrange(1, old_rest.len() as int));
        assert(pairs_view(rest@) =~= rv.subrange(1, rv.len() as int));
        assert(pairs_view(rest@) =~= e.subrange(m + 1, n0 as int));
    }
    assert(e.subrange(0, n0 as int) =~= e);
    out
}

} // verus!
