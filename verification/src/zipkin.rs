//! Export of spans in the Zipkin format: which spans are exported, what is
//! recorded of them, how they are batched and what is sent.

use vstd::prelude::*;
use vstd::utf8::*;

use crate::entropy::{draw_outcome, lemma_draw_outcome_len, os_random, NoEntropy};
use crate::hexadecimal::{
    hex_decoded, hex_encode, hex_encoded, is_lower_hex, lemma_hex_encoded_is_lower_hex,
    lemma_hex_round_trip,
};
use crate::http::{is_success, success_code};
use crate::json::{
    array_items, field, has_member, inside, json_string, leads, lemma_decimal_leads,
    lemma_empty_leads, lemma_fields_told_apart, lemma_json_string_leads, lemma_key_leads,
    lemma_leads_join, lemma_mark_leads, lemma_members_are_read_back, lemma_scan_field,
    lemma_scan_join, lemma_scan_leads, lemma_string_is_read_back, members, outside, push_json, scan,
    scan_step, separated, string_of, track, Scan,
};
use crate::tags::{
    has_name, lemma_last_entry_wins, lemma_tag_map, lemma_with_tag, lemma_with_tags_join,
    lemma_with_tags_map, tag_map, unique_names, with_tag, with_tags, TagSeq, Tags,
};
use crate::text::{
    decimal, decimal_i64, decimal_u64, ends_with, has_suffix, lemma_decimal_is_read_back,
    lemma_signed_decimal_is_read_back, lemma_without_trailing, number_of, same, signed_decimal,
    trim_end_matches, without_trailing,
};

verus! {

// ------------------------------------------------------------ endpoint

/// The address that spans are posted to: `base` where it already names the
/// span path, else `base` without the slashes at its end, and the span path.
pub open spec fn endpoint_of(base: Seq<char>) -> Seq<char> {
    if has_suffix(base, "/api/v2/spans"@) {
        base
    } else {
        without_trailing(base, '/') + "/api/v2/spans"@
    }
}

/// The address that spans are posted to.
pub fn normalize_zipkin_endpoint(base: &str) -> (r: String)
    ensures
        r@ == endpoint_of(base@),
{
    if ends_with(base, "/api/v2/spans") {
        base.to_owned()
    } else {
        let mut r = trim_end_matches(base, '/');
        r.append("/api/v2/spans");
        r
    }
}

/// The address always names the span path.
pub proof fn lemma_endpoint_names_span_path(base: Seq<char>)
    ensures
        has_suffix(endpoint_of(base), "/api/v2/spans"@),
{
    let path = "/api/v2/spans"@;
    let e = without_trailing(base, '/') + path;
    assert(e.subrange(e.len() - path.len(), e.len() as int) =~= path);
}

/// Normalizing an address again changes nothing.
pub proof fn lemma_endpoint_idempotent(base: Seq<char>)
    ensures
        endpoint_of(endpoint_of(base)) == endpoint_of(base),
{
    lemma_endpoint_names_span_path(base);
}

/// A slash at the end of a base address makes no difference, as long as the
/// address does not name the span path yet.
pub proof fn lemma_endpoint_ignores_trailing_slash(base: Seq<char>)
    requires
        !has_suffix(base, "/api/v2/spans"@),
    ensures
        endpoint_of(base.push('/')) == endpoint_of(base),
{
    reveal_strlit("/api/v2/spans");
    let path = "/api/v2/spans"@;
    let longer = base.push('/');
    assert(longer.drop_last() =~= base);
    if has_suffix(longer, path) {
        let end = longer.subrange(longer.len() - path.len(), longer.len() as int);
        assert(end[path.len() - 1] == '/');
    }
}

// ------------------------------------------------------------ identifiers

/// Whether `s` is an identifier of `bytes` bytes: lower-case hexadecimal
/// digits, two for each byte.
pub open spec fn is_id(s: Seq<char>, bytes: nat) -> bool {
    &&& s.len() == 2 * bytes
    &&& forall|i: int| 0 <= i < s.len() ==> is_lower_hex(#[trigger] s[i])
}

/// The identifier that bytes stand for.
pub fn id_from(bytes: &Vec<u8>) -> (r: String)
    ensures
        r@ == hex_encoded(bytes@),
        is_id(r@, bytes@.len()),
{
    proof {
        lemma_hex_encoded_is_lower_hex(bytes@);
    }
    hex_encode(bytes)
}

/// The identifier that bytes stand for, if they were filled with entropy.
pub fn id_if_filled(filled: bool, bytes: &Vec<u8>) -> (r: Result<String, NoEntropy>)
    ensures
        r is Ok <==> filled,
        r matches Ok(id) ==> id@ == hex_encoded(bytes@) && is_id(id@, bytes@.len()),
{
    if filled {
        Ok(id_from(bytes))
    } else {
        Err(NoEntropy)
    }
}

/// Whether asking the operating system for `n` bytes can give this identifier,
/// or none.
pub open spec fn drawn_id(id: Option<Seq<char>>, n: nat) -> bool {
    exists|filled: bool, bytes: Seq<u8>| #[trigger]
        draw_outcome(n, filled, bytes) && match id {
            Some(s) => filled && s == hex_encoded(bytes),
            None => !filled,
        }
}

/// The view of an identifier that may not have been had.
pub open spec fn id_result(r: Result<String, NoEntropy>) -> Option<Seq<char>> {
    match r {
        Ok(id) => Some(id@),
        Err(_) => None,
    }
}

/// A fresh identifier of a trace, of sixteen bytes.
pub fn new_trace_id() -> (r: Result<String, NoEntropy>)
    ensures
        drawn_id(id_result(r), 16),
        r matches Ok(id) ==> is_id(id@, 16),
{
    let mut b: Vec<u8> = vec![0u8; 16];
    let filled = os_random(&mut b);
    assert(draw_outcome(16, filled, b@));
    id_if_filled(filled, &b)
}

/// A fresh identifier of a span, of eight bytes.
pub fn new_span_id() -> (r: Result<String, NoEntropy>)
    ensures
        drawn_id(id_result(r), 8),
        r matches Ok(id) ==> is_id(id@, 8),
{
    let mut b: Vec<u8> = vec![0u8; 8];
    let filled = os_random(&mut b);
    assert(draw_outcome(8, filled, b@));
    id_if_filled(filled, &b)
}

// ------------------------------------------------------------ times

/// Microseconds since the epoch in 64 bits, given in 128 bits.
pub fn now_epoch_us(since_epoch: u128) -> (r: u64)
    ensures
        r == since_epoch % 0x1_0000_0000_0000_0000,
{
    (since_epoch % 0x1_0000_0000_0000_0000) as u64
}

/// The whole microseconds, in 64 bits, from `start` to `now`, which are given
/// in nanoseconds; none where the clock went back.
pub open spec fn elapsed_us(start: u128, now: u128) -> u64 {
    (if now < start { 0 } else { ((now - start) / 1000) % 0x1_0000_0000_0000_0000 }) as u64
}

fn elapsed(start: u128, now: u128) -> (r: u64)
    ensures
        r == elapsed_us(start, now),
{
    if now < start {
        0
    } else {
        ((now - start) / 1000 % 0x1_0000_0000_0000_0000) as u64
    }
}

// ------------------------------------------------------------ fields

/// The value of a field of a span.
#[derive(Debug)]
pub enum FieldValue {
    /// A value that is only known by its debug text.
    Debug(String),
    Str(String),
    Bool(bool),
    I64(i64),
    U64(u64),
}

/// A field of a span.
#[derive(Debug)]
pub struct Field {
    pub name: String,
    pub value: FieldValue,
}

/// The text of a field's value.
pub open spec fn field_text(value: FieldValue) -> Seq<char> {
    match value {
        FieldValue::Debug(text) => text@,
        FieldValue::Str(text) => text@,
        FieldValue::Bool(b) => if b { "true"@ } else { "false"@ },
        FieldValue::I64(n) => signed_decimal(n as int),
        FieldValue::U64(n) => decimal(n as nat),
    }
}

/// The tags that fields stand for.
pub open spec fn field_tags(fields: Seq<Field>) -> TagSeq {
    Seq::new(fields.len(), |i: int| (fields[i].name@, field_text(fields[i].value)))
}

impl FieldValue {
    /// The text of the value.
    pub fn text(&self) -> (r: String)
        ensures
            r@ == field_text(*self),
    {
        match self {
            FieldValue::Debug(text) => text.clone(),
            FieldValue::Str(text) => text.clone(),
            FieldValue::Bool(b) => if *b { "true".to_owned() } else { "false".to_owned() },
            FieldValue::I64(n) => decimal_i64(*n),
            FieldValue::U64(n) => decimal_u64(*n),
        }
    }
}

/// Puts the tags of fields in, in order.
pub fn record_fields(tags: &mut Tags, fields: &Vec<Field>)
    ensures
        final(tags)@ == with_tags(old(tags)@, field_tags(fields@)),
{
    let ghost before = tags@;
    let ghost all = field_tags(fields@);
    let mut i: usize = 0;
    assert(all.subrange(0, 0) =~= TagSeq::empty());
    while i < fields.len()
        invariant
            i <= fields@.len(),
            all == field_tags(fields@),
            tags@ == with_tags(before, all.subrange(0, i as int)),
        decreases fields@.len() - i,
    {
        proof {
            let longer = all.subrange(0, i + 1);
            assert(longer.drop_last() =~= all.subrange(0, i as int));
            assert(longer.last() == all[i as int]);
        }
        tags.insert(fields[i].name.clone(), fields[i].value.text());
        i = i + 1;
    }
    assert(all.subrange(0, all.len() as int) =~= all);
}

// ------------------------------------------------------------ spans

/// What is kept of a span while it is open.
#[derive(Debug)]
pub struct SpanState {
    pub should_export: Option<bool>,
    pub start_ns: Option<u128>,
    pub trace_id: Option<String>,
    pub span_id: Option<String>,
    pub local_tags: Option<Tags>,
}

/// A closed span that is to be exported.
#[derive(Debug)]
pub struct SpanData {
    pub trace_id: String,
    pub span_id: String,
    pub parent_id: Option<String>,
    pub name: String,
    pub start_time_us: u64,
    pub duration_us: u64,
    pub local_tags: Tags,
}

/// Whether spans of this name are exported.
pub open spec fn exported_name(name: Seq<char>) -> bool {
    name == "proof"@ || name == "benchmark"@
}

/// The view of an optional text.
pub open spec fn text_option(s: Option<String>) -> Option<Seq<char>> {
    match s {
        Some(text) => Some(text@),
        None => None,
    }
}

impl SpanState {
    /// Whether the span is exported when it closes.
    pub open spec fn exports(self) -> bool {
        self.should_export == Some(true)
    }

    /// Whether `after` is the same span.
    pub open spec fn keeps_identity(self, after: SpanState) -> bool {
        &&& after.should_export == self.should_export
        &&& after.start_ns == self.start_ns
        &&& after.trace_id == self.trace_id
        &&& after.span_id == self.span_id
    }

    /// Whether `after` is the span once `fields` are recorded: its tags take
    /// them in where it is exported, and else nothing changes.
    pub open spec fn recorded(self, after: SpanState, fields: Seq<Field>) -> bool {
        &&& self.keeps_identity(after)
        &&& if self.exports() && self.local_tags is Some {
            after.local_tags is Some && after.local_tags->0@ == with_tags(
                self.local_tags->0@,
                field_tags(fields),
            )
        } else {
            after.local_tags == self.local_tags
        }
    }

    /// Whether the span was opened as `name`, under `parent`, with `fields`.
    ///
    /// Of a span that is not exported nothing else is kept. One that is
    /// belongs to its parent's trace, where the parent has one, and else to a
    /// fresh trace.
    pub open spec fn opened(
        self,
        name: Seq<char>,
        parent: Option<&SpanState>,
        clock_ns: u128,
        fields: Seq<Field>,
    ) -> bool {
        if exported_name(name) {
            &&& self.should_export == Some(true)
            &&& self.start_ns == Some(clock_ns)
            &&& match self.trace_id {
                Some(id) => match parent {
                    Some(p) if p.trace_id is Some => id@ == p.trace_id->0@,
                    _ => is_id(id@, 16) && drawn_id(Some(id@), 16),
                },
                None => false,
            }
            &&& self.span_id is Some && is_id(self.span_id->0@, 8)
            &&& drawn_id(Some(self.span_id->0@), 8)
            &&& self.local_tags is Some && self.local_tags->0@ == with_tags(
                TagSeq::empty(),
                field_tags(fields),
            )
        } else {
            self == (SpanState {
                should_export: Some(false),
                start_ns: None,
                trace_id: None,
                span_id: None,
                local_tags: None,
            })
        }
    }
}

/// The trace of a span under `parent`, where the parent has one.
fn inherited_trace_id(parent: Option<&SpanState>) -> (r: Option<String>)
    ensures
        text_option(r) == match parent {
            Some(p) => text_option(p.trace_id),
            None => None,
        },
{
    match parent {
        Some(p) => p.trace_id.clone(),
        None => None,
    }
}

/// An open span that is exported, with the identifiers that it was given; there
/// is none without both.
pub fn open_span(
    clock_ns: u128,
    fields: &Vec<Field>,
    trace_id: Result<String, NoEntropy>,
    span_id: Result<String, NoEntropy>,
) -> (r: Result<SpanState, NoEntropy>)
    ensures
        r is Ok <==> trace_id is Ok && span_id is Ok,
        r matches Ok(state) ==> {
            &&& state.should_export == Some(true)
            &&& state.start_ns == Some(clock_ns)
            &&& state.trace_id == Some(trace_id->Ok_0)
            &&& state.span_id == Some(span_id->Ok_0)
            &&& state.local_tags is Some && state.local_tags->0@ == with_tags(
                TagSeq::empty(),
                field_tags(fields@),
            )
        },
{
    let trace_id = match trace_id {
        Ok(id) => id,
        Err(e) => return Err(e),
    };
    let span_id = match span_id {
        Ok(id) => id,
        Err(e) => return Err(e),
    };
    let mut tags = Tags::new();
    record_fields(&mut tags, fields);
    Ok(
        SpanState {
            should_export: Some(true),
            start_ns: Some(clock_ns),
            trace_id: Some(trace_id),
            span_id: Some(span_id),
            local_tags: Some(tags),
        },
    )
}

/// Opens a span; `clock_ns` is what a monotonic clock shows, in nanoseconds.
///
/// Entropy is asked for only where the span is exported.
pub fn on_new_span(
    name: &str,
    parent: Option<&SpanState>,
    clock_ns: u128,
    fields: &Vec<Field>,
) -> (r: Result<SpanState, NoEntropy>)
    ensures
        match r {
            Ok(state) => state.opened(name@, parent, clock_ns, fields@),
            Err(_) => {
                &&& exported_name(name@)
                &&& drawn_id(None, 8) || (drawn_id(None, 16) && (parent is None
                    || parent->0.trace_id is None))
            },
        },
{
    if !(same(name, "proof") || same(name, "benchmark")) {
        return Ok(
            SpanState {
                should_export: Some(false),
                start_ns: None,
                trace_id: None,
                span_id: None,
                local_tags: None,
            },
        );
    }
    let trace_id = match inherited_trace_id(parent) {
        Some(id) => Ok(id),
        None => new_trace_id(),
    };
    let span_id = new_span_id();
    open_span(clock_ns, fields, trace_id, span_id)
}

/// Records fields of an open span: its tags take them in where it is exported,
/// and else nothing changes.
pub fn on_record(state: &mut SpanState, fields: &Vec<Field>)
    ensures
        old(state).recorded(*final(state), fields@),
{
    match state.should_export {
        Some(true) => {},
        _ => return,
    }
    let mut taken: Option<Tags> = None;
    std::mem::swap(&mut taken, &mut state.local_tags);
    if let Some(mut tags) = taken {
        record_fields(&mut tags, fields);
        state.local_tags = Some(tags);
    }
}

/// Whether all of `data` but its identifiers is what is exported of `state`,
/// closed as `name` under `parent` at `epoch_us`, when the monotonic clock
/// shows `clock_ns` nanoseconds. A start that was not kept is made up for by the end, and
/// tags that were not kept by none.
pub open spec fn closed_parts(
    data: SpanData,
    state: SpanState,
    parent: Option<&SpanState>,
    name: Seq<char>,
    clock_ns: u128,
    epoch_us: u64,
) -> bool {
    &&& text_option(data.parent_id) == match parent {
        Some(p) => text_option(p.span_id),
        None => None,
    }
    &&& data.name@ == name
    &&& data.start_time_us == epoch_us
    &&& data.duration_us == match state.start_ns {
        Some(start) => elapsed_us(start, clock_ns),
        None => 0,
    }
    &&& data.local_tags@ == match state.local_tags {
        Some(tags) => tags@,
        None => TagSeq::empty(),
    }
}

/// Whether `data` is what is exported of `state`: identifiers that were not
/// kept are fresh ones.
pub open spec fn closed_as(
    data: SpanData,
    state: SpanState,
    parent: Option<&SpanState>,
    name: Seq<char>,
    clock_ns: u128,
    epoch_us: u64,
) -> bool {
    &&& match state.trace_id {
        Some(id) => data.trace_id@ == id@,
        None => is_id(data.trace_id@, 16) && drawn_id(Some(data.trace_id@), 16),
    }
    &&& match state.span_id {
        Some(id) => data.span_id@ == id@,
        None => is_id(data.span_id@, 8) && drawn_id(Some(data.span_id@), 8),
    }
    &&& closed_parts(data, state, parent, name, clock_ns, epoch_us)
}

/// What is exported of a span, with fresh identifiers at hand for those that
/// were not kept; there is nothing where one is needed and not there.
pub fn close_span(
    state: &SpanState,
    parent: Option<&SpanState>,
    name: &str,
    clock_ns: u128,
    epoch_us: u64,
    fresh_trace_id: Option<String>,
    fresh_span_id: Option<String>,
) -> (r: Option<SpanData>)
    ensures
        r is Some <==> (state.trace_id is Some || fresh_trace_id is Some) && (state.span_id is Some
            || fresh_span_id is Some),
        r matches Some(data) ==> {
            &&& data.trace_id@ == match state.trace_id {
                Some(id) => id@,
                None => fresh_trace_id->0@,
            }
            &&& data.span_id@ == match state.span_id {
                Some(id) => id@,
                None => fresh_span_id->0@,
            }
            &&& closed_parts(data, *state, parent, name@, clock_ns, epoch_us)
        },
{
    let duration_us: u64 = match state.start_ns {
        Some(start) => elapsed(start, clock_ns),
        None => 0,
    };
    let trace_id = match (&state.trace_id, fresh_trace_id) {
        (Some(id), _) => id.clone(),
        (None, Some(id)) => id,
        (None, None) => return None,
    };
    let span_id = match (&state.span_id, fresh_span_id) {
        (Some(id), _) => id.clone(),
        (None, Some(id)) => id,
        (None, None) => return None,
    };
    let parent_id = match parent {
        Some(p) => p.span_id.clone(),
        None => None,
    };
    let local_tags = match &state.local_tags {
        Some(tags) => tags.clone(),
        None => Tags::new(),
    };
    Some(
        SpanData {
            trace_id,
            span_id,
            parent_id,
            name: name.to_owned(),
            start_time_us: epoch_us,
            duration_us,
            local_tags,
        },
    )
}

/// Closes a span: what is to be exported of it, if it is exported.
///
/// Entropy is asked for only where an identifier was not kept.
pub fn on_close(
    state: &SpanState,
    parent: Option<&SpanState>,
    name: &str,
    clock_ns: u128,
    epoch_us: u64,
) -> (r: Result<Option<SpanData>, NoEntropy>)
    ensures
        match r {
            Ok(None) => !state.exports(),
            Ok(Some(data)) => state.exports() && closed_as(
                data,
                *state,
                parent,
                name@,
                clock_ns,
                epoch_us,
            ),
            Err(_) => {
                &&& state.exports()
                &&& (state.trace_id is None && drawn_id(None, 16)) || (state.span_id is None
                    && drawn_id(None, 8))
            },
        },
{
    match state.should_export {
        Some(true) => {},
        _ => return Ok(None),
    }
    let fresh_trace_id = if state.trace_id.is_none() {
        match new_trace_id() {
            Ok(id) => Some(id),
            Err(e) => return Err(e),
        }
    } else {
        None
    };
    let fresh_span_id = if state.span_id.is_none() {
        match new_span_id() {
            Ok(id) => Some(id),
            Err(e) => return Err(e),
        }
    } else {
        None
    };
    match close_span(state, parent, name, clock_ns, epoch_us, fresh_trace_id, fresh_span_id) {
        Some(data) => Ok(Some(data)),
        None => Err(NoEntropy),
    }
}

// ------------------------------------------------------------ globals

/// What all exported spans have in common.
#[derive(Debug)]
pub struct GlobalState {
    pub service_name: String,
    pub global_tags: Tags,
}

/// The place of the common state: empty until it is first set, and from then
/// on unchanged.
#[derive(Debug)]
pub struct GlobalSlot {
    state: Option<GlobalState>,
}

impl GlobalSlot {
    pub closed spec fn content(self) -> Option<GlobalState> {
        self.state
    }

    /// An empty place.
    pub fn new() -> (r: GlobalSlot)
        ensures
            r.content() is None,
    {
        GlobalSlot { state: None }
    }

    /// Whether the common state has been set.
    pub fn is_set(&self) -> (r: bool)
        ensures
            r == (self.content() is Some),
    {
        self.state.is_some()
    }
}

/// What the place holds after `state` is set: what it held before, if anything.
pub open spec fn set_once(before: Option<GlobalState>, state: GlobalState) -> Option<GlobalState> {
    match before {
        Some(kept) => Some(kept),
        None => Some(state),
    }
}

/// Sets the common state, unless it has been set before.
pub fn init(slot: &mut GlobalSlot, service_name: String, tags: Tags)
    ensures
        final(slot).content() == set_once(
            old(slot).content(),
            (GlobalState { service_name, global_tags: tags }),
        ),
{
    if slot.state.is_none() {
        slot.state = Some(GlobalState { service_name, global_tags: tags });
    }
}

/// The common state.
pub fn read(slot: &GlobalSlot) -> (r: &GlobalState)
    requires
        slot.content() is Some,
    ensures
        *r == slot.content()->0,
{
    slot.state.as_ref().unwrap()
}

// ------------------------------------------------------------ layer

/// The number of spans that fill a batch.
pub const BATCH_SIZE: usize = 32;

/// How the exporter is set up.
#[derive(Debug)]
pub struct ExporterConfig {
    pub endpoint: String,
    pub batch_size: usize,
    pub flush_every_secs: u64,
    pub timeout_secs: u64,
}

/// Whether `after` is the common state once export is set up: what was there
/// before, or else the service, the extra tags and the device's key.
pub open spec fn sets_up(
    before: Option<GlobalState>,
    service_name: Seq<char>,
    device_key: Seq<char>,
    extra: TagSeq,
    after: Option<GlobalState>,
) -> bool {
    &&& after is Some
    &&& before is Some ==> after == before
    &&& before is None ==> {
        &&& after->0.service_name@ == service_name
        &&& after->0.global_tags@ == with_tag(extra, "device_key"@, device_key)
    }
}

/// Sets up the export of spans: where they go, and, unless that has been done
/// before, what they have in common, namely the service, the extra tags and
/// the device's key.
pub fn make_layer(
    slot: &mut GlobalSlot,
    collector_url: &str,
    service_name: &str,
    device_key: &str,
    extra_global_tags: &Tags,
) -> (r: ExporterConfig)
    ensures
        r.endpoint@ == endpoint_of(collector_url@),
        r.batch_size == BATCH_SIZE,
        r.flush_every_secs == 3,
        r.timeout_secs == 5,
        sets_up(
            old(slot).content(),
            service_name@,
            device_key@,
            extra_global_tags@,
            final(slot).content(),
        ),
{
    let endpoint = normalize_zipkin_endpoint(collector_url);
    let mut merged = extra_global_tags.clone();
    merged.insert("device_key".to_owned(), device_key.to_owned());
    init(slot, service_name.to_owned(), merged);
    ExporterConfig { endpoint, batch_size: BATCH_SIZE, flush_every_secs: 3, timeout_secs: 5 }
}

// ------------------------------------------------------------ batches

/// The spans that wait to be sent.
#[derive(Debug)]
pub struct SpanBatch {
    buf: Vec<SpanData>,
}

impl View for SpanBatch {
    type V = Seq<SpanData>;

    closed spec fn view(&self) -> Seq<SpanData> {
        self.buf@
    }
}

/// An event that the exporter waits for.
pub enum BatchEvent {
    Span(SpanData),
    Tick,
}

/// What is left waiting, and what is sent, after an event: a full batch is
/// sent as soon as it is full, and any batch that is not empty at a tick.
pub open spec fn batch_step(waiting: Seq<SpanData>, event: BatchEvent) -> (
    Seq<SpanData>,
    Option<Seq<SpanData>>,
) {
    match event {
        BatchEvent::Span(span) => if waiting.len() + 1 >= BATCH_SIZE {
            (Seq::empty(), Some(waiting.push(span)))
        } else {
            (waiting.push(span), None)
        },
        BatchEvent::Tick => if waiting.len() > 0 {
            (Seq::empty(), Some(waiting))
        } else {
            (waiting, None)
        },
    }
}

/// The view of an optional batch.
pub open spec fn batch_option(b: Option<Vec<SpanData>>) -> Option<Seq<SpanData>> {
    match b {
        Some(spans) => Some(spans@),
        None => None,
    }
}

impl SpanBatch {
    #[verifier::type_invariant]
    spec fn well_formed(self) -> bool {
        self.buf@.len() < BATCH_SIZE
    }

    /// No spans.
    pub fn new() -> (r: SpanBatch)
        ensures
            r@ == Seq::<SpanData>::empty(),
    {
        SpanBatch { buf: Vec::new() }
    }

    /// Takes a span in; what is to be sent, if that filled the batch.
    pub fn on_span(&mut self, span: SpanData) -> (r: Option<Vec<SpanData>>)
        ensures
            (final(self)@, batch_option(r)) == batch_step(old(self)@, BatchEvent::Span(span)),
            final(self)@.len() < BATCH_SIZE,
    {
        proof {
            use_type_invariant(&*self);
        }
        let mut spans: Vec<SpanData> = Vec::new();
        std::mem::swap(&mut spans, &mut self.buf);
        spans.push(span);
        if spans.len() >= BATCH_SIZE {
            Some(spans)
        } else {
            self.buf = spans;
            None
        }
    }

    /// What is to be sent at a tick.
    pub fn on_tick(&mut self) -> (r: Option<Vec<SpanData>>)
        ensures
            (final(self)@, batch_option(r)) == batch_step(old(self)@, BatchEvent::Tick),
            final(self)@.len() < BATCH_SIZE,
    {
        proof {
            use_type_invariant(&*self);
        }
        if self.buf.len() == 0 {
            return None;
        }
        let mut spans: Vec<SpanData> = Vec::new();
        std::mem::swap(&mut spans, &mut self.buf);
        Some(spans)
    }
}

// ------------------------------------------------------------ payload

/// A tag as a member of a JSON object.
pub open spec fn tag_json(tag: (Seq<char>, Seq<char>)) -> Seq<char> {
    json_string(tag.0) + ":"@ + json_string(tag.1)
}

/// Tags as members of a JSON object, with commas between them.
pub open spec fn tags_json(tags: TagSeq) -> Seq<char>
    decreases tags.len(),
{
    if tags.len() == 0 {
        Seq::empty()
    } else if tags.len() == 1 {
        tag_json(tags[0])
    } else {
        tags_json(tags.drop_last()) + ","@ + tag_json(tags.last())
    }
}

/// The member for a span's parent; there is none where the span has no parent.
pub open spec fn parent_json(parent_id: Option<String>) -> Seq<char> {
    match parent_id {
        Some(id) => ",\"parentId\":"@ + json_string(id@),
        None => Seq::empty(),
    }
}

/// The first members of a span: its identifiers.
pub open spec fn ids_json(span: SpanData) -> Seq<char> {
    "{\"traceId\":"@ + json_string(span.trace_id@) + ",\"id\":"@ + json_string(span.span_id@)
        + parent_json(span.parent_id)
}

/// The next members of a span: its name and times.
pub open spec fn times_json(span: SpanData) -> Seq<char> {
    ",\"name\":"@ + json_string(span.name@) + ",\"timestamp\":"@ + decimal(
        span.start_time_us as nat,
    ) + ",\"duration\":"@ + decimal(span.duration_us as nat)
}

/// The last members of a span: its service and its tags. The tags are the
/// common ones and the span's own, which win over common ones of the same name.
pub open spec fn context_json(globals: GlobalState, span: SpanData) -> Seq<char> {
    ",\"localEndpoint\":{\"serviceName\":"@ + json_string(globals.service_name@)
        + "},\"tags\":{"@ + tags_json(with_tags(globals.global_tags@, span.local_tags@)) + "}}"@
}

/// A span in the Zipkin format.
pub open spec fn span_json(globals: GlobalState, span: SpanData) -> Seq<char> {
    ids_json(span) + times_json(span) + context_json(globals, span)
}

/// Spans in the Zipkin format, with commas between them.
pub open spec fn spans_json(globals: GlobalState, spans: Seq<SpanData>) -> Seq<char>
    decreases spans.len(),
{
    if spans.len() == 0 {
        Seq::empty()
    } else if spans.len() == 1 {
        span_json(globals, spans[0])
    } else {
        spans_json(globals, spans.drop_last()) + ","@ + span_json(globals, spans.last())
    }
}

/// The body of a post: the JSON array of the spans.
pub open spec fn payload(globals: GlobalState, spans: Seq<SpanData>) -> Seq<char> {
    "["@ + spans_json(globals, spans) + "]"@
}

/// Appends tags as members of a JSON object.
fn push_tags(out: &mut String, tags: &Tags) -> (r: Result<(), serde_json::Error>)
    ensures
        r is Ok,
        final(out)@ == old(out)@ + tags_json(tags@),
{
    let ghost before = out@;
    let mut i: usize = 0;
    assert(tags@.subrange(0, 0) =~= TagSeq::empty());
    assert(out@ =~= before + tags_json(tags@.subrange(0, 0)));
    while i < tags.len()
        invariant
            i <= tags@.len(),
            out@ == before + tags_json(tags@.subrange(0, i as int)),
        decreases tags@.len() - i,
    {
        proof {
            let longer = tags@.subrange(0, i + 1);
            assert(longer.drop_last() =~= tags@.subrange(0, i as int));
            assert(longer.last() == tags@[i as int]);
        }
        if i > 0 {
            out.append(",");
        }
        match push_json(out, tags.name(i)) {
            Ok(_) => {},
            Err(e) => return Err(e),
        }
        out.append(":");
        match push_json(out, tags.value(i)) {
            Ok(_) => {},
            Err(e) => return Err(e),
        }
        i = i + 1;
        assert(out@ =~= before + tags_json(tags@.subrange(0, i as int)));
    }
    assert(tags@.subrange(0, tags@.len() as int) =~= tags@);
    Ok(())
}

/// Appends the first members of a span.
fn push_ids(out: &mut String, span: &SpanData) -> (r: Result<(), serde_json::Error>)
    ensures
        r is Ok,
        final(out)@ == old(out)@ + ids_json(*span),
{
    let ghost before = out@;
    out.append("{\"traceId\":");
    match push_json(out, span.trace_id.as_str()) {
        Ok(_) => {},
        Err(e) => return Err(e),
    }
    out.append(",\"id\":");
    match push_json(out, span.span_id.as_str()) {
        Ok(_) => {},
        Err(e) => return Err(e),
    }
    if let Some(id) = &span.parent_id {
        out.append(",\"parentId\":");
        match push_json(out, id.as_str()) {
            Ok(_) => {},
            Err(e) => return Err(e),
        }
    }
    assert(out@ =~= before + ids_json(*span));
    Ok(())
}

/// Appends the next members of a span.
fn push_times(out: &mut String, span: &SpanData) -> (r: Result<(), serde_json::Error>)
    ensures
        r is Ok,
        final(out)@ == old(out)@ + times_json(*span),
{
    let ghost before = out@;
    out.append(",\"name\":");
    match push_json(out, span.name.as_str()) {
        Ok(_) => {},
        Err(e) => return Err(e),
    }
    out.append(",\"timestamp\":");
    out.append(decimal_u64(span.start_time_us).as_str());
    out.append(",\"duration\":");
    out.append(decimal_u64(span.duration_us).as_str());
    assert(out@ =~= before + times_json(*span));
    Ok(())
}

/// Appends the last members of a span.
fn push_context(out: &mut String, globals: &GlobalState, span: &SpanData) -> (r: Result<
    (),
    serde_json::Error,
>)
    ensures
        r is Ok,
        final(out)@ == old(out)@ + context_json(*globals, *span),
{
    let ghost before = out@;
    let mut tags = globals.global_tags.clone();
    tags.extend(&span.local_tags);
    out.append(",\"localEndpoint\":{\"serviceName\":");
    match push_json(out, globals.service_name.as_str()) {
        Ok(_) => {},
        Err(e) => return Err(e),
    }
    out.append("},\"tags\":{");
    match push_tags(out, &tags) {
        Ok(_) => {},
        Err(e) => return Err(e),
    }
    out.append("}}");
    assert(out@ =~= before + context_json(*globals, *span));
    Ok(())
}

/// Appends a span in the Zipkin format.
fn push_span(out: &mut String, globals: &GlobalState, span: &SpanData) -> (r: Result<
    (),
    serde_json::Error,
>)
    ensures
        r is Ok,
        final(out)@ == old(out)@ + span_json(*globals, *span),
{
    let ghost before = out@;
    match push_ids(out, span) {
        Ok(_) => {},
        Err(e) => return Err(e),
    }
    match push_times(out, span) {
        Ok(_) => {},
        Err(e) => return Err(e),
    }
    match push_context(out, globals, span) {
        Ok(_) => {},
        Err(e) => return Err(e),
    }
    assert(out@ =~= before + span_json(*globals, *span));
    Ok(())
}

/// Appends spans in the Zipkin format.
fn push_spans(out: &mut String, globals: &GlobalState, batch: &Vec<SpanData>) -> (r: Result<
    (),
    serde_json::Error,
>)
    ensures
        r is Ok,
        final(out)@ == old(out)@ + spans_json(*globals, batch@),
{
    let ghost before = out@;
    let mut i: usize = 0;
    assert(batch@.subrange(0, 0) =~= Seq::empty());
    assert(out@ =~= before + spans_json(*globals, batch@.subrange(0, 0)));
    while i < batch.len()
        invariant
            i <= batch@.len(),
            out@ == before + spans_json(*globals, batch@.subrange(0, i as int)),
        decreases batch@.len() - i,
    {
        proof {
            let longer = batch@.subrange(0, i + 1);
            assert(longer.drop_last() =~= batch@.subrange(0, i as int));
            assert(longer.last() == batch@[i as int]);
        }
        if i > 0 {
            out.append(",");
        }
        match push_span(out, globals, &batch[i]) {
            Ok(_) => {},
            Err(e) => return Err(e),
        }
        i = i + 1;
        assert(out@ =~= before + spans_json(*globals, batch@.subrange(0, i as int)));
    }
    assert(batch@.subrange(0, batch@.len() as int) =~= batch@);
    Ok(())
}

/// The body of a post for a batch of spans. An empty array stands for spans
/// that cannot be written.
pub fn convert_to_zipkin(globals: &GlobalState, batch: &Vec<SpanData>) -> (r: String)
    ensures
        r@ == payload(*globals, batch@),
{
    let mut out = "[".to_owned();
    match push_spans(&mut out, globals, batch) {
        Ok(_) => {
            out.append("]");
            out
        },
        Err(_) => "[]".to_owned(),
    }
}

/// What is posted for a batch.
#[derive(Debug)]
pub struct Export {
    pub count: usize,
    pub content_type: String,
    pub user_agent: String,
    pub payload: String,
}

/// Whether `r` is what is posted for a batch; nothing for an empty one.
pub open spec fn posts(globals: GlobalState, batch: Seq<SpanData>, r: Option<Export>) -> bool {
    match r {
        Some(export) => {
            &&& batch.len() > 0
            &&& export.count == batch.len()
            &&& export.content_type@ == "application/json"@
            &&& export.user_agent@ == "nockpool-miner/zipkin"@
            &&& export.payload@ == payload(globals, batch)
        },
        None => batch.len() == 0,
    }
}

/// What is posted for a batch; nothing for an empty one.
pub fn flush(globals: &GlobalState, batch: &Vec<SpanData>) -> (r: Option<Export>)
    ensures
        posts(*globals, batch@, r),
{
    if batch.len() == 0 {
        return None;
    }
    Some(
        Export {
            count: batch.len(),
            content_type: "application/json".to_owned(),
            user_agent: "nockpool-miner/zipkin".to_owned(),
            payload: convert_to_zipkin(globals, batch),
        },
    )
}

/// How loudly the outcome of a post is reported.
#[derive(Debug, Clone, Copy, PartialEq, Eq, Structural)]
pub enum ReportLevel {
    Debug,
    Warn,
    Error,
}

/// How a post ended.
#[derive(Debug, Clone, Copy, PartialEq, Eq, Structural)]
pub enum PostOutcome {
    /// No response came.
    Failed,
    /// A response came; its body could not be read although it was asked for.
    BodyUnreadable { code: u16 },
    /// A response came.
    Answered { code: u16 },
}

/// How loudly the outcome of a post is reported: an error where no response
/// came, a warning where the response is no success or its body could not be
/// read.
pub open spec fn level_of(outcome: PostOutcome) -> ReportLevel {
    match outcome {
        PostOutcome::Failed => ReportLevel::Error,
        PostOutcome::BodyUnreadable { .. } => ReportLevel::Warn,
        PostOutcome::Answered { code } => if success_code(code) {
            ReportLevel::Debug
        } else {
            ReportLevel::Warn
        },
    }
}

/// How loudly the outcome of a post is reported.
pub fn report_level(outcome: PostOutcome) -> (r: ReportLevel)
    ensures
        r == level_of(outcome),
{
    match outcome {
        PostOutcome::Failed => ReportLevel::Error,
        PostOutcome::BodyUnreadable { .. } => ReportLevel::Warn,
        PostOutcome::Answered { code } => if is_success(code) {
            ReportLevel::Debug
        } else {
            ReportLevel::Warn
        },
    }
}

// ------------------------------------------------------------ laws

/// The common state that is set first stays, whatever is set later.
pub proof fn lemma_first_init_wins(
    before: Option<GlobalState>,
    first: GlobalState,
    second: GlobalState,
)
    ensures
        set_once(None, first) == Some(first),
        set_once(set_once(before, first), second) == set_once(before, first),
{
}

/// However often fields are recorded, a span keeps what identifies it.
pub proof fn lemma_recording_keeps_identity(states: Seq<SpanState>, fields: Seq<Seq<Field>>)
    requires
        states.len() == fields.len() + 1,
        forall|i: int|
            0 <= i < fields.len() ==> (#[trigger] states[i]).recorded(states[i + 1], fields[i]),
    ensures
        states[0].keeps_identity(states.last()),
    decreases fields.len(),
{
    if fields.len() > 0 {
        let n = fields.len() - 1;
        let earlier = states.drop_last();
        assert forall|i: int| 0 <= i < n implies (#[trigger] earlier[i]).recorded(
            earlier[i + 1],
            fields.drop_last()[i],
        ) by {
            assert(states[i].recorded(states[i + 1], fields[i]));
        }
        lemma_recording_keeps_identity(earlier, fields.drop_last());
        assert(states[n].recorded(states[n + 1], fields[n]));
    }
}

/// A span has the tags of all fields that it was opened with and that were
/// recorded since, in order.
pub proof fn lemma_recorded_fields_add_up(
    opened: SpanState,
    recorded: SpanState,
    name: Seq<char>,
    parent: Option<&SpanState>,
    clock_ns: u128,
    fields: Seq<Field>,
    more: Seq<Field>,
)
    requires
        exported_name(name),
        opened.opened(name, parent, clock_ns, fields),
        opened.recorded(recorded, more),
    ensures
        recorded.opened(name, parent, clock_ns, fields + more),
{
    assert(field_tags(fields + more) =~= field_tags(fields) + field_tags(more));
    lemma_with_tags_join(TagSeq::empty(), field_tags(fields), field_tags(more));
}

/// A span under an exported span is exported into the same trace, and names
/// its parent, whatever was recorded of either meanwhile.
pub proof fn lemma_child_joins_parents_trace(
    parent_name: Seq<char>,
    grandparent: Option<&SpanState>,
    parent_ns: u128,
    parent_fields: Seq<Field>,
    parent_first: SpanState,
    parent: SpanState,
    child_name: Seq<char>,
    child_ns: u128,
    child_fields: Seq<Field>,
    child_first: SpanState,
    child: SpanState,
    parent_last: SpanState,
    data: SpanData,
    clock_ns: u128,
    epoch_us: u64,
)
    requires
        exported_name(parent_name),
        parent_first.opened(parent_name, grandparent, parent_ns, parent_fields),
        parent_first.keeps_identity(parent),
        exported_name(child_name),
        child_first.opened(child_name, Some(&parent), child_ns, child_fields),
        child_first.keeps_identity(child),
        parent.keeps_identity(parent_last),
        closed_as(data, child, Some(&parent_last), child_name, clock_ns, epoch_us),
    ensures
        child.exports(),
        data.trace_id@ == parent_first.trace_id->0@,
        text_option(data.parent_id) == Some(parent_first.span_id->0@),
{
}

/// A span under one that is not exported starts a trace and names no parent.
pub proof fn lemma_unexported_parent_is_invisible(
    parent_name: Seq<char>,
    grandparent: Option<&SpanState>,
    parent_ns: u128,
    parent_fields: Seq<Field>,
    parent_first: SpanState,
    parent: SpanState,
    child_name: Seq<char>,
    child_ns: u128,
    child_fields: Seq<Field>,
    child_first: SpanState,
    child: SpanState,
    parent_last: SpanState,
    data: SpanData,
    clock_ns: u128,
    epoch_us: u64,
)
    requires
        !exported_name(parent_name),
        parent_first.opened(parent_name, grandparent, parent_ns, parent_fields),
        parent_first.keeps_identity(parent),
        exported_name(child_name),
        child_first.opened(child_name, Some(&parent), child_ns, child_fields),
        child_first.keeps_identity(child),
        parent.keeps_identity(parent_last),
        closed_as(data, child, Some(&parent_last), child_name, clock_ns, epoch_us),
    ensures
        child.exports(),
        is_id(data.trace_id@, 16),
        data.parent_id is None,
{
}

/// A span is exported when it closes if and only if its name says so; and
/// closing a span that was opened asks for no entropy.
pub proof fn lemma_export_goes_by_name(
    state: SpanState,
    name: Seq<char>,
    parent: Option<&SpanState>,
    clock_ns: u128,
    fields: Seq<Field>,
)
    requires
        state.opened(name, parent, clock_ns, fields),
    ensures
        state.exports() <==> exported_name(name),
        state.exports() ==> state.trace_id is Some && state.span_id is Some,
{
}

/// A span's own tag wins over a common tag of the same name, and every other
/// common tag is kept.
pub proof fn lemma_own_tags_win(globals: Tags, own: Tags, name: Seq<char>)
    requires
        unique_names(globals@),
    ensures
        tag_map(with_tags(globals@, own@)).dom().contains(name) <==> tag_map(
            globals@,
        ).dom().contains(name) || tag_map(own@).dom().contains(name),
        tag_map(own@).dom().contains(name) ==> tag_map(with_tags(globals@, own@))[name] == tag_map(
            own@,
        )[name],
        tag_map(globals@).dom().contains(name) && !tag_map(own@).dom().contains(name) ==> tag_map(
            with_tags(globals@, own@),
        )[name] == tag_map(globals@)[name],
{
    lemma_with_tags_map(globals@, own@);
}

/// The spans that events bring.
pub open spec fn arrived(events: Seq<BatchEvent>) -> Seq<SpanData>
    decreases events.len(),
{
    if events.len() == 0 {
        Seq::empty()
    } else {
        match events.last() {
            BatchEvent::Span(span) => arrived(events.drop_last()).push(span),
            BatchEvent::Tick => arrived(events.drop_last()),
        }
    }
}

/// What waits after events, starting with nothing.
pub open spec fn waiting_after(events: Seq<BatchEvent>) -> Seq<SpanData>
    decreases events.len(),
{
    if events.len() == 0 {
        Seq::empty()
    } else {
        batch_step(waiting_after(events.drop_last()), events.last()).0
    }
}

/// The batches that are sent over events, starting with nothing.
pub open spec fn sent_over(events: Seq<BatchEvent>) -> Seq<Seq<SpanData>>
    decreases events.len(),
{
    if events.len() == 0 {
        Seq::empty()
    } else {
        match batch_step(waiting_after(events.drop_last()), events.last()).1 {
            Some(batch) => sent_over(events.drop_last()).push(batch),
            None => sent_over(events.drop_last()),
        }
    }
}

/// The spans of batches, one batch after another.
pub open spec fn joined(batches: Seq<Seq<SpanData>>) -> Seq<SpanData>
    decreases batches.len(),
{
    if batches.len() == 0 {
        Seq::empty()
    } else {
        joined(batches.drop_last()) + batches.last()
    }
}

/// No span is lost, sent twice or moved: what was sent and what waits are
/// together what arrived, in order. Every batch that is sent holds between one
/// span and a full batch, and what waits is never full.
pub proof fn lemma_no_span_is_lost(events: Seq<BatchEvent>)
    ensures
        joined(sent_over(events)) + waiting_after(events) == arrived(events),
        waiting_after(events).len() < BATCH_SIZE,
        forall|i: int|
            0 <= i < sent_over(events).len() ==> 1 <= (#[trigger] sent_over(events)[i]).len()
                <= BATCH_SIZE,
    decreases events.len(),
{
    if events.len() > 0 {
        let before = events.drop_last();
        lemma_no_span_is_lost(before);
        let (waiting, sent) = batch_step(waiting_after(before), events.last());
        if let Some(batch) = sent {
            let batches = sent_over(before).push(batch);
            assert(batches.drop_last() =~= sent_over(before));
        }
        assert(joined(sent_over(events)) + waiting_after(events) =~= arrived(events));
    } else {
        assert(joined(sent_over(events)) + waiting_after(events) =~= arrived(events));
    }
}

/// After a tick nothing waits.
pub proof fn lemma_tick_sends_everything(events: Seq<BatchEvent>)
    ensures
        waiting_after(events.push(BatchEvent::Tick)) == Seq::<SpanData>::empty(),
        joined(sent_over(events.push(BatchEvent::Tick))) == arrived(events),
{
    let all = events.push(BatchEvent::Tick);
    assert(all.drop_last() =~= events);
    lemma_no_span_is_lost(all);
    assert(waiting_after(all) =~= Seq::empty());
    assert(joined(sent_over(all)) + waiting_after(all) =~= joined(sent_over(all)));
}

// ------------------------------------------------------------ reading back

/// The items of the payload of spans, one for each span, in order.
pub open spec fn span_items(globals: GlobalState, spans: Seq<SpanData>) -> Seq<Seq<char>> {
    Seq::new(spans.len(), |i: int| span_json(globals, spans[i]))
}

/// The spans of two batches put together are written one batch after the
/// other.
pub proof fn lemma_spans_json_join(globals: GlobalState, a: Seq<SpanData>, b: Seq<SpanData>)
    requires
        a.len() > 0,
        b.len() > 0,
    ensures
        spans_json(globals, a + b) == spans_json(globals, a) + ","@ + spans_json(globals, b),
    decreases b.len(),
{
    let front = b.drop_last();
    assert((a + b).drop_last() =~= a + front);
    assert((a + b).last() == b.last());
    if front.len() == 0 {
        assert(a + front =~= a);
    } else {
        lemma_spans_json_join(globals, a, front);
        assert(spans_json(globals, a) + ","@ + (spans_json(globals, front) + ","@ + span_json(
            globals,
            b.last(),
        )) =~= spans_json(globals, a) + ","@ + spans_json(globals, front) + ","@ + span_json(
            globals,
            b.last(),
        ));
    }
}

/// The fixed parts of a span's identifiers.
proof fn lemma_id_keys_lead()
    ensures
        leads("{\"traceId\":"@, outside(1), outside(2)),
        leads(",\"id\":"@, outside(2), outside(2)),
        leads(",\"parentId\":"@, outside(2), outside(2)),
{
    reveal_strlit("{\"traceId\":");
    reveal_strlit(",\"id\":");
    reveal_strlit(",\"parentId\":");
    reveal_with_fuel(track, 14);
}

/// The fixed parts of a span's name and times.
proof fn lemma_time_keys_lead()
    ensures
        leads(",\"name\":"@, outside(2), outside(2)),
        leads(",\"timestamp\":"@, outside(2), outside(2)),
        leads(",\"duration\":"@, outside(2), outside(2)),
{
    reveal_strlit(",\"name\":");
    reveal_strlit(",\"timestamp\":");
    reveal_strlit(",\"duration\":");
    reveal_with_fuel(track, 14);
}

/// The fixed parts of a span's service and tags.
proof fn lemma_context_keys_lead()
    ensures
        leads(",\"localEndpoint\":{\"serviceName\":"@, outside(2), outside(3)),
        leads("},\"tags\":{"@, outside(3), outside(3)),
        leads("}}"@, outside(3), outside(1)),
{
    reveal_strlit(",\"localEndpoint\":{\"serviceName\":");
    reveal_strlit("},\"tags\":{");
    reveal_strlit("}}");
    reveal_with_fuel(track, 12);
    let service = ",\"localEndpoint\":{\"serviceName\":"@;
    assert(track(outside(2), service, 10) == (inside(2), true));
    assert(track(outside(2), service, 20) == (inside(3), true));
    assert(track(outside(2), service, 30) == (inside(3), true));
}

/// A tag stays within the object of tags.
proof fn lemma_tag_leads(tag: (Seq<char>, Seq<char>), depth: int)
    requires
        depth >= 1,
    ensures
        leads(tag_json(tag), outside(depth), outside(depth)),
{
    reveal_strlit(":");
    let o = outside(depth);
    lemma_json_string_leads(tag.0, depth);
    lemma_json_string_leads(tag.1, depth);
    lemma_mark_leads(':', depth);
    assert(":"@ =~= seq![':']);
    lemma_leads_join(json_string(tag.0), ":"@, o, o, o);
    lemma_leads_join(json_string(tag.0) + ":"@, json_string(tag.1), o, o, o);
}

/// Tags stay within the object of tags.
proof fn lemma_tags_lead(tags: TagSeq, depth: int)
    requires
        depth >= 2,
    ensures
        leads(tags_json(tags), outside(depth), outside(depth)),
    decreases tags.len(),
{
    reveal_strlit(",");
    let o = outside(depth);
    if tags.len() == 0 {
        lemma_empty_leads(o);
    } else if tags.len() == 1 {
        lemma_tag_leads(tags[0], depth);
    } else {
        lemma_tags_lead(tags.drop_last(), depth);
        lemma_tag_leads(tags.last(), depth);
        lemma_mark_leads(',', depth);
        assert(","@ =~= seq![',']);
        lemma_leads_join(tags_json(tags.drop_last()), ","@, o, o, o);
        lemma_leads_join(tags_json(tags.drop_last()) + ","@, tag_json(tags.last()), o, o, o);
    }
}

/// A span's identifiers open its object.
proof fn lemma_ids_lead(span: SpanData)
    ensures
        leads(ids_json(span), outside(1), outside(2)),
{
    let o = outside(2);
    let a = "{\"traceId\":"@;
    let b = a + json_string(span.trace_id@);
    let c = b + ",\"id\":"@;
    let d = c + json_string(span.span_id@);
    lemma_id_keys_lead();
    lemma_json_string_leads(span.trace_id@, 2);
    lemma_json_string_leads(span.span_id@, 2);
    lemma_leads_join(a, json_string(span.trace_id@), outside(1), o, o);
    lemma_leads_join(b, ",\"id\":"@, outside(1), o, o);
    lemma_leads_join(c, json_string(span.span_id@), outside(1), o, o);
    match span.parent_id {
        Some(id) => {
            lemma_json_string_leads(id@, 2);
            lemma_leads_join(",\"parentId\":"@, json_string(id@), o, o, o);
        },
        None => lemma_empty_leads(o),
    }
    lemma_leads_join(d, parent_json(span.parent_id), outside(1), o, o);
}

/// A span's name and times stay within its object.
proof fn lemma_times_lead(span: SpanData)
    ensures
        leads(times_json(span), outside(2), outside(2)),
{
    let o = outside(2);
    let a = ",\"name\":"@;
    let b = a + json_string(span.name@);
    let c = b + ",\"timestamp\":"@;
    let d = c + decimal(span.start_time_us as nat);
    let e = d + ",\"duration\":"@;
    lemma_time_keys_lead();
    lemma_json_string_leads(span.name@, 2);
    lemma_decimal_leads(span.start_time_us as nat, 2);
    lemma_decimal_leads(span.duration_us as nat, 2);
    lemma_leads_join(a, json_string(span.name@), o, o, o);
    lemma_leads_join(b, ",\"timestamp\":"@, o, o, o);
    lemma_leads_join(c, decimal(span.start_time_us as nat), o, o, o);
    lemma_leads_join(d, ",\"duration\":"@, o, o, o);
    lemma_leads_join(e, decimal(span.duration_us as nat), o, o, o);
}

/// A span's service and tags close its object.
proof fn lemma_context_leads(globals: GlobalState, span: SpanData)
    ensures
        leads(context_json(globals, span), outside(2), outside(1)),
{
    let tags = tags_json(with_tags(globals.global_tags@, span.local_tags@));
    let a = ",\"localEndpoint\":{\"serviceName\":"@;
    let b = a + json_string(globals.service_name@);
    let c = b + "},\"tags\":{"@;
    let d = c + tags;
    lemma_context_keys_lead();
    lemma_json_string_leads(globals.service_name@, 3);
    lemma_tags_lead(with_tags(globals.global_tags@, span.local_tags@), 3);
    lemma_leads_join(a, json_string(globals.service_name@), outside(2), outside(3), outside(3));
    lemma_leads_join(b, "},\"tags\":{"@, outside(2), outside(3), outside(3));
    lemma_leads_join(c, tags, outside(2), outside(3), outside(3));
    lemma_leads_join(d, "}}"@, outside(2), outside(3), outside(1));
}

/// Whatever texts a span holds, it is one item of the array.
proof fn lemma_span_leads(globals: GlobalState, span: SpanData)
    ensures
        leads(span_json(globals, span), outside(1), outside(1)),
        span_json(globals, span).len() > 0,
{
    reveal_strlit("{\"traceId\":");
    lemma_ids_lead(span);
    lemma_times_lead(span);
    lemma_context_leads(globals, span);
    lemma_leads_join(ids_json(span), times_json(span), outside(1), outside(2), outside(2));
    lemma_leads_join(
        ids_json(span) + times_json(span),
        context_json(globals, span),
        outside(1),
        outside(2),
        outside(1),
    );
}

/// A reader at the start of an item that reads spans has all of them but the
/// last behind it, and the last one at hand.
proof fn lemma_scan_spans(start: Scan, globals: GlobalState, spans: Seq<SpanData>)
    requires
        start.mode == outside(1),
        start.item.len() == 0,
        spans.len() > 0,
    ensures
        scan(start, spans_json(globals, spans), spans_json(globals, spans).len()) == (Scan {
            mode: outside(1),
            item: span_json(globals, spans.last()),
            items: start.items + span_items(globals, spans.drop_last()),
        }),
    decreases spans.len(),
{
    let last = span_json(globals, spans.last());
    lemma_span_leads(globals, spans.last());
    if spans.len() == 1 {
        lemma_scan_leads(start, last, outside(1));
        assert(start.item + last =~= last);
        assert(start.items + span_items(globals, spans.drop_last()) =~= start.items);
    } else {
        let front = spans.drop_last();
        let written = spans_json(globals, front);
        lemma_scan_spans(start, globals, front);
        let after_front = scan(start, written, written.len());
        reveal_strlit(",");
        assert(","@ =~= seq![',']);
        lemma_scan_join(start, written, ","@, 1);
        reveal_with_fuel(scan, 2);
        let after_comma = scan(after_front, ","@, 1);
        lemma_span_leads(globals, front.last());
        assert(after_comma == scan_step(after_front, ','));
        assert(after_comma.item =~= Seq::<char>::empty());
        lemma_scan_join(start, written + ","@, last, last.len());
        lemma_scan_leads(after_comma, last, outside(1));
        assert(after_comma.item + last =~= last);
        assert(after_comma.items =~= start.items + span_items(globals, spans.drop_last()));
    }
}

/// Read as a JSON array, the payload of a batch has one item for each span, in
/// order, whatever texts the spans hold.
pub proof fn lemma_payload_items(globals: GlobalState, spans: Seq<SpanData>)
    ensures
        array_items(payload(globals, spans)) == span_items(globals, spans),
{
    reveal_strlit("[");
    reveal_strlit("]");
    let start = Scan { mode: outside(0), item: Seq::empty(), items: Seq::empty() };
    let written = spans_json(globals, spans);
    reveal_with_fuel(scan, 2);
    let opened = scan(start, "["@, 1);
    assert(opened == scan_step(start, '['));
    assert(opened == (Scan { mode: outside(1), item: Seq::empty(), items: Seq::empty() }));
    lemma_scan_join(start, "["@, written, written.len());
    lemma_scan_join(start, "["@ + written, "]"@, 1);
    let read = scan(opened, written, written.len());
    assert(scan(read, "]"@, 1) == scan_step(read, ']'));
    if spans.len() > 0 {
        lemma_scan_spans(opened, globals, spans);
        lemma_span_leads(globals, spans.last());
        assert(span_items(globals, spans.drop_last()).push(span_json(globals, spans.last()))
            =~= span_items(globals, spans));
    }
    assert(array_items(payload(globals, spans)) =~= span_items(globals, spans));
}

/// The items of two batches put together are those of one and then those of
/// the other.
proof fn lemma_span_items_join(globals: GlobalState, a: Seq<SpanData>, b: Seq<SpanData>)
    ensures
        span_items(globals, a + b) == span_items(globals, a) + span_items(globals, b),
{
    let joined = span_items(globals, a) + span_items(globals, b);
    assert forall|i: int| 0 <= i < (a + b).len() implies #[trigger] span_items(globals, a + b)[i]
        == joined[i] by {
        if i < a.len() {
            assert((a + b)[i] == a[i]);
        } else {
            assert((a + b)[i] == b[i - a.len()]);
        }
    }
    assert(span_items(globals, a + b) =~= joined);
}

/// The payload of no spans is the empty array.
pub proof fn lemma_empty_payload(globals: GlobalState)
    ensures
        payload(globals, Seq::empty()) == "[]"@,
{
    reveal_strlit("[");
    reveal_strlit("]");
    reveal_strlit("[]");
    assert(payload(globals, Seq::empty()) =~= "[]"@);
}

/// The payload of two batches put together has the items of both, in order: no
/// span is lost, merged or repeated.
pub proof fn lemma_payloads_join(globals: GlobalState, a: Seq<SpanData>, b: Seq<SpanData>)
    ensures
        array_items(payload(globals, a + b)) == array_items(payload(globals, a)) + array_items(
            payload(globals, b),
        ),
{
    lemma_payload_items(globals, a);
    lemma_payload_items(globals, b);
    lemma_payload_items(globals, a + b);
    lemma_span_items_join(globals, a, b);
}

// ------------------------------------------------------------ members of a span

/// The value of the member for the service.
spec fn endpoint_value(globals: GlobalState) -> Seq<char> {
    seq!['{'] + field("serviceName"@, json_string(globals.service_name@)) + seq!['}']
}

/// The value of the member for the tags.
spec fn tags_value(globals: GlobalState, span: SpanData) -> Seq<char> {
    seq!['{'] + tags_json(with_tags(globals.global_tags@, span.local_tags@)) + seq!['}']
}

/// The keys of a span are plain.
proof fn lemma_keys_are_plain()
    ensures
        leads("traceId"@, inside(1), inside(1)),
        leads("id"@, inside(1), inside(1)),
        leads("parentId"@, inside(1), inside(1)),
        leads("name"@, inside(1), inside(1)),
        leads("timestamp"@, inside(1), inside(1)),
        leads("duration"@, inside(1), inside(1)),
        leads("localEndpoint"@, inside(1), inside(1)),
        leads("serviceName"@, inside(1), inside(1)),
        leads("tags"@, inside(1), inside(1)),
{
    lemma_span_keys();
    reveal_with_fuel(track, 14);
}

/// The letters of the keys of a span.
proof fn lemma_span_keys()
    ensures
        "traceId"@ == seq!['t', 'r', 'a', 'c', 'e', 'I', 'd'],
        "id"@ == seq!['i', 'd'],
        "parentId"@ == seq!['p', 'a', 'r', 'e', 'n', 't', 'I', 'd'],
        "name"@ == seq!['n', 'a', 'm', 'e'],
        "timestamp"@ == seq!['t', 'i', 'm', 'e', 's', 't', 'a', 'm', 'p'],
        "duration"@ == seq!['d', 'u', 'r', 'a', 't', 'i', 'o', 'n'],
        "localEndpoint"@ == seq![
            'l', 'o', 'c', 'a', 'l', 'E', 'n', 'd', 'p', 'o', 'i', 'n', 't',
        ],
        "serviceName"@ == seq!['s', 'e', 'r', 'v', 'i', 'c', 'e', 'N', 'a', 'm', 'e'],
        "tags"@ == seq!['t', 'a', 'g', 's'],
{
    reveal_strlit("traceId");
    reveal_strlit("id");
    reveal_strlit("parentId");
    reveal_strlit("name");
    reveal_strlit("timestamp");
    reveal_strlit("duration");
    reveal_strlit("localEndpoint");
    reveal_strlit("serviceName");
    reveal_strlit("tags");
    assert("traceId"@ =~= seq!['t', 'r', 'a', 'c', 'e', 'I', 'd']);
    assert("id"@ =~= seq!['i', 'd']);
    assert("parentId"@ =~= seq!['p', 'a', 'r', 'e', 'n', 't', 'I', 'd']);
    assert("name"@ =~= seq!['n', 'a', 'm', 'e']);
    assert("timestamp"@ =~= seq!['t', 'i', 'm', 'e', 's', 't', 'a', 'm', 'p']);
    assert("duration"@ =~= seq!['d', 'u', 'r', 'a', 't', 'i', 'o', 'n']);
    assert("localEndpoint"@ =~= seq![
        'l', 'o', 'c', 'a', 'l', 'E', 'n', 'd', 'p', 'o', 'i', 'n', 't',
    ]);
    assert("serviceName"@ =~= seq!['s', 'e', 'r', 'v', 'i', 'c', 'e', 'N', 'a', 'm', 'e']);
    assert("tags"@ =~= seq!['t', 'a', 'g', 's']);
}

/// A comma and a plain key with its colon.
spec fn next_key(key: Seq<char>) -> Seq<char> {
    seq![','] + (seq!['"'] + key + seq!['"', ':'])
}

/// The fixed parts of a span are its keys and what encloses them.
proof fn lemma_fixed_parts()
    ensures
        "{\"traceId\":"@ == seq!['{'] + (seq!['"'] + "traceId"@ + seq!['"', ':']),
        ",\"id\":"@ == next_key("id"@),
        ",\"parentId\":"@ == next_key("parentId"@),
        ",\"name\":"@ == next_key("name"@),
        ",\"timestamp\":"@ == next_key("timestamp"@),
        ",\"duration\":"@ == next_key("duration"@),
        ",\"localEndpoint\":{\"serviceName\":"@ == next_key("localEndpoint"@) + (seq!['{', '"']
            + "serviceName"@ + seq!['"', ':']),
        "},\"tags\":{"@ == seq!['}'] + next_key("tags"@) + seq!['{'],
        "}}"@ == seq!['}', '}'],
{
    lemma_span_keys();
    reveal_strlit("{\"traceId\":");
    reveal_strlit(",\"id\":");
    reveal_strlit(",\"parentId\":");
    reveal_strlit(",\"name\":");
    reveal_strlit(",\"timestamp\":");
    reveal_strlit(",\"duration\":");
    reveal_strlit(",\"localEndpoint\":{\"serviceName\":");
    reveal_strlit("},\"tags\":{");
    reveal_strlit("}}");
    assert("{\"traceId\":"@ =~= seq!['{'] + (seq!['"'] + "traceId"@ + seq!['"', ':']));
    assert(",\"id\":"@ =~= next_key("id"@));
    assert(",\"parentId\":"@ =~= next_key("parentId"@));
    assert(",\"name\":"@ =~= next_key("name"@));
    assert(",\"timestamp\":"@ =~= next_key("timestamp"@));
    assert(",\"duration\":"@ =~= next_key("duration"@));
    assert(",\"localEndpoint\":{\"serviceName\":"@ =~= next_key("localEndpoint"@) + (seq!['{', '"']
        + "serviceName"@ + seq!['"', ':']));
    assert("},\"tags\":{"@ =~= seq!['}'] + next_key("tags"@) + seq!['{']);
    assert("}}"@ =~= seq!['}', '}']);
}

/// The member for the parent, if there is one.
spec fn parent_members(parent_id: Option<String>) -> Seq<Seq<char>> {
    match parent_id {
        Some(id) => seq![field("parentId"@, json_string(id@))],
        None => Seq::empty(),
    }
}

/// The members of a span that come last.
spec fn later_members(globals: GlobalState, span: SpanData) -> Seq<Seq<char>> {
    seq![
        field("name"@, json_string(span.name@)),
        field("timestamp"@, decimal(span.start_time_us as nat)),
        field("duration"@, decimal(span.duration_us as nat)),
        field("localEndpoint"@, endpoint_value(globals)),
        field("tags"@, tags_value(globals, span)),
    ]
}

/// The members of a span.
spec fn span_members(globals: GlobalState, span: SpanData) -> Seq<Seq<char>> {
    seq![
        field("traceId"@, json_string(span.trace_id@)),
        field("id"@, json_string(span.span_id@)),
    ] + parent_members(span.parent_id) + later_members(globals, span)
}

/// A reader that has read a span's identifiers has the last of them at hand.
proof fn lemma_scan_ids(span: SpanData) -> (s: Scan)
    ensures
        s == scan(
            Scan { mode: outside(0), item: Seq::empty(), items: Seq::empty() },
            ids_json(span),
            ids_json(span).len(),
        ),
        s.mode == outside(1),
        s.item.len() > 0,
        s.items.push(s.item) == seq![
            field("traceId"@, json_string(span.trace_id@)),
            field("id"@, json_string(span.span_id@)),
        ] + parent_members(span.parent_id),
{
    lemma_fixed_parts();
    lemma_keys_are_plain();
    let start = Scan { mode: outside(0), item: Seq::empty(), items: Seq::empty() };
    let quoted = seq!['"'] + "traceId"@ + seq!['"', ':'];
    let a = "{\"traceId\":"@;
    let trace = json_string(span.trace_id@);
    let id = json_string(span.span_id@);
    lemma_json_string_leads(span.trace_id@, 1);
    lemma_json_string_leads(span.span_id@, 1);
    reveal_with_fuel(scan, 2);
    let opened = scan(start, seq!['{'], 1);
    assert(opened == scan_step(start, '{'));
    lemma_key_leads("traceId"@);
    lemma_scan_join(start, seq!['{'], quoted, quoted.len());
    lemma_scan_leads(opened, quoted, outside(1));
    assert(opened.item + quoted =~= quoted);
    let keyed = scan(start, a, a.len());
    lemma_scan_leads(keyed, trace, outside(1));
    lemma_scan_join(start, a, trace, trace.len());
    assert(quoted + trace =~= field("traceId"@, trace));
    lemma_scan_field(start, a + trace, ",\"id\":"@, "id"@, id);
    let b = a + trace + ",\"id\":"@ + id;
    let after = scan(start, b, b.len());
    assert(after.items =~= seq![field("traceId"@, trace)]);
    match span.parent_id {
        Some(parent) => {
            lemma_json_string_leads(parent@, 1);
            lemma_scan_field(start, b, ",\"parentId\":"@, "parentId"@, json_string(parent@));
            assert(b + ",\"parentId\":"@ + json_string(parent@) =~= ids_json(span));
            let end = scan(start, ids_json(span), ids_json(span).len());
            assert(end.items.push(end.item) =~= seq![
                field("traceId"@, trace),
                field("id"@, id),
            ] + parent_members(span.parent_id));
            end
        },
        None => {
            assert(b =~= ids_json(span));
            assert(after.items.push(after.item) =~= seq![
                field("traceId"@, trace),
                field("id"@, id),
            ] + parent_members(span.parent_id));
            after
        },
    }
}

/// A reader that has read an item, then a span's name and times.
proof fn lemma_scan_times(s: Scan, span: SpanData) -> (r: Scan)
    requires
        s.mode == outside(1),
        s.item.len() > 0,
    ensures
        r == scan(s, times_json(span), times_json(span).len()),
        r.mode == outside(1),
        r.item.len() > 0,
        r.items.push(r.item) == s.items.push(s.item) + seq![
            field("name"@, json_string(span.name@)),
            field("timestamp"@, decimal(span.start_time_us as nat)),
            field("duration"@, decimal(span.duration_us as nat)),
        ],
{
    lemma_fixed_parts();
    lemma_keys_are_plain();
    let name = json_string(span.name@);
    let stamp = decimal(span.start_time_us as nat);
    let duration = decimal(span.duration_us as nat);
    lemma_json_string_leads(span.name@, 1);
    lemma_decimal_leads(span.start_time_us as nat, 1);
    lemma_decimal_leads(span.duration_us as nat, 1);
    let none = Seq::<char>::empty();
    assert(scan(s, none, 0) == s);
    lemma_scan_field(s, none, ",\"name\":"@, "name"@, name);
    assert(none + ",\"name\":"@ + name =~= ",\"name\":"@ + name);
    let a = ",\"name\":"@ + name;
    lemma_scan_field(s, a, ",\"timestamp\":"@, "timestamp"@, stamp);
    let b = a + ",\"timestamp\":"@ + stamp;
    lemma_scan_field(s, b, ",\"duration\":"@, "duration"@, duration);
    let end = scan(s, times_json(span), times_json(span).len());
    assert(end.items.push(end.item) =~= s.items.push(s.item) + seq![
        field("name"@, name),
        field("timestamp"@, stamp),
        field("duration"@, duration),
    ]);
    end
}

/// The values of the members for the service and the tags are objects.
proof fn lemma_context_values_lead(globals: GlobalState, span: SpanData)
    ensures
        leads(endpoint_value(globals), outside(1), outside(1)),
        leads(tags_value(globals, span), outside(1), outside(1)),
{
    let open = seq!['{'];
    let close = seq!['}'];
    let service = json_string(globals.service_name@);
    let tags = with_tags(globals.global_tags@, span.local_tags@);
    let key = "serviceName"@;
    assert(leads(open, outside(1), outside(2))) by {
        reveal_with_fuel(track, 2);
    }
    assert(leads(close, outside(2), outside(1))) by {
        reveal_with_fuel(track, 2);
    }
    assert(leads(seq!['"'], outside(2), inside(2))) by {
        reveal_with_fuel(track, 2);
    }
    assert(leads(seq!['"', ':'], inside(2), outside(2))) by {
        reveal_with_fuel(track, 3);
    }
    assert(leads(key, inside(2), inside(2))) by {
        lemma_span_keys();
        reveal_with_fuel(track, 12);
    }
    lemma_json_string_leads(globals.service_name@, 2);
    lemma_leads_join(seq!['"'], key, outside(2), inside(2), inside(2));
    lemma_leads_join(seq!['"'] + key, seq!['"', ':'], outside(2), inside(2), outside(2));
    lemma_leads_join(
        seq!['"'] + key + seq!['"', ':'],
        service,
        outside(2),
        outside(2),
        outside(2),
    );
    lemma_leads_join(open, field(key, service), outside(1), outside(2), outside(2));
    lemma_leads_join(open + field(key, service), close, outside(1), outside(2), outside(1));
    lemma_tags_lead(tags, 2);
    lemma_leads_join(open, tags_json(tags), outside(1), outside(2), outside(2));
    lemma_leads_join(open + tags_json(tags), close, outside(1), outside(2), outside(1));
}

/// The last members of a span are its service, its tags and the closing brace.
proof fn lemma_context_parts(globals: GlobalState, span: SpanData)
    ensures
        context_json(globals, span) == next_key("localEndpoint"@) + endpoint_value(globals)
            + next_key("tags"@) + tags_value(globals, span) + seq!['}'],
{
    lemma_fixed_parts();
    let service = json_string(globals.service_name@);
    let tags = tags_json(with_tags(globals.global_tags@, span.local_tags@));
    let k1 = next_key("localEndpoint"@);
    let k2 = next_key("tags"@);
    let q = seq!['{', '"'] + "serviceName"@ + seq!['"', ':'];
    assert(q + service + seq!['}'] =~= endpoint_value(globals));
    assert(context_json(globals, span) == (k1 + q) + service + (seq!['}'] + k2 + seq!['{']) + tags
        + seq!['}', '}']);
    assert((k1 + q) + service + (seq!['}'] + k2 + seq!['{']) + tags + seq!['}', '}'] =~= k1 + (q
        + service + seq!['}']) + k2 + (seq!['{'] + tags + seq!['}']) + seq!['}']);
}

/// Read as a JSON object, a span has these members, in order.
proof fn lemma_span_members(globals: GlobalState, span: SpanData)
    ensures
        members(span_json(globals, span)) == span_members(globals, span),
{
    let start = Scan { mode: outside(0), item: Seq::empty(), items: Seq::empty() };
    let ids = ids_json(span);
    let times = times_json(span);
    let context = context_json(globals, span);
    let a = lemma_scan_ids(span);
    let b = lemma_scan_times(a, span);
    lemma_scan_join(start, ids, times, times.len());
    lemma_scan_join(start, ids + times, context, context.len());
    lemma_context_parts(globals, span);
    lemma_context_values_lead(globals, span);
    lemma_keys_are_plain();
    let endpoint = endpoint_value(globals);
    let tags = tags_value(globals, span);
    let none = Seq::<char>::empty();
    assert(scan(b, none, 0) == b);
    lemma_scan_field(b, none, next_key("localEndpoint"@), "localEndpoint"@, endpoint);
    assert(none + next_key("localEndpoint"@) + endpoint =~= next_key("localEndpoint"@) + endpoint);
    let x = next_key("localEndpoint"@) + endpoint;
    lemma_scan_field(b, x, next_key("tags"@), "tags"@, tags);
    let y = x + next_key("tags"@) + tags;
    lemma_scan_join(b, y, seq!['}'], 1);
    let read = scan(b, y, y.len());
    reveal_with_fuel(scan, 2);
    assert(scan(read, seq!['}'], 1) == scan_step(read, '}'));
    assert(read.items.push(read.item) =~= span_members(globals, span));
}

/// The letters that tell the keys of a span apart.
proof fn lemma_key_letters()
    ensures
        "traceId"@.len() >= 2 && "traceId"@[0] == 't' && "traceId"@[1] == 'r',
        "id"@.len() >= 2 && "id"@[0] == 'i' && "id"@[1] == 'd',
        "parentId"@.len() >= 2 && "parentId"@[0] == 'p' && "parentId"@[1] == 'a',
        "name"@.len() >= 2 && "name"@[0] == 'n' && "name"@[1] == 'a',
        "timestamp"@.len() >= 2 && "timestamp"@[0] == 't' && "timestamp"@[1] == 'i',
        "duration"@.len() >= 2 && "duration"@[0] == 'd' && "duration"@[1] == 'u',
        "localEndpoint"@.len() >= 2 && "localEndpoint"@[0] == 'l' && "localEndpoint"@[1] == 'o',
        "serviceName"@.len() >= 2 && "serviceName"@[0] == 's' && "serviceName"@[1] == 'e',
        "tags"@.len() >= 2 && "tags"@[0] == 't' && "tags"@[1] == 'a',
{
    lemma_span_keys();
}

/// A member of a span is one of those that are written.
proof fn lemma_span_member_cases(
    globals: GlobalState,
    span: SpanData,
    key: Seq<char>,
    value: Seq<char>,
)
    requires
        has_member(span_json(globals, span), key, value),
    ensures
        ({
            let m = field(key, value);
            ||| m == field("traceId"@, json_string(span.trace_id@))
            ||| m == field("id"@, json_string(span.span_id@))
            ||| span.parent_id is Some && m == field(
                "parentId"@,
                json_string(span.parent_id->0@),
            )
            ||| m == field("name"@, json_string(span.name@))
            ||| m == field("timestamp"@, decimal(span.start_time_us as nat))
            ||| m == field("duration"@, decimal(span.duration_us as nat))
            ||| m == field("localEndpoint"@, endpoint_value(globals))
            ||| m == field("tags"@, tags_value(globals, span))
        }),
{
    lemma_span_members(globals, span);
    let all = span_members(globals, span);
    let i = choose|i: int| 0 <= i < all.len() && all[i] == field(key, value);
    let n = parent_members(span.parent_id).len();
    if i >= 2 + n {
        assert(all[i] == later_members(globals, span)[i - 2 - n]);
    } else if i >= 2 {
        assert(all[i] == parent_members(span.parent_id)[i - 2]);
    }
}

/// The members that a span is written with.
proof fn lemma_span_has_members(globals: GlobalState, span: SpanData)
    ensures
        ({
            let j = span_json(globals, span);
            &&& has_member(j, "traceId"@, json_string(span.trace_id@))
            &&& has_member(j, "id"@, json_string(span.span_id@))
            &&& span.parent_id is Some ==> has_member(
                j,
                "parentId"@,
                json_string(span.parent_id->0@),
            )
            &&& has_member(j, "name"@, json_string(span.name@))
            &&& has_member(j, "timestamp"@, decimal(span.start_time_us as nat))
            &&& has_member(j, "duration"@, decimal(span.duration_us as nat))
            &&& has_member(j, "localEndpoint"@, endpoint_value(globals))
            &&& has_member(j, "tags"@, tags_value(globals, span))
        }),
{
    lemma_span_members(globals, span);
    let all = span_members(globals, span);
    let later = later_members(globals, span);
    let n = parent_members(span.parent_id).len() as int;
    assert(all[0] == field("traceId"@, json_string(span.trace_id@)));
    assert(all[1] == field("id"@, json_string(span.span_id@)));
    if span.parent_id is Some {
        assert(all[2] == parent_members(span.parent_id)[0]);
    }
    assert(all[2 + n] == later[0]);
    assert(all[3 + n] == later[1]);
    assert(all[4 + n] == later[2]);
    assert(all[5 + n] == later[3]);
    assert(all[6 + n] == later[4]);
}

/// A reader of a span gets its identifiers, its name and its times back: each
/// member is there once, the texts are read as they are, and the times as the
/// numbers that they are.
pub proof fn lemma_span_is_read_back(globals: GlobalState, span: SpanData)
    ensures
        ({
            let j = span_json(globals, span);
            &&& exists|v: Seq<char>| has_member(j, "traceId"@, v)
            &&& forall|v: Seq<char>| #[trigger]
                has_member(j, "traceId"@, v) ==> string_of(v) == span.trace_id@
            &&& exists|v: Seq<char>| has_member(j, "id"@, v)
            &&& forall|v: Seq<char>| #[trigger]
                has_member(j, "id"@, v) ==> string_of(v) == span.span_id@
            &&& (exists|v: Seq<char>| has_member(j, "parentId"@, v)) <==> span.parent_id is Some
            &&& forall|v: Seq<char>| #[trigger]
                has_member(j, "parentId"@, v) ==> string_of(v) == span.parent_id->0@
            &&& exists|v: Seq<char>| has_member(j, "name"@, v)
            &&& forall|v: Seq<char>| #[trigger]
                has_member(j, "name"@, v) ==> string_of(v) == span.name@
            &&& exists|v: Seq<char>| has_member(j, "timestamp"@, v)
            &&& forall|v: Seq<char>| #[trigger]
                has_member(j, "timestamp"@, v) ==> number_of(v) == span.start_time_us
            &&& exists|v: Seq<char>| has_member(j, "duration"@, v)
            &&& forall|v: Seq<char>| #[trigger]
                has_member(j, "duration"@, v) ==> number_of(v) == span.duration_us
        }),
{
    let j = span_json(globals, span);
    lemma_span_has_members(globals, span);
    lemma_key_letters();
    assert forall|v: Seq<char>| #[trigger] has_member(j, "traceId"@, v) implies string_of(v)
        == span.trace_id@ by {
        lemma_span_member_value(globals, span, "traceId"@, v);
        lemma_string_is_read_back(span.trace_id@);
    }
    assert forall|v: Seq<char>| #[trigger] has_member(j, "id"@, v) implies string_of(v)
        == span.span_id@ by {
        lemma_span_member_value(globals, span, "id"@, v);
        lemma_string_is_read_back(span.span_id@);
    }
    assert forall|v: Seq<char>| #[trigger] has_member(j, "parentId"@, v) implies span.parent_id
        is Some && string_of(v) == span.parent_id->0@ by {
        lemma_span_member_value(globals, span, "parentId"@, v);
        lemma_string_is_read_back(span.parent_id->0@);
    }
    assert forall|v: Seq<char>| #[trigger] has_member(j, "name"@, v) implies string_of(v)
        == span.name@ by {
        lemma_span_member_value(globals, span, "name"@, v);
        lemma_string_is_read_back(span.name@);
    }
    assert forall|v: Seq<char>| #[trigger] has_member(j, "timestamp"@, v) implies number_of(v)
        == span.start_time_us by {
        lemma_span_member_value(globals, span, "timestamp"@, v);
        lemma_decimal_is_read_back(span.start_time_us as nat);
    }
    assert forall|v: Seq<char>| #[trigger] has_member(j, "duration"@, v) implies number_of(v)
        == span.duration_us by {
        lemma_span_member_value(globals, span, "duration"@, v);
        lemma_decimal_is_read_back(span.duration_us as nat);
    }
}

/// Each key of a span has one value.
proof fn lemma_span_member_value(
    globals: GlobalState,
    span: SpanData,
    key: Seq<char>,
    value: Seq<char>,
)
    requires
        has_member(span_json(globals, span), key, value),
        key.len() >= 2,
    ensures
        key == "traceId"@ ==> value == json_string(span.trace_id@),
        key == "id"@ ==> value == json_string(span.span_id@),
        key == "parentId"@ ==> span.parent_id is Some && value == json_string(
            span.parent_id->0@,
        ),
        key == "name"@ ==> value == json_string(span.name@),
        key == "timestamp"@ ==> value == decimal(span.start_time_us as nat),
        key == "duration"@ ==> value == decimal(span.duration_us as nat),
        key == "localEndpoint"@ ==> value == endpoint_value(globals),
        key == "tags"@ ==> value == tags_value(globals, span),
{
    lemma_key_letters();
    lemma_span_member_cases(globals, span, key, value);
    let m = field(key, value);
    if m == field("traceId"@, json_string(span.trace_id@)) {
        lemma_fields_told_apart(key, value, "traceId"@, json_string(span.trace_id@));
    } else if m == field("id"@, json_string(span.span_id@)) {
        lemma_fields_told_apart(key, value, "id"@, json_string(span.span_id@));
    } else if span.parent_id is Some && m == field("parentId"@, json_string(span.parent_id->0@)) {
        lemma_fields_told_apart(key, value, "parentId"@, json_string(span.parent_id->0@));
    } else if m == field("name"@, json_string(span.name@)) {
        lemma_fields_told_apart(key, value, "name"@, json_string(span.name@));
    } else if m == field("timestamp"@, decimal(span.start_time_us as nat)) {
        lemma_fields_told_apart(key, value, "timestamp"@, decimal(span.start_time_us as nat));
    } else if m == field("duration"@, decimal(span.duration_us as nat)) {
        lemma_fields_told_apart(key, value, "duration"@, decimal(span.duration_us as nat));
    } else if m == field("localEndpoint"@, endpoint_value(globals)) {
        lemma_fields_told_apart(key, value, "localEndpoint"@, endpoint_value(globals));
    } else {
        lemma_fields_told_apart(key, value, "tags"@, tags_value(globals, span));
    }
}

/// The member for a tag.
pub open spec fn tag_member(name: Seq<char>, value: Seq<char>) -> Seq<char> {
    json_string(name) + seq![':'] + json_string(value)
}

/// The members of tags.
spec fn tag_members(tags: TagSeq) -> Seq<Seq<char>> {
    Seq::new(tags.len(), |i: int| tag_member(tags[i].0, tags[i].1))
}

proof fn lemma_tags_are_separated(tags: TagSeq)
    ensures
        tags_json(tags) == separated(tag_members(tags)),
    decreases tags.len(),
{
    reveal_strlit(":");
    reveal_strlit(",");
    assert(":"@ =~= seq![':']);
    assert(","@ =~= seq![',']);
    if tags.len() == 1 {
        assert(tag_members(tags)[0] == tag_json(tags[0]));
    } else if tags.len() > 1 {
        lemma_tags_are_separated(tags.drop_last());
        assert(tag_members(tags).drop_last() =~= tag_members(tags.drop_last()));
        assert(tag_members(tags).last() == tag_json(tags.last()));
    }
}

proof fn lemma_tag_members(tags: TagSeq)
    ensures
        members(seq!['{'] + tags_json(tags) + seq!['}']) == tag_members(tags),
{
    reveal_strlit(":");
    assert(":"@ =~= seq![':']);
    lemma_tags_are_separated(tags);
    let all = tag_members(tags);
    assert forall|i: int| 0 <= i < all.len() implies (#[trigger] all[i]).len() > 0 && leads(
        all[i],
        outside(1),
        outside(1),
    ) by {
        lemma_tag_leads(tags[i], 1);
        assert(all[i] == tag_json(tags[i]));
    }
    lemma_members_are_read_back(all);
}

/// A reader of a span gets the service's name back.
pub proof fn lemma_service_is_read_back(globals: GlobalState, span: SpanData)
    ensures
        exists|v: Seq<char>| has_member(span_json(globals, span), "localEndpoint"@, v),
        forall|v: Seq<char>| #[trigger]
            has_member(span_json(globals, span), "localEndpoint"@, v) ==> {
                &&& exists|w: Seq<char>| has_member(v, "serviceName"@, w)
                &&& forall|w: Seq<char>| #[trigger]
                    has_member(v, "serviceName"@, w) ==> string_of(w) == globals.service_name@
            },
{
    let service = json_string(globals.service_name@);
    lemma_span_has_members(globals, span);
    lemma_key_letters();
    lemma_endpoint_members(globals);
    assert forall|v: Seq<char>| #[trigger]
        has_member(span_json(globals, span), "localEndpoint"@, v) implies {
        &&& exists|w: Seq<char>| has_member(v, "serviceName"@, w)
        &&& forall|w: Seq<char>| #[trigger]
            has_member(v, "serviceName"@, w) ==> string_of(w) == globals.service_name@
    } by {
        lemma_span_member_value(globals, span, "localEndpoint"@, v);
        assert(has_member(v, "serviceName"@, service));
        assert forall|w: Seq<char>| #[trigger] has_member(v, "serviceName"@, w) implies string_of(w)
            == globals.service_name@ by {
            lemma_fields_told_apart("serviceName"@, w, "serviceName"@, service);
            lemma_string_is_read_back(globals.service_name@);
        }
    }
}

/// Whether a span is exported with this tag: it is the span's own, or it is a
/// common one that the span has no tag of the same name for.
pub open spec fn has_tag(
    globals: GlobalState,
    span: SpanData,
    name: Seq<char>,
    value: Seq<char>,
) -> bool {
    let common = tag_map(globals.global_tags@);
    let own = tag_map(span.local_tags@);
    if own.dom().contains(name) {
        value == own[name]
    } else {
        common.dom().contains(name) && value == common[name]
    }
}

/// Whether a text is the member for a tag that the span is exported with.
pub open spec fn is_tag_member(globals: GlobalState, span: SpanData, text: Seq<char>) -> bool {
    exists|name: Seq<char>, value: Seq<char>|
        text == #[trigger] tag_member(name, value) && has_tag(globals, span, name, value)
}

/// Whether `texts` are the members for the tags that the span is exported with:
/// each tag has its member, and there are no others.
pub open spec fn tell_tags(globals: GlobalState, span: SpanData, texts: Seq<Seq<char>>) -> bool {
    &&& forall|name: Seq<char>, value: Seq<char>| #[trigger]
        has_tag(globals, span, name, value) ==> texts.contains(tag_member(name, value))
    &&& forall|i: int| 0 <= i < texts.len() ==> is_tag_member(globals, span, #[trigger] texts[i])
}

/// A reader of a span gets a member for each of its tags, and no others.
pub proof fn lemma_tags_are_read_back(globals: GlobalState, span: SpanData)
    requires
        unique_names(globals.global_tags@),
    ensures
        exists|v: Seq<char>| has_member(span_json(globals, span), "tags"@, v),
        forall|v: Seq<char>| #[trigger]
            has_member(span_json(globals, span), "tags"@, v) ==> tell_tags(
                globals,
                span,
                members(v),
            ),
{
    let tags = with_tags(globals.global_tags@, span.local_tags@);
    let all = tag_members(tags);
    let merged = tag_map(tags);
    lemma_span_has_members(globals, span);
    lemma_key_letters();
    lemma_tag_members(tags);
    lemma_with_tags_map(globals.global_tags@, span.local_tags@);
    lemma_tag_map(tags);
    assert forall|name: Seq<char>, value: Seq<char>| #[trigger]
        has_tag(globals, span, name, value) implies all.contains(tag_member(name, value)) by {
        assert(merged.dom().contains(name) && merged[name] == value);
        assert(has_name(tags, name));
        let i = choose|i: int| 0 <= i < tags.len() && (#[trigger] tags[i]).0 == name;
        assert(all[i] == tag_member(name, value));
    }
    assert forall|i: int| 0 <= i < all.len() implies is_tag_member(
        globals,
        span,
        #[trigger] all[i],
    ) by {
        let name = tags[i].0;
        let value = tags[i].1;
        assert(has_name(tags, name));
        assert(merged.dom().contains(name));
        assert(has_tag(globals, span, name, value));
        assert(all[i] == tag_member(name, value));
    }
    assert forall|v: Seq<char>| #[trigger]
        has_member(span_json(globals, span), "tags"@, v) implies tell_tags(
        globals,
        span,
        members(v),
    ) by {
        lemma_span_member_value(globals, span, "tags"@, v);
    }
}

proof fn lemma_endpoint_members(globals: GlobalState)
    ensures
        members(endpoint_value(globals)) == seq![
            field("serviceName"@, json_string(globals.service_name@)),
        ],
        has_member(endpoint_value(globals), "serviceName"@, json_string(globals.service_name@)),
{
    let service = json_string(globals.service_name@);
    let all = seq![field("serviceName"@, service)];
    lemma_keys_are_plain();
    lemma_key_leads("serviceName"@);
    lemma_json_string_leads(globals.service_name@, 1);
    lemma_leads_join(
        seq!['"'] + "serviceName"@ + seq!['"', ':'],
        service,
        outside(1),
        outside(1),
        outside(1),
    );
    lemma_members_are_read_back(all);
    assert(all[0] == field("serviceName"@, service));
}

/// Spans that are written alike have the same identifiers, names and times.
pub proof fn lemma_spans_told_apart(globals: GlobalState, a: SpanData, b: SpanData)
    requires
        span_json(globals, a) == span_json(globals, b),
    ensures
        a.trace_id@ == b.trace_id@,
        a.span_id@ == b.span_id@,
        text_option(a.parent_id) == text_option(b.parent_id),
        a.name@ == b.name@,
        a.start_time_us == b.start_time_us,
        a.duration_us == b.duration_us,
{
    let j = span_json(globals, a);
    lemma_span_is_read_back(globals, a);
    lemma_span_is_read_back(globals, b);
    lemma_span_has_members(globals, a);
    lemma_span_has_members(globals, b);
}

/// Batches with the same payload have the same number of spans, and the same
/// identifiers, names and times, span by span.
pub proof fn lemma_batches_told_apart(
    globals: GlobalState,
    a: Seq<SpanData>,
    b: Seq<SpanData>,
    i: int,
)
    requires
        payload(globals, a) == payload(globals, b),
        0 <= i < a.len(),
    ensures
        a.len() == b.len(),
        a[i].trace_id@ == b[i].trace_id@,
        a[i].span_id@ == b[i].span_id@,
        text_option(a[i].parent_id) == text_option(b[i].parent_id),
        a[i].name@ == b[i].name@,
        a[i].start_time_us == b[i].start_time_us,
        a[i].duration_us == b[i].duration_us,
{
    lemma_payload_items(globals, a);
    lemma_payload_items(globals, b);
    assert(span_items(globals, a).len() == span_items(globals, b).len());
    assert(span_items(globals, a)[i] == span_items(globals, b)[i]);
    lemma_spans_told_apart(globals, a[i], b[i]);
}

// ------------------------------------------------------------ what is recorded

/// Spans are exported if and only if they are named `proof` or `benchmark`; of
/// others nothing is kept.
pub proof fn lemma_proofs_and_benchmarks_are_exported(
    state: SpanState,
    name: Seq<char>,
    parent: Option<&SpanState>,
    clock_ns: u128,
    fields: Seq<Field>,
)
    requires
        state.opened(name, parent, clock_ns, fields),
    ensures
        state.should_export == Some(name == "proof"@ || name == "benchmark"@),
        !(name == "proof"@ || name == "benchmark"@) ==> state.start_ns is None && state.trace_id
            is None && state.span_id is None && state.local_tags is None,
{
}

/// What is exported of a span: its name, the time of its end, the whole
/// microseconds that it was open, its parent, and the tags that it has at its
/// end.
pub proof fn lemma_closed_span_tells_what_happened(
    first: SpanState,
    last: SpanState,
    parent: Option<&SpanState>,
    parent_last: Option<&SpanState>,
    name: Seq<char>,
    opened_ns: u128,
    fields: Seq<Field>,
    data: SpanData,
    closed_ns: u128,
    epoch_us: u64,
)
    requires
        name == "proof"@ || name == "benchmark"@,
        first.opened(name, parent, opened_ns, fields),
        first.keeps_identity(last),
        closed_as(data, last, parent_last, name, closed_ns, epoch_us),
    ensures
        data.name@ == name,
        data.start_time_us == epoch_us,
        opened_ns <= closed_ns && closed_ns - opened_ns < 1000 * 0x1_0000_0000_0000_0000 ==> 1000
            * data.duration_us <= closed_ns - opened_ns < 1000 * (data.duration_us + 1),
        closed_ns < opened_ns ==> data.duration_us == 0,
        parent_last is None ==> data.parent_id is None,
        parent_last is Some ==> text_option(data.parent_id) == text_option(parent_last->0.span_id),
        first.trace_id is Some && data.trace_id@ == first.trace_id->0@,
        first.span_id is Some && data.span_id@ == first.span_id->0@,
        last.local_tags is Some ==> data.local_tags@ == last.local_tags->0@,
{
}

/// Whether `text` shows the value of a field.
pub open spec fn shows(text: Seq<char>, value: FieldValue) -> bool {
    match value {
        FieldValue::Debug(t) => text == t@,
        FieldValue::Str(t) => text == t@,
        FieldValue::Bool(b) => text == if b { "true"@ } else { "false"@ },
        FieldValue::U64(n) => number_of(text) == n,
        FieldValue::I64(n) => if n >= 0 {
            number_of(text) == n
        } else {
            text.len() > 0 && text[0] == '-' && number_of(text.drop_first()) == -n
        },
    }
}

/// A span that was opened with fields has a tag for each of their names, which
/// shows the last value of that name.
pub proof fn lemma_fields_become_tags(
    state: SpanState,
    name: Seq<char>,
    parent: Option<&SpanState>,
    clock_ns: u128,
    fields: Seq<Field>,
    i: int,
)
    requires
        name == "proof"@ || name == "benchmark"@,
        state.opened(name, parent, clock_ns, fields),
        0 <= i < fields.len(),
        forall|j: int| i < j < fields.len() ==> (#[trigger] fields[j]).name@ != fields[i].name@,
    ensures
        state.local_tags is Some,
        tag_map(state.local_tags->0@).dom().contains(fields[i].name@),
        shows(tag_map(state.local_tags->0@)[fields[i].name@], fields[i].value),
{
    let all = field_tags(fields);
    lemma_with_tags_map(TagSeq::empty(), all);
    assert(tag_map(TagSeq::empty()) =~= Map::<Seq<char>, Seq<char>>::empty());
    assert forall|j: int| i < j < all.len() implies (#[trigger] all[j]).0 != all[i].0 by {
        assert(fields[j].name@ != fields[i].name@);
    }
    lemma_last_entry_wins(all, i);
    match fields[i].value {
        FieldValue::U64(n) => lemma_decimal_is_read_back(n as nat),
        FieldValue::I64(n) => lemma_signed_decimal_is_read_back(n as int),
        _ => {},
    }
}

/// The identifiers of an exported span stand for bytes that the operating
/// system gave: eight for the span, and sixteen for the trace where it is not
/// the parent's.
pub proof fn lemma_span_ids_are_drawn(
    state: SpanState,
    name: Seq<char>,
    parent: Option<&SpanState>,
    clock_ns: u128,
    fields: Seq<Field>,
)
    requires
        name == "proof"@ || name == "benchmark"@,
        state.opened(name, parent, clock_ns, fields),
    ensures
        state.span_id is Some && stands_for_draw(state.span_id->0@, 8),
        state.trace_id is Some,
        parent is Some && parent->0.trace_id is Some ==> state.trace_id->0@
            == parent->0.trace_id->0@,
        parent is None || parent->0.trace_id is None ==> stands_for_draw(
            state.trace_id->0@,
            16,
        ),
{
    lemma_drawn_id_stands_for_draw(state.span_id->0@, 8);
    if parent is None || parent->0.trace_id is None {
        lemma_drawn_id_stands_for_draw(state.trace_id->0@, 16);
    }
}

/// Whether a text is the hexadecimal notation of `n` bytes that the operating
/// system gave.
pub open spec fn stands_for_draw(id: Seq<char>, n: nat) -> bool {
    exists|bytes: Seq<u8>| #[trigger]
        draw_outcome(n, true, bytes) && bytes.len() == n && id.len() == 2 * n && hex_decoded(
            encode_utf8(id),
        ) == bytes
}

proof fn lemma_drawn_id_stands_for_draw(id: Seq<char>, n: nat)
    requires
        drawn_id(Some(id), n),
    ensures
        stands_for_draw(id, n),
{
    let (filled, bytes) = choose|filled: bool, bytes: Seq<u8>| #[trigger]
        draw_outcome(n, filled, bytes) && filled && id == hex_encoded(bytes);
    lemma_draw_outcome_len(n, true, bytes);
    lemma_hex_round_trip(bytes);
    assert(draw_outcome(n, true, bytes));
}

/// Spans are posted to the base address, less the slashes at its end and with
/// the span path after it, or to the base address itself where that names the
/// span path.
pub proof fn lemma_endpoint_keeps_base(base: Seq<char>)
    ensures
        has_suffix(base, "/api/v2/spans"@) ==> endpoint_of(base) == base,
        !has_suffix(base, "/api/v2/spans"@) ==> exists|n: int|
            #![trigger base.subrange(0, n)]
            {
                &&& 0 <= n <= base.len()
                &&& endpoint_of(base) == base.subrange(0, n) + "/api/v2/spans"@
                &&& forall|k: int| n <= k < base.len() ==> #[trigger] base[k] == '/'
                &&& n > 0 ==> base[n - 1] != '/'
            },
{
    lemma_without_trailing(base, '/');
    let n = without_trailing(base, '/').len() as int;
    assert(base.subrange(0, n) == without_trailing(base, '/'));
    if n > 0 {
        assert(without_trailing(base, '/')[n - 1] == base[n - 1]);
    }
}

/// A span makes its batch go out if and only if it is the thirty-second, and
/// then the batch is all that waited and the span; else it waits with the
/// others. A tick lets go of all that waits.
pub proof fn lemma_batch_goes_out_when_full(waiting: Seq<SpanData>, span: SpanData)
    requires
        waiting.len() < 32,
    ensures
        waiting.len() == 31 ==> batch_step(waiting, BatchEvent::Span(span)) == (
            Seq::<SpanData>::empty(),
            Some(waiting.push(span)),
        ),
        waiting.len() < 31 ==> batch_step(waiting, BatchEvent::Span(span)) == (
            waiting.push(span),
            None::<Seq<SpanData>>,
        ),
        waiting.len() > 0 ==> batch_step(waiting, BatchEvent::Tick) == (
            Seq::<SpanData>::empty(),
            Some(waiting),
        ),
        waiting.len() == 0 ==> batch_step(waiting, BatchEvent::Tick) == (
            waiting,
            None::<Seq<SpanData>>,
        ),
{
}

/// The common state that is set up first holds the service's name, the device's
/// key, and every extra tag but one of that name; and it stays.
pub proof fn lemma_set_up_holds_device_key(
    before: Option<GlobalState>,
    service_name: Seq<char>,
    device_key: Seq<char>,
    extra: TagSeq,
    after: Option<GlobalState>,
)
    requires
        sets_up(before, service_name, device_key, extra, after),
        unique_names(extra),
    ensures
        before is Some ==> after == before,
        before is None ==> after is Some && {
            let tags = tag_map(after->0.global_tags@);
            &&& after->0.service_name@ == service_name
            &&& tags.dom().contains("device_key"@) && tags["device_key"@] == device_key
            &&& forall|name: Seq<char>| #[trigger]
                tags.dom().contains(name) <==> name == "device_key"@ || tag_map(
                    extra,
                ).dom().contains(name)
            &&& forall|name: Seq<char>| #[trigger]
                tag_map(extra).dom().contains(name) && name != "device_key"@ ==> tags[name]
                    == tag_map(extra)[name]
        },
{
    lemma_with_tag(extra, "device_key"@, device_key);
}

/// What is posted for a batch that is not empty is a JSON array with one item
/// for each span, in order, and says so; for an empty one nothing is posted.
pub proof fn lemma_post_holds_the_batch(
    globals: GlobalState,
    batch: Seq<SpanData>,
    r: Option<Export>,
)
    requires
        posts(globals, batch, r),
    ensures
        r is Some <==> batch.len() > 0,
        r is Some ==> {
            let export = r->0;
            &&& export.count == batch.len()
            &&& array_items(export.payload@).len() == batch.len()
            &&& forall|i: int|
                0 <= i < batch.len() ==> #[trigger] array_items(export.payload@)[i] == span_json(
                    globals,
                    batch[i],
                )
            &&& export.content_type@ == "application/json"@
            &&& export.user_agent@ == "nockpool-miner/zipkin"@
        },
{
    lemma_payload_items(globals, batch);
}

/// A post is reported quietly if and only if a response came that says that it
/// was successful and whose body, if asked for, could be read; it is an error
/// only where no response came.
pub proof fn lemma_only_success_is_quiet(outcome: PostOutcome)
    ensures
        level_of(outcome) == ReportLevel::Debug <==> (outcome matches PostOutcome::Answered { code }
            && 200 <= code <= 299),
        level_of(outcome) == ReportLevel::Error <==> outcome is Failed,
{
}

/// Nothing is recorded of a span that is not exported.
pub proof fn lemma_unexported_spans_record_nothing(
    before: SpanState,
    after: SpanState,
    fields: Seq<Field>,
)
    requires
        before.recorded(after, fields),
        before.should_export != Some(true),
    ensures
        after.should_export == before.should_export,
        after.start_ns == before.start_ns,
        after.trace_id == before.trace_id,
        after.span_id == before.span_id,
        after.local_tags == before.local_tags,
{
}

} // verus!
