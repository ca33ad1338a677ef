//! The record types: the one open focus interval (`I3Log`), the persisted row
//! (`Log`), the consumer-loop message (`Event`), and startup sequence
//! recovery from an existing log.

use vstd::prelude::*;

use crate::clock;
use crate::csvrow;
use crate::digits;
use vstd::slice::slice_to_vec;
use vstd::utf8::encode_utf8;

verus! {

/// The window manager's tag for what kind of tree node a window is.
#[derive(Clone, Copy, Debug, PartialEq, Eq, Structural)]
pub enum NodeType {
    Root,
    Output,
    Con,
    FloatingCon,
    Workspace,
    Dockarea,
}

impl NodeType {
    /// The fixed name under which the tag is written to the log.
    pub open spec fn label_spec(self) -> Seq<char> {
        match self {
            NodeType::Root => "root"@,
            NodeType::Output => "output"@,
            NodeType::Con => "con"@,
            NodeType::FloatingCon => "floating_con"@,
            NodeType::Workspace => "workspace"@,
            NodeType::Dockarea => "dockarea"@,
        }
    }

    /// Writes the tag's log name.
    pub fn label(&self) -> (s: &'static str)
        ensures
            s@ == self.label_spec(),
    {
        match self {
            NodeType::Root => "root",
            NodeType::Output => "output",
            NodeType::Con => "con",
            NodeType::FloatingCon => "floating_con",
            NodeType::Workspace => "workspace",
            NodeType::Dockarea => "dockarea",
        }
    }
}

/// What the consumer loop is sent: a normalized window event with its
/// metadata, the expiry of the delayed token armed for sequence id `Tick`,
/// or the request to flush and stop.
#[derive(Clone, Debug, PartialEq, Eq)]
pub enum Event {
    I3(I3Log),
    Tick(u32),
    Flush,
}

/// The single currently open focus interval: when it started, and the
/// focused window's identity and metadata.
#[derive(Clone, Debug, PartialEq, Eq)]
pub struct I3Log {
    pub start_time: i64,
    pub id: u64,
    pub title: Option<String>,
    pub node_type: NodeType,
    pub output: Option<String>,
    pub class: Option<String>,
    pub role: Option<String>,
}

/// One persisted row: a closed or heartbeat snapshot of a focus interval,
/// keyed by its sequence id.
#[derive(Clone, Debug, PartialEq, Eq)]
pub struct Log {
    pub id: u32,
    pub start_time: String,
    pub end_time: String,
    pub duration: i64,
    pub node_id: u64,
    pub node_title: Option<String>,
    pub node_type: NodeType,
    pub node_output: Option<String>,
    pub node_class: Option<String>,
    pub node_role: Option<String>,
}

/// Copies an optional text field.
fn clone_opt_string(o: &Option<String>) -> (r: Option<String>)
    ensures
        r == *o,
{
    match o {
        Some(s) => Some(s.clone()),
        None => None,
    }
}

impl I3Log {
    /// This interval reopened at `now`: the same window and metadata, a new
    /// start.
    pub open spec fn with_start(self, now: i64) -> I3Log {
        I3Log { start_time: now, ..self }
    }

    /// Reopens the interval at `now`, keeping window and metadata.
    pub fn new_start_at(&self, now: i64) -> (r: I3Log)
        ensures
            r == self.with_start(now),
    {
        I3Log {
            start_time: now,
            id: self.id,
            title: clone_opt_string(&self.title),
            node_type: self.node_type,
            output: clone_opt_string(&self.output),
            class: clone_opt_string(&self.class),
            role: clone_opt_string(&self.role),
        }
    }

    /// Reopens the interval at the clock's current reading.
    pub fn new_start(&self) -> (r: I3Log)
        ensures
            exists|now: i64| clock::time_bounds(now) && r == #[trigger] self.with_start(now),
    {
        let now: i64 = clock::now_seconds();
        self.new_start_at(now)
    }
}

/// Does row `r` record interval `e` as closed (or snapshot) at `now` under
/// sequence id `id`?  The two formatted time columns are the clock module's
/// rendering and are not constrained here.
pub open spec fn row_for(r: Log, id: u32, e: I3Log, now: i64) -> bool {
    &&& r.id == id
    &&& r.duration == now - e.start_time
    &&& r.node_id == e.id
    &&& r.node_title == e.title
    &&& r.node_type == e.node_type
    &&& r.node_output == e.output
    &&& r.node_class == e.class
    &&& r.node_role == e.role
}

impl Log {
    /// The row that closes (or snapshots) interval `e` at `now` under
    /// sequence id `id`: the duration is the elapsed whole seconds, the
    /// window columns carry the interval's metadata.
    pub fn new_at(id: u32, e: &I3Log, now: i64) -> (r: Log)
        requires
            clock::time_bounds(e.start_time),
            clock::time_bounds(now),
        ensures
            row_for(r, id, *e, now),
    {
        Log {
            id,
            start_time: clock::format_local(e.start_time),
            end_time: clock::format_local(now),
            duration: now - e.start_time,
            node_id: e.id,
            node_title: clone_opt_string(&e.title),
            node_type: e.node_type,
            node_output: clone_opt_string(&e.output),
            node_class: clone_opt_string(&e.class),
            node_role: clone_opt_string(&e.role),
        }
    }

    /// The row that closes interval `e` at the clock's current reading.
    pub fn new(id: u32, e: &I3Log) -> (r: Log)
        requires
            clock::time_bounds(e.start_time),
        ensures
            exists|now: i64| clock::time_bounds(now) && #[trigger] row_for(r, id, *e, now),
    {
        let now: i64 = clock::now_seconds();
        Log::new_at(id, e, now)
    }
}

/// What an optional text column holds on disk: the text's bytes, or nothing.
pub open spec fn opt_text_bytes(o: Option<String>) -> Seq<u8> {
    match o {
        Some(s) => encode_utf8(s@),
        None => Seq::empty(),
    }
}

/// The ten column values of a row, in the order they are written.
pub open spec fn row_fields(r: Log) -> Seq<Seq<u8>> {
    seq![
        digits::dec_digits(r.id as nat),
        encode_utf8(r.start_time@),
        encode_utf8(r.end_time@),
        digits::dec_signed(r.duration as int),
        digits::dec_digits(r.node_id as nat),
        opt_text_bytes(r.node_title),
        encode_utf8(r.node_type.label_spec()),
        opt_text_bytes(r.node_output),
        opt_text_bytes(r.node_class),
        opt_text_bytes(r.node_role),
    ]
}

/// The column names written once when a log file is created.
pub open spec fn header_fields() -> Seq<Seq<u8>> {
    seq![
        encode_utf8("id"@),
        encode_utf8("start_time"@),
        encode_utf8("end_time"@),
        encode_utf8("duration"@),
        encode_utf8("node_id"@),
        encode_utf8("node_title"@),
        encode_utf8("node_type"@),
        encode_utf8("node_output"@),
        encode_utf8("node_class"@),
        encode_utf8("node_role"@),
    ]
}

/// The bytes of a text value.
fn str_bytes(s: &str) -> (r: Vec<u8>)
    ensures
        r@ == encode_utf8(s@),
{
    slice_to_vec(s.as_bytes())
}

/// The bytes an optional text column holds on disk.
fn opt_string_bytes(o: &Option<String>) -> (r: Vec<u8>)
    ensures
        r@ == opt_text_bytes(*o),
{
    match o {
        Some(s) => str_bytes(s.as_str()),
        None => Vec::new(),
    }
}

impl Log {
    /// Writes this row as the log file holds it: ten columns in the fixed
    /// order, encoded as `csvrow` fixes, ending in a line feed.
    pub fn encode_row(&self) -> (out: Vec<u8>)
        ensures
            out@ == csvrow::encode_row_spec(row_fields(*self)),
    {
        let mut fields: Vec<Vec<u8>> = Vec::new();
        fields.push(digits::u64_to_dec(self.id as u64));
        fields.push(str_bytes(self.start_time.as_str()));
        fields.push(str_bytes(self.end_time.as_str()));
        fields.push(digits::i64_to_dec(self.duration));
        fields.push(digits::u64_to_dec(self.node_id));
        fields.push(opt_string_bytes(&self.node_title));
        fields.push(str_bytes(self.node_type.label()));
        fields.push(opt_string_bytes(&self.node_output));
        fields.push(opt_string_bytes(&self.node_class));
        fields.push(opt_string_bytes(&self.node_role));
        let out: Vec<u8> = csvrow::encode_row(&fields);
        proof {
            assert(fields.deep_view() =~~= row_fields(*self));
        }
        out
    }
}

/// Writes the header row that starts a fresh log file.
pub fn header_row() -> (out: Vec<u8>)
    ensures
        out@ == csvrow::encode_row_spec(header_fields()),
{
    let mut fields: Vec<Vec<u8>> = Vec::new();
    fields.push(str_bytes("id"));
    fields.push(str_bytes("start_time"));
    fields.push(str_bytes("end_time"));
    fields.push(str_bytes("duration"));
    fields.push(str_bytes("node_id"));
    fields.push(str_bytes("node_title"));
    fields.push(str_bytes("node_type"));
    fields.push(str_bytes("node_output"));
    fields.push(str_bytes("node_class"));
    fields.push(str_bytes("node_role"));
    let out: Vec<u8> = csvrow::encode_row(&fields);
    proof {
        assert(fields.deep_view() =~~= header_fields());
    }
    out
}

/// A fresh file is a well-formed log both before and after its header row is
/// written, so rows appended from then on fall under
/// `lemma_recover_appended_row`.
pub proof fn lemma_fresh_log_wf()
    ensures
        csvrow::wf_log(Seq::<u8>::empty()),
        csvrow::wf_log(csvrow::encode_row_spec(header_fields())),
{
    assert(csvrow::quote_count(Seq::<u8>::empty()) == 0);
    csvrow::lemma_last_record_of_append(Seq::<u8>::empty(), header_fields());
    assert(Seq::<u8>::empty() + csvrow::encode_row_spec(header_fields())
        =~= csvrow::encode_row_spec(header_fields()));
}

/// Recovery idempotence, append side: appending one encoded row to a
/// well-formed log (one whose quotes are balanced and that ends at a record
/// boundary — the empty log, a fresh header, and every log this library
/// writes are such) keeps it well formed, makes that row the last record,
/// and a fresh startup over the result reads the row's sequence id back and
/// continues one past it.
pub proof fn lemma_recover_appended_row(prior: Seq<u8>, r: Log)
    requires
        csvrow::wf_log(prior),
        r.id < u32::MAX,
    ensures
        csvrow::wf_log(prior + csvrow::encode_row_spec(row_fields(r))),
        last_id_spec(prior + csvrow::encode_row_spec(row_fields(r))) == Some(r.id),
        next_sequence_id(Some(prior + csvrow::encode_row_spec(row_fields(r)))) == r.id + 1,
{
    let fields = row_fields(r);
    csvrow::lemma_last_record_of_append(prior, fields);
    digits::lemma_dec_digits_wf(r.id as nat);
    assert(fields[0] == digits::dec_digits(r.id as nat));
    assert(!csvrow::needs_quoting(fields[0])) by {
        assert forall|i: int| 0 <= i < fields[0].len() implies !csvrow::is_special(
            #[trigger] fields[0][i],
        ) by {
            assert(digits::is_digit(fields[0][i]));
        }
    }
    csvrow::lemma_first_field_of_joined(fields);
    digits::lemma_dec_value_of_digits(r.id as nat);
}

/// The sequence id on the last record of a log, when that record's first
/// column is a decimal number that fits: what startup recovery reads.
pub open spec fn last_id_spec(s: Seq<u8>) -> Option<u32> {
    match csvrow::last_record(s) {
        None => None,
        Some(rec) => {
            let f = csvrow::first_field(rec);
            if f.len() > 0 && digits::all_digits(f) && digits::dec_value(f) <= u32::MAX {
                Some(digits::dec_value(f) as u32)
            } else {
                None
            }
        },
    }
}

/// Reads the sequence id of a log's last record, or nothing when the log is
/// empty or its trailing record cannot be read as a numbered row.
pub fn read_last_id(s: &Vec<u8>) -> (r: Option<u32>)
    ensures
        r == last_id_spec(s@),
{
    match csvrow::last_record_of(s) {
        None => None,
        Some(rec) => {
            let f: Vec<u8> = csvrow::first_field_of(&rec);
            digits::parse_u32(&f)
        },
    }
}

/// The first sequence id a fresh session assigns: one past the id on the last
/// readable row, or 1 when there is no log, no row, or no readable trailing
/// row.  A trailing id already at the counter's ceiling cannot be advanced
/// and is treated as no usable prior log, favouring availability.
pub open spec fn next_sequence_id(log: Option<Seq<u8>>) -> u32 {
    match log {
        None => 1,
        Some(s) => match last_id_spec(s) {
            Some(n) => if n < u32::MAX {
                (n + 1) as u32
            } else {
                1
            },
            None => 1,
        },
    }
}

/// Computes the first sequence id for a session from the selected log file's
/// contents (`None` when the file does not exist).
pub fn initial_event_id(log: Option<&Vec<u8>>) -> (r: u32)
    ensures
        r == next_sequence_id(
            match log {
                Some(v) => Some(v@),
                None => None,
            },
        ),
{
    match log {
        None => 1,
        Some(v) => match read_last_id(v) {
            Some(n) => if n < u32::MAX {
                n + 1
            } else {
                1
            },
            None => 1,
        },
    }
}

} // verus!
