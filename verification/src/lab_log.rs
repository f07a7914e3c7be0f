//! The lab log: one line of comma-separated values for each event, written by
//! the transport and read by the analysis.
use crate::text::{
    char_contents, chars_of, decimal, fields, is_space, lemma_decimal_reads_back,
    lemma_trimmed_keeps, number_in, number_up_to, parse_number, push_decimal, split_fields, text_of,
    trim, trimmed,
};
use vstd::prelude::*;
use vstd::string::*;
use vstd::utf8::*;

verus! {

/// Rows after which a writer flushes.
pub const FLUSH_EVERY: usize = 1024;

/// One event.
#[derive(Debug, PartialEq, Eq)]
pub struct LogRecord {
    pub unix_nanos: u128,
    pub role: String,
    pub event: String,
    pub conn_id: u64,
    pub seq: u64,
    pub bytes: usize,
    pub kind: String,
}

/// What a record says.
pub struct RecordView {
    pub unix_nanos: nat,
    pub role: Seq<char>,
    pub event: Seq<char>,
    pub conn_id: u64,
    pub seq: u64,
    pub bytes: nat,
    pub kind: Seq<char>,
}

impl View for LogRecord {
    type V = RecordView;

    open spec fn view(&self) -> RecordView {
        RecordView {
            unix_nanos: self.unix_nanos as nat,
            role: self.role@,
            event: self.event@,
            conn_id: self.conn_id,
            seq: self.seq,
            bytes: self.bytes as nat,
            kind: self.kind@,
        }
    }
}

impl Clone for LogRecord {
    fn clone(&self) -> (r: LogRecord)
        ensures
            r@ == self@,
    {
        LogRecord {
            unix_nanos: self.unix_nanos,
            role: self.role.clone(),
            event: self.event.clone(),
            conn_id: self.conn_id,
            seq: self.seq,
            bytes: self.bytes,
            kind: self.kind.clone(),
        }
    }
}

/// What records say.
pub open spec fn record_views(records: Seq<LogRecord>) -> Seq<RecordView> {
    records.map_values(|r: LogRecord| r@)
}

/// The line that comes first in a log.
pub open spec fn header_text() -> Seq<char> {
    "unix_nanos,role,event,conn_id,seq,bytes,kind"@
}

/// The line that comes first in a log.
pub fn header_line() -> (s: String)
    ensures
        s@ == header_text(),
{
    String::from_str("unix_nanos,role,event,conn_id,seq,bytes,kind")
}

/// The line for an event.
pub open spec fn row_text(r: RecordView) -> Seq<char> {
    decimal(r.unix_nanos) + ","@ + r.role + ","@ + r.event + ","@ + decimal(r.conn_id as nat) + ","@
        + decimal(r.seq as nat) + ","@ + decimal(r.bytes) + ","@ + r.kind
}

/// The line for an event.
pub fn row_line(
    unix_nanos: u128,
    role: &str,
    event: &str,
    conn_id: u64,
    seq: u64,
    bytes: usize,
    kind: &str,
) -> (s: String)
    ensures
        s@ == row_text(
            RecordView {
                unix_nanos: unix_nanos as nat,
                role: role@,
                event: event@,
                conn_id,
                seq,
                bytes: bytes as nat,
                kind: kind@,
            },
        ),
{
    let mut s = String::new();
    push_decimal(&mut s, unix_nanos);
    s.append(",");
    s.append(role);
    s.append(",");
    s.append(event);
    s.append(",");
    push_decimal(&mut s, conn_id as u128);
    s.append(",");
    push_decimal(&mut s, seq as u128);
    s.append(",");
    push_decimal(&mut s, bytes as u128);
    s.append(",");
    s.append(kind);
    assert(Seq::<char>::empty() + decimal(unix_nanos as nat) =~= decimal(unix_nanos as nat));
    s
}

/// Whether a writer flushes after one more row, and the rows since the last
/// flush then.
pub fn after_row(since_flush: usize) -> (r: (bool, usize))
    requires
        since_flush < FLUSH_EVERY,
    ensures
        r.0 == (since_flush + 1 >= FLUSH_EVERY),
        r.1 == if r.0 {
            0
        } else {
            since_flush + 1
        },
        r.1 < FLUSH_EVERY,
{
    if since_flush + 1 >= FLUSH_EVERY {
        (true, 0)
    } else {
        (false, since_flush + 1)
    }
}

/// The record that a line holds: seven fields at least, the first, fourth,
/// fifth and sixth of them numbers, white space around them aside.
pub open spec fn record_in(line: Seq<char>) -> Option<RecordView> {
    let f = fields(line, ',');
    if f.len() < 7 {
        None
    } else {
        match (
            number_up_to(trimmed(f[0]), u128::MAX as nat),
            number_up_to(trimmed(f[3]), u64::MAX as nat),
            number_up_to(trimmed(f[4]), u64::MAX as nat),
            number_up_to(trimmed(f[5]), usize::MAX as nat),
        ) {
            (Some(nanos), Some(conn_id), Some(seq), Some(bytes)) => Some(
                RecordView {
                    unix_nanos: nanos,
                    role: trimmed(f[1]),
                    event: trimmed(f[2]),
                    conn_id: conn_id as u64,
                    seq: seq as u64,
                    bytes,
                    kind: trimmed(f[6]),
                },
            ),
            _ => None,
        }
    }
}

/// The record that a line holds, if it holds one.
pub fn parse_line(line: &[char]) -> (r: Option<LogRecord>)
    ensures
        match r {
            Some(record) => record_in(line@) == Some(record@),
            None => record_in(line@) is None,
        },
{
    let f = split_fields(line, ',');
    assert(f@.len() == fields(line@, ',').len());
    if f.len() < 7 {
        return None;
    }
    assert forall|i: int| 0 <= i < f@.len() implies (#[trigger] f@[i])@ == fields(line@, ',')[i] by {
        assert(char_contents(f@)[i] == f@[i]@);
    }
    let nanos = trim(f[0].as_slice());
    let unix_nanos: u128 = match parse_number(nanos.as_slice(), u128::MAX) {
        Some(n) => n,
        None => {
            return None;
        },
    };
    let conn = trim(f[3].as_slice());
    let conn_id: u64 = match parse_number(conn.as_slice(), u64::MAX as u128) {
        Some(n) => n as u64,
        None => {
            return None;
        },
    };
    let number = trim(f[4].as_slice());
    let seq: u64 = match parse_number(number.as_slice(), u64::MAX as u128) {
        Some(n) => n as u64,
        None => {
            return None;
        },
    };
    let size = trim(f[5].as_slice());
    let bytes: usize = match parse_number(size.as_slice(), usize::MAX as u128) {
        Some(n) => n as usize,
        None => {
            return None;
        },
    };
    let role = trim(f[1].as_slice());
    let event = trim(f[2].as_slice());
    let kind = trim(f[6].as_slice());
    Some(
        LogRecord {
            unix_nanos,
            role: text_of(role.as_slice()),
            event: text_of(event.as_slice()),
            conn_id,
            seq,
            bytes,
            kind: text_of(kind.as_slice()),
        },
    )
}

/// `str::from_utf8`: the text that bytes encode, if they are valid UTF-8.
#[verifier::external_body]
fn utf8_text(bytes: &[u8]) -> (r: Option<String>)
    ensures
        match r {
            Some(s) => valid_utf8(bytes@) && s@ == decode_utf8(bytes@),
            None => !valid_utf8(bytes@),
        },
{
    std::str::from_utf8(bytes).ok().map(|s| s.to_string())
}

/// The lines of a log: what line feeds part, but for an empty last part.
pub open spec fn lines_of(data: Seq<u8>) -> Seq<Seq<u8>> {
    let parts = fields(data, 10u8);
    if parts.last().len() == 0 {
        parts.drop_last()
    } else {
        parts
    }
}

/// Whether `s` begins with `prefix`.
pub open spec fn begins_with(s: Seq<char>, prefix: Seq<char>) -> bool {
    prefix.len() <= s.len() && s.take(prefix.len() as int) == prefix
}

/// The record of line number `i`. The header is passed over, and so is what is
/// no text or holds no record.
pub open spec fn record_of_line(line: Seq<u8>, i: int) -> Option<RecordView> {
    if !valid_utf8(line) {
        None
    } else {
        let text = decode_utf8(line);
        if i == 0 && begins_with(text, "unix_nanos"@) {
            None
        } else if trimmed(text).len() == 0 {
            None
        } else {
            record_in(text)
        }
    }
}

/// The records of the first `n` lines.
pub open spec fn records_of(lines: Seq<Seq<u8>>, n: nat) -> Seq<RecordView>
    decreases n,
{
    if n == 0 {
        Seq::empty()
    } else {
        let before = records_of(lines, (n - 1) as nat);
        match record_of_line(lines[n - 1], n - 1) {
            Some(r) => before.push(r),
            None => before,
        }
    }
}

/// Whether `s` begins with `prefix`.
fn starts_with(s: &[char], prefix: &str) -> (b: bool)
    ensures
        b == begins_with(s@, prefix@),
{
    let p = chars_of(prefix);
    if p.len() > s.len() {
        return false;
    }
    let mut i: usize = 0;
    while i < p.len()
        invariant
            i <= p@.len() <= s@.len(),
            p@ == prefix@,
            forall|j: int| 0 <= j < i ==> s@[j] == p@[j],
        decreases p@.len() - i,
    {
        if s[i] != p[i] {
            assert(s@.take(p@.len() as int)[i as int] != p@[i as int]);
            return false;
        }
        i = i + 1;
    }
    assert(s@.take(p@.len() as int) =~= p@);
    true
}

/// Parts bytes at line feeds.
fn split_lines(data: &[u8]) -> (r: Vec<Vec<u8>>)
    ensures
        crate::cells::contents(r@) == fields(data@, 10u8),
        r@.len() > 0,
{
    let mut done: Vec<Vec<u8>> = Vec::new();
    let mut field: Vec<u8> = Vec::new();
    let mut i: usize = 0;
    assert(data@.take(0) =~= Seq::<u8>::empty());
    assert(crate::cells::contents(done@).push(field@) =~= seq![Seq::<u8>::empty()]);
    while i < data.len()
        invariant
            i <= data@.len(),
            crate::cells::contents(done@).push(field@) == fields(data@.take(i as int), 10u8),
        decreases data@.len() - i,
    {
        let ghost so_far = data@.take(i + 1);
        let ghost before = crate::cells::contents(done@).push(field@);
        assert(so_far.drop_last() =~= data@.take(i as int));
        assert(so_far.last() == data@[i as int]);
        assert(before.last() == field@);
        assert(before.drop_last() =~= crate::cells::contents(done@));
        if data[i] == 10 {
            done.push(field);
            field = Vec::new();
            assert(crate::cells::contents(done@).push(field@) =~= before.push(Seq::empty()));
        } else {
            field.push(data[i]);
            assert(crate::cells::contents(done@).push(field@) =~= before.drop_last().push(
                before.last().push(data@[i as int]),
            ));
        }
        i = i + 1;
    }
    assert(data@.take(i as int) =~= data@);
    let ghost last = field@;
    let ghost before = crate::cells::contents(done@);
    done.push(field);
    assert(crate::cells::contents(done@) =~= before.push(last));
    done
}

/// Reads a log. Lines that hold no record are passed over, so that a log that
/// was cut off can still be read.
pub fn parse_reader(data: &[u8]) -> (records: Vec<LogRecord>)
    ensures
        record_views(records@) == records_of(lines_of(data@), lines_of(data@).len()),
{
    let mut lines = split_lines(data);
    let ghost parts = crate::cells::contents(lines@);
    if lines[lines.len() - 1].len() == 0 {
        lines.pop();
    }
    let ghost all = lines_of(data@);
    assert(crate::cells::contents(lines@) =~= all) by {
        assert(parts.last() == parts[parts.len() - 1]);
    }
    let mut records: Vec<LogRecord> = Vec::new();
    assert(record_views(records@) =~= Seq::empty());
    let mut i: usize = 0;
    while i < lines.len()
        invariant
            i <= lines@.len(),
            crate::cells::contents(lines@) == all,
            record_views(records@) == records_of(all, i as nat),
        decreases lines@.len() - i,
    {
        let ghost before = records@;
        assert(all[i as int] == lines@[i as int]@);
        if let Some(line) = utf8_text(lines[i].as_slice()) {
            let text = chars_of(line.as_str());
            let is_header = i == 0 && starts_with(text.as_slice(), "unix_nanos");
            if !is_header {
                let rest = trim(text.as_slice());
                if rest.len() > 0 {
                    if let Some(record) = parse_line(text.as_slice()) {
                        records.push(record);
                        assert(record_views(records@) =~= record_views(before).push(record@));
                    }
                }
            }
        }
        i = i + 1;
    }
    records
}

/// Whether a text can stand in a field: it holds no comma and no white space
/// at either end.
pub open spec fn is_label(s: Seq<char>) -> bool {
    !s.contains(',') && trimmed(s) == s
}

proof fn lemma_one_field(s: Seq<char>)
    requires
        !s.contains(','),
    ensures
        fields(s, ',') == seq![s],
    decreases s.len(),
{
    if s.len() == 0 {
        assert(s =~= Seq::empty());
    } else {
        let t = s.drop_last();
        assert forall|i: int| 0 <= i < t.len() implies t[i] != ',' by {
            assert(s[i] == t[i]);
            assert(s.contains(s[i]));
        }
        assert(!t.contains(','));
        lemma_one_field(t);
        assert(s.contains(s.last()));
        assert(t.push(s.last()) =~= s);
        assert(seq![t].drop_last().push(seq![t].last().push(s.last())) =~= seq![s]);
    }
}

proof fn lemma_first_field(head: Seq<char>, rest: Seq<char>)
    requires
        !head.contains(','),
    ensures
        fields(head + seq![','] + rest, ',') == seq![head] + fields(rest, ','),
    decreases rest.len(),
{
    let s = head + seq![','] + rest;
    if rest.len() == 0 {
        assert(s.drop_last() =~= head);
        lemma_one_field(head);
        assert(rest =~= Seq::empty());
        assert(seq![head].push(Seq::<char>::empty()) =~= seq![head] + seq![Seq::<char>::empty()]);
    } else {
        let t = rest.drop_last();
        lemma_first_field(head, t);
        assert(s.drop_last() =~= head + seq![','] + t);
        assert(s.last() == rest.last());
        crate::text::lemma_fields_nonempty(t, ',');
        let a = seq![head] + fields(t, ',');
        assert(a.last() == fields(t, ',').last());
        assert(a.drop_last() =~= seq![head] + fields(t, ',').drop_last());
        assert(fields(s, ',') =~= seq![head] + fields(rest, ','));
    }
}

proof fn lemma_decimal_is_label(n: nat)
    ensures
        is_label(decimal(n)),
{
    lemma_decimal_reads_back(n);
    let s = decimal(n);
    assert forall|i: int| 0 <= i < s.len() implies s[i] != ',' by {
        assert(crate::text::is_digit(s[i]));
    }
    assert(crate::text::is_digit(s[0]) && crate::text::is_digit(s.last()));
    lemma_trimmed_keeps(s);
}

proof fn lemma_seven_fields(
    a: Seq<char>,
    b: Seq<char>,
    c: Seq<char>,
    d: Seq<char>,
    e: Seq<char>,
    f: Seq<char>,
    g: Seq<char>,
)
    requires
        !a.contains(',') && !b.contains(',') && !c.contains(',') && !d.contains(','),
        !e.contains(',') && !f.contains(',') && !g.contains(','),
    ensures
        fields(
            a + ","@ + b + ","@ + c + ","@ + d + ","@ + e + ","@ + f + ","@ + g,
            ',',
        ) == seq![a, b, c, d, e, f, g],
{
    reveal_strlit(",");
    let comma = seq![','];
    assert(","@ =~= comma);
    let t5 = f + comma + g;
    let t4 = e + comma + t5;
    let t3 = d + comma + t4;
    let t2 = c + comma + t3;
    let t1 = b + comma + t2;
    let t0 = a + comma + t1;
    lemma_one_field(g);
    lemma_first_field(f, g);
    assert(fields(t5, ',') =~= seq![f, g]);
    lemma_first_field(e, t5);
    assert(fields(t4, ',') =~= seq![e, f, g]);
    lemma_first_field(d, t4);
    assert(fields(t3, ',') =~= seq![d, e, f, g]);
    lemma_first_field(c, t3);
    assert(fields(t2, ',') =~= seq![c, d, e, f, g]);
    lemma_first_field(b, t2);
    assert(fields(t1, ',') =~= seq![b, c, d, e, f, g]);
    lemma_first_field(a, t1);
    assert(fields(t0, ',') =~= seq![a, b, c, d, e, f, g]);
    assert(a + comma + b + comma + c + comma + d + comma + e + comma + f + comma + g =~= t0);
}

/// What is written to the log is what is read from it: the line for an event
/// holds the record of that event.
pub proof fn law_rows_read_back(r: RecordView)
    requires
        r.unix_nanos <= u128::MAX,
        r.bytes <= usize::MAX,
        is_label(r.role) && is_label(r.event) && is_label(r.kind),
    ensures
        record_in(row_text(r)) == Some(r),
{
    let n0 = decimal(r.unix_nanos);
    let n3 = decimal(r.conn_id as nat);
    let n4 = decimal(r.seq as nat);
    let n5 = decimal(r.bytes);
    lemma_decimal_is_label(r.unix_nanos);
    lemma_decimal_is_label(r.conn_id as nat);
    lemma_decimal_is_label(r.seq as nat);
    lemma_decimal_is_label(r.bytes);
    lemma_decimal_reads_back(r.unix_nanos);
    lemma_decimal_reads_back(r.conn_id as nat);
    lemma_decimal_reads_back(r.seq as nat);
    lemma_decimal_reads_back(r.bytes);
    lemma_seven_fields(n0, r.role, r.event, n3, n4, n5, r.kind);
    let f = fields(row_text(r), ',');
    assert(f == seq![n0, r.role, r.event, n3, n4, n5, r.kind]);
    assert(f[0] == n0 && f[1] == r.role && f[2] == r.event && f[3] == n3 && f[4] == n4 && f[5]
        == n5 && f[6] == r.kind);
}

/// A line of a log: the row of an event, or something else.
pub enum LogLine {
    Row(RecordView),
    Noise(Seq<u8>),
}

impl LogLine {
    /// The bytes of the line.
    pub open spec fn bytes(self) -> Seq<u8> {
        match self {
            LogLine::Row(r) => encode_utf8(row_text(r)),
            LogLine::Noise(bytes) => bytes,
        }
    }

    /// Whether the line can stand in a log: a row's numbers fit and its texts are
    /// labels without line feeds, and what is no row is one line that is no
    /// text, is blank or holds no record.
    pub open spec fn fits(self) -> bool {
        match self {
            LogLine::Row(r) => {
                &&& r.unix_nanos <= u128::MAX
                &&& r.bytes <= usize::MAX
                &&& is_label(r.role) && is_label(r.event) && is_label(r.kind)
                &&& is_one_line(r.role) && is_one_line(r.event) && is_one_line(r.kind)
            },
            LogLine::Noise(bytes) => {
                &&& !bytes.contains(10u8)
                &&& valid_utf8(bytes) ==> trimmed(decode_utf8(bytes)).len() == 0 || record_in(
                    decode_utf8(bytes),
                ) is None
            },
        }
    }
}

/// Whether a text holds no line feed.
pub open spec fn is_one_line(s: Seq<char>) -> bool {
    forall|i: int| 0 <= i < s.len() ==> s[i] != '\n'
}

/// A log: the header, and then these lines.
pub open spec fn log_of(lines: Seq<LogLine>) -> Seq<u8>
    decreases lines.len(),
{
    if lines.len() == 0 {
        encode_utf8(header_text()).push(10u8)
    } else {
        (log_of(lines.drop_last()) + lines.last().bytes()).push(10u8)
    }
}

/// The records of the rows among these lines, in order.
pub open spec fn rows_in(lines: Seq<LogLine>) -> Seq<RecordView>
    decreases lines.len(),
{
    if lines.len() == 0 {
        Seq::empty()
    } else {
        match lines.last() {
            LogLine::Row(r) => rows_in(lines.drop_last()).push(r),
            LogLine::Noise(_) => rows_in(lines.drop_last()),
        }
    }
}

/// The bytes of the header and of these lines, line by line.
spec fn lines_with_header(lines: Seq<LogLine>) -> Seq<Seq<u8>>
    decreases lines.len(),
{
    if lines.len() == 0 {
        seq![encode_utf8(header_text())]
    } else {
        lines_with_header(lines.drop_last()).push(lines.last().bytes())
    }
}

/// What follows the last separator, without one itself, joins the last field.
proof fn lemma_fields_grow(s: Seq<u8>, more: Seq<u8>, separator: u8)
    requires
        !more.contains(separator),
    ensures
        fields(s + more, separator) == fields(s, separator).drop_last().push(
            fields(s, separator).last() + more,
        ),
    decreases more.len(),
{
    crate::text::lemma_fields_nonempty(s, separator);
    let f = fields(s, separator);
    if more.len() == 0 {
        assert(s + more =~= s);
        assert(f.last() + more =~= f.last());
        assert(f.drop_last().push(f.last()) =~= f);
    } else {
        let less = more.drop_last();
        assert forall|i: int| 0 <= i < less.len() implies less[i] != separator by {
            assert(more.contains(more[i]));
        }
        lemma_fields_grow(s, less, separator);
        assert((s + more).drop_last() =~= s + less);
        assert(more.contains(more.last()));
        assert((f.last() + less).push(more.last()) =~= f.last() + more);
        assert(f.drop_last().push(f.last() + less).drop_last() =~= f.drop_last());
    }
}

/// A text without a line feed has none in its bytes.
proof fn lemma_no_line_feed(bytes: Seq<u8>)
    requires
        valid_utf8(bytes),
        is_one_line(decode_utf8(bytes)),
    ensures
        !bytes.contains(10u8),
    decreases bytes.len(),
{
    if bytes.len() > 0 {
        let rest = pop_first_scalar(bytes);
        let text = decode_utf8(bytes);
        let n = length_of_first_scalar(bytes);
        assert(text =~= seq![decode_first_scalar(bytes) as char] + decode_utf8(rest));
        assert forall|i: int| 0 <= i < decode_utf8(rest).len() implies decode_utf8(rest)[i]
            != '\n' by {
            assert(text[i + 1] == decode_utf8(rest)[i]);
        }
        lemma_no_line_feed(rest);
        assert(10u8 & 0x7f == 10u8) by (bit_vector);
        assert(text[0] == decode_first_scalar(bytes) as char);
        assert forall|i: int| 0 <= i < bytes.len() implies bytes[i] != 10u8 by {
            if i >= n {
                assert(rest[i - n] == bytes[i]);
                assert(rest.contains(rest[i - n]));
            }
        }
    }
}

/// Something that is not white space stays when white space is cut off the ends.
proof fn lemma_trimmed_keeps_something(s: Seq<char>)
    requires
        s.len() > 0,
        !is_space(s[0]),
    ensures
        trimmed(s).len() > 0,
    decreases s.len(),
{
    if is_space(s.last()) {
        assert(s.drop_last()[0] == s[0]);
        lemma_trimmed_keeps_something(s.drop_last());
    }
}

/// A row is one line, and not blank.
proof fn lemma_row_is_a_line(r: RecordView)
    requires
        LogLine::Row(r).fits(),
    ensures
        is_one_line(row_text(r)),
        trimmed(row_text(r)).len() > 0,
{
    reveal_strlit(",");
    lemma_decimal_reads_back(r.unix_nanos);
    lemma_decimal_reads_back(r.conn_id as nat);
    lemma_decimal_reads_back(r.seq as nat);
    lemma_decimal_reads_back(r.bytes);
    let n0 = decimal(r.unix_nanos);
    let n3 = decimal(r.conn_id as nat);
    let n4 = decimal(r.seq as nat);
    let n5 = decimal(r.bytes);
    assert(crate::text::is_digit(n0[0]));
    assert(is_one_line(n0) && is_one_line(n3) && is_one_line(n4) && is_one_line(n5)) by {
        assert forall|c: char| crate::text::is_digit(c) implies c != '\n' by {}
    }
    assert(is_one_line(","@));
    let s1 = n0 + ","@ + r.role + ","@ + r.event;
    assert(is_one_line(s1));
    let s2 = s1 + ","@ + n3 + ","@ + n4;
    assert(is_one_line(s2));
    assert(row_text(r) =~= s2 + ","@ + n5 + ","@ + r.kind);
    assert(row_text(r)[0] == n0[0]);
    lemma_trimmed_keeps_something(row_text(r));
}

/// The bytes of a line that can stand in a log hold no line feed.
proof fn lemma_line_bytes(line: LogLine)
    requires
        line.fits(),
    ensures
        !line.bytes().contains(10u8),
{
    if let LogLine::Row(r) = line {
        lemma_row_is_a_line(r);
        encode_utf8_valid_utf8(row_text(r));
        encode_utf8_decode_utf8(row_text(r));
        lemma_no_line_feed(line.bytes());
    }
}

/// The header is one line that begins as a header does.
proof fn lemma_header()
    ensures
        !encode_utf8(header_text()).contains(10u8),
        record_of_line(encode_utf8(header_text()), 0) is None,
{
    reveal_strlit("unix_nanos,role,event,conn_id,seq,bytes,kind");
    reveal_strlit("unix_nanos");
    encode_utf8_valid_utf8(header_text());
    encode_utf8_decode_utf8(header_text());
    lemma_no_line_feed(encode_utf8(header_text()));
    assert(header_text().take(10) =~= "unix_nanos"@);
}

/// A log parts into the header and its lines.
proof fn lemma_log_lines(lines: Seq<LogLine>)
    requires
        forall|i: int| 0 <= i < lines.len() ==> (#[trigger] lines[i]).fits(),
    ensures
        fields(log_of(lines), 10u8) == lines_with_header(lines).push(Seq::empty()),
    decreases lines.len(),
{
    lemma_header();
    if lines.len() == 0 {
        let head = encode_utf8(header_text());
        let nothing = Seq::<u8>::empty();
        lemma_fields_grow(nothing, head, 10u8);
        assert(nothing + head =~= head);
        assert(fields(head, 10u8) =~= seq![head]);
        assert(log_of(lines).drop_last() =~= head);
    } else {
        let before = lines.drop_last();
        assert forall|i: int| 0 <= i < before.len() implies (#[trigger] before[i]).fits() by {
            assert(before[i] == lines[i]);
        }
        lemma_log_lines(before);
        let line = lines.last();
        assert(lines[lines.len() - 1].fits());
        lemma_line_bytes(line);
        lemma_fields_grow(log_of(before), line.bytes(), 10u8);
        let f = fields(log_of(before), 10u8);
        assert(f.last() + line.bytes() =~= line.bytes());
        assert(f.drop_last() =~= lines_with_header(before));
        assert(log_of(lines).drop_last() =~= log_of(before) + line.bytes());
    }
}

proof fn lemma_records_of_prefix(a: Seq<Seq<u8>>, b: Seq<Seq<u8>>, n: nat)
    requires
        n <= a.len(),
        n <= b.len(),
        forall|i: int| 0 <= i < n ==> a[i] == b[i],
    ensures
        records_of(a, n) == records_of(b, n),
    decreases n,
{
    if n > 0 {
        lemma_records_of_prefix(a, b, (n - 1) as nat);
    }
}

/// The records of a log's lines are those of its rows.
proof fn lemma_rows_of_lines(lines: Seq<LogLine>)
    requires
        forall|i: int| 0 <= i < lines.len() ==> (#[trigger] lines[i]).fits(),
    ensures
        lines_with_header(lines).len() == lines.len() + 1,
        records_of(lines_with_header(lines), lines_with_header(lines).len()) == rows_in(lines),
    decreases lines.len(),
{
    let all = lines_with_header(lines);
    if lines.len() == 0 {
        lemma_header();
        assert(records_of(all, 0) == Seq::<RecordView>::empty());
        assert(all[0] == encode_utf8(header_text()));
        reveal_with_fuel(records_of, 2);
    } else {
        let before = lines.drop_last();
        assert forall|i: int| 0 <= i < before.len() implies (#[trigger] before[i]).fits() by {
            assert(before[i] == lines[i]);
        }
        lemma_rows_of_lines(before);
        lemma_records_of_prefix(lines_with_header(before), all, lines.len());
        let line = lines.last();
        assert(lines[lines.len() - 1].fits());
        assert(all[lines.len() as int] == line.bytes());
        if let LogLine::Row(r) = line {
            encode_utf8_valid_utf8(row_text(r));
            encode_utf8_decode_utf8(row_text(r));
            lemma_row_is_a_line(r);
            law_rows_read_back(r);
        }
    }
}

/// A whole log reads back: of a header and the rows of events, with blank lines,
/// malformed lines and lines that are no text anywhere between them, exactly the
/// events are read, in order.
pub proof fn law_logs_read_back(lines: Seq<LogLine>)
    requires
        forall|i: int| 0 <= i < lines.len() ==> (#[trigger] lines[i]).fits(),
    ensures
        records_of(lines_of(log_of(lines)), lines_of(log_of(lines)).len()) == rows_in(lines),
{
    lemma_log_lines(lines);
    lemma_rows_of_lines(lines);
    assert(lines_of(log_of(lines)) =~= lines_with_header(lines));
}

/// A row has the columns that the header names, in that order.
pub proof fn law_rows_have_the_header_s_columns(r: RecordView)
    requires
        is_label(r.role) && is_label(r.event) && is_label(r.kind),
    ensures
        fields(row_text(r), ',') == seq![
            decimal(r.unix_nanos),
            r.role,
            r.event,
            decimal(r.conn_id as nat),
            decimal(r.seq as nat),
            decimal(r.bytes),
            r.kind,
        ],
        fields(header_text(), ',') == seq![
            "unix_nanos"@,
            "role"@,
            "event"@,
            "conn_id"@,
            "seq"@,
            "bytes"@,
            "kind"@,
        ],
{
    lemma_decimal_is_label(r.unix_nanos);
    lemma_decimal_is_label(r.conn_id as nat);
    lemma_decimal_is_label(r.seq as nat);
    lemma_decimal_is_label(r.bytes);
    lemma_seven_fields(
        decimal(r.unix_nanos),
        r.role,
        r.event,
        decimal(r.conn_id as nat),
        decimal(r.seq as nat),
        decimal(r.bytes),
        r.kind,
    );
    reveal_strlit("unix_nanos,role,event,conn_id,seq,bytes,kind");
    reveal_strlit("unix_nanos");
    reveal_strlit("role");
    reveal_strlit("event");
    reveal_strlit("conn_id");
    reveal_strlit("seq");
    reveal_strlit("bytes");
    reveal_strlit("kind");
    reveal_strlit(",");
    lemma_seven_fields("unix_nanos"@, "role"@, "event"@, "conn_id"@, "seq"@, "bytes"@, "kind"@);
    assert("unix_nanos"@ + ","@ + "role"@ + ","@ + "event"@ + ","@ + "conn_id"@ + ","@ + "seq"@
        + ","@ + "bytes"@ + ","@ + "kind"@ =~= header_text());
}

/// Which lines hold a record: those of seven fields or more, of which the first,
/// fourth, fifth and sixth are numbers that fit. White space around fields does not
/// matter, and neither does what stands behind the seventh.
pub proof fn law_lines_of_seven_fields_hold_records(line: Seq<char>)
    ensures
        ({
            let f = fields(line, ',');
            let nanos = number_in(trimmed(f[0]));
            let conn = number_in(trimmed(f[3]));
            let seq = number_in(trimmed(f[4]));
            let bytes = number_in(trimmed(f[5]));
            &&& record_in(line) is Some <==> f.len() >= 7 && nanos is Some && nanos->Some_0
                <= u128::MAX && conn is Some && conn->Some_0 <= u64::MAX && seq is Some
                && seq->Some_0 <= u64::MAX && bytes is Some && bytes->Some_0 <= usize::MAX
            &&& record_in(line) is Some ==> record_in(line)->Some_0 == (RecordView {
                unix_nanos: nanos->Some_0,
                role: trimmed(f[1]),
                event: trimmed(f[2]),
                conn_id: conn->Some_0 as u64,
                seq: seq->Some_0 as u64,
                bytes: bytes->Some_0,
                kind: trimmed(f[6]),
            })
        }),
{
}

/// The header is passed over only as the first line; blank lines, and what is no
/// text, hold nothing wherever they stand.
pub proof fn law_only_the_first_line_is_a_header(line: Seq<u8>, i: int)
    ensures
        !valid_utf8(line) ==> record_of_line(line, i) is None,
        i != 0 && valid_utf8(line) && trimmed(decode_utf8(line)).len() > 0 ==> record_of_line(line, i)
            == record_in(decode_utf8(line)),
        valid_utf8(line) && trimmed(decode_utf8(line)).len() == 0 ==> record_of_line(line, i) is None,
        i == 0 && valid_utf8(line) && decode_utf8(line).len() >= 10 && decode_utf8(line).take(10)
            == "unix_nanos"@ ==> record_of_line(line, i) is None,
{
    reveal_strlit("unix_nanos");
}

} // verus!
