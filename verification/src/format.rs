//! The formatter: one record, one line of JSON.
//!
//! A record is rendered as a flat JSON object followed by a line feed. The
//! fixed members come first, in a fixed order; the scope's fields follow in
//! the order in which they were first recorded. A field whose name is that
//! of a fixed member is left out. The rendering is a function of the service
//! name and the record alone.

use crate::record::{Level, Record, RecordKind, RecordView};
use crate::scope::{fields_view, Field, FieldValue, FieldValueView, FieldView};
use vstd::prelude::*;
use vstd::utf8::{encode_utf8, encode_utf8_decode_utf8};

verus! {

pub const QUOTE: u8 = 0x22;

pub const COMMA: u8 = 0x2c;

pub const MINUS: u8 = 0x2d;

pub const DIGIT_ZERO: u8 = 0x30;

pub const COLON: u8 = 0x3a;

pub const BACKSLASH: u8 = 0x5c;

pub const LETTER_U: u8 = 0x75;

pub const OPEN_BRACE: u8 = 0x7b;

pub const CLOSE_BRACE: u8 = 0x7d;

pub const LINE_FEED: u8 = 0x0a;

/// The lower-case hexadecimal digit for a value below 16.
pub open spec fn hex_digit(n: int) -> u8 {
    if n < 10 {
        (0x30 + n) as u8
    } else {
        (0x57 + n) as u8
    }
}

/// How one byte of a text stands inside a JSON string: the quote and the
/// backslash behind a backslash, a control character as `\u00XX`, any other
/// byte as it is.
pub open spec fn escaped_byte(b: u8) -> Seq<u8> {
    if b == QUOTE || b == BACKSLASH {
        seq![BACKSLASH, b]
    } else if b < 0x20 {
        seq![BACKSLASH, LETTER_U, DIGIT_ZERO, DIGIT_ZERO, hex_digit(b as int / 16), hex_digit(b as int % 16)]
    } else {
        seq![b]
    }
}

/// The bytes of a text, each escaped.
pub open spec fn escaped(bytes: Seq<u8>) -> Seq<u8>
    decreases bytes.len(),
{
    if bytes.len() == 0 {
        Seq::empty()
    } else {
        escaped(bytes.drop_last()) + escaped_byte(bytes.last())
    }
}

/// A text as a JSON string: its UTF-8 bytes, escaped, between quotes.
pub open spec fn json_string(text: Seq<char>) -> Seq<u8> {
    seq![QUOTE] + escaped(encode_utf8(text)) + seq![QUOTE]
}

/// A natural number in decimal digits, without leading zeros.
pub open spec fn decimal(n: nat) -> Seq<u8>
    decreases n,
{
    if n < 10 {
        seq![(0x30 + n) as u8]
    } else {
        decimal(n / 10).push((0x30 + n % 10) as u8)
    }
}

/// A whole number as a JSON number.
pub open spec fn json_integer(i: int) -> Seq<u8> {
    if i < 0 {
        seq![MINUS] + decimal((-i) as nat)
    } else {
        decimal(i as nat)
    }
}

/// The word `null`.
pub open spec fn json_null() -> Seq<u8> {
    seq![0x6eu8, 0x75u8, 0x6cu8, 0x6cu8]
}

/// A scope identity as a JSON number, or `null` where there is none.
pub open spec fn json_id(id: Option<u64>) -> Seq<u8> {
    match id {
        Some(n) => decimal(n as nat),
        None => json_null(),
    }
}

/// A field's value as a JSON value.
pub open spec fn json_value(value: FieldValueView) -> Seq<u8> {
    match value {
        FieldValueView::Text(text) => json_string(text),
        FieldValueView::Integer(i) => json_integer(i as int),
    }
}

/// The name under which a level is written.
pub open spec fn level_name(level: Level) -> Seq<char> {
    match level {
        Level::Error => "ERROR"@,
        Level::Warn => "WARN"@,
        Level::Info => "INFO"@,
        Level::Debug => "DEBUG"@,
        Level::Trace => "TRACE"@,
    }
}

/// The name under which a kind of record is written.
pub open spec fn kind_name(kind: RecordKind) -> Seq<char> {
    match kind {
        RecordKind::Event => "event"@,
        RecordKind::ScopeClosed => "close"@,
    }
}

/// The name is that of a fixed member of the line.
pub open spec fn is_reserved(key: Seq<char>) -> bool {
    ||| key == "service"@
    ||| key == "kind"@
    ||| key == "level"@
    ||| key == "msg"@
    ||| key == "time"@
    ||| key == "opened"@
    ||| key == "scope"@
    ||| key == "root"@
    ||| key == "parent"@
    ||| key == "span"@
}

/// A member of the object that is not its first: a comma, the name, a colon
/// and the value.
pub open spec fn entry(key: Seq<char>, value: Seq<u8>) -> Seq<u8> {
    seq![COMMA] + json_string(key) + seq![COLON] + value
}

/// What a field adds to the line: nothing where its name is reserved.
pub open spec fn field_json(field: FieldView) -> Seq<u8> {
    if is_reserved(field.key) {
        Seq::empty()
    } else {
        entry(field.key, json_value(field.value))
    }
}

/// What the fields add to the line, in their order.
pub open spec fn fields_json(fields: Seq<FieldView>) -> Seq<u8>
    decreases fields.len(),
{
    if fields.len() == 0 {
        Seq::empty()
    } else {
        fields_json(fields.drop_last()) + field_json(fields.last())
    }
}

/// What a record says: the opening brace and the members for the service,
/// the kind of record, the level, the message and the time.
pub open spec fn line_message(service: Seq<char>, record: RecordView) -> Seq<u8> {
    seq![OPEN_BRACE] + json_string("service"@) + seq![COLON] + json_string(service) + entry(
        "kind"@,
        json_string(kind_name(record.kind)),
    ) + entry("level"@, json_string(level_name(record.level))) + entry(
        "msg"@,
        json_string(record.message),
    ) + entry("time"@, json_integer(record.time as int))
}

/// Where a record belongs: the members for the time at which the owning
/// scope was opened, its identity, its root, its parent and its name.
pub open spec fn line_scope(record: RecordView) -> Seq<u8> {
    entry("opened"@, json_integer(record.opened_at as int)) + entry(
        "scope"@,
        json_id(record.scope),
    ) + entry("root"@, json_id(record.root)) + entry("parent"@, json_id(record.parent)) + entry(
        "span"@,
        json_string(record.name),
    )
}

/// The line that a record is rendered to: the fixed members, the fields,
/// the closing brace and a line feed.
#[verifier::opaque]
pub open spec fn record_line(service: Seq<char>, record: RecordView) -> Seq<u8> {
    line_message(service, record) + line_scope(record) + fields_json(record.fields)
        + seq![CLOSE_BRACE, LINE_FEED]
}

/// No byte of the text is a control character.
pub open spec fn printable(bytes: Seq<u8>) -> bool {
    forall|i: int| 0 <= i < bytes.len() ==> #[trigger] bytes[i] >= 0x20
}

/// Two printable texts joined are printable.
pub proof fn lemma_printable_join(a: Seq<u8>, b: Seq<u8>)
    requires
        printable(a),
        printable(b),
    ensures
        printable(a + b),
{
    assert forall|i: int| 0 <= i < (a + b).len() implies #[trigger] (a + b)[i] >= 0x20 by {
        if i < a.len() {
            assert((a + b)[i] == a[i]);
        } else {
            assert((a + b)[i] == b[i - a.len()]);
        }
    }
}

/// Escaping leaves no control character.
pub proof fn lemma_escaped_printable(bytes: Seq<u8>)
    ensures
        printable(escaped(bytes)),
    decreases bytes.len(),
{
    if bytes.len() > 0 {
        lemma_escaped_printable(bytes.drop_last());
        lemma_printable_join(escaped(bytes.drop_last()), escaped_byte(bytes.last()));
    }
}

/// A JSON string holds no control character.
pub proof fn lemma_string_printable(text: Seq<char>)
    ensures
        printable(json_string(text)),
{
    lemma_escaped_printable(encode_utf8(text));
    lemma_printable_join(seq![QUOTE], escaped(encode_utf8(text)));
    lemma_printable_join(seq![QUOTE] + escaped(encode_utf8(text)), seq![QUOTE]);
}

/// Decimal digits are no control characters.
pub proof fn lemma_decimal_printable(n: nat)
    ensures
        printable(decimal(n)),
    decreases n,
{
    if n >= 10 {
        lemma_decimal_printable(n / 10);
    }
}

/// A member holds no control character where its value holds none.
pub proof fn lemma_entry_printable(key: Seq<char>, value: Seq<u8>)
    requires
        printable(value),
    ensures
        printable(entry(key, value)),
{
    lemma_string_printable(key);
    lemma_printable_join(seq![COMMA], json_string(key));
    lemma_printable_join(seq![COMMA] + json_string(key), seq![COLON]);
    lemma_printable_join(seq![COMMA] + json_string(key) + seq![COLON], value);
}

/// A JSON number holds no control character.
pub proof fn lemma_integer_printable(i: int)
    ensures
        printable(json_integer(i)),
{
    if i < 0 {
        lemma_decimal_printable((-i) as nat);
        lemma_printable_join(seq![MINUS], decimal((-i) as nat));
    } else {
        lemma_decimal_printable(i as nat);
    }
}

/// An identity, or `null`, holds no control character.
pub proof fn lemma_id_printable(id: Option<u64>)
    ensures
        printable(json_id(id)),
{
    match id {
        Some(n) => lemma_decimal_printable(n as nat),
        None => {},
    }
}

/// The fields add no control character to the line.
pub proof fn lemma_fields_printable(fields: Seq<FieldView>)
    ensures
        printable(fields_json(fields)),
    decreases fields.len(),
{
    if fields.len() > 0 {
        lemma_fields_printable(fields.drop_last());
        let last = fields.last();
        match last.value {
            FieldValueView::Text(text) => lemma_string_printable(text),
            FieldValueView::Integer(i) => lemma_integer_printable(i as int),
        }
        lemma_entry_printable(last.key, json_value(last.value));
        lemma_printable_join(fields_json(fields.drop_last()), field_json(last));
    }
}

/// What a record says holds no control character.
pub proof fn lemma_message_printable(service: Seq<char>, record: RecordView)
    ensures
        printable(line_message(service, record)),
{
    let a0 = seq![OPEN_BRACE] + json_string("service"@);
    let a1 = a0 + seq![COLON];
    let a2 = a1 + json_string(service);
    let e_kind = entry("kind"@, json_string(kind_name(record.kind)));
    let e_level = entry("level"@, json_string(level_name(record.level)));
    let e_msg = entry("msg"@, json_string(record.message));
    let e_time = entry("time"@, json_integer(record.time as int));
    lemma_string_printable("service"@);
    lemma_string_printable(service);
    lemma_printable_join(seq![OPEN_BRACE], json_string("service"@));
    lemma_printable_join(a0, seq![COLON]);
    lemma_printable_join(a1, json_string(service));
    lemma_string_printable(kind_name(record.kind));
    lemma_entry_printable("kind"@, json_string(kind_name(record.kind)));
    lemma_printable_join(a2, e_kind);
    lemma_string_printable(level_name(record.level));
    lemma_entry_printable("level"@, json_string(level_name(record.level)));
    lemma_printable_join(a2 + e_kind, e_level);
    lemma_string_printable(record.message);
    lemma_entry_printable("msg"@, json_string(record.message));
    lemma_printable_join(a2 + e_kind + e_level, e_msg);
    lemma_integer_printable(record.time as int);
    lemma_entry_printable("time"@, json_integer(record.time as int));
    lemma_printable_join(a2 + e_kind + e_level + e_msg, e_time);
}

/// Where a record belongs holds no control character.
pub proof fn lemma_scope_printable(record: RecordView)
    ensures
        printable(line_scope(record)),
{
    let e_opened = entry("opened"@, json_integer(record.opened_at as int));
    let e_scope = entry("scope"@, json_id(record.scope));
    let e_root = entry("root"@, json_id(record.root));
    let e_parent = entry("parent"@, json_id(record.parent));
    let e_span = entry("span"@, json_string(record.name));
    lemma_integer_printable(record.opened_at as int);
    lemma_entry_printable("opened"@, json_integer(record.opened_at as int));
    lemma_id_printable(record.scope);
    lemma_entry_printable("scope"@, json_id(record.scope));
    lemma_printable_join(e_opened, e_scope);
    lemma_id_printable(record.root);
    lemma_entry_printable("root"@, json_id(record.root));
    lemma_printable_join(e_opened + e_scope, e_root);
    lemma_id_printable(record.parent);
    lemma_entry_printable("parent"@, json_id(record.parent));
    lemma_printable_join(e_opened + e_scope + e_root, e_parent);
    lemma_string_printable(record.name);
    lemma_entry_printable("span"@, json_string(record.name));
    lemma_printable_join(e_opened + e_scope + e_root + e_parent, e_span);
}

/// One record, one line: the rendering ends with a line feed and holds no
/// other line feed, nor any other control character, whatever the texts of
/// the record hold.
pub proof fn lemma_one_line(service: Seq<char>, record: RecordView)
    ensures
        record_line(service, record).len() >= 2,
        record_line(service, record).last() == LINE_FEED,
        printable(record_line(service, record).drop_last()),
{
    reveal(record_line);
    let line = record_line(service, record);
    let head = line_message(service, record) + line_scope(record);
    let body = head + fields_json(record.fields);
    lemma_message_printable(service, record);
    lemma_scope_printable(record);
    lemma_printable_join(line_message(service, record), line_scope(record));
    lemma_fields_printable(record.fields);
    lemma_printable_join(head, fields_json(record.fields));
    lemma_printable_join(body, seq![CLOSE_BRACE]);
    assert(line.drop_last() =~= body + seq![CLOSE_BRACE]);
}

/// One field more: what the first `i + 1` fields add is what the first `i`
/// add and then what the next adds.
proof fn lemma_fields_next(fields: Seq<FieldView>, i: int)
    requires
        0 <= i < fields.len(),
    ensures
        fields_json(fields.take(i + 1)) == fields_json(fields.take(i)) + field_json(fields[i]),
{
    assert(fields.take(i + 1).drop_last() =~= fields.take(i));
}

/// Appends the lower-case hexadecimal digit of a value below 16.
fn push_hex_digit(out: &mut Vec<u8>, n: u8)
    requires
        n < 16,
    ensures
        final(out)@ == old(out)@.push(hex_digit(n as int)),
{
    if n < 10 {
        out.push(0x30 + n);
    } else {
        out.push(0x57 + n);
    }
}

/// Appends one byte of a text, escaped.
fn push_escaped_byte(out: &mut Vec<u8>, b: u8)
    ensures
        final(out)@ == old(out)@ + escaped_byte(b),
{
    if b == QUOTE || b == BACKSLASH {
        out.push(BACKSLASH);
        out.push(b);
    } else if b < 0x20 {
        out.push(BACKSLASH);
        out.push(LETTER_U);
        out.push(DIGIT_ZERO);
        out.push(DIGIT_ZERO);
        push_hex_digit(out, b / 16);
        push_hex_digit(out, b % 16);
    } else {
        out.push(b);
    }
    proof {
        assert(out@ =~= old(out)@ + escaped_byte(b));
    }
}

/// Appends a text as a JSON string.
pub fn push_json_string(out: &mut Vec<u8>, text: &str)
    ensures
        final(out)@ == old(out)@ + json_string(text@),
{
    let bytes = text.as_bytes();
    out.push(QUOTE);
    let ghost start = out@;
    let mut i: usize = 0;
    while i < bytes.len()
        invariant
            i <= bytes.len(),
            bytes@ == encode_utf8(text@),
            out@ == start + escaped(bytes@.take(i as int)),
        decreases bytes.len() - i,
    {
        proof {
            assert(bytes@.take(i + 1).drop_last() =~= bytes@.take(i as int));
        }
        push_escaped_byte(out, bytes[i]);
        i = i + 1;
        proof {
            assert(out@ =~= start + escaped(bytes@.take(i as int)));
        }
    }
    out.push(QUOTE);
    proof {
        assert(bytes@.take(bytes.len() as int) =~= bytes@);
        assert(out@ =~= old(out)@ + json_string(text@));
    }
}

/// Appends a natural number in decimal digits.
pub fn push_decimal(out: &mut Vec<u8>, n: u64)
    ensures
        final(out)@ == old(out)@ + decimal(n as nat),
    decreases n,
{
    if n < 10 {
        let digit: u8 = n as u8;
        out.push(0x30 + digit);
        proof {
            assert(out@ =~= old(out)@ + decimal(n as nat));
        }
    } else {
        push_decimal(out, n / 10);
        let digit: u8 = (n % 10) as u8;
        out.push(0x30 + digit);
        proof {
            assert(out@ =~= old(out)@ + decimal(n as nat));
        }
    }
}

/// Appends a whole number as a JSON number.
pub fn push_json_integer(out: &mut Vec<u8>, i: i64)
    ensures
        final(out)@ == old(out)@ + json_integer(i as int),
{
    if i < 0 {
        out.push(MINUS);
        let below: i64 = -(i + 1);
        let magnitude: u64 = below as u64 + 1;
        push_decimal(out, magnitude);
        proof {
            assert(magnitude as int == -(i as int));
            assert(out@ =~= old(out)@ + json_integer(i as int));
        }
    } else {
        push_decimal(out, i as u64);
    }
}

/// Appends a scope identity, or `null`.
pub fn push_json_id(out: &mut Vec<u8>, id: Option<u64>)
    ensures
        final(out)@ == old(out)@ + json_id(id),
{
    match id {
        Some(n) => push_decimal(out, n),
        None => {
            out.push(0x6e);
            out.push(0x75);
            out.push(0x6c);
            out.push(0x6c);
            proof {
                assert(out@ =~= old(out)@ + json_null());
            }
        },
    }
}

/// Appends a comma, the member's name and a colon.
fn push_entry_name(out: &mut Vec<u8>, key: &str)
    ensures
        final(out)@ == old(out)@ + (seq![COMMA] + json_string(key@) + seq![COLON]),
{
    out.push(COMMA);
    push_json_string(out, key);
    out.push(COLON);
    proof {
        assert(out@ =~= old(out)@ + (seq![COMMA] + json_string(key@) + seq![COLON]));
    }
}

/// Appends a member whose value is a text.
fn push_text_entry(out: &mut Vec<u8>, key: &str, text: &str)
    ensures
        final(out)@ == old(out)@ + entry(key@, json_string(text@)),
{
    push_entry_name(out, key);
    push_json_string(out, text);
    proof {
        assert(out@ =~= old(out)@ + entry(key@, json_string(text@)));
    }
}

/// Appends a member whose value is a whole number.
fn push_integer_entry(out: &mut Vec<u8>, key: &str, i: i64)
    ensures
        final(out)@ == old(out)@ + entry(key@, json_integer(i as int)),
{
    push_entry_name(out, key);
    push_json_integer(out, i);
    proof {
        assert(out@ =~= old(out)@ + entry(key@, json_integer(i as int)));
    }
}

/// Appends a member whose value is a scope identity or `null`.
fn push_id_entry(out: &mut Vec<u8>, key: &str, id: Option<u64>)
    ensures
        final(out)@ == old(out)@ + entry(key@, json_id(id)),
{
    push_entry_name(out, key);
    push_json_id(out, id);
    proof {
        assert(out@ =~= old(out)@ + entry(key@, json_id(id)));
    }
}

/// The name under which a level is written.
pub fn level_text(level: Level) -> (name: &'static str)
    ensures
        name@ == level_name(level),
{
    match level {
        Level::Error => "ERROR",
        Level::Warn => "WARN",
        Level::Info => "INFO",
        Level::Debug => "DEBUG",
        Level::Trace => "TRACE",
    }
}

/// The name under which a kind of record is written.
pub fn kind_text(kind: RecordKind) -> (name: &'static str)
    ensures
        name@ == kind_name(kind),
{
    match kind {
        RecordKind::Event => "event",
        RecordKind::ScopeClosed => "close",
    }
}

/// Whether two texts are the same, told from their bytes.
fn same_text(a: &str, b: &str) -> (same: bool)
    ensures
        same == (a@ == b@),
{
    let x = a.as_bytes();
    let y = b.as_bytes();
    proof {
        encode_utf8_decode_utf8(a@);
        encode_utf8_decode_utf8(b@);
    }
    if x.len() != y.len() {
        return false;
    }
    let mut i: usize = 0;
    while i < x.len()
        invariant
            i <= x.len(),
            x.len() == y.len(),
            x@ == encode_utf8(a@),
            y@ == encode_utf8(b@),
            forall|j: int| 0 <= j < i ==> x@[j] == y@[j],
        decreases x.len() - i,
    {
        if x[i] != y[i] {
            return false;
        }
        i = i + 1;
    }
    proof {
        assert(x@ =~= y@);
    }
    true
}

/// Whether a field's name is that of a fixed member.
pub fn is_reserved_key(key: &str) -> (reserved: bool)
    ensures
        reserved == is_reserved(key@),
{
    same_text(key, "service") || same_text(key, "kind") || same_text(key, "level") || same_text(
        key,
        "msg",
    ) || same_text(key, "time") || same_text(key, "opened") || same_text(key, "scope")
        || same_text(key, "root") || same_text(key, "parent") || same_text(key, "span")
}

/// Appends what a field adds to the line.
fn push_field(out: &mut Vec<u8>, field: &Field)
    ensures
        final(out)@ == old(out)@ + field_json(field@),
{
    if is_reserved_key(field.key.as_str()) {
        proof {
            assert(out@ =~= old(out)@ + field_json(field@));
        }
    } else {
        push_entry_name(out, field.key.as_str());
        match &field.value {
            FieldValue::Text(text) => push_json_string(out, text.as_str()),
            FieldValue::Integer(i) => push_json_integer(out, *i),
        }
        proof {
            assert(out@ =~= old(out)@ + field_json(field@));
        }
    }
}

/// Appends what a record says.
fn push_message(out: &mut Vec<u8>, service: &str, record: &Record)
    ensures
        final(out)@ == old(out)@ + line_message(service@, record@),
{
    out.push(OPEN_BRACE);
    push_json_string(out, "service");
    out.push(COLON);
    push_json_string(out, service);
    proof {
        assert(out@ =~= old(out)@ + (seq![OPEN_BRACE] + json_string("service"@) + seq![COLON]
            + json_string(service@)));
    }
    push_text_entry(out, "kind", kind_text(record.kind));
    push_text_entry(out, "level", level_text(record.level));
    push_text_entry(out, "msg", record.message.as_str());
    push_integer_entry(out, "time", record.time);
    proof {
        assert(out@ =~= old(out)@ + line_message(service@, record@));
    }
}

/// Appends where a record belongs.
fn push_scope(out: &mut Vec<u8>, record: &Record)
    ensures
        final(out)@ == old(out)@ + line_scope(record@),
{
    push_integer_entry(out, "opened", record.opened_at);
    push_id_entry(out, "scope", record.scope);
    push_id_entry(out, "root", record.root);
    push_id_entry(out, "parent", record.parent);
    push_text_entry(out, "span", record.name.as_str());
    proof {
        assert(out@ =~= old(out)@ + line_scope(record@));
    }
}

/// Appends what the fields add to the line.
fn push_fields(out: &mut Vec<u8>, fields: &Vec<Field>)
    ensures
        final(out)@ == old(out)@ + fields_json(fields_view(fields@)),
{
    let ghost all = fields_view(fields@);
    let mut i: usize = 0;
    while i < fields.len()
        invariant
            i <= fields.len(),
            all == fields_view(fields@),
            out@ == old(out)@ + fields_json(all.take(i as int)),
        decreases fields.len() - i,
    {
        proof {
            lemma_fields_next(all, i as int);
        }
        push_field(out, &fields[i]);
        i = i + 1;
    }
    proof {
        assert(all.take(fields.len() as int) =~= all);
    }
}

/// Renders a record to its line.
pub fn format_record(service: &str, record: &Record) -> (line: Vec<u8>)
    ensures
        line@ == record_line(service@, record@),
{
    let mut out: Vec<u8> = Vec::new();
    push_message(&mut out, service, record);
    push_scope(&mut out, record);
    push_fields(&mut out, &record.fields);
    out.push(CLOSE_BRACE);
    out.push(LINE_FEED);
    proof {
        reveal(record_line);
        assert(out@ =~= record_line(service@, record@));
    }
    out
}

} // verus!
