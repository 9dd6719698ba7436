//! Comma-separated text.
//!
//! A field is written as it is unless it holds a comma, a double quote, a
//! carriage return or a line feed: then it stands between double quotes, with
//! each double quote inside it written twice. The fields of a record are
//! joined by commas and the record ends with one line feed. A record that
//! would otherwise be an empty line is written as two double quotes.
//!
//! The `csv` crate does the writing, of bytes, and the format is stated over
//! bytes for it ([`document_bytes`]). It is stated over characters too
//! ([`document_text`]), and the two are proved to agree: the rendered text
//! is known character by character.

use vstd::prelude::*;
use vstd::utf8::{decode_utf8, encode_utf8, valid_utf8};

use crate::Error;

verus! {

/// The byte of the comma.
pub const COMMA: u8 = 0x2c;

/// The byte of the double quote.
pub const QUOTE: u8 = 0x22;

/// The byte of the carriage return.
pub const CARRIAGE_RETURN: u8 = 0x0d;

/// The byte of the line feed.
pub const LINE_FEED: u8 = 0x0a;

/// Whether a byte forces the field that holds it between quotes.
pub open spec fn is_special(byte: u8) -> bool {
    byte == COMMA || byte == QUOTE || byte == CARRIAGE_RETURN || byte == LINE_FEED
}

/// Whether a field has to stand between quotes.
pub open spec fn needs_quotes(field: Seq<u8>) -> bool {
    exists|i: int| 0 <= i < field.len() && is_special(#[trigger] field[i])
}

/// The field with every double quote written twice.
pub open spec fn doubled(field: Seq<u8>) -> Seq<u8>
    decreases field.len(),
{
    if field.len() == 0 {
        Seq::empty()
    } else if field.last() == QUOTE {
        doubled(field.drop_last()).push(QUOTE).push(QUOTE)
    } else {
        doubled(field.drop_last()).push(field.last())
    }
}

/// A field as it is written.
pub open spec fn field_bytes(field: Seq<u8>) -> Seq<u8> {
    if needs_quotes(field) {
        seq![QUOTE] + doubled(field) + seq![QUOTE]
    } else {
        field
    }
}

/// The fields as they are written, with a comma between neighbours.
pub open spec fn joined(fields: Seq<Seq<u8>>) -> Seq<u8>
    decreases fields.len(),
{
    if fields.len() == 0 {
        Seq::empty()
    } else if fields.len() == 1 {
        field_bytes(fields[0])
    } else {
        joined(fields.drop_last()).push(COMMA) + field_bytes(fields.last())
    }
}

/// A record as it is written: its fields, or two quotes where they come to
/// nothing, and a line feed.
pub open spec fn record_bytes(fields: Seq<Seq<u8>>) -> Seq<u8> {
    if joined(fields).len() == 0 {
        seq![QUOTE, QUOTE, LINE_FEED]
    } else {
        joined(fields).push(LINE_FEED)
    }
}

/// The records as they are written, one after the other.
pub open spec fn document_bytes(records: Seq<Seq<Seq<u8>>>) -> Seq<u8>
    decreases records.len(),
{
    if records.len() == 0 {
        Seq::empty()
    } else {
        document_bytes(records.drop_last()) + record_bytes(records.last())
    }
}

/// The bytes of each field of a record of strings.
pub open spec fn fields_of(record: Seq<String>) -> Seq<Seq<u8>> {
    Seq::new(record.len(), |i: int| encode_utf8(record[i]@))
}

/// The bytes of each field of each record.
pub open spec fn records_of(records: Seq<Vec<String>>) -> Seq<Seq<Seq<u8>>> {
    Seq::new(records.len(), |i: int| fields_of(records[i]@))
}

/// `csv::Writer::write_record` on a fresh writer with the crate's default
/// settings (comma, line feed, quotes where necessary, quotes doubled), into
/// memory: the bytes that the writer hands back for this one record. They
/// are the record as [`record_bytes`] states it.
///
/// `None` stands for an error of the writer, and none can come: the writer
/// fails only where the sink fails or where a record has another number of
/// fields than the first one, and here the sink is a vector and the record
/// is the first.
#[verifier::external_body]
fn write_record(fields: &Vec<String>) -> (res: Option<Vec<u8>>)
    ensures
        res is Some,
        res matches Some(bytes) ==> bytes@ == record_bytes(fields_of(fields@)),
{
    let mut writer = csv::Writer::from_writer(Vec::new());
    writer.write_record(fields).ok()?;
    writer.into_inner().ok()
}

/// `String::from_utf8`: the string that the bytes encode, where they are
/// valid UTF-8, and `None` where they are not.
#[verifier::external_body]
fn string_from_utf8(bytes: Vec<u8>) -> (res: Option<String>)
    ensures
        res is Some <==> valid_utf8(bytes@),
        res matches Some(text) ==> text@ == decode_utf8(bytes@),
{
    String::from_utf8(bytes).ok()
}

/// The text that written bytes are, given what the writer handed back:
/// `None` stands for a writer that failed. The text is the one that the
/// bytes encode. A writer that failed, and bytes that are no valid UTF-8,
/// give [`Error::FailedToConvertToCSV`].
pub fn text_of_written(written: Option<Vec<u8>>) -> (res: Result<String, Error>)
    ensures
        res is Ok <==> (written matches Some(bytes) && valid_utf8(bytes@)),
        res matches Ok(text) ==> encode_utf8(text@) == written->0@ && text@ == decode_utf8(
            written->0@,
        ),
        res matches Err(e) ==> e is FailedToConvertToCSV,
{
    match written {
        Some(bytes) => {
            let ghost given = bytes@;
            match string_from_utf8(bytes) {
                Some(text) => {
                    proof {
                        vstd::utf8::decode_utf8_encode_utf8(given);
                    }
                    Ok(text)
                },
                None => Err(Error::FailedToConvertToCSV),
            }
        },
        None => Err(Error::FailedToConvertToCSV),
    }
}

/// Writes the records one after the other.
fn write_records(records: &Vec<Vec<String>>) -> (res: Option<Vec<u8>>)
    ensures
        res is Some,
        res matches Some(bytes) ==> bytes@ == document_bytes(records_of(records@)),
{
    let mut out: Vec<u8> = Vec::new();
    let mut i: usize = 0;
    proof {
        assert(records_of(records@).take(0) =~= Seq::empty());
    }
    while i < records.len()
        invariant
            i <= records@.len(),
            out@ == document_bytes(records_of(records@).take(i as int)),
        decreases records@.len() - i,
    {
        let mut line = match write_record(&records[i]) {
            Some(line) => line,
            None => {
                return None;
            },
        };
        proof {
            let head = records_of(records@).take(i + 1);
            assert(head.drop_last() =~= records_of(records@).take(i as int));
            assert(head.last() == fields_of(records@[i as int]@));
        }
        out.append(&mut line);
        i += 1;
    }
    proof {
        assert(records_of(records@).take(i as int) =~= records_of(records@));
    }
    Some(out)
}

/// Renders records of text as comma-separated text, one line for each
/// record. It always succeeds, and the text that comes back is
/// [`document_text`] of the records: the text whose bytes the writer wrote,
/// which are those of [`document_bytes`].
pub fn render_csv(records: &Vec<Vec<String>>) -> (res: Result<String, Error>)
    ensures
        res is Ok,
        res matches Ok(text) ==> text@ == document_text(texts_of(records@)),
        res matches Ok(text) ==> encode_utf8(text@) == document_bytes(records_of(records@)),
{
    proof {
        lemma_strings_are_text(records@);
        lemma_document_is_text(records_of(records@));
        lemma_texts_of(records@);
        lemma_document_text(texts_of(records@));
    }
    text_of_written(write_records(records))
}

/// Doubling the quotes of two pieces and joining them is doubling the quotes
/// of the joined piece.
proof fn lemma_doubled_concat(a: Seq<u8>, b: Seq<u8>)
    ensures
        doubled(a + b) == doubled(a) + doubled(b),
    decreases b.len(),
{
    if b.len() == 0 {
        assert(a + b =~= a);
        assert(doubled(a) + doubled(b) =~= doubled(a));
    } else {
        lemma_doubled_concat(a, b.drop_last());
        assert((a + b).drop_last() =~= a + b.drop_last());
        assert((a + b).last() == b.last());
        assert(doubled(a + b) =~= doubled(a) + doubled(b));
    }
}

/// A piece without quotes is left as it is.
proof fn lemma_doubled_without_quote(piece: Seq<u8>)
    requires
        forall|i: int| 0 <= i < piece.len() ==> piece[i] != QUOTE,
    ensures
        doubled(piece) == piece,
    decreases piece.len(),
{
    if piece.len() > 0 {
        lemma_doubled_without_quote(piece.drop_last());
        assert(piece.drop_last().push(piece.last()) =~= piece);
    }
}

/// Bytes that start with one well-formed character and go on as valid text
/// are valid text.
proof fn lemma_valid_after_first(bytes: Seq<u8>)
    requires
        vstd::utf8::valid_first_scalar(bytes),
        valid_utf8(vstd::utf8::pop_first_scalar(bytes)),
    ensures
        valid_utf8(bytes),
{
}

/// Text stays text when its quotes are doubled.
proof fn lemma_doubled_is_text(bytes: Seq<u8>)
    requires
        valid_utf8(bytes),
    ensures
        valid_utf8(doubled(bytes)),
    decreases bytes.len(),
{
    if bytes.len() == 0 {
        assert(doubled(bytes) =~= bytes);
    } else {
        assert(vstd::utf8::valid_first_scalar(bytes));
        let n = vstd::utf8::length_of_first_scalar(bytes);
        assert(1 <= n <= bytes.len());
        let head = bytes.subrange(0, n);
        let rest = vstd::utf8::pop_first_scalar(bytes);
        assert(bytes =~= head + rest);
        lemma_doubled_is_text(rest);
        lemma_doubled_concat(head, rest);
        let tail = doubled(rest);
        if bytes[0] == QUOTE {
            assert(n == 1);
            assert(head =~= seq![QUOTE]);
            assert(head.drop_last() =~= Seq::empty());
            assert(doubled(head.drop_last()) =~= Seq::empty());
            assert(head.last() == QUOTE);
            assert(doubled(head) =~= seq![QUOTE, QUOTE]);
            let inner = seq![QUOTE] + tail;
            assert(vstd::utf8::pop_first_scalar(inner) =~= tail);
            lemma_valid_after_first(inner);
            let outer = seq![QUOTE, QUOTE] + tail;
            assert(vstd::utf8::pop_first_scalar(outer) =~= inner);
            lemma_valid_after_first(outer);
            assert(doubled(bytes) == outer);
        } else {
            assert forall|i: int| 0 <= i < head.len() implies head[i] != QUOTE by {
                assert(head[i] == bytes[i]);
            }
            lemma_doubled_without_quote(head);
            let out = head + tail;
            assert(forall|i: int| 0 <= i < n ==> out[i] == bytes[i]);
            assert(vstd::utf8::valid_first_scalar(out));
            assert(vstd::utf8::pop_first_scalar(out) =~= tail);
            lemma_valid_after_first(out);
            assert(doubled(bytes) == out);
        }
    }
}

/// One comma, quote or line feed is text.
proof fn lemma_mark_is_text(mark: u8)
    requires
        mark <= 0x7f,
    ensures
        valid_utf8(seq![mark]),
{
    let bytes = seq![mark];
    assert(vstd::utf8::pop_first_scalar(bytes) =~= Seq::empty());
    lemma_valid_after_first(bytes);
}

/// Whether every field of a record is valid text.
pub open spec fn fields_are_text(fields: Seq<Seq<u8>>) -> bool {
    forall|i: int| 0 <= i < fields.len() ==> valid_utf8(#[trigger] fields[i])
}

/// Whether every field of every record is valid text.
pub open spec fn records_are_text(records: Seq<Seq<Seq<u8>>>) -> bool {
    forall|i: int| 0 <= i < records.len() ==> fields_are_text(#[trigger] records[i])
}

proof fn lemma_field_is_text(field: Seq<u8>)
    requires
        valid_utf8(field),
    ensures
        valid_utf8(field_bytes(field)),
{
    if needs_quotes(field) {
        lemma_doubled_is_text(field);
        lemma_mark_is_text(QUOTE);
        vstd::utf8::valid_utf8_concat(seq![QUOTE], doubled(field));
        vstd::utf8::valid_utf8_concat(seq![QUOTE] + doubled(field), seq![QUOTE]);
    }
}

proof fn lemma_joined_is_text(fields: Seq<Seq<u8>>)
    requires
        fields_are_text(fields),
    ensures
        valid_utf8(joined(fields)),
    decreases fields.len(),
{
    if fields.len() == 1 {
        lemma_field_is_text(fields[0]);
    } else if fields.len() > 1 {
        assert(fields_are_text(fields.drop_last())) by {
            assert forall|i: int| 0 <= i < fields.drop_last().len() implies valid_utf8(
                #[trigger] fields.drop_last()[i],
            ) by {
                assert(fields.drop_last()[i] == fields[i]);
            }
        }
        lemma_joined_is_text(fields.drop_last());
        lemma_field_is_text(fields.last());
        lemma_mark_is_text(COMMA);
        let head = joined(fields.drop_last());
        assert(head.push(COMMA) =~= head + seq![COMMA]);
        vstd::utf8::valid_utf8_concat(head, seq![COMMA]);
        vstd::utf8::valid_utf8_concat(head + seq![COMMA], field_bytes(fields.last()));
    }
}

/// Records of text are written as text: if every field is valid UTF-8, so
/// are the bytes of the whole document. Reading the written bytes back as
/// text can then fail on no grid of texts.
pub proof fn lemma_document_is_text(records: Seq<Seq<Seq<u8>>>)
    requires
        records_are_text(records),
    ensures
        valid_utf8(document_bytes(records)),
    decreases records.len(),
{
    if records.len() > 0 {
        assert(records_are_text(records.drop_last())) by {
            assert forall|i: int| 0 <= i < records.drop_last().len() implies fields_are_text(
                #[trigger] records.drop_last()[i],
            ) by {
                assert(records.drop_last()[i] == records[i]);
            }
        }
        lemma_document_is_text(records.drop_last());
        let fields = records.last();
        lemma_joined_is_text(fields);
        lemma_mark_is_text(QUOTE);
        lemma_mark_is_text(LINE_FEED);
        if joined(fields).len() == 0 {
            assert(seq![QUOTE, QUOTE, LINE_FEED] =~= seq![QUOTE] + seq![QUOTE] + seq![LINE_FEED]);
            vstd::utf8::valid_utf8_concat(seq![QUOTE], seq![QUOTE]);
            vstd::utf8::valid_utf8_concat(seq![QUOTE] + seq![QUOTE], seq![LINE_FEED]);
        } else {
            assert(joined(fields).push(LINE_FEED) =~= joined(fields) + seq![LINE_FEED]);
            vstd::utf8::valid_utf8_concat(joined(fields), seq![LINE_FEED]);
        }
        vstd::utf8::valid_utf8_concat(document_bytes(records.drop_last()), record_bytes(fields));
    }
}

/// The fields of records of strings are text.
pub proof fn lemma_strings_are_text(records: Seq<Vec<String>>)
    ensures
        records_are_text(records_of(records)),
{
    assert forall|i: int| 0 <= i < records_of(records).len() implies fields_are_text(
        #[trigger] records_of(records)[i],
    ) by {
        let fields = records_of(records)[i];
        assert forall|j: int| 0 <= j < fields.len() implies valid_utf8(#[trigger] fields[j]) by {
            vstd::utf8::encode_utf8_valid_utf8(records[i]@[j]@);
        }
    }
}

/// Whether a character forces the field that holds it between quotes.
pub open spec fn is_special_char(c: char) -> bool {
    c == ',' || c == '"' || c == '\r' || c == '\n'
}

/// Whether a field of text has to stand between quotes.
pub open spec fn text_needs_quotes(field: Seq<char>) -> bool {
    exists|i: int| 0 <= i < field.len() && is_special_char(#[trigger] field[i])
}

/// The text with every double quote written twice.
pub open spec fn doubled_text(field: Seq<char>) -> Seq<char>
    decreases field.len(),
{
    if field.len() == 0 {
        Seq::empty()
    } else if field.last() == '"' {
        doubled_text(field.drop_last()).push('"').push('"')
    } else {
        doubled_text(field.drop_last()).push(field.last())
    }
}

/// A field of text as it is written.
pub open spec fn field_text(field: Seq<char>) -> Seq<char> {
    if text_needs_quotes(field) {
        seq!['"'] + doubled_text(field) + seq!['"']
    } else {
        field
    }
}

/// The fields of text as they are written, with a comma between neighbours.
pub open spec fn joined_text(fields: Seq<Seq<char>>) -> Seq<char>
    decreases fields.len(),
{
    if fields.len() == 0 {
        Seq::empty()
    } else if fields.len() == 1 {
        field_text(fields[0])
    } else {
        joined_text(fields.drop_last()).push(',') + field_text(fields.last())
    }
}

/// A record of text as it is written: its fields, or two quotes where they
/// come to nothing, and a line feed.
pub open spec fn record_text(fields: Seq<Seq<char>>) -> Seq<char> {
    if joined_text(fields).len() == 0 {
        seq!['"', '"', '\n']
    } else {
        joined_text(fields).push('\n')
    }
}

/// The records of text as they are written, one after the other.
pub open spec fn document_text(records: Seq<Seq<Seq<char>>>) -> Seq<char>
    decreases records.len(),
{
    if records.len() == 0 {
        Seq::empty()
    } else {
        document_text(records.drop_last()) + record_text(records.last())
    }
}

/// The bytes of each field of a record of text.
pub open spec fn encoded_fields(fields: Seq<Seq<char>>) -> Seq<Seq<u8>> {
    Seq::new(fields.len(), |i: int| encode_utf8(fields[i]))
}

/// The bytes of each field of each record of text.
pub open spec fn encoded_records(records: Seq<Seq<Seq<char>>>) -> Seq<Seq<Seq<u8>>> {
    Seq::new(records.len(), |i: int| encoded_fields(records[i]))
}

/// The text of each field of each record of strings.
pub open spec fn texts_of(records: Seq<Vec<String>>) -> Seq<Seq<Seq<char>>> {
    Seq::new(records.len(), |i: int| Seq::new(records[i]@.len(), |j: int| records[i]@[j]@))
}

/// The bytes of one character.
pub open spec fn char_bytes(c: char) -> Seq<u8> {
    vstd::utf8::encode_scalar(c as u32)
}

/// The bytes of a character below 128 are the character itself, and the
/// bytes of any other character are all 128 or more.
proof fn lemma_char_bytes(c: char)
    ensures
        (c as u32) < 0x80 ==> char_bytes(c) == seq![c as u8],
        forall|i: int|
            (c as u32) >= 0x80 && 0 <= i < char_bytes(c).len() ==> #[trigger] char_bytes(c)[i]
                >= 0x80,
        char_bytes(c).len() >= 1,
{
    let s = c as u32;
    vstd::utf8::char_is_scalar(c);
    if s < 0x80 {
        assert(s & 0x7F == s) by (bit_vector)
            requires
                s < 0x80,
        ;
    } else {
        assert(forall|y: u8| (0xC0u8 | y) >= 0x80u8) by (bit_vector);
        assert(forall|y: u8| (0xE0u8 | y) >= 0x80u8) by (bit_vector);
        assert(forall|y: u8| (0xF0u8 | y) >= 0x80u8) by (bit_vector);
        assert(forall|y: u8| (0x80u8 | y) >= 0x80u8) by (bit_vector);
    }
}

/// A character below 128 is a comma, a quote or a line break exactly if
/// its byte is.
proof fn lemma_special_char(c: char)
    requires
        (c as u32) < 0x80,
    ensures
        is_special(c as u8) == is_special_char(c),
        (c as u8 == QUOTE) == (c == '"'),
{
    let u = c as u32;
    vstd::utf8::char_u32_cast(c, u);
    vstd::utf8::char_u32_cast(',', 0x2c);
    vstd::utf8::char_u32_cast('"', 0x22);
    vstd::utf8::char_u32_cast('\r', 0x0d);
    vstd::utf8::char_u32_cast('\n', 0x0a);
    assert(c as u8 == u);
}

/// The bytes of one character, as a text of its own.
proof fn lemma_encode_one(c: char)
    ensures
        encode_utf8(seq![c]) == char_bytes(c),
{
    assert(seq![c].drop_first() =~= Seq::empty());
    assert(encode_utf8(Seq::<char>::empty()) =~= Seq::empty());
    assert(encode_utf8(seq![c]) =~= char_bytes(c));
}

/// The bytes of two texts joined are the bytes of the one and then of the
/// other.
proof fn lemma_encode_concat(a: Seq<char>, b: Seq<char>)
    ensures
        encode_utf8(a + b) == encode_utf8(a) + encode_utf8(b),
    decreases a.len(),
{
    if a.len() == 0 {
        assert(a + b =~= b);
        assert(encode_utf8(a) + encode_utf8(b) =~= encode_utf8(b));
    } else {
        lemma_encode_concat(a.drop_first(), b);
        assert((a + b).drop_first() =~= a.drop_first() + b);
        assert(encode_utf8(a + b) =~= encode_utf8(a) + encode_utf8(b));
    }
}

/// The bytes of a text with one more character.
proof fn lemma_encode_push(text: Seq<char>, c: char)
    ensures
        encode_utf8(text.push(c)) == encode_utf8(text) + char_bytes(c),
{
    assert(text.push(c) =~= text + seq![c]);
    lemma_encode_concat(text, seq![c]);
    lemma_encode_one(c);
}

/// A text needs quotes exactly if its bytes do.
proof fn lemma_needs_quotes(text: Seq<char>)
    ensures
        needs_quotes(encode_utf8(text)) == text_needs_quotes(text),
    decreases text.len(),
{
    if text.len() == 0 {
    } else {
        let head = text.drop_last();
        let c = text.last();
        lemma_needs_quotes(head);
        assert(head.push(c) =~= text);
        lemma_encode_push(head, c);
        lemma_char_bytes(c);
        let front = encode_utf8(head);
        let back = char_bytes(c);
        let bytes = front + back;
        if text_needs_quotes(text) {
            let i = choose|i: int| 0 <= i < text.len() && is_special_char(#[trigger] text[i]);
            if i < head.len() {
                assert(is_special_char(head[i]));
                assert(text_needs_quotes(head));
                let k = choose|k: int| 0 <= k < front.len() && is_special(#[trigger] front[k]);
                assert(is_special(bytes[k]));
            } else {
                assert(is_special_char(c));
                lemma_special_char(c);
                assert(back == seq![c as u8]);
                assert(is_special(bytes[front.len() as int]));
            }
        }
        if needs_quotes(bytes) {
            let k = choose|k: int| 0 <= k < bytes.len() && is_special(#[trigger] bytes[k]);
            if k < front.len() {
                assert(is_special(front[k]));
                assert(needs_quotes(front));
                let i = choose|i: int| 0 <= i < head.len() && is_special_char(#[trigger] head[i]);
                assert(is_special_char(text[i]));
            } else {
                assert(bytes[k] == back[k - front.len()]);
                if (c as u32) < 0x80 {
                    lemma_special_char(c);
                    assert(back[k - front.len()] == c as u8);
                } else {
                    assert(back[k - front.len()] >= 0x80);
                }
                assert(is_special_char(text[text.len() - 1]));
            }
        }
    }
}

/// Doubling the quotes of a text doubles the quotes of its bytes.
proof fn lemma_doubled_text(text: Seq<char>)
    ensures
        doubled(encode_utf8(text)) == encode_utf8(doubled_text(text)),
    decreases text.len(),
{
    if text.len() == 0 {
        assert(encode_utf8(text) =~= Seq::empty());
    } else {
        let head = text.drop_last();
        let c = text.last();
        lemma_doubled_text(head);
        assert(head.push(c) =~= text);
        lemma_encode_push(head, c);
        lemma_char_bytes(c);
        let back = char_bytes(c);
        lemma_doubled_concat(encode_utf8(head), back);
        if c == '"' {
            lemma_special_char(c);
            assert(back == seq![QUOTE]);
            assert(back.drop_last() =~= Seq::empty());
            assert(doubled(back.drop_last()) =~= Seq::empty());
            assert(doubled(back) =~= seq![QUOTE] + seq![QUOTE]);
            lemma_encode_push(doubled_text(head), '"');
            lemma_encode_push(doubled_text(head).push('"'), '"');
            assert(encode_utf8(doubled_text(text)) =~= doubled(encode_utf8(text)));
        } else {
            assert forall|i: int| 0 <= i < back.len() implies back[i] != QUOTE by {
                if (c as u32) < 0x80 {
                    lemma_special_char(c);
                    assert(back[i] == c as u8);
                } else {
                    assert(back[i] >= 0x80);
                }
            }
            lemma_doubled_without_quote(back);
            lemma_encode_push(doubled_text(head), c);
        }
    }
}

/// A field of text is written as its bytes are.
proof fn lemma_field_text(field: Seq<char>)
    ensures
        encode_utf8(field_text(field)) == field_bytes(encode_utf8(field)),
{
    lemma_needs_quotes(field);
    if text_needs_quotes(field) {
        lemma_doubled_text(field);
        lemma_encode_one('"');
        lemma_char_bytes('"');
        lemma_encode_concat(seq!['"'], doubled_text(field));
        lemma_encode_concat(seq!['"'] + doubled_text(field), seq!['"']);
    }
}

/// The fields of a record of text are written as their bytes are.
proof fn lemma_joined_text(fields: Seq<Seq<char>>)
    ensures
        encode_utf8(joined_text(fields)) == joined(encoded_fields(fields)),
    decreases fields.len(),
{
    let bytes = encoded_fields(fields);
    if fields.len() == 0 {
        assert(encode_utf8(Seq::<char>::empty()) =~= Seq::empty());
    } else if fields.len() == 1 {
        lemma_field_text(fields[0]);
    } else {
        lemma_joined_text(fields.drop_last());
        assert(bytes.drop_last() =~= encoded_fields(fields.drop_last()));
        lemma_field_text(fields.last());
        lemma_encode_push(joined_text(fields.drop_last()), ',');
        lemma_char_bytes(',');
        lemma_encode_concat(joined_text(fields.drop_last()).push(','), field_text(fields.last()));
        assert(joined(bytes.drop_last()).push(COMMA) =~= joined(bytes.drop_last()) + seq![COMMA]);
    }
}

/// A text and its bytes are empty together.
proof fn lemma_encode_empty(text: Seq<char>)
    ensures
        encode_utf8(text).len() == 0 <==> text.len() == 0,
{
    if text.len() > 0 {
        lemma_char_bytes(text[0]);
    }
}

/// A record of text is written as its bytes are.
proof fn lemma_record_text(fields: Seq<Seq<char>>)
    ensures
        encode_utf8(record_text(fields)) == record_bytes(encoded_fields(fields)),
{
    lemma_joined_text(fields);
    lemma_encode_empty(joined_text(fields));
    lemma_char_bytes('"');
    lemma_char_bytes('\n');
    if joined_text(fields).len() == 0 {
        assert(seq!['"', '"', '\n'] =~= seq!['"'].push('"').push('\n'));
        lemma_encode_one('"');
        lemma_encode_push(seq!['"'], '"');
        lemma_encode_push(seq!['"'].push('"'), '\n');
        assert(seq![QUOTE, QUOTE, LINE_FEED] =~= seq![QUOTE] + seq![QUOTE] + seq![LINE_FEED]);
    } else {
        lemma_encode_push(joined_text(fields), '\n');
        let bytes = joined(encoded_fields(fields));
        assert(bytes.push(LINE_FEED) =~= bytes + seq![LINE_FEED]);
    }
}

/// Rendered text, character by character: the bytes that are written for
/// records of text are the bytes of [`document_text`], so the text that is
/// read back from them is that text. A field stands between quotes exactly
/// if it holds a comma, a double quote, a carriage return or a line feed,
/// and then each of its double quotes is written twice.
pub proof fn lemma_document_text(records: Seq<Seq<Seq<char>>>)
    ensures
        encode_utf8(document_text(records)) == document_bytes(encoded_records(records)),
        decode_utf8(document_bytes(encoded_records(records))) == document_text(records),
    decreases records.len(),
{
    let bytes = encoded_records(records);
    if records.len() == 0 {
        assert(encode_utf8(Seq::<char>::empty()) =~= Seq::empty());
    } else {
        lemma_document_text(records.drop_last());
        assert(bytes.drop_last() =~= encoded_records(records.drop_last()));
        lemma_record_text(records.last());
        lemma_encode_concat(document_text(records.drop_last()), record_text(records.last()));
    }
    vstd::utf8::encode_utf8_decode_utf8(document_text(records));
}

/// The bytes of records of strings are the bytes of their texts.
pub proof fn lemma_texts_of(records: Seq<Vec<String>>)
    ensures
        records_of(records) == encoded_records(texts_of(records)),
{
    let a = records_of(records);
    let b = encoded_records(texts_of(records));
    assert forall|i: int| 0 <= i < a.len() implies a[i] == b[i] by {
        assert(a[i] =~= b[i]);
    }
    assert(a =~= b);
}

} // verus!
