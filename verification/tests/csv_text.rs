use table_extract::csv_text::{render_csv, text_of_written};
use table_extract::{Error, Table};

fn record(fields: &[&str]) -> Vec<String> {
    fields.iter().map(|field| field.to_string()).collect()
}

fn decode(text: &str) -> Vec<Vec<String>> {
    let mut reader = csv::ReaderBuilder::new()
        .has_headers(false)
        .flexible(true)
        .from_reader(text.as_bytes());
    reader
        .records()
        .map(|read| read.unwrap().iter().map(|field| field.to_string()).collect())
        .collect()
}

#[test]
fn plain_fields_are_joined_by_commas() {
    assert_eq!(render_csv(&vec![record(&["1", "2"])]).unwrap(), "1,2\n");
    assert_eq!(
        render_csv(&vec![record(&["a", "b", "c"]), record(&["x", "y", "z"])]).unwrap(),
        "a,b,c\nx,y,z\n"
    );
}

#[test]
fn no_records_give_no_text() {
    assert_eq!(render_csv(&Vec::new()).unwrap(), "");
}

#[test]
fn field_with_comma_is_quoted() {
    assert_eq!(
        render_csv(&vec![record(&["1", "Hello, World!"])]).unwrap(),
        "1,\"Hello, World!\"\n"
    );
}

#[test]
fn quote_inside_a_field_is_doubled() {
    assert_eq!(render_csv(&vec![record(&["say \"hi\""])]).unwrap(), "\"say \"\"hi\"\"\"\n");
    assert_eq!(render_csv(&vec![record(&["\""])]).unwrap(), "\"\"\"\"\n");
}

#[test]
fn line_breaks_inside_a_field_are_quoted() {
    assert_eq!(render_csv(&vec![record(&["3\n4", "5"])]).unwrap(), "\"3\n4\",5\n");
    assert_eq!(render_csv(&vec![record(&["3\r4", "5"])]).unwrap(), "\"3\r4\",5\n");
}

#[test]
fn other_characters_are_written_as_they_are() {
    assert_eq!(
        render_csv(&vec![record(&["a b", "c;d", "e\tf", "g'h", " i "])]).unwrap(),
        "a b,c;d,e\tf,g'h, i \n"
    );
}

#[test]
fn empty_fields_stay_empty_but_an_empty_line_is_quoted() {
    assert_eq!(render_csv(&vec![record(&["", ""])]).unwrap(), ",\n");
    assert_eq!(render_csv(&vec![record(&["a", "", "b"])]).unwrap(), "a,,b\n");
    assert_eq!(render_csv(&vec![record(&[""])]).unwrap(), "\"\"\n");
    assert_eq!(render_csv(&vec![record(&[])]).unwrap(), "\"\"\n");
}

#[test]
fn records_of_different_lengths_are_each_written() {
    assert_eq!(
        render_csv(&vec![record(&["a", "b"]), record(&["c"])]).unwrap(),
        "a,b\nc\n"
    );
}

#[test]
fn text_that_is_not_ascii_is_kept() {
    let text = render_csv(&vec![record(&["é", "日本, 語", "ü\"ö"])]).unwrap();
    assert_eq!(text, "é,\"日本, 語\",\"ü\"\"ö\"\n");
    assert_eq!(decode(&text), vec![record(&["é", "日本, 語", "ü\"ö"])]);
}

#[test]
fn comma_and_quote_come_back_when_read() {
    let value = "He said \"yes, no\", twice";
    let mut table: Table<String> = Table::new((1, 2));
    table.set(0, 0, value.to_string());
    table.set(0, 1, "plain".to_string());
    let text = table.to_csv().unwrap();
    assert_eq!(text, "\"He said \"\"yes, no\"\", twice\",plain\n");
    assert_eq!(decode(&text), vec![record(&[value, "plain"])]);
}

#[test]
fn every_special_character_comes_back_when_read() {
    let rows = vec![
        record(&["a,b", "c\"d", "e\nf"]),
        record(&["g\rh", "\"\"", ",\n\r\""]),
    ];
    let text = render_csv(&rows).unwrap();
    assert_eq!(decode(&text), rows);
}

#[test]
fn written_bytes_become_their_text() {
    assert_eq!(text_of_written(Some(b"a,b\n".to_vec())).unwrap(), "a,b\n");
    assert_eq!(text_of_written(Some("é\n".as_bytes().to_vec())).unwrap(), "é\n");
    assert_eq!(text_of_written(Some(Vec::new())).unwrap(), "");
}

#[test]
fn failed_writer_and_bytes_that_are_no_text_are_errors() {
    assert!(matches!(text_of_written(None), Err(Error::FailedToConvertToCSV)));
    assert!(matches!(
        text_of_written(Some(vec![b'a', 0xff, b'\n'])),
        Err(Error::FailedToConvertToCSV)
    ));
    assert!(matches!(
        text_of_written(Some(vec![0xc3])),
        Err(Error::FailedToConvertToCSV)
    ));
}
