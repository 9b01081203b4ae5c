use ppa::data::point::PointCollection;
use ppa::io::csv::{CsvError, CsvOptions, CsvPointReader};

fn reader(columns: &[&str], id_column: Option<&str>) -> CsvPointReader {
    let cols: Vec<String> = columns.iter().map(|c| c.to_string()).collect();
    CsvPointReader::new(&cols, id_column.map(|c| c.to_string()), CsvOptions::default())
}

fn read(r: &CsvPointReader, content: &str) -> Result<PointCollection<f32>, CsvError> {
    let table = r.parse_table(content)?;
    let parsed: Vec<Vec<Option<f32>>> = table
        .cells
        .iter()
        .map(|row| row.iter().map(|c| c.parse::<f32>().ok()).collect())
        .collect();
    r.assemble(&table, &parsed, f32::NAN)
}

fn sample_content(rows: usize) -> String {
    let mut content = String::from("ID;X;Y;Z\n");
    for i in 1..=rows {
        content += &format!("{};{}.5;{};{}\n", i, i, i * 2, i * 3);
    }
    content
}

#[test]
fn read_csv() {
    let r = reader(&["X", "Y", "Z"], Some("ID"));
    let points: PointCollection<f32> = read(&r, &sample_content(25)).unwrap();

    assert_eq!(points.points().len(), 25);
    assert_eq!(points.points().dim(), 3);

    let ids = points.ids().as_ref().unwrap();
    for i in 0..points.points().len() {
        let p = points.points().get(i);
        assert_eq!(p.len(), 3);
        assert_eq!(&ids[i], &format!("{}", i + 1));
    }
}

#[test]
fn read_csv_values_land_in_configured_order() {
    let r = reader(&["Z", "X"], Some("ID"));
    let content = "ID;X;Y;Z\nfirst;1.5;2.5;3.5\nsecond;4.5;5.5;6.5\n";
    let points = read(&r, content).unwrap();

    assert_eq!(points.points().len(), 2);
    assert_eq!(points.points().dim(), 2);
    assert_eq!(points.points().get(0), vec![3.5, 1.5]);
    assert_eq!(points.points().get(1), vec![6.5, 4.5]);
    assert_eq!(
        points.ids(),
        &Some(vec!["first".to_string(), "second".to_string()])
    );
}

#[test]
fn read_csv_without_id_column() {
    let r = reader(&["X", "Y"], None);
    let content = "X;Y\n1;2\n3;4\n";
    let points = read(&r, content).unwrap();

    assert_eq!(points.points().len(), 2);
    assert_eq!(points.ids(), &None);
    assert_eq!(points.points().get(1), vec![3.0, 4.0]);
}

#[test]
fn missing_value_token_becomes_nan() {
    let r = reader(&["X", "Y"], None);
    let content = "X;Y\n1.0;NA\n";
    let points = read(&r, content).unwrap();

    let p = points.points().get(0);
    assert_eq!(p[0], 1.0);
    assert!(p[1].is_nan());
}

#[test]
fn unparsable_cell_fails_the_whole_read() {
    let r = reader(&["X", "Y"], None);
    let content = "X;Y\n1.0;2.0\nabc;4.0\n";
    let err = read(&r, content).unwrap_err();
    match err {
        CsvError::ParseError(m) => {
            assert_eq!(m, "Unable to parse value 'abc' to float.");
        }
        _ => panic!("expected a parse error"),
    }
}

#[test]
fn missing_column_is_reported_before_any_row_is_parsed() {
    let r = reader(&["X", "W"], Some("ID"));
    let content = "ID;X;Y;Z\n1;abc;def;ghi\n";
    let err = r.parse_table(content).unwrap_err();
    match err {
        CsvError::ColumnError(e) => {
            assert_eq!(e.0, "Column W not found.");
        }
        _ => panic!("expected a column error"),
    }
}

#[test]
fn missing_id_column_is_reported_first() {
    let r = reader(&["X"], Some("KEY"));
    let content = "ID;X\n1;2\n";
    let err = r.parse_table(content).unwrap_err();
    match err {
        CsvError::ColumnError(e) => {
            assert_eq!(e.0, "Column KEY not found.");
        }
        _ => panic!("expected a column error"),
    }
}

#[test]
fn short_record_fails_the_read() {
    let r = reader(&["X", "Y"], None);
    let content = "X;Y\n1.0\n";
    let err = r.parse_table(content).unwrap_err();
    match err {
        CsvError::CsvError(m) => {
            assert_eq!(
                m,
                "Record field count (1) does not match header field count (2)"
            );
        }
        _ => panic!("expected a record error"),
    }
}

#[test]
fn crlf_lines_and_trailing_newline_are_handled() {
    let r = reader(&["X"], Some("ID"));
    let content = "ID;X\r\na;1.25\r\nb;2.25\r\n";
    let points = read(&r, content).unwrap();

    assert_eq!(points.points().len(), 2);
    assert_eq!(points.points().get(0), vec![1.25]);
    assert_eq!(
        points.ids(),
        &Some(vec!["a".to_string(), "b".to_string()])
    );
}

#[test]
fn custom_delimiter_and_missing_token() {
    let cols = vec!["X".to_string(), "Y".to_string()];
    let r = CsvPointReader::new(&cols, None, CsvOptions::new(b',', "void".to_string()));
    let content = "X,Y\nvoid,2.0\n";
    let table = r.parse_table(content).unwrap();
    let parsed: Vec<Vec<Option<f32>>> = table
        .cells
        .iter()
        .map(|row| row.iter().map(|c| c.parse::<f32>().ok()).collect())
        .collect();
    let points = r.assemble(&table, &parsed, f32::NAN).unwrap();
    let p = points.points().get(0);
    assert!(p[0].is_nan());
    assert_eq!(p[1], 2.0);
}
