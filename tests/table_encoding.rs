use euler_ode::euler::integrate;
use euler_ode::table::{encode_table, header, table_rows, TableRow};

fn row(t: &str, e: &str, x: &str, r: &str) -> TableRow {
    TableRow { t: t.to_string(), euler_y: e.to_string(), exact_y: x.to_string(), error: r.to_string() }
}

fn fmt(x: f64) -> String {
    x.to_string()
}

#[test]
fn header_names() {
    assert_eq!(header(), vec!["t", "euler_y", "exact_y", "error"]);
}

#[test]
fn empty_table_is_header_line() {
    let b = encode_table(&Vec::new());
    assert_eq!(String::from_utf8(b).unwrap(), "t,euler_y,exact_y,error\n");
}

#[test]
fn rows_written_in_order() {
    let rows = vec![row("0", "1", "1", "0"), row("0.005", "1", "0.99", "0.01")];
    let b = encode_table(&rows);
    assert_eq!(
        String::from_utf8(b).unwrap(),
        "t,euler_y,exact_y,error\n0,1,1,0\n0.005,1,0.99,0.01\n"
    );
}

#[test]
fn field_with_comma_is_quoted() {
    let rows = vec![row("1,5", "2", "3", "4")];
    let b = encode_table(&rows);
    assert_eq!(String::from_utf8(b).unwrap(), "t,euler_y,exact_y,error\n\"1,5\",2,3,4\n");
}

#[test]
fn row_fields_in_column_order() {
    let r = row("a", "b", "c", "d");
    assert_eq!(r.fields(), vec!["a", "b", "c", "d"]);
}

#[test]
fn header_then_one_line_per_row() {
    let rows = vec![row("1", "2", "3", "4"), row("5", "6", "7", "8"), row("9", "10", "11", "12")];
    let text = String::from_utf8(encode_table(&rows)).unwrap();
    let lines: Vec<&str> = text.lines().collect();
    assert_eq!(lines, vec!["t,euler_y,exact_y,error", "1,2,3,4", "5,6,7,8", "9,10,11,12"]);
}

#[test]
fn table_round_trip() {
    let h = 5.0 / 1000.0;
    let s = integrate(
        0.0f64,
        1000,
        1.0,
        |t: f64| t + h,
        |t: f64, y: f64| y + h * (t.cos() - y),
        |t: f64| 0.5 * (t.cos() + t.sin()) + 0.5 * (-t).exp(),
        |e: f64, y: f64| (e - y).abs(),
    )
    .unwrap();
    let rows = table_rows(&s, fmt);
    assert_eq!(rows.len(), 1001);
    let bytes = encode_table(&rows);
    let mut rdr = csv::Reader::from_reader(&bytes[..]);
    assert_eq!(rdr.headers().unwrap(), vec!["t", "euler_y", "exact_y", "error"]);
    let mut count = 0;
    for (i, rec) in rdr.records().enumerate() {
        let rec = rec.unwrap();
        assert_eq!(rec.len(), 4);
        let v: Vec<f64> = rec.iter().map(|x| x.parse::<f64>().unwrap()).collect();
        assert_eq!(v[0], s[i].t);
        assert_eq!(v[1], s[i].approx_y);
        assert_eq!(v[2], s[i].exact_y);
        assert_eq!(v[3], s[i].error);
        count += 1;
    }
    assert_eq!(count, 1001);
}

#[test]
fn table_rows_follow_samples() {
    let s = integrate(
        0i64,
        2,
        5i64,
        |t: i64| t + 1,
        |_t: i64, y: i64| y * 2,
        |t: i64| t,
        |e: i64, y: i64| (e - y).abs(),
    )
    .unwrap();
    let rows = table_rows(&s, |x: i64| x.to_string());
    let b = encode_table(&rows);
    assert_eq!(
        String::from_utf8(b).unwrap(),
        "t,euler_y,exact_y,error\n0,5,0,5\n1,10,1,9\n2,20,2,18\n"
    );
}
