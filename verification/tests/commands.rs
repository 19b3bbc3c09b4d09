use mgfy::commands::{
    collection_listing, conversion_result, no_documents_message, numbered_lines, read_stat_sizes, stat_as_i64,
    string_to_bson_doc, DetailRow, StatValue,
};
use mgfy::sizes::bytes_to_string;

/// Sizes written with floating point: the value divided by the unit as a double, printed
/// with two decimals.
fn float_reference(size: i64) -> String {
    let units = ["B", "KB", "MB", "GB", "TB", "PB"];
    for (i, unit) in units.iter().enumerate() {
        if size / (1024_i64).pow(i as u32 + 1) == 0 {
            let sizef = size as f64 / (1024_i64.pow(i as u32) as f64);
            return format!("{:.2}{}", sizef, unit);
        }
    }
    let sizef = size as f64 / (1024_i64.pow(5) as f64);
    format!("{:.2}{}", sizef, units[5])
}

#[test]
fn test_bytes_to_string() {
    assert_eq!(bytes_to_string(966), String::from("966.00B"));
    assert_eq!(bytes_to_string(1567), String::from("1.53KB"));
    assert_eq!(bytes_to_string(1567893), String::from("1.50MB"));
}

#[test]
fn bytes_to_string_edges() {
    assert_eq!(bytes_to_string(0), "0.00B");
    assert_eq!(bytes_to_string(1023), "1023.00B");
    assert_eq!(bytes_to_string(1024), "1.00KB");
    assert_eq!(bytes_to_string(-5), "-5.00B");
    assert_eq!(bytes_to_string(-1500), "-1.46KB");
    assert_eq!(bytes_to_string(1048575), "1024.00KB");
    assert_eq!(bytes_to_string(1 << 50), "1.00PB");
    assert_eq!(bytes_to_string(i64::MIN), "-8192.00PB");
}

#[test]
fn bytes_to_string_rounds_ties_to_even() {
    // 1152 bytes are exactly 1.125 KB, and 1664 bytes exactly 1.625 KB.
    assert_eq!(bytes_to_string(1152), "1.12KB");
    assert_eq!(bytes_to_string(1664), "1.62KB");
    assert_eq!(bytes_to_string(1408), "1.38KB");
}

#[test]
fn bytes_to_string_agrees_with_floating_point() {
    let mut values: Vec<i64> = Vec::new();
    for v in -5000..5000 {
        values.push(v);
    }
    for k in 0..63 {
        let p: i64 = 1i64 << k;
        for d in -3..=3 {
            values.push(p.wrapping_add(d));
            values.push(p.wrapping_add(d).wrapping_neg());
        }
    }
    for j in 1..2000i64 {
        values.push(j * 128);
        values.push(j * 128 * 1024);
        values.push(j * 128 * 1024 * 1024 * 1024 * 1024);
    }
    values.push(i64::MAX);
    values.push(i64::MIN);
    values.push(i64::MAX - 1023);
    let mut x: u64 = 0x2545F4914F6CDD1D;
    for _ in 0..200000 {
        x ^= x << 13;
        x ^= x >> 7;
        x ^= x << 17;
        let shift = (x % 64) as u32;
        values.push((x >> shift) as i64);
        values.push(((x >> shift) as i64).wrapping_neg());
    }
    for v in values {
        assert_eq!(bytes_to_string(v), float_reference(v), "size {}", v);
    }
}

#[test]
fn stat_values_read_as_integers() {
    assert_eq!(stat_as_i64(Some(StatValue::Int32(-7))), Some(-7));
    assert_eq!(stat_as_i64(Some(StatValue::Int64(1 << 40))), Some(1 << 40));
    assert_eq!(stat_as_i64(Some(StatValue::Other)), None);
    assert_eq!(stat_as_i64(None), None);
}

#[test]
fn stat_sizes_report_the_first_missing() {
    assert_eq!(
        read_stat_sizes(Some(StatValue::Int32(10)), Some(StatValue::Int64(20))),
        Ok((10, 20))
    );
    assert_eq!(
        read_stat_sizes(None, None),
        Err(String::from("storageSize missing or not numeric"))
    );
    assert_eq!(
        read_stat_sizes(Some(StatValue::Int32(10)), Some(StatValue::Other)),
        Err(String::from("size missing or not numeric"))
    );
}

#[test]
fn detail_row_writes_sizes() {
    let row = DetailRow::new("users", 12, 1567, 966);
    assert_eq!(row.name, "users");
    assert_eq!(row.count, 12);
    assert_eq!(row.size, "1.53KB");
    assert_eq!(row.storage_size, "966.00B");
}

#[test]
fn lists_are_numbered_from_one() {
    let names = vec![String::from("admin"), String::from("local")];
    assert_eq!(numbered_lines(&names), vec!["  1) admin", "  2) local"]);
    assert_eq!(collection_listing("shop", &names), vec!["  1) admin", "  2) local"]);
    assert_eq!(collection_listing("shop", &Vec::new()), vec!["No collections in shop"]);
    assert!(numbered_lines(&Vec::new()).is_empty());
}

#[test]
fn filters_become_documents() {
    let doc = string_to_bson_doc("{\"Hello\": {\"$exists\": true}}").unwrap();
    assert_eq!(doc.len(), 1);
    assert!(doc.get_document("Hello").unwrap().get_bool("$exists").unwrap());
}

#[test]
fn filter_that_is_not_json_is_refused() {
    let text = "{\"Hello\": ";
    let parse_error = serde_json::from_str::<serde_json::Value>(text).unwrap_err();
    let expected = format!(
        "Failed to parse JSON string: {}; Filter string: {}",
        parse_error, text
    );
    assert_eq!(string_to_bson_doc(text).unwrap_err(), expected);
}

#[test]
fn filter_that_is_not_an_object_is_refused() {
    let err = string_to_bson_doc("[1, 2]").unwrap_err();
    assert!(err.starts_with("Failed to convert JSON Value to BSON Document: "));
    assert!(err.len() > "Failed to convert JSON Value to BSON Document: ".len());
}

#[test]
fn conversion_errors_are_explained() {
    assert_eq!(
        conversion_result(Err(String::from("boom"))).unwrap_err(),
        "Failed to convert JSON Value to BSON Document: boom"
    );
    let doc = mongodb::bson::Document::new();
    assert_eq!(conversion_result(Ok(doc.clone())).unwrap(), doc);
}

#[test]
fn no_documents_notes() {
    assert_eq!(no_documents_message("shop", "orders", false), "No documents in shop.orders");
    assert_eq!(
        no_documents_message("shop", "orders", true),
        "No documents in shop.orders matched the filter"
    );
}

#[test]
fn shown_number_stays_within_its_unit() {
    for v in [1i64, 1023, 1024, 1048575, 1048576, (1i64 << 50) - 1, 1 << 50, i64::MAX] {
        let text = bytes_to_string(v);
        let number: f64 = text.trim_end_matches(char::is_alphabetic).parse().unwrap();
        assert!(number >= 1.0, "{}", text);
        if v < (1i64 << 50) {
            assert!(number <= 1024.0, "{}", text);
        }
    }
}

#[test]
fn filter_document_matches_the_outside_conversion() {
    let text = "{\"a\": 1, \"b\": [true, \"x\"]}";
    let value: serde_json::Value = serde_json::from_str(text).unwrap();
    let expected = mongodb::bson::to_document(&value).unwrap();
    assert_eq!(string_to_bson_doc(text).unwrap(), expected);
    let array: serde_json::Value = serde_json::from_str("[1, 2]").unwrap();
    let error = mongodb::bson::to_document(&array).unwrap_err();
    assert_eq!(
        string_to_bson_doc("[1, 2]").unwrap_err(),
        format!("Failed to convert JSON Value to BSON Document: {}", error)
    );
}
