use partlookup::error::LookupError;
use partlookup::lookup::{conclude, parse_response, plan, request_url, status_is_success, HttpReply};
use partlookup::normalize::{describe, normalize};
use partlookup::table::PartTable;

fn table_of(body: &str) -> Vec<(String, String)> {
    let value: serde_json::Value = serde_json::from_str(body).unwrap();
    normalize(&value).unwrap().entries()
}

fn error_of(body: &str) -> Option<LookupError> {
    let value: serde_json::Value = serde_json::from_str(body).unwrap();
    normalize(&value).err()
}

fn pairs(items: &[(&str, &str)]) -> Vec<(String, String)> {
    items.iter().map(|(k, v)| (k.to_string(), v.to_string())).collect()
}

fn answered(status: u16, body: &str) -> HttpReply {
    HttpReply::Answered { status, body: body.to_string() }
}

#[test]
fn code_and_brand_come_in_order() {
    let table = table_of(r#"{"code":200,"data":{"componentCode":"C11702","componentBrandEn":"UNI-ROYAL"}}"#);
    assert_eq!(table, pairs(&[("Component Code", "C11702"), ("Brand", "UNI-ROYAL")]));
    assert!(table.iter().all(|(k, _)| !k.starts_with("meta_")));
}

#[test]
fn order_of_the_answer_does_not_matter() {
    let table = table_of(r#"{"data":{"componentBrandEn":"UNI-ROYAL","componentCode":"C11702"},"code":200}"#);
    assert_eq!(table, pairs(&[("Component Code", "C11702"), ("Brand", "UNI-ROYAL")]));
}

#[test]
fn failure_code_gives_not_found() {
    assert_eq!(
        error_of(r#"{"code":6400,"data":{"componentCode":"C11702","componentBrandEn":"UNI-ROYAL"}}"#),
        Some(LookupError::NotFound)
    );
    assert_eq!(error_of(r#"{"code":6400,"data":null}"#), Some(LookupError::NotFound));
    assert_eq!(error_of(r#"{"code":6400}"#), Some(LookupError::NotFound));
    assert_eq!(error_of(r#"{"code":"200","data":{}}"#), Some(LookupError::NotFound));
    assert_eq!(error_of(r#"{"code":200.0,"data":{}}"#), Some(LookupError::NotFound));
    assert_eq!(error_of(r#"{"code":null,"data":{}}"#), Some(LookupError::NotFound));
}

#[test]
fn missing_data_gives_not_found() {
    assert_eq!(error_of(r#"{"code":200}"#), Some(LookupError::NotFound));
    assert_eq!(error_of(r#"{}"#), Some(LookupError::NotFound));
    assert_eq!(error_of(r#"[1,2]"#), Some(LookupError::NotFound));
    assert_eq!(error_of(r#""data""#), Some(LookupError::NotFound));
}

#[test]
fn missing_code_is_no_failure() {
    assert_eq!(table_of(r#"{"data":{"componentCode":"C1"}}"#), pairs(&[("Component Code", "C1")]));
    assert_eq!(table_of(r#"{"data":{}}"#), pairs(&[]));
    assert_eq!(table_of(r#"{"data":7}"#), pairs(&[]));
}

#[test]
fn later_attribute_replaces_earlier_one_in_place() {
    let table = table_of(
        r#"{"code":200,"data":{"attributes":[
            {"attribute_name_en":"Resistance","attribute_value_name":"1k"},
            {"attribute_name_en":"Tolerance","attribute_value_name":"1%"},
            {"attribute_name_en":"Resistance","attribute_value_name":"10k"}]}}"#,
    );
    assert_eq!(table, pairs(&[("Resistance", "10k"), ("Tolerance", "1%")]));
}

#[test]
fn attribute_may_replace_a_fixed_field() {
    let table = table_of(
        r#"{"data":{"componentBrandEn":"A","componentCode":"C1","attributes":[
            {"attribute_name_en":"Brand","attribute_value_name":"B"}]}}"#,
    );
    assert_eq!(table, pairs(&[("Component Code", "C1"), ("Brand", "B")]));
}

#[test]
fn attribute_without_name_or_value_is_left_out() {
    let table = table_of(
        r#"{"data":{"attributes":[
            {"attribute_name_en":"Resistance"},
            {"attribute_value_name":"1%"},
            7,
            {"attribute_name_en":"Power","attribute_value_name":"62.5mW"}]}}"#,
    );
    assert_eq!(table, pairs(&[("Power", "62.5mW")]));
    assert_eq!(table_of(r#"{"data":{"attributes":{"attribute_name_en":"a","attribute_value_name":"b"}}}"#), pairs(&[]));
}

#[test]
fn three_images_give_three_keys_in_order() {
    let table = table_of(
        r#"{"data":{"imageList":[
            {"productBigImage":"https://a/0.jpg"},
            {"productBigImage":"https://a/1.jpg"},
            {"productBigImage":"https://a/2.jpg"}]}}"#,
    );
    assert_eq!(
        table,
        pairs(&[
            ("meta_image0", "https://a/0.jpg"),
            ("meta_image1", "https://a/1.jpg"),
            ("meta_image2", "https://a/2.jpg"),
        ])
    );
}

#[test]
fn image_without_address_keeps_the_index_of_the_others() {
    let table = table_of(
        r#"{"data":{"imageList":[
            {"productBigImage":"u0"},
            {"other":"x"},
            {"productBigImage":"u2"}]}}"#,
    );
    assert_eq!(table, pairs(&[("meta_image0", "u0"), ("meta_image2", "u2")]));
}

#[test]
fn image_index_is_written_in_decimal() {
    let mut body = String::from(r#"{"data":{"imageList":["#);
    for i in 0..12 {
        if i > 0 {
            body.push(',');
        }
        body.push_str(&format!(r#"{{"productBigImage":"u{}"}}"#, i));
    }
    body.push_str("]}}");
    let table = table_of(&body);
    assert_eq!(table.len(), 12);
    assert_eq!(table[9], ("meta_image9".to_string(), "u9".to_string()));
    assert_eq!(table[10], ("meta_image10".to_string(), "u10".to_string()));
    assert_eq!(table[11], ("meta_image11".to_string(), "u11".to_string()));
}

#[test]
fn library_type_is_shown_as_basic_or_extended() {
    assert_eq!(table_of(r#"{"data":{"componentLibraryType":"base"}}"#), pairs(&[("Type", "Basic")]));
    assert_eq!(table_of(r#"{"data":{"componentLibraryType":"expand"}}"#), pairs(&[("Type", "Extended")]));
    assert_eq!(table_of(r#"{"data":{"componentLibraryType":"other"}}"#), pairs(&[]));
    assert_eq!(table_of(r#"{"data":{"componentLibraryType":7}}"#), pairs(&[]));
    assert_eq!(table_of(r#"{"data":{"componentLibraryType":"Base"}}"#), pairs(&[]));
}

#[test]
fn full_description_comes_in_the_fixed_order() {
    let table = table_of(
        r#"{"code":200,"data":{
            "dataManualUrl":"https://datasheet.lcsc.com/lcsc/x_C11702.pdf",
            "imageList":[{"productBigImage":"https://a/0.jpg"}],
            "attributes":[{"attribute_name_en":"Resistance","attribute_value_name":"1kΩ"}],
            "leastNumberPrice":0.0005,
            "leastNumber":20,
            "stockCount":1234567,
            "matchedPartDetail":null,
            "describe":"1kΩ ±1% 62.5mW",
            "assemblyProcess":"SMT",
            "componentSpecificationEn":"0402",
            "componentModelEn":"0402WGF1001TCE",
            "componentDesignator":"R",
            "componentName":"Thick Film Resistor",
            "componentBrandEn":"UNI-ROYAL",
            "secondTypeNameEn":"Chip Resistor",
            "firstTypeNameEn":"Resistors",
            "componentCode":"C11702",
            "componentLibraryType":"base"}}"#,
    );
    assert_eq!(
        table,
        pairs(&[
            ("Type", "Basic"),
            ("Component Code", "C11702"),
            ("Primary Category", "Resistors"),
            ("Secondary Category", "Chip Resistor"),
            ("Brand", "UNI-ROYAL"),
            ("Full Name", "Thick Film Resistor"),
            ("Designator", "R"),
            ("Model", "0402WGF1001TCE"),
            ("Specification", "0402"),
            ("Assembly Process", "SMT"),
            ("Description", "1kΩ ±1% 62.5mW"),
            ("Details", "null"),
            ("Stock", "1234567"),
            ("Minimal Quantity", "20"),
            ("Minimum Price", "0.0005"),
            ("Resistance", "1kΩ"),
            ("meta_image0", "https://a/0.jpg"),
            ("meta_datasheeturl", "https://datasheet.lcsc.com/lcsc/x_C11702.pdf"),
        ])
    );
}

#[test]
fn values_are_shown_as_json_text_without_outer_quotes() {
    let table = table_of(
        r#"{"data":{"componentName":"say \"hi\"","describe":"a\\b","componentModelEn":"x\"",
            "stockCount":-3,"leastNumber":true,"matchedPartDetail":{"a":[1,"b"]},"componentDesignator":""}}"#,
    );
    assert_eq!(
        table,
        pairs(&[
            ("Full Name", "say \\\"hi\\"),
            ("Designator", ""),
            ("Model", "x\\"),
            ("Description", "a\\\\b"),
            ("Details", "{\"a\":[1,\"b\"]}"),
            ("Stock", "-3"),
            ("Minimal Quantity", "true"),
        ])
    );
}

#[test]
fn same_answer_gives_the_same_table_twice() {
    let body = r#"{"code":200,"data":{"componentCode":"C11702","componentLibraryType":"expand",
        "attributes":[{"attribute_name_en":"b","attribute_value_name":"1"},{"attribute_name_en":"a","attribute_value_name":"2"}],
        "imageList":[{"productBigImage":"u"}],"dataManualUrl":"d"}}"#;
    let first = conclude(&answered(200, body)).unwrap().entries();
    let second = conclude(&answered(200, body)).unwrap().entries();
    assert_eq!(first, second);
    assert_eq!(first.len(), 6);
}

#[test]
fn describe_reads_the_data_itself() {
    let data: serde_json::Value = serde_json::from_str(r#"{"componentCode":"C5","code":6400}"#).unwrap();
    assert_eq!(describe(&data).entries(), pairs(&[("Component Code", "C5")]));
}

#[test]
fn reply_without_answer_is_a_network_error() {
    assert_eq!(conclude(&HttpReply::Failed).err(), Some(LookupError::Network));
}

#[test]
fn reply_with_error_status_is_an_http_status_error() {
    let body = r#"{"code":200,"data":{"componentCode":"C1"}}"#;
    assert_eq!(conclude(&answered(404, body)).err(), Some(LookupError::HttpStatus));
    assert_eq!(conclude(&answered(500, body)).err(), Some(LookupError::HttpStatus));
    assert_eq!(conclude(&answered(199, body)).err(), Some(LookupError::HttpStatus));
    assert_eq!(conclude(&answered(300, body)).err(), Some(LookupError::HttpStatus));
    assert_eq!(conclude(&answered(299, body)).unwrap().entries(), pairs(&[("Component Code", "C1")]));
    assert_eq!(conclude(&answered(204, body)).unwrap().len(), 1);
}

#[test]
fn reply_with_broken_body_is_a_malformed_response() {
    assert_eq!(conclude(&answered(200, "<html>")).err(), Some(LookupError::MalformedResponse));
    assert_eq!(conclude(&answered(200, "")).err(), Some(LookupError::MalformedResponse));
    assert_eq!(conclude(&answered(200, r#"{"code":200"#)).err(), Some(LookupError::MalformedResponse));
    assert_eq!(conclude(&answered(500, "<html>")).err(), Some(LookupError::HttpStatus));
}

#[test]
fn reply_that_reports_failure_is_not_found() {
    assert_eq!(conclude(&answered(200, r#"{"code":6400,"data":{}}"#)).err(), Some(LookupError::NotFound));
    assert_eq!(conclude(&answered(200, r#"{"code":200}"#)).err(), Some(LookupError::NotFound));
}

#[test]
fn parse_response_gives_the_value_or_the_error() {
    assert_eq!(parse_response("[1, 2]").ok(), Some(serde_json::Value::from(vec![1, 2])));
    assert_eq!(parse_response("nul").err(), Some(LookupError::MalformedResponse));
}

#[test]
fn plan_gives_the_address_or_invalid_input() {
    assert_eq!(
        plan(" C11702 "),
        Ok("https://cart.jlcpcb.com/shoppingCart/smtGood/getComponentDetail?componentCode=C11702".to_string())
    );
    assert_eq!(
        plan("https://www.lcsc.com/product-detail/X_C25804.html"),
        Ok(request_url("C25804"))
    );
    assert_eq!(plan("C123abc"), Err(LookupError::InvalidInput));
    assert_eq!(plan(""), Err(LookupError::InvalidInput));
}

#[test]
fn success_is_any_status_from_200_to_299() {
    assert!(status_is_success(200));
    assert!(status_is_success(299));
    assert!(!status_is_success(199));
    assert!(!status_is_success(300));
    assert!(!status_is_success(0));
    assert!(!status_is_success(u16::MAX));
}

#[test]
fn every_error_has_its_message() {
    let all = [
        LookupError::InvalidInput,
        LookupError::Network,
        LookupError::HttpStatus,
        LookupError::MalformedResponse,
        LookupError::NotFound,
    ];
    for (i, a) in all.iter().enumerate() {
        for (j, b) in all.iter().enumerate() {
            assert_eq!(i == j, a.message() == b.message());
        }
    }
    assert_eq!(LookupError::NotFound.message(), "no such part");
}

#[test]
fn table_keeps_the_order_of_first_insertion() {
    let mut table = PartTable::new();
    assert_eq!(table.len(), 0);
    assert_eq!(table.insert("b".to_string(), "1".to_string()), None);
    assert_eq!(table.insert("a".to_string(), "2".to_string()), None);
    assert_eq!(table.insert("b".to_string(), "3".to_string()), Some("1".to_string()));
    assert_eq!(table.len(), 2);
    assert_eq!(table.entries(), pairs(&[("b", "3"), ("a", "2")]));
    assert_eq!(table.get("a"), Some(&"2".to_string()));
    assert_eq!(table.get("b"), Some(&"3".to_string()));
    assert_eq!(table.get("c"), None);
    assert_eq!(table.entry(1), Some((&"a".to_string(), &"2".to_string())));
    assert_eq!(table.entry(2), None);
}

#[test]
fn table_hands_out_its_parts() {
    let value: serde_json::Value = serde_json::from_str(
        r#"{"data":{"componentCode":"C11702","dataManualUrl":"https://d/x.pdf",
            "attributes":[{"attribute_name_en":"metadata","attribute_value_name":"v"}],
            "imageList":[{"productBigImage":"u0"},{"productBigImage":"u1"}]}}"#,
    )
    .unwrap();
    let table = normalize(&value).unwrap();
    assert_eq!(table.component_code(), Some(&"C11702".to_string()));
    assert_eq!(table.datasheet_url(), Some(&"https://d/x.pdf".to_string()));
    assert_eq!(table.visible(), pairs(&[("Component Code", "C11702"), ("metadata", "v")]));
    assert_eq!(table.image_urls(), vec!["u0".to_string(), "u1".to_string()]);
    let empty = PartTable::new();
    assert_eq!(empty.component_code(), None);
    assert_eq!(empty.datasheet_url(), None);
    assert!(empty.visible().is_empty());
    assert!(empty.image_urls().is_empty());
}
