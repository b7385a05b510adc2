use haricot::body::{body, BodyError, BodyOutcome, Which};
use haricot::listing::name_value_lines;
use haricot::model::{
    count_entries, Creator, Doc, Entry, Log, NameValue, PostData, Request, Response, ResponseContent,
};
use haricot::overview::{overview, OverviewError};
use haricot::json::Slot;
use haricot::privacy::{decode_private, expand_privates, step_for, ExpansionError, Step};
use haricot::text::cut_text;
use serde_json::Value;

fn nv(name: &str, value: &str) -> NameValue {
    NameValue { name: name.to_string(), value: value.to_string() }
}

fn entry(url: &str, query: Vec<NameValue>, post: Option<PostData>, resp_text: &str) -> Entry {
    Entry {
        started_date_time: "2018-01-01T00:00:00Z".to_string(),
        time: Value::from(1.5),
        request: Request {
            method: "GET".to_string(),
            url: url.to_string(),
            http_version: "HTTP/1.1".to_string(),
            headers: vec![],
            query_string: query,
            cookies: Value::Null,
            headers_size: 0,
            body_size: 0,
            post_data: post,
        },
        response: Response {
            status: 200,
            status_text: "OK".to_string(),
            http_version: "HTTP/1.1".to_string(),
            headers: vec![],
            cookies: Value::Null,
            content: ResponseContent {
                size: 12,
                mime_type: "text/plain".to_string(),
                compression: -1,
                text: resp_text.to_string(),
            },
            redirect_url: String::new(),
            headers_size: 0,
            body_size: 0,
            transfer_size: Value::Null,
        },
        cache: Value::Null,
        timings: Value::Null,
        server_ip_address: Value::Null,
        connection: Value::Null,
    }
}

fn doc(entries: Vec<Entry>) -> Doc {
    Doc {
        log: Log {
            version: "1.2".to_string(),
            creator: Creator { name: "capture".to_string(), version: "1".to_string() },
            pages: vec![],
            entries,
        },
    }
}

fn post(text: &str) -> Option<PostData> {
    Some(PostData { mime_type: "application/json".to_string(), text: text.to_string() })
}

fn body_text(r: Result<BodyOutcome, BodyError>) -> String {
    match r {
        Ok(BodyOutcome::Text(t)) => t,
        _ => panic!("expected a body"),
    }
}

fn compact(json: &str) -> String {
    serde_json::from_str::<Value>(json).unwrap().to_string()
}

#[test]
fn count_entries_is_entries_length() {
    assert_eq!(count_entries(&doc(vec![])), 0);
    let d = doc(vec![entry("http://a/", vec![], None, ""), entry("http://b/", vec![], None, "")]);
    assert_eq!(count_entries(&d), 2);
}

#[test]
fn overview_exact_lines() {
    let d = doc(vec![entry("http://example.com/p?x=1", vec![nv("x", "1")], post("a\tb"), " ok\n")]);
    let lines = overview(&d, true, None, None).ok().unwrap();
    let expected = vec![
        "1 entries",
        "0/ GET http://example.com/p",
        "    Query String:",
        "        x:                   1",
        "    Post Data:",
        "        Mime-Type:           application/json",
        "        Length:              3",
        "        Text:                a\\tb\u{2026}",
        "0/ RESPONSE:                 200 OK",
        "    Content:",
        "        Mime-Type:           text/plain",
        "        Size:                12",
        "        Text:                ok\\n\u{2026}",
        "",
        "",
        "",
    ];
    assert_eq!(lines, expected);
}

#[test]
fn overview_count_then_one_block_per_entry() {
    let d = doc(vec![
        entry("http://a.example/", vec![], None, ""),
        entry("http://b.example/", vec![], None, ""),
        entry("http://c.example/", vec![], None, ""),
    ]);
    let lines = overview(&d, true, None, None).ok().unwrap();
    assert_eq!(lines[0], "3 entries");
    let heads: Vec<&String> = lines.iter().filter(|l| l.contains("/ GET ")).collect();
    assert_eq!(heads.len(), 3);
    assert_eq!(heads[0], "0/ GET http://a.example/");
    assert_eq!(heads[1], "1/ GET http://b.example/");
    assert_eq!(heads[2], "2/ GET http://c.example/");
    assert_eq!(lines.len(), 1 + 3 * 9);
}

#[test]
fn long_post_preview_is_cut_by_characters() {
    let text: String = "é".repeat(100);
    let cut = cut_text(&text, 80);
    assert_eq!(cut.chars().count(), 80);
    assert_eq!(cut, "é".repeat(80));
    let d = doc(vec![entry("http://a/", vec![], post(&text), "")]);
    let lines = overview(&d, true, None, None).ok().unwrap();
    let expected = format!("        Text:                {}\u{2026}", "é".repeat(80));
    assert!(lines.contains(&expected));
    assert!(lines.contains(&"        Length:              200".to_string()));
}

#[test]
fn preview_escapes_before_cutting() {
    let text = format!("{}\n{}", "a".repeat(79), "b".repeat(10));
    assert_eq!(cut_text(&text, 80), format!("{}\\", "a".repeat(79)));
}

#[test]
fn preview_trims_white_space() {
    assert_eq!(cut_text("   hello  ", 80), "hello");
    assert_eq!(cut_text("\n x ", 80), "\\n x");
    assert_eq!(cut_text("", 80), "");
    assert_eq!(cut_text("abcdef", 3), "abc");
}

#[test]
fn escape_is_applied_once() {
    let once = cut_text("a\nb\rc\td", 80);
    assert_eq!(once, "a\\nb\\rc\\td");
    assert_eq!(cut_text(&once, 80), once);
}

#[test]
fn excluded_query_names_are_hidden() {
    let pairs = vec![nv("_", "1"), nv("keep", "2"), nv("sortBy", "3")];
    let excludes = vec!["_".to_string(), "sortBy".to_string()];
    let lines = name_value_lines(&pairs, Some(&excludes));
    assert_eq!(lines, vec!["        keep:                2".to_string()]);
    let d = doc(vec![entry("http://h/p?_=1&keep=2", pairs, None, "")]);
    let with = overview(&d, true, Some(&excludes), None).ok().unwrap();
    let without = overview(&d, true, None, None).ok().unwrap();
    assert_eq!(with[1], "0/ GET http://h/p");
    assert_eq!(with[1], without[1]);
    assert!(!with.iter().any(|l| l.trim_start().starts_with("_:") || l.trim_start().starts_with("sortBy:")));
    assert!(without.iter().any(|l| l.trim_start().starts_with("sortBy:")));
}

#[test]
fn long_url_kept_with_query_when_asked() {
    let d = doc(vec![entry("http://h/p?q=1#f", vec![], None, "")]);
    let short = overview(&d, true, None, None).ok().unwrap();
    let full = overview(&d, false, None, None).ok().unwrap();
    assert_eq!(short[1], "0/ GET http://h/p#f");
    assert_eq!(full[1], "0/ GET http://h/p?q=1#f");
}

#[test]
fn query_pairs_sorted_stably() {
    let pairs = vec![nv("b", "2"), nv("a", "1"), nv("a", "3")];
    let lines = name_value_lines(&pairs, None);
    assert_eq!(
        lines,
        vec![
            "        a:                   1".to_string(),
            "        a:                   3".to_string(),
            "        b:                   2".to_string(),
        ]
    );
}

#[test]
fn long_names_are_not_padded() {
    let pairs = vec![nv("Access-Control-Allow-Origin", "*")];
    assert_eq!(name_value_lines(&pairs, None), vec!["        Access-Control-Allow-Origin: *".to_string()]);
}

#[test]
fn request_without_post_data_is_reported() {
    let d = doc(vec![entry("http://a/", vec![], None, "resp")]);
    assert!(matches!(body(&d, 0, Which::Request, false), Ok(BodyOutcome::NoPostData { entry: 0 })));
    assert!(matches!(body(&d, 0, Which::Request, true), Ok(BodyOutcome::NoPostData { entry: 0 })));
}

#[test]
fn raw_bodies() {
    let d = doc(vec![entry("http://a/", vec![], post(""), "resp")]);
    assert_eq!(body_text(body(&d, 0, Which::Request, false)), "");
    assert_eq!(body_text(body(&d, 0, Which::Response, false)), "resp");
}

#[test]
fn index_out_of_range() {
    let d = doc(vec![entry("http://a/", vec![], None, "")]);
    assert!(matches!(body(&d, 1, Which::Response, false), Err(BodyError::Index { entry: 1, count: 1 })));
    assert!(matches!(body(&d, 7, Which::Request, true), Err(BodyError::Index { entry: 7, count: 1 })));
}

#[test]
fn expand_path_a() {
    let v = expand_privates(r#"{"AddDevice":{"DevicePrivateData":"%7B%22k%22%3A1%7D"}}"#).ok().unwrap();
    assert_eq!(v, compact(r#"{"AddDevice":{"DevicePrivateData":{"k":1}}}"#));
}

#[test]
fn expand_path_b() {
    let v = expand_privates(r#"{"Resource":{"Device":{"DevicePrivateData":"%7B%22k%22%3A1%7D"}}}"#).ok().unwrap();
    assert_eq!(v, compact(r#"{"Resource":{"Device":{"DevicePrivateData":{"k":1}}}}"#));
}

#[test]
fn expand_path_a_wins_over_b() {
    let text = r#"{"AddDevice":{"DevicePrivateData":"%7B%7D"},"Resource":{"Device":{"DevicePrivateData":"%ZZ"}}}"#;
    let v = expand_privates(text).ok().unwrap();
    assert_eq!(
        v,
        compact(r#"{"AddDevice":{"DevicePrivateData":{}},"Resource":{"Device":{"DevicePrivateData":"%ZZ"}}}"#)
    );
}

#[test]
fn expand_null_a_falls_through_to_b() {
    let text = r#"{"AddDevice":{"DevicePrivateData":null},"Resource":{"Device":{"DevicePrivateData":"%5B1%5D"}}}"#;
    let v = expand_privates(text).ok().unwrap();
    assert_eq!(
        v,
        compact(r#"{"AddDevice":{"DevicePrivateData":null},"Resource":{"Device":{"DevicePrivateData":[1]}}}"#)
    );
}

#[test]
fn expand_without_private_data_is_unchanged() {
    let v = expand_privates(r#"{"x":[1,2],"AddDevice":{}}"#).ok().unwrap();
    assert_eq!(v, compact(r#"{"x":[1,2],"AddDevice":{}}"#));
}

#[test]
fn expand_non_string_private_data_is_kept() {
    let v = expand_privates(r#"{"AddDevice":{"DevicePrivateData":5}}"#).ok().unwrap();
    assert_eq!(v, compact(r#"{"AddDevice":{"DevicePrivateData":5}}"#));
}

#[test]
fn expansion_errors() {
    assert!(matches!(expand_privates("not json"), Err(ExpansionError::BodyNotJson)));
    assert!(matches!(
        expand_privates(r#"{"AddDevice":{"DevicePrivateData":"%FF%FE"}}"#),
        Err(ExpansionError::PrivateNotUtf8)
    ));
    assert!(matches!(
        expand_privates(r#"{"AddDevice":{"DevicePrivateData":"%7Bk"}}"#),
        Err(ExpansionError::PrivateNotJson)
    ));
}

#[test]
fn decode_private_percent_sequences() {
    assert_eq!(decode_private("%22a%2Fb%22").ok().unwrap(), "\"a/b\"");
    assert_eq!(decode_private("%225%%22").ok().unwrap(), "\"5%\"");
    assert_eq!(decode_private("%7b%7D").ok().unwrap(), "{}");
}

#[test]
fn body_with_expansion() {
    let d = doc(vec![entry(
        "http://a/",
        vec![],
        post(r#"{"AddDevice":{"DevicePrivateData":"%7B%22k%22%3A1%7D"}}"#),
        "plain",
    )]);
    assert_eq!(
        body_text(body(&d, 0, Which::Request, true)),
        compact(r#"{"AddDevice":{"DevicePrivateData":{"k":1}}}"#)
    );
    assert!(matches!(
        body(&d, 0, Which::Response, true),
        Err(BodyError::Expansion(ExpansionError::BodyNotJson))
    ));
}

#[test]
fn bad_url_aborts_overview() {
    let d = doc(vec![
        entry("http://fine.example/", vec![], None, ""),
        entry("not a url", vec![], None, ""),
        entry("::also bad", vec![], None, ""),
    ]);
    assert!(matches!(overview(&d, true, None, None), Err(OverviewError::BadUrl { entry: 1 })));
}

#[test]
fn step_for_each_kind_of_slot() {
    assert!(matches!(step_for(Slot::Missing), Step::Next));
    assert!(matches!(step_for(Slot::Null), Step::Next));
    assert!(matches!(step_for(Slot::Other), Step::Keep));
    match step_for(Slot::Text("%7B%22k%22%3A1%7D".to_string())) {
        Step::Put(t) => assert_eq!(t, r#"{"k":1}"#),
        _ => panic!("expected decoded private data"),
    }
    assert!(matches!(step_for(Slot::Text("%FF".to_string())), Step::Fail(ExpansionError::PrivateNotUtf8)));
    assert!(matches!(step_for(Slot::Text("{".to_string())), Step::Fail(ExpansionError::PrivateNotJson)));
}

#[test]
fn url_line_shows_parsed_url() {
    let d = doc(vec![entry("HTTP://Example.COM", vec![], None, "")]);
    let lines = overview(&d, false, None, None).ok().unwrap();
    assert_eq!(lines[1], "0/ GET http://example.com/");
}

#[test]
fn headers_sorted_and_filtered_in_overview() {
    let mut e = entry("http://a/", vec![], None, "");
    e.request.headers = vec![nv("Host", "a"), nv("Accept", "*/*")];
    e.response.headers = vec![nv("Server", "x"), nv("Content-Type", "text/plain")];
    let d = doc(vec![e]);
    let hx = vec!["Host".to_string(), "Server".to_string()];
    let lines = overview(&d, true, None, Some(&hx)).ok().unwrap();
    assert_eq!(lines[2], "    Headers:");
    assert_eq!(lines[3], "        Accept:              */*");
    assert_eq!(lines[4], "0/ RESPONSE:                 200 OK");
    assert_eq!(lines[5], "    Headers:");
    assert_eq!(lines[6], "        Content-Type:        text/plain");
    assert_eq!(lines[7], "    Content:");
}

#[test]
fn expand_first_place_wins_and_second_is_untouched() {
    let text = r#"{"AddDevice":{"DevicePrivateData":"%7B%7D"},"Resource":{"Device":{"DevicePrivateData":"%7B%7D"}}}"#;
    assert_eq!(
        expand_privates(text).ok().unwrap(),
        compact(r#"{"AddDevice":{"DevicePrivateData":{}},"Resource":{"Device":{"DevicePrivateData":"%7B%7D"}}}"#)
    );
}

#[test]
fn body_expansion_errors_surface() {
    let d = doc(vec![entry("http://a/", vec![], post(r#"{"AddDevice":{"DevicePrivateData":"%FF"}}"#), r#"{"AddDevice":{"DevicePrivateData":"%7Bbad"}}"#)]);
    assert!(matches!(
        body(&d, 0, Which::Request, true),
        Err(BodyError::Expansion(ExpansionError::PrivateNotUtf8))
    ));
    assert!(matches!(
        body(&d, 0, Which::Response, true),
        Err(BodyError::Expansion(ExpansionError::PrivateNotJson))
    ));
}
