use tasklist::{new_task, parse_tasks, serialize_tasks, Task};

fn task(id: u32, title: &str, complete: bool) -> Task {
    Task {
        id,
        title: title.to_string(),
        description: None,
        class: None,
        due_date: None,
        complete,
    }
}

#[test]
fn empty_collection_serializes_to_empty_array() {
    let tasks: Vec<Task> = Vec::new();
    assert_eq!(serialize_tasks(&tasks), "[]");
}

#[test]
fn one_task_serializes_to_the_exact_document() {
    let mut tasks: Vec<Task> = Vec::new();
    new_task(
        &mut tasks,
        "Buy milk",
        &Some("two bottles".to_string()),
        &None,
        &None,
    );
    let expected = "[\n  {\n    \"id\": 1,\n    \"title\": \"Buy milk\",\n    \"description\": \"two bottles\",\n    \"class\": null,\n    \"due_date\": null,\n    \"complete\": false\n  }\n]";
    assert_eq!(serialize_tasks(&tasks), expected);
}

#[test]
fn round_trip_empty() {
    let tasks: Vec<Task> = Vec::new();
    let text = serialize_tasks(&tasks);
    assert_eq!(parse_tasks(&text), Some(Vec::new()));
}

#[test]
fn round_trip_keeps_ids_fields_order_and_flags() {
    let mut tasks: Vec<Task> = Vec::new();
    new_task(
        &mut tasks,
        "alpha",
        &Some("first".to_string()),
        &Some("home".to_string()),
        &Some("today".to_string()),
    );
    new_task(&mut tasks, "beta", &None, &Some("work".to_string()), &None);
    new_task(&mut tasks, "gamma", &None, &None, &None);
    tasks[1].complete = true;
    let text = serialize_tasks(&tasks);
    let back = parse_tasks(&text).expect("the written document must parse");
    assert_eq!(back, tasks);
}

#[test]
fn round_trip_survives_escapes_and_unicode() {
    let tricky = "quote \" backslash \\ newline \n tab \t return \r bell \u{07} slash / caf\u{e9} \u{2764}";
    let tasks = vec![task(1, tricky, true)];
    let text = serialize_tasks(&tasks);
    let back = parse_tasks(&text).expect("escaped text must parse");
    assert_eq!(back, tasks);
}

#[test]
fn parse_accepts_extra_whitespace() {
    let text = "  [ \n\t{ \"id\" : 7 , \"title\" : \"x\" , \"complete\" : true } \r\n ]  ";
    let parsed = parse_tasks(text).expect("whitespace is free between tokens");
    assert_eq!(parsed, vec![task(7, "x", true)]);
}

#[test]
fn parse_accepts_absent_optional_members() {
    let text = "[{\"id\": 1, \"title\": \"a\", \"complete\": false}]";
    let parsed = parse_tasks(text).expect("optional members may be absent");
    assert_eq!(parsed, vec![task(1, "a", false)]);
}

#[test]
fn parse_accepts_a_subset_of_optional_members() {
    let text = "[{\"id\": 2, \"title\": \"b\", \"class\": \"work\", \"complete\": false}]";
    let parsed = parse_tasks(text).expect("a lone optional member is fine");
    let mut expected = task(2, "b", false);
    expected.class = Some("work".to_string());
    assert_eq!(parsed, vec![expected]);
}

#[test]
fn parse_treats_null_as_unset() {
    let text = "[{\"id\": 3, \"title\": \"c\", \"description\": null, \"class\": null, \"due_date\": null, \"complete\": true}]";
    let parsed = parse_tasks(text).expect("null optional members are unset");
    assert_eq!(parsed, vec![task(3, "c", true)]);
}

#[test]
fn parse_rejects_malformed_documents() {
    assert_eq!(parse_tasks(""), None);
    assert_eq!(parse_tasks("not json"), None);
    assert_eq!(parse_tasks("["), None);
    assert_eq!(parse_tasks("[{]"), None);
    assert_eq!(parse_tasks("{}"), None);
    // a task without its required members
    assert_eq!(parse_tasks("[{\"id\": 1, \"complete\": false}]"), None);
    assert_eq!(parse_tasks("[{\"id\": 1, \"title\": \"a\"}]"), None);
    // trailing text after the array
    assert_eq!(parse_tasks("[] x"), None);
    // an unknown member
    assert_eq!(
        parse_tasks("[{\"id\": 1, \"title\": \"a\", \"extra\": 1, \"complete\": false}]"),
        None,
    );
}

#[test]
fn parse_checks_the_id_range() {
    assert_eq!(
        parse_tasks("[{\"id\": 4294967295, \"title\": \"a\", \"complete\": false}]")
            .map(|ts| ts[0].id),
        Some(u32::MAX),
    );
    assert_eq!(
        parse_tasks("[{\"id\": 4294967296, \"title\": \"a\", \"complete\": false}]"),
        None,
    );
    assert_eq!(
        parse_tasks("[{\"id\": -1, \"title\": \"a\", \"complete\": false}]"),
        None,
    );
}

#[test]
fn written_document_is_json_that_serde_reads_the_same_way() {
    let mut tasks: Vec<Task> = Vec::new();
    new_task(
        &mut tasks,
        "tricky \"title\" with \\ and \n",
        &Some("desc".to_string()),
        &None,
        &Some("friday".to_string()),
    );
    new_task(&mut tasks, "plain", &None, &None, &None);
    tasks[0].complete = true;
    let text = serialize_tasks(&tasks);
    let v: serde_json::Value = serde_json::from_str(&text).expect("output must be valid JSON");
    let arr = v.as_array().expect("an array");
    assert_eq!(arr.len(), 2);
    assert_eq!(arr[0]["id"].as_u64(), Some(1));
    assert_eq!(
        arr[0]["title"].as_str(),
        Some("tricky \"title\" with \\ and \n"),
    );
    assert_eq!(arr[0]["description"].as_str(), Some("desc"));
    assert!(arr[0]["class"].is_null());
    assert_eq!(arr[0]["due_date"].as_str(), Some("friday"));
    assert_eq!(arr[0]["complete"].as_bool(), Some(true));
    assert_eq!(arr[1]["id"].as_u64(), Some(2));
    assert_eq!(arr[1]["title"].as_str(), Some("plain"));
    assert_eq!(arr[1]["complete"].as_bool(), Some(false));
}

#[test]
fn document_written_by_serde_parses_back() {
    let mut obj = serde_json::Map::new();
    obj.insert("id".to_string(), serde_json::Value::from(9u64));
    obj.insert(
        "title".to_string(),
        serde_json::Value::String("from serde".to_string()),
    );
    obj.insert("description".to_string(), serde_json::Value::Null);
    obj.insert(
        "class".to_string(),
        serde_json::Value::String("misc".to_string()),
    );
    obj.insert("due_date".to_string(), serde_json::Value::Null);
    obj.insert("complete".to_string(), serde_json::Value::Bool(false));
    let doc = serde_json::Value::Array(vec![serde_json::Value::Object(obj)]);
    let text = serde_json::to_string_pretty(&doc).expect("serde writes the document");
    let parsed = parse_tasks(&text).expect("a serde-written store document parses");
    let mut expected = task(9, "from serde", false);
    expected.class = Some("misc".to_string());
    assert_eq!(parsed, vec![expected]);
}
