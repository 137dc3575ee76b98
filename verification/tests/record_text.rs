use canvas_sync::codec::{decode, encode, load_text, push_line, read_field, save_text};
use canvas_sync::records::{AssignmentRecord, RecordStore};
use canvas_sync::sync::{sync_course, Assignment, TaskAction};
use canvas_sync::text::to_chars;

fn record(id: &str, title: &str, due_date: &str) -> AssignmentRecord {
    AssignmentRecord { id: id.to_string(), title: title.to_string(), due_date: due_date.to_string() }
}

#[test]
fn to_chars_lists_characters() {
    assert_eq!(to_chars("aé\n"), vec!['a', 'é', '\n']);
    assert_eq!(to_chars(""), Vec::<char>::new());
}

#[test]
fn encode_writes_three_lines_per_record() {
    let recs = vec![record("1", "Essay", "2024-03-10T02:00:00Z"), record("2", "Quiz", "d")];
    assert_eq!(encode(&recs), "1\nEssay\n2024-03-10T02:00:00Z\n2\nQuiz\nd\n");
    assert_eq!(encode(&Vec::new()), "");
}

#[test]
fn encode_escapes_backslash_and_line_feed() {
    let recs = vec![record("a\\b", "two\nlines", "")];
    assert_eq!(encode(&recs), "a\\\\b\ntwo\\nlines\n\n");
    let mut s = String::from(">");
    push_line(&mut s, "\\n");
    assert_eq!(s, ">\\\\n\n");
}

#[test]
fn decode_reads_what_encode_wrote() {
    let recs = vec![
        record("1", "Essay", "2024-03-10T02:00:00Z"),
        record("a\\b", "two\nlines\\n", ""),
        record("", "", ""),
        record("é", "\\\\", "\n\n"),
    ];
    assert_eq!(decode(&encode(&recs)), Some(recs));
    assert_eq!(decode(""), Some(Vec::new()));
}

#[test]
fn decode_rejects_malformed_text() {
    assert_eq!(decode("1\nEssay\n"), None);
    assert_eq!(decode("1\nEssay\ndue"), None);
    assert_eq!(decode("1\nEs\\say\ndue\n"), None);
    assert_eq!(decode("1\nEssay\ndue\\"), None);
    assert_eq!(decode("1\nEssay\ndue\n2\n"), None);
    assert_eq!(decode("x"), None);
}

#[test]
fn read_field_gives_field_and_next_position() {
    let chars = to_chars("ab\\nc\nrest\n");
    assert_eq!(read_field(&chars, 0), Some(("ab\nc".to_string(), 6)));
    assert_eq!(read_field(&chars, 6), Some(("rest".to_string(), 11)));
    assert_eq!(read_field(&chars, 11), None);
    assert_eq!(read_field(&chars, 40), None);
    assert_eq!(read_field(&to_chars("\n"), 0), Some((String::new(), 1)));
    assert_eq!(read_field(&to_chars("a\\"), 0), None);
}

#[test]
fn saved_store_loads_to_the_same_mapping() {
    let mut store = RecordStore::new();
    store.put(record("10", "Essay \\ draft", "2024-03-10T02:00:00Z"));
    store.put(record("7", "Lab\nreport", "2024-04-01T12:00:00-05:00"));
    store.put(record("10", "Essay \\ draft", "2024-03-12T02:00:00Z"));
    let text = save_text(&store);
    let loaded = load_text(&text).unwrap();
    assert_eq!(loaded.records(), store.records());
    assert_eq!(loaded.get("7"), store.get("7"));
    assert_eq!(loaded.get("10"), Some(&record("10", "Essay \\ draft", "2024-03-12T02:00:00Z")));
    assert_eq!(save_text(&loaded), text);
}

#[test]
fn empty_text_loads_to_an_empty_store() {
    let store = load_text("").unwrap();
    assert!(store.records().is_empty());
    assert_eq!(save_text(&store), "");
}

#[test]
fn load_rejects_repeated_identifier_and_malformed_text() {
    assert!(load_text("1\na\nb\n1\nc\nd\n").is_none());
    assert!(load_text("1\na\n").is_none());
    assert!(load_text("1\na\nb\n2\nc\nd\n").is_some());
}

#[test]
fn from_records_keeps_order_and_rejects_repeats() {
    let recs = vec![record("2", "B", "d2"), record("1", "A", "d1")];
    let store = RecordStore::from_records(&recs).unwrap();
    assert_eq!(store.records(), &recs);
    let twice = vec![record("2", "B", "d2"), record("1", "A", "d1"), record("2", "C", "d3")];
    assert!(RecordStore::from_records(&twice).is_none());
    assert!(RecordStore::from_records(&Vec::new()).unwrap().records().is_empty());
}

#[test]
fn first_run_from_an_empty_file_creates_every_valid_task() {
    let mut store = load_text("").unwrap();
    let items = vec![
        Assignment { id: "1".to_string(), name: "Essay".to_string(), due_at: Some("2024-03-10T02:00:00Z".to_string()) },
        Assignment { id: "2".to_string(), name: "Quiz".to_string(), due_at: None },
        Assignment { id: "3".to_string(), name: "Lab".to_string(), due_at: Some("2024-03-10T05:00:00Z".to_string()) },
    ];
    let actions = sync_course(&mut store, "BIO 1: Cells", &items);
    assert_eq!(
        actions,
        vec![
            TaskAction::Create { content: "BIO 1 Essay".to_string(), due_string: "2024-03-09".to_string() },
            TaskAction::Create { content: "BIO 1 Lab".to_string(), due_string: "2024-03-10".to_string() },
        ]
    );
    assert_eq!(save_text(&store), "1\nEssay\n2024-03-10T02:00:00Z\n3\nLab\n2024-03-10T05:00:00Z\n");
    let mut again = load_text(&save_text(&store)).unwrap();
    assert_eq!(sync_course(&mut again, "BIO 1: Cells", &items), vec![]);
}
