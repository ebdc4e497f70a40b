use update_alternatives::alternative::Alternative;
use update_alternatives::alternative_list::AlternativeList;
use update_alternatives::json::{Json, Member};
use update_alternatives::record::RecordError;

fn editor() -> AlternativeList {
    let mut list = AlternativeList::new("/usr/local/bin/editor");
    list.add_alternative(Alternative::from_parts("/bin/vim", 10));
    list.add_alternative(Alternative::from_parts("/bin/nano", 5));
    list
}

fn member(key: &str, value: Json) -> Member {
    Member { key: key.to_string(), value }
}

fn candidate(target: &str, priority: i64) -> Json {
    Json::Object(vec![
        member("target", Json::Str(target.to_string())),
        member("priority", Json::Int(priority)),
    ])
}

fn record(path: &str, candidates: Vec<Json>) -> Json {
    Json::Object(vec![
        member("link_path", Json::Str(path.to_string())),
        member("candidates", Json::Array(candidates)),
    ])
}

fn pairs(list: &AlternativeList) -> Vec<(String, i32)> {
    list.links().iter().map(|a| (a.target().to_string(), a.priority())).collect()
}

#[test]
fn parse_reads_every_kind_of_value() {
    let tree = Json::parse(" {\"a\": [null, true, -7, 1.5, \"x\\n\"], \"b\": {}} ").unwrap();
    assert_eq!(
        tree,
        Json::Object(vec![
            member(
                "a",
                Json::Array(vec![
                    Json::Null,
                    Json::Bool(true),
                    Json::Int(-7),
                    Json::Real,
                    Json::Str("x\n".to_string()),
                ])
            ),
            member("b", Json::Object(vec![])),
        ])
    );
}

#[test]
fn parse_keeps_integers_of_64_bits_and_no_others() {
    assert_eq!(Json::parse("9223372036854775807").unwrap(), Json::Int(i64::MAX));
    assert_eq!(Json::parse("-9223372036854775808").unwrap(), Json::Int(i64::MIN));
    assert_eq!(Json::parse("9223372036854775808").unwrap(), Json::Real);
    assert_eq!(Json::parse("1e3").unwrap(), Json::Real);
    assert_eq!(Json::parse("10.0").unwrap(), Json::Real);
}

#[test]
fn parse_refuses_what_is_not_json() {
    let error = Json::parse("{\"a\": ").unwrap_err();
    assert!(!error.message.is_empty());
    assert!(Json::parse("").is_err());
    assert!(Json::parse("{} trailing").is_err());
    assert!(Json::parse("{'a': 1}").is_err());
}

#[test]
fn render_writes_compact_text_with_sorted_keys() {
    let tree = Json::Object(vec![
        member("z", Json::Int(-1)),
        member("a", Json::Array(vec![Json::Null, Json::Bool(false), Json::Str("q\"".to_string())])),
    ]);
    assert_eq!(tree.render().unwrap(), "{\"a\":[null,false,\"q\\\"\"],\"z\":-1}");
}

#[test]
fn get_gives_the_first_member_with_the_key() {
    let tree = Json::Object(vec![
        member("a", Json::Int(1)),
        member("b", Json::Int(2)),
        member("a", Json::Int(3)),
    ]);
    assert_eq!(tree.get("a"), Some(&Json::Int(1)));
    assert_eq!(tree.get("b"), Some(&Json::Int(2)));
    assert_eq!(tree.get("c"), None);
    assert_eq!(Json::Array(vec![]).get("a"), None);
    assert_eq!(Json::Str("a".to_string()).get("a"), None);
}

#[test]
fn the_record_of_an_entry_has_the_documented_members() {
    assert_eq!(
        editor().to_json(),
        record("/usr/local/bin/editor", vec![candidate("/bin/vim", 10), candidate("/bin/nano", 5)])
    );
    assert_eq!(Alternative::from_parts("/bin/vim", -2).to_json(), candidate("/bin/vim", -2));
}

#[test]
fn the_text_of_a_record_is_exact() {
    assert_eq!(
        editor().to_text().unwrap(),
        "{\"candidates\":[{\"priority\":10,\"target\":\"/bin/vim\"},{\"priority\":5,\"target\":\"/bin/nano\"}],\"link_path\":\"/usr/local/bin/editor\"}"
    );
    assert_eq!(
        AlternativeList::new("/x").to_text().unwrap(),
        "{\"candidates\":[],\"link_path\":\"/x\"}"
    );
}

#[test]
fn a_record_round_trips_through_text() {
    let first = editor().to_text().unwrap();
    let read = AlternativeList::from_text(&first).unwrap();
    assert_eq!(read.path(), "/usr/local/bin/editor");
    assert_eq!(pairs(&read), vec![("/bin/vim".to_string(), 10), ("/bin/nano".to_string(), 5)]);
    assert_eq!(read.to_text().unwrap(), first);
}

#[test]
fn a_record_round_trips_with_odd_characters_and_extreme_priorities() {
    let mut list = AlternativeList::new("/tmp/a \"b\"\\\u{e9}\n");
    list.add_alternative(Alternative::from_parts("/bin/\u{1F600}", i32::MIN));
    list.add_alternative(Alternative::from_parts("", i32::MAX));
    let text = list.to_text().unwrap();
    let read = AlternativeList::from_text(&text).unwrap();
    assert_eq!(read.path(), list.path());
    assert_eq!(pairs(&read), pairs(&list));
    assert_eq!(read.to_text().unwrap(), text);
}

#[test]
fn a_record_is_read_whatever_the_order_of_its_members() {
    let text = "{\"link_path\": \"/l\", \"extra\": [1, 2], \"candidates\": [{\"target\": \"/t\", \"note\": null, \"priority\": -4}]}";
    let read = AlternativeList::from_text(text).unwrap();
    assert_eq!(read.path(), "/l");
    assert_eq!(pairs(&read), vec![("/t".to_string(), -4)]);
}

#[test]
fn text_that_is_not_json_is_a_syntax_error() {
    assert!(matches!(AlternativeList::from_text("{\"link_path\":"), Err(RecordError::Syntax(_))));
    assert!(matches!(AlternativeList::from_text("not json"), Err(RecordError::Syntax(_))));
}

#[test]
fn json_that_is_no_record_is_malformed() {
    for text in [
        "[]",
        "null",
        "{}",
        "{\"link_path\": \"/l\"}",
        "{\"candidates\": []}",
        "{\"link_path\": 3, \"candidates\": []}",
        "{\"link_path\": \"/l\", \"candidates\": {}}",
        "{\"link_path\": \"/l\", \"candidates\": [3]}",
        "{\"link_path\": \"/l\", \"candidates\": [{\"target\": \"/t\"}]}",
        "{\"link_path\": \"/l\", \"candidates\": [{\"priority\": 1}]}",
        "{\"link_path\": \"/l\", \"candidates\": [{\"target\": 1, \"priority\": 1}]}",
        "{\"link_path\": \"/l\", \"candidates\": [{\"target\": \"/t\", \"priority\": \"1\"}]}",
        "{\"link_path\": \"/l\", \"candidates\": [{\"target\": \"/t\", \"priority\": 1.5}]}",
        "{\"link_path\": \"/l\", \"candidates\": [{\"target\": \"/t\", \"priority\": 2147483648}]}",
        "{\"link_path\": \"/l\", \"candidates\": [{\"target\": \"/t\", \"priority\": -2147483649}]}",
    ] {
        assert_eq!(AlternativeList::from_text(text).unwrap_err(), RecordError::Malformed, "{}", text);
    }
}

#[test]
fn a_record_with_one_target_twice_is_malformed() {
    let tree = record("/l", vec![candidate("/t", 1), candidate("/u", 2), candidate("/t", 3)]);
    assert!(AlternativeList::from_json(&tree).is_none());
    let same = record("/l", vec![candidate("/t", 1), candidate("/t", 1)]);
    assert!(AlternativeList::from_json(&same).is_none());
}

#[test]
fn priorities_at_the_bounds_are_read() {
    let tree = record("/l", vec![candidate("/a", 2147483647), candidate("/b", -2147483648)]);
    let read = AlternativeList::from_json(&tree).unwrap();
    assert_eq!(pairs(&read), vec![("/a".to_string(), i32::MAX), ("/b".to_string(), i32::MIN)]);
    assert!(Alternative::from_json(&candidate("/a", 2147483648)).is_none());
    assert_eq!(
        Alternative::from_json(&candidate("/a", 7)),
        Some(Alternative::from_parts("/a", 7))
    );
}

#[test]
fn reading_a_tree_uses_the_first_member_of_each_key() {
    let tree = Json::Object(vec![
        member("link_path", Json::Str("/first".to_string())),
        member("link_path", Json::Str("/second".to_string())),
        member("candidates", Json::Array(vec![])),
    ]);
    assert_eq!(AlternativeList::from_json(&tree).unwrap().path(), "/first");
}
