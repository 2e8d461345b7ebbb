use todos_api::codec::{decode_partial_todo, decode_todo, encode_todo};
use todos_api::handlers::{
    create_todo, create_todo_with_id, delete_todo, list_todos, status_of_error, update_todo,
    STATUS_BAD_REQUEST, STATUS_INTERNAL_ERROR, STATUS_NOT_FOUND, STATUS_NO_CONTENT, STATUS_OK,
};
use todos_api::models::{is_uuid_string, todo_key, ApiError, ListOptions, PartialTodo, Todo};
use todos_api::routes::{parse_list_options, route, Route};
use todos_api::store::Store;

const ID_A: &str = "67e55044-10b1-426f-9247-bb680e5fe0c8";
const ID_B: &str = "00000000-0000-4000-8000-000000000001";

fn todo(id: &str, text: &str, completed: bool) -> Todo {
    Todo { id: id.to_string(), text: text.to_string(), completed }
}

fn opts(offset: Option<usize>, limit: Option<usize>) -> ListOptions {
    ListOptions { offset, limit }
}

#[test]
fn encode_exact_text() {
    let t = todo(ID_A, "buy milk", false);
    assert_eq!(
        encode_todo(&t),
        format!("{{\"id\":\"{}\",\"text\":\"buy milk\",\"completed\":false}}", ID_A)
    );
}

#[test]
fn encode_escapes() {
    let t = todo(ID_A, "a\"b\\c\nd", true);
    assert_eq!(
        encode_todo(&t),
        format!("{{\"id\":\"{}\",\"text\":\"a\\\"b\\\\c\\u000ad\",\"completed\":true}}", ID_A)
    );
}

#[test]
fn round_trip_plain() {
    let t = todo(ID_A, "buy milk", false);
    let back = decode_todo(&encode_todo(&t)).unwrap();
    assert_eq!(back.id, t.id);
    assert_eq!(back.text, t.text);
    assert_eq!(back.completed, t.completed);
}

#[test]
fn round_trip_escapes_and_controls() {
    let t = todo(ID_B, "tab\t quote\" slash\\ nl\n bell\u{7} end", true);
    let back = decode_todo(&encode_todo(&t)).unwrap();
    assert_eq!(back.id, t.id);
    assert_eq!(back.text, t.text);
    assert_eq!(back.completed, t.completed);
}

#[test]
fn round_trip_unicode_text() {
    let t = todo(ID_A, "milch kaufen \u{e9}\u{4e2d}\u{1f600}", false);
    let back = decode_todo(&encode_todo(&t)).unwrap();
    assert_eq!(back.text, t.text);
}

#[test]
fn decode_any_member_order_and_whitespace() {
    let s = format!(" {{ \"completed\" : true , \"text\" : \"x\" , \"id\" : \"{}\" }} ", ID_A);
    let t = decode_todo(&s).unwrap();
    assert_eq!(t.id, ID_A);
    assert_eq!(t.text, "x");
    assert!(t.completed);
}

#[test]
fn decode_ignores_unknown_members() {
    let s = format!(
        "{{\"id\":\"{}\",\"extra\":{{\"deep\":[1,2,{{\"x\":\"}}\"}}]}},\"text\":\"y\",\"note\":null,\"completed\":false}}",
        ID_A
    );
    let t = decode_todo(&s).unwrap();
    assert_eq!(t.text, "y");
    assert!(!t.completed);
}

#[test]
fn decode_missing_required_member_fails() {
    let s = format!("{{\"id\":\"{}\",\"completed\":false}}", ID_A);
    assert!(decode_todo(&s).is_none());
    assert!(decode_todo("{}").is_none());
    let s2 = format!("{{\"id\":\"{}\",\"text\":\"x\"}}", ID_A);
    assert!(decode_todo(&s2).is_none());
}

#[test]
fn decode_duplicate_member_fails() {
    let s = format!("{{\"id\":\"{}\",\"text\":\"a\",\"text\":\"b\",\"completed\":false}}", ID_A);
    assert!(decode_todo(&s).is_none());
}

#[test]
fn decode_bad_id_fails() {
    assert!(decode_todo("{\"id\":\"not-a-uuid\",\"text\":\"x\",\"completed\":false}").is_none());
    assert!(decode_todo("{\"id\":\"\",\"text\":\"x\",\"completed\":false}").is_none());
}

#[test]
fn decode_normalizes_uppercase_id() {
    let upper = ID_A.to_uppercase();
    let s = format!("{{\"id\":\"{}\",\"text\":\"x\",\"completed\":true}}", upper);
    let t = decode_todo(&s).unwrap();
    assert_eq!(t.id, ID_A);
}

#[test]
fn decode_trailing_garbage_fails() {
    let s = format!("{{\"id\":\"{}\",\"text\":\"x\",\"completed\":false}}!", ID_A);
    assert!(decode_todo(&s).is_none());
    assert!(decode_todo("").is_none());
    assert!(decode_todo("[]").is_none());
}

#[test]
fn decode_partial_payload() {
    let p = decode_partial_todo("{\"text\":\"buy milk\",\"completed\":false}").unwrap();
    assert_eq!(p.text, "buy milk");
    assert!(!p.completed);
    let with_id = format!("{{\"id\":\"{}\",\"text\":\"x\",\"completed\":true}}", ID_A);
    let p = decode_partial_todo(&with_id).unwrap();
    assert_eq!(p.text, "x");
    assert!(p.completed);
    assert!(decode_partial_todo("{\"text\":\"x\"}").is_none());
    assert!(decode_partial_todo("{\"completed\":true}").is_none());
    assert!(decode_partial_todo("not json").is_none());
}

#[test]
fn key_derivation() {
    assert_eq!(todo_key(ID_A), format!("todos:{}", ID_A));
}

#[test]
fn uuid_string_check() {
    assert!(is_uuid_string(ID_A));
    assert!(!is_uuid_string("67e5504410b1426f9247bb680e5fe0c8"));
    assert!(!is_uuid_string(&ID_A.to_uppercase()));
    assert!(!is_uuid_string(""));
}

#[test]
fn list_empty_store_is_ok_and_empty() {
    let store = Store::new();
    let r = list_todos(&store, &opts(None, None)).unwrap();
    assert_eq!(r.len(), 0);
    let r2 = list_todos(&store, &opts(Some(10), Some(3))).unwrap();
    assert_eq!(r2.len(), 0);
}

#[test]
fn create_then_list_returns_fields_unchanged() {
    let mut store = Store::new();
    let partial = PartialTodo { text: "buy milk".to_string(), completed: false };
    let created = create_todo_with_id(&mut store, partial, ID_A.to_string());
    assert_eq!(created.id, ID_A);
    let listed = list_todos(&store, &opts(None, None)).unwrap();
    assert_eq!(listed.len(), 1);
    assert_eq!(listed[0].id, ID_A);
    assert_eq!(listed[0].text, "buy milk");
    assert!(!listed[0].completed);
}

#[test]
fn create_generates_fresh_valid_id() {
    let mut store = Store::new();
    let a = create_todo(&mut store, PartialTodo { text: "a".to_string(), completed: false });
    let b = create_todo(&mut store, PartialTodo { text: "b".to_string(), completed: true });
    assert!(is_uuid_string(&a.id));
    assert!(is_uuid_string(&b.id));
    assert_ne!(a.id, b.id);
    assert_eq!(store.len(), 2);
}

#[test]
fn list_offset_limit_slices() {
    let mut store = Store::new();
    let ids = [
        "00000000-0000-4000-8000-000000000001",
        "00000000-0000-4000-8000-000000000002",
        "00000000-0000-4000-8000-000000000003",
        "00000000-0000-4000-8000-000000000004",
    ];
    for (i, id) in ids.iter().enumerate() {
        let p = PartialTodo { text: format!("t{}", i), completed: false };
        create_todo_with_id(&mut store, p, id.to_string());
    }
    let r = list_todos(&store, &opts(Some(1), Some(2))).unwrap();
    assert_eq!(r.len(), 2);
    assert_eq!(r[0].id, ids[1]);
    assert_eq!(r[1].id, ids[2]);
    let beyond = list_todos(&store, &opts(Some(9), None)).unwrap();
    assert_eq!(beyond.len(), 0);
    let capped = list_todos(&store, &opts(None, Some(100))).unwrap();
    assert_eq!(capped.len(), 4);
}

#[test]
fn update_missing_returns_not_found_and_no_change() {
    let mut store = Store::new();
    create_todo_with_id(
        &mut store,
        PartialTodo { text: "keep".to_string(), completed: false },
        ID_A.to_string(),
    );
    let status = update_todo(&mut store, &todo(ID_B, "new", true));
    assert_eq!(status, STATUS_NOT_FOUND);
    let listed = list_todos(&store, &opts(None, None)).unwrap();
    assert_eq!(listed.len(), 1);
    assert_eq!(listed[0].text, "keep");
}

#[test]
fn update_existing_overwrites_fields_keeps_id() {
    let mut store = Store::new();
    create_todo_with_id(
        &mut store,
        PartialTodo { text: "buy milk".to_string(), completed: false },
        ID_A.to_string(),
    );
    let status = update_todo(&mut store, &todo(ID_A, "buy milk", true));
    assert_eq!(status, STATUS_OK);
    let listed = list_todos(&store, &opts(None, None)).unwrap();
    assert_eq!(listed.len(), 1);
    assert_eq!(listed[0].id, ID_A);
    assert_eq!(listed[0].text, "buy milk");
    assert!(listed[0].completed);
}

#[test]
fn delete_missing_is_not_found_and_harmless() {
    let mut store = Store::new();
    create_todo_with_id(
        &mut store,
        PartialTodo { text: "x".to_string(), completed: false },
        ID_A.to_string(),
    );
    let status = delete_todo(&mut store, &ID_B.to_string());
    assert_eq!(status, STATUS_NOT_FOUND);
    assert_eq!(store.len(), 1);
}

#[test]
fn delete_existing_removes_it() {
    let mut store = Store::new();
    create_todo_with_id(
        &mut store,
        PartialTodo { text: "x".to_string(), completed: false },
        ID_A.to_string(),
    );
    let status = delete_todo(&mut store, &ID_A.to_string());
    assert_eq!(status, STATUS_NO_CONTENT);
    assert!(!store.exists_id(&ID_A.to_string()));
    assert_eq!(store.len(), 0);
}

#[test]
fn full_scenario() {
    let mut store = Store::new();
    let created = create_todo(
        &mut store,
        PartialTodo { text: "buy milk".to_string(), completed: false },
    );
    assert!(is_uuid_string(&created.id));
    let listed = list_todos(&store, &opts(None, None)).unwrap();
    assert_eq!(listed.len(), 1);
    assert_eq!(listed[0].id, created.id);
    assert_eq!(listed[0].text, "buy milk");
    assert!(!listed[0].completed);
    let status = update_todo(&mut store, &todo(&created.id, "buy milk", true));
    assert_eq!(status, STATUS_OK);
    let listed = list_todos(&store, &opts(None, None)).unwrap();
    assert!(listed[0].completed);
    let status = delete_todo(&mut store, &created.id);
    assert_eq!(status, STATUS_NO_CONTENT);
    let status = delete_todo(&mut store, &created.id);
    assert_eq!(status, STATUS_NOT_FOUND);
    let listed = list_todos(&store, &opts(None, None)).unwrap();
    assert_eq!(listed.len(), 0);
}

#[test]
fn corrupt_record_surfaces_as_internal_error() {
    let mut store = Store::new();
    store.entries.push((ID_A.to_string(), "not json".to_string()));
    match list_todos(&store, &opts(None, None)) {
        Err(e) => {
            assert!(matches!(e, ApiError::CorruptRecord));
            assert_eq!(status_of_error(&e), STATUS_INTERNAL_ERROR);
        },
        Ok(_) => panic!("a corrupt record must fail the list"),
    }
}

#[test]
fn error_statuses() {
    assert_eq!(status_of_error(&ApiError::Validation), STATUS_BAD_REQUEST);
    assert_eq!(status_of_error(&ApiError::Backend), STATUS_INTERNAL_ERROR);
}

#[test]
fn query_parsing() {
    let o = parse_list_options("offset=3&limit=5").unwrap();
    assert_eq!(o.offset, Some(3));
    assert_eq!(o.limit, Some(5));
    let o = parse_list_options("").unwrap();
    assert_eq!(o.offset, None);
    assert_eq!(o.limit, None);
    let o = parse_list_options("other=zz&limit=0").unwrap();
    assert_eq!(o.offset, None);
    assert_eq!(o.limit, Some(0));
    assert!(parse_list_options("offset=abc").is_none());
    assert!(parse_list_options("offset=").is_none());
    assert!(parse_list_options("limit=1&limit=2").is_none());
    assert!(parse_list_options("offset=99999999999999999999999999").is_none());
}

#[test]
fn route_table() {
    match route("GET", "/todos", "offset=1") {
        Some(Route::List(o)) => assert_eq!(o.offset, Some(1)),
        _ => panic!("list route must match"),
    }
    assert!(matches!(route("POST", "/todos", ""), Some(Route::Create)));
    assert!(matches!(route("PUT", "/todos", ""), Some(Route::Update)));
    let path = format!("/todos/{}", ID_A);
    match route("DELETE", &path, "") {
        Some(Route::Delete(id)) => assert_eq!(id, ID_A),
        _ => panic!("delete route must match"),
    }
    let upper = format!("/todos/{}", ID_A.to_uppercase());
    match route("DELETE", &upper, "") {
        Some(Route::Delete(id)) => assert_eq!(id, ID_A),
        _ => panic!("delete route must normalize the identifier"),
    }
    assert!(route("DELETE", "/todos/oops", "").is_none());
    assert!(route("GET", "/todos", "offset=x").is_none());
    assert!(route("PATCH", "/todos", "").is_none());
    assert!(route("GET", "/other", "").is_none());
}
