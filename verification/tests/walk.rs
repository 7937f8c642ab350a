use oapi_codegen::document::{Method, MethodsIterator, Operation, PathEntry, PathItem, PathItemOrRef};
use oapi_codegen::walker::walk_order;

fn operation(id: &str) -> Operation {
    Operation {
        operation_id: Some(id.to_string()),
        summary: None,
        description: None,
        parameters: vec![],
        request_body: None,
    }
}

fn empty_item() -> PathItem {
    PathItem {
        parameters: vec![],
        get: None,
        put: None,
        post: None,
        delete: None,
        options: None,
        head: None,
        patch: None,
        trace: None,
    }
}

fn entry(path: &str) -> PathEntry {
    PathEntry { path: path.to_string(), item: PathItemOrRef::Item(empty_item()) }
}

fn methods_of(item: &PathItem) -> Vec<(Method, String)> {
    let mut walk = MethodsIterator::new(item);
    let mut seen = Vec::new();
    while let Some((method, operation)) = walk.next() {
        seen.push((method, operation.operation_id.clone().unwrap()));
    }
    assert!(walk.next().is_none());
    seen
}

#[test]
fn methods_come_in_the_fixed_order() {
    let mut item = empty_item();
    item.trace = Some(operation("t"));
    item.patch = Some(operation("pa"));
    item.delete = Some(operation("d"));
    item.post = Some(operation("po"));
    item.get = Some(operation("g"));
    item.head = Some(operation("h"));
    item.options = Some(operation("o"));
    assert_eq!(
        methods_of(&item),
        vec![
            (Method::Options, "o".to_string()),
            (Method::Head, "h".to_string()),
            (Method::Get, "g".to_string()),
            (Method::Post, "po".to_string()),
            (Method::Delete, "d".to_string()),
            (Method::Patch, "pa".to_string()),
            (Method::Trace, "t".to_string()),
        ]
    );
}

#[test]
fn only_declared_methods_are_yielded() {
    let mut item = empty_item();
    item.delete = Some(operation("d"));
    item.get = Some(operation("g"));
    assert_eq!(
        methods_of(&item),
        vec![(Method::Get, "g".to_string()), (Method::Delete, "d".to_string())]
    );
    assert_eq!(methods_of(&empty_item()), vec![]);
}

#[test]
fn put_is_not_looked_at() {
    let mut item = empty_item();
    item.put = Some(operation("replace"));
    assert_eq!(methods_of(&item), vec![]);
}

#[test]
fn method_names() {
    let all = [
        (Method::Options, "options", "OPTIONS"),
        (Method::Head, "head", "HEAD"),
        (Method::Get, "get", "GET"),
        (Method::Post, "post", "POST"),
        (Method::Delete, "delete", "DELETE"),
        (Method::Patch, "patch", "PATCH"),
        (Method::Trace, "trace", "TRACE"),
    ];
    for (method, lower, upper) in all {
        assert_eq!(method.name(), lower);
        assert_eq!(method.upper_name(), upper);
        assert_eq!(method.upper_name(), lower.to_uppercase());
    }
}

#[test]
fn paths_are_walked_by_path() {
    let paths = vec![entry("/users/{id}"), entry("/pets"), entry("/users"), entry("/")];
    assert_eq!(walk_order(&paths), vec![3, 1, 2, 0]);
}

#[test]
fn equal_paths_keep_their_order() {
    let paths = vec![entry("/b"), entry("/a"), entry("/b"), entry("/a")];
    assert_eq!(walk_order(&paths), vec![1, 3, 0, 2]);
}

#[test]
fn empty_table_has_an_empty_walk() {
    assert_eq!(walk_order(&vec![]), Vec::<usize>::new());
    assert_eq!(walk_order(&vec![entry("/only")]), vec![0]);
}

#[test]
fn walk_agrees_with_a_stable_sort() {
    let names = ["/pets", "/", "/users/{id}", "/pets", "/a/b", "/a", "/users", "/a", "/pets/{id}", ""];
    let paths: Vec<PathEntry> = names.iter().map(|n| entry(n)).collect();
    let mut expected: Vec<usize> = (0..names.len()).collect();
    expected.sort_by_key(|i| names[*i]);
    assert_eq!(walk_order(&paths), expected);
}
