use bare_http::http::fields::Fields;
use bare_http::http::routes::{parameter, path_segments, RouteNode, Router};

fn found(router: &Router<u32>, path: &str) -> Option<(u32, Vec<(String, String)>)> {
    router.find(path).map(|(h, params)| (*h, params.entries))
}

fn pair(name: &str, value: &str) -> (String, String) {
    (name.to_string(), value.to_string())
}

#[test]
fn literal_route_is_found_with_no_params() {
    let router = Router::new().register("/a/b", 7u32);
    assert_eq!(found(&router, "/a/b"), Some((7, vec![])));
    assert_eq!(found(&router, "/a/x"), None);
    assert_eq!(found(&router, "/a"), None);
    assert_eq!(found(&router, "/a/b/c"), None);
    assert_eq!(found(&router, "/"), None);
}

#[test]
fn parameter_segment_is_captured() {
    let router = Router::new().register("/object/{id}/edit", 3u32);
    assert_eq!(found(&router, "/object/42/edit"), Some((3, vec![pair("id", "42")])));
    assert_eq!(found(&router, "/object/42"), None);
    assert_eq!(found(&router, "/object/42/view"), None);
    assert_eq!(found(&router, "/object//edit"), Some((3, vec![pair("id", "")])));
}

#[test]
fn literal_wins_over_parameter() {
    let router = Router::new().register("/a/b", 1u32).register("/a/{x}", 2u32);
    assert_eq!(found(&router, "/a/b"), Some((1, vec![])));
    assert_eq!(found(&router, "/a/c"), Some((2, vec![pair("x", "c")])));
    let other = Router::new().register("/a/{x}", 2u32).register("/a/b", 1u32);
    assert_eq!(found(&other, "/a/b"), Some((1, vec![])));
    assert_eq!(found(&other, "/a/c"), Some((2, vec![pair("x", "c")])));
}

#[test]
fn root_handler_serves_slash() {
    let router = Router::new().register("/", 9u32);
    assert_eq!(found(&router, "/"), Some((9, vec![])));
    assert_eq!(found(&router, ""), Some((9, vec![])));
    assert_eq!(found(&router, "/x"), None);
    let empty: Router<u32> = Router::new();
    assert_eq!(found(&empty, "/"), None);
}

#[test]
fn last_registration_wins() {
    let router = Router::new().register("/a/b", 1u32).register("/a/b", 2u32);
    assert_eq!(found(&router, "/a/b"), Some((2, vec![])));
    assert_eq!(router.root.children.len(), 1);
    assert_eq!(router.root.children[0].children.len(), 1);
}

#[test]
fn parameter_slot_is_shared_and_renamed() {
    let router = Router::new().register("/u/{id}", 1u32).register("/u/{name}/posts/{post}", 2u32);
    assert_eq!(found(&router, "/u/5"), Some((1, vec![pair("name", "5")])));
    assert_eq!(
        found(&router, "/u/5/posts/8"),
        Some((2, vec![pair("name", "5"), pair("post", "8")]))
    );
}

#[test]
fn intermediate_nodes_have_no_handler() {
    let router = Router::new().register("/a/b/c", 1u32);
    assert_eq!(found(&router, "/a/b"), None);
    assert_eq!(found(&router, "/a/b/c"), Some((1, vec![])));
    assert_eq!(found(&router, "/a/b/c/"), None);
}

#[test]
fn segments_and_parameters() {
    assert_eq!(path_segments("/a/b"), vec!["a".to_string(), "b".to_string()]);
    assert_eq!(path_segments("/"), Vec::<String>::new());
    assert_eq!(path_segments(""), Vec::<String>::new());
    assert_eq!(path_segments("/a/"), vec!["a".to_string(), "".to_string()]);
    assert_eq!(path_segments("x/a"), vec!["a".to_string()]);
    assert_eq!(parameter("{id}"), Some("id".to_string()));
    assert_eq!(parameter("{}"), Some("".to_string()));
    assert_eq!(parameter("{"), None);
    assert_eq!(parameter("id"), None);
    assert_eq!(parameter("{id"), None);
    assert_eq!(parameter(""), None);
}

#[test]
fn node_accessors() {
    let node = RouteNode::new("seg", Some(4u32));
    assert_eq!(node.name, "seg");
    assert_eq!(node.function(), Some(&4));
    assert_eq!(node.child_position("x"), None);
    let node = node.insert(&vec!["x".to_string()], 0, 5);
    assert_eq!(node.child_position("x"), Some(0));
    assert_eq!(node.children[0].function(), Some(&5));
    let bare: RouteNode<u32> = RouteNode::new("", None);
    assert_eq!(bare.function(), None);
}

#[test]
fn fields_keep_one_entry_per_name() {
    let mut fields = Fields::new();
    assert_eq!(fields.len(), 0);
    fields.insert("a".to_string(), "1".to_string());
    fields.insert("b".to_string(), "2".to_string());
    fields.insert("a".to_string(), "3".to_string());
    assert_eq!(fields.len(), 2);
    assert_eq!(fields.position("a"), Some(0));
    assert_eq!(fields.position("b"), Some(1));
    assert_eq!(fields.position("c"), None);
    assert_eq!(fields.get("a").map(|v| v.as_str()), Some("3"));
    assert_eq!(fields.get("b").map(|v| v.as_str()), Some("2"));
    assert_eq!(fields.entries, vec![pair("a", "3"), pair("b", "2")]);
}
