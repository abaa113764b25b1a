use predictions::key::store_key;
use predictions::route::{route, Route};

fn lookup_of(method: &str, path: &str) -> Option<String> {
    match route(method, path) {
        Route::Lookup(client_id) => Some(client_id),
        _ => None,
    }
}

#[test]
fn store_key_prefixes_the_client_id() {
    assert_eq!(store_key("42"), "predictions:42");
    assert_eq!(store_key("99"), "predictions:99");
    assert_eq!(store_key("client-7"), "predictions:client-7");
}

#[test]
fn store_key_takes_the_client_id_verbatim() {
    assert_eq!(store_key("a:b"), "predictions:a:b");
    assert_eq!(store_key("predictions:1"), "predictions:predictions:1");
    assert_eq!(store_key("%20 x"), "predictions:%20 x");
    assert_eq!(store_key("\u{e9}t\u{e9}"), "predictions:\u{e9}t\u{e9}");
    assert_eq!(store_key(""), "predictions:");
}

#[test]
fn store_keys_of_distinct_clients_differ() {
    let ids = ["1", "01", "1 ", "a", "A", "a:b", "a:", ":a"];
    for (i, first) in ids.iter().enumerate() {
        for (j, second) in ids.iter().enumerate() {
            assert_eq!(store_key(first) == store_key(second), i == j);
        }
    }
}

#[test]
fn get_of_a_prediction_path_is_a_lookup() {
    assert_eq!(lookup_of("GET", "/predictions/42"), Some(String::from("42")));
    assert_eq!(lookup_of("GET", "/predictions/x"), Some(String::from("x")));
    assert_eq!(lookup_of("GET", "/predictions/a:b"), Some(String::from("a:b")));
    assert_eq!(lookup_of("GET", "/predictions/%2F"), Some(String::from("%2F")));
    assert_eq!(lookup_of("GET", "/predictions/\u{e9}t\u{e9}"), Some(String::from("\u{e9}t\u{e9}")));
}

#[test]
fn missing_client_id_is_not_found() {
    assert!(matches!(route("GET", "/predictions/"), Route::NotFound));
    assert!(matches!(route("GET", "/predictions"), Route::NotFound));
}

#[test]
fn other_paths_are_not_found() {
    assert!(matches!(route("GET", ""), Route::NotFound));
    assert!(matches!(route("GET", "/"), Route::NotFound));
    assert!(matches!(route("GET", "/prediction/42"), Route::NotFound));
    assert!(matches!(route("GET", "/Predictions/42"), Route::NotFound));
    assert!(matches!(route("GET", "predictions/42"), Route::NotFound));
    assert!(matches!(route("GET", "/predictions/42/"), Route::NotFound));
    assert!(matches!(route("GET", "/predictions/42/extra"), Route::NotFound));
    assert!(matches!(route("GET", "/predictions//42"), Route::NotFound));
    assert!(matches!(route("GET", "/v1/predictions/42"), Route::NotFound));
    assert!(matches!(route("GET", "/\u{e9}redictions/42"), Route::NotFound));
}

#[test]
fn other_methods_are_not_allowed() {
    assert!(matches!(route("POST", "/predictions/42"), Route::MethodNotAllowed));
    assert!(matches!(route("PUT", "/predictions/42"), Route::MethodNotAllowed));
    assert!(matches!(route("DELETE", "/predictions/42"), Route::MethodNotAllowed));
    assert!(matches!(route("HEAD", "/predictions/42"), Route::MethodNotAllowed));
    assert!(matches!(route("get", "/predictions/42"), Route::MethodNotAllowed));
    assert!(matches!(route("", "/predictions/42"), Route::MethodNotAllowed));
    assert!(matches!(route("POST", "/elsewhere"), Route::MethodNotAllowed));
}
