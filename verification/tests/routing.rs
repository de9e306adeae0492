use event_router::{listen, send, send_to, unlisten, Error, Message, Registry};

fn message(event: &str) -> Message {
    Message { event: event.to_string(), data: vec![1, 2, 3] }
}

fn keys(registry: &Registry<u32>) -> Vec<(String, u32)> {
    registry.snapshot()
}

#[test]
fn new_registry_is_empty() {
    let registry: Registry<u32> = Registry::new();
    assert_eq!(registry.len(), 0);
    assert!(registry.snapshot().is_empty());
    assert_eq!(send(&registry, &message("/foo")), Ok(vec![]));
}

#[test]
fn listen_then_send_reaches_the_handle() {
    let mut registry: Registry<u32> = Registry::new();
    assert_eq!(listen(&mut registry, "/foo/bar", 7), Ok(()));
    assert_eq!(registry.len(), 1);
    assert_eq!(send(&registry, &message("/foo/bar")), Ok(vec![7]));
}

#[test]
fn listening_twice_replaces_the_handle() {
    let mut registry: Registry<u32> = Registry::new();
    assert_eq!(listen(&mut registry, "/foo", 1), Ok(()));
    assert_eq!(listen(&mut registry, "/foo", 2), Ok(()));
    assert_eq!(registry.len(), 1);
    assert_eq!(send(&registry, &message("/foo")), Ok(vec![2]));
    assert_eq!(send_to(&registry, "/foo"), Ok(2));
    assert_eq!(keys(&registry), vec![("/foo".to_string(), 2)]);
}

#[test]
fn replacing_keeps_the_entry_in_its_place() {
    let mut registry: Registry<u32> = Registry::new();
    listen(&mut registry, "/a", 1).unwrap();
    listen(&mut registry, "/b", 2).unwrap();
    listen(&mut registry, "/c", 3).unwrap();
    listen(&mut registry, "/b", 20).unwrap();
    assert_eq!(
        keys(&registry),
        vec![("/a".to_string(), 1), ("/b".to_string(), 20), ("/c".to_string(), 3)]
    );
}

#[test]
fn unlisten_of_an_unregistered_pattern_changes_nothing() {
    let mut registry: Registry<u32> = Registry::new();
    unlisten(&mut registry, "/nothing");
    assert_eq!(registry.len(), 0);
    listen(&mut registry, "/foo", 1).unwrap();
    unlisten(&mut registry, "/bar");
    unlisten(&mut registry, "not even a pattern");
    assert_eq!(keys(&registry), vec![("/foo".to_string(), 1)]);
}

#[test]
fn unlisten_removes_the_entry() {
    let mut registry: Registry<u32> = Registry::new();
    listen(&mut registry, "/a", 1).unwrap();
    listen(&mut registry, "/b", 2).unwrap();
    listen(&mut registry, "/c", 3).unwrap();
    unlisten(&mut registry, "/b");
    assert_eq!(keys(&registry), vec![("/a".to_string(), 1), ("/c".to_string(), 3)]);
    assert_eq!(send(&registry, &message("/b")), Ok(vec![]));
    assert_eq!(send_to(&registry, "/b"), Err(Error::CallbackNotFound("/b".to_string())));
    unlisten(&mut registry, "/b");
    assert_eq!(registry.len(), 2);
}

#[test]
fn send_without_a_match_succeeds_with_no_handle() {
    let mut registry: Registry<u32> = Registry::new();
    listen(&mut registry, "/foo/*", 1).unwrap();
    listen(&mut registry, "/bar", 2).unwrap();
    assert_eq!(send(&registry, &message("/baz")), Ok(vec![]));
    assert_eq!(send(&registry, &message("/foo/a/b")), Ok(vec![]));
}

#[test]
fn send_fans_out_in_the_order_of_registration() {
    let mut registry: Registry<u32> = Registry::new();
    listen(&mut registry, "/foo/*", 1).unwrap();
    listen(&mut registry, "/bar/*", 2).unwrap();
    listen(&mut registry, "/foo/bar", 3).unwrap();
    listen(&mut registry, "/*/bar", 4).unwrap();
    listen(&mut registry, "/foo/ba[rz]", 5).unwrap();
    assert_eq!(send(&registry, &message("/foo/bar")), Ok(vec![1, 3, 4, 5]));
    assert_eq!(send(&registry, &message("/foo/baz")), Ok(vec![1, 5]));
    assert_eq!(send(&registry, &message("/bar/bar")), Ok(vec![2, 4]));
}

#[test]
fn send_to_a_text_that_is_no_address_is_refused() {
    let mut registry: Registry<u32> = Registry::new();
    listen(&mut registry, "/foo/*", 1).unwrap();
    for bad in ["", "foo", "/", "/foo//", "/foo/*", "/foo bar"] {
        assert_eq!(
            send(&registry, &message(bad)),
            Err(Error::InvalidAddress(bad.to_string())),
            "{:?}",
            bad
        );
    }
}

#[test]
fn listen_refuses_what_is_no_pattern() {
    let mut registry: Registry<u32> = Registry::new();
    listen(&mut registry, "/ok", 1).unwrap();
    for bad in ["", "foo", "/foo[", "/{a,b", "/foo/"] {
        match listen(&mut registry, bad, 9) {
            Err(Error::InvalidPattern(refused, why)) => {
                assert_eq!(refused, bad);
                assert!(!why.is_empty());
            }
            other => panic!("{:?} for {:?}", other, bad),
        }
    }
    assert_eq!(keys(&registry), vec![("/ok".to_string(), 1)]);
}

#[test]
fn single_target_send_to_an_unregistered_event_is_not_found() {
    let mut registry: Registry<u32> = Registry::new();
    assert_eq!(send_to(&registry, "update"), Err(Error::CallbackNotFound("update".to_string())));
    listen(&mut registry, "/foo/*", 1).unwrap();
    assert_eq!(
        send_to(&registry, "/foo/bar"),
        Err(Error::CallbackNotFound("/foo/bar".to_string()))
    );
    assert_eq!(send_to(&registry, "/foo/*"), Ok(1));
}

#[test]
fn handles_may_be_function_pointers() {
    fn double(x: u32) -> u32 {
        2 * x
    }
    fn triple(x: u32) -> u32 {
        3 * x
    }
    let mut registry: Registry<fn(u32) -> u32> = Registry::new();
    listen(&mut registry, "/two", double).unwrap();
    listen(&mut registry, "/*", triple).unwrap();
    let handles = send(&registry, &message("/two")).unwrap();
    let results: Vec<u32> = handles.iter().map(|h| h(7)).collect();
    assert_eq!(results, vec![14, 21]);
}

#[test]
fn send_to_an_empty_last_segment_reaches_a_closing_star() {
    let mut registry: Registry<u32> = Registry::new();
    listen(&mut registry, "/foo/*", 1).unwrap();
    assert_eq!(send(&registry, &message("/foo/")), Ok(vec![1]));
    listen(&mut registry, "/foo/bar", 2).unwrap();
    listen(&mut registry, "/*/**", 3).unwrap();
    listen(&mut registry, "/foo", 4).unwrap();
    listen(&mut registry, "/bar/*", 5).unwrap();
    listen(&mut registry, "/foo/?", 6).unwrap();
    assert_eq!(send(&registry, &message("/foo/")), Ok(vec![1, 3]));
    assert_eq!(send(&registry, &message("/bar/")), Ok(vec![3, 5]));
    assert_eq!(send(&registry, &message("/foo/bar")), Ok(vec![1, 2, 3]));
    assert_eq!(send(&registry, &message("/foo/bar/")), Ok(vec![]));
}
