use blockchain_prototype::clock::now_ts;
use blockchain_prototype::node::{broadcast, classify_message, strip_prefix, Request};

#[test]
fn classify_requests() {
    assert!(matches!(classify_message("REQ_CHAIN"), Request::RequestChain));
    assert!(matches!(classify_message("REQ_STATE"), Request::RequestState));
    match classify_message("TX|{\"a\":1}") {
        Request::NewTransaction(p) => assert_eq!(p, "{\"a\":1}"),
        _ => panic!("expected a transaction"),
    }
    match classify_message("BLOCK|xyz") {
        Request::NewBlock(p) => assert_eq!(p, "xyz"),
        _ => panic!("expected a block"),
    }
    assert!(matches!(classify_message("REQ_CHAINX"), Request::Other));
    assert!(matches!(classify_message("TX"), Request::Other));
    assert!(matches!(classify_message(""), Request::Other));
}

#[test]
fn strip_prefix_cases() {
    assert_eq!(strip_prefix("CHAIN|[]", "CHAIN|"), Some("[]".to_string()));
    assert_eq!(strip_prefix("CHAIN|", "CHAIN|"), Some(String::new()));
    assert_eq!(strip_prefix("CHAI", "CHAIN|"), None);
    assert_eq!(strip_prefix("xCHAIN|", "CHAIN|"), None);
    assert_eq!(strip_prefix("TX|é€", "TX|"), Some("é€".to_string()));
}

#[test]
fn broadcast_sends_the_message_to_every_peer() {
    let peers = vec!["127.0.0.1:1".to_string(), "127.0.0.1:2".to_string()];
    let out = broadcast(&peers, "BLOCK|x");
    assert_eq!(
        out,
        vec![
            ("127.0.0.1:1".to_string(), "BLOCK|x".to_string()),
            ("127.0.0.1:2".to_string(), "BLOCK|x".to_string()),
        ]
    );
    assert!(broadcast(&[], "m").is_empty());
}

#[test]
fn clock_reads_after_2020() {
    assert!(now_ts().unwrap() > 1_577_836_800);
}
