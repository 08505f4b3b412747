use poslib::cli::Cli;
use poslib::wallet::{FeeType, Key, Recipient};

fn cli(nodes: &str) -> Cli {
    Cli {
        port: 9001,
        private_key_file: "alice.priv.cbor".to_string(),
        blockchain_file: "validator_blockchain.cbor".to_string(),
        nodes: nodes.to_string(),
    }
}

#[test]
fn get_nodes_splits_and_trims() {
    assert_eq!(
        cli("127.0.0.1:9001, 127.0.0.1:9002").get_nodes(),
        vec!["127.0.0.1:9001".to_string(), "127.0.0.1:9002".to_string()]
    );
}

#[test]
fn get_nodes_drops_empty_pieces() {
    assert_eq!(cli("").get_nodes(), Vec::<String>::new());
    assert_eq!(cli(" , a ,, b,").get_nodes(), vec!["a".to_string(), "b".to_string()]);
}

#[test]
fn wallet_settings_hold_values() {
    let k = Key { public: "a.pub.pem".to_string(), private: "a.priv.cbor".to_string() };
    let r = Recipient { name: "Alice".to_string(), key: "alice.pub.pem".to_string() };
    assert_eq!(k.clone(), k);
    assert_eq!(r.name, "Alice");
    assert_ne!(FeeType::Fixed, FeeType::Percent);
}
