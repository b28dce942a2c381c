use lnd_client::{
    channel_endpoint, validate_node_configs, ChannelSetupError, ConnectNodes, LndConnectError, LndNodeClients, LndNodeConfig,
};

fn assert_clone<T: Clone>() {}

fn config(alias: &str, socket: &str) -> LndNodeConfig {
    LndNodeConfig::new(alias, "cert", "macaroon", socket)
}

#[test]
fn test_lnd_node_clients_is_clone() {
    assert_clone::<LndNodeClients<String>>();
}

/// Drives a connection run, answering each node with `answer`.
fn run_connect(
    configs: Vec<LndNodeConfig>,
    answer: impl Fn(&LndNodeConfig) -> Result<String, String>,
) -> Result<LndNodeClients<String>, LndConnectError> {
    let mut run: ConnectNodes<String> = ConnectNodes::start(configs)?;
    while let Some(config) = run.next_node() {
        let outcome = answer(config);
        run.record(outcome)?;
    }
    Ok(run.finish())
}

#[test]
fn test_connect_nodes_empty() {
    let clients = run_connect(Vec::new(), |_| Ok("client".to_string())).unwrap();

    assert!(clients.is_empty());
    assert_eq!(clients.len(), 0);
}

#[test]
fn test_connect_nodes_rejects_empty_alias() {
    let result = run_connect(
        vec![LndNodeConfig::new("", "cert", "macaroon", "localhost:10009")],
        |_| Ok("client".to_string()),
    );

    assert!(matches!(result, Err(LndConnectError::EmptyAlias)));
}

#[test]
fn test_connect_nodes_rejects_duplicate_alias() {
    let result = run_connect(
        vec![
            LndNodeConfig::new("alice", "cert", "macaroon", "localhost:10009"),
            LndNodeConfig::new("alice", "cert", "macaroon", "localhost:10010"),
        ],
        |_| Ok("client".to_string()),
    );

    assert!(matches!(result, Err(LndConnectError::DuplicateAlias(alias)) if alias == "alice"));
}

#[test]
fn test_connect_nodes_error_includes_alias() {
    let result = run_connect(
        vec![LndNodeConfig::new("alice", "not-hex", "deadbeef", "localhost:10009")],
        |_| Err("Odd number of digits".to_string()),
    );

    match result {
        Err(LndConnectError::NodeConnect { alias, .. }) => assert_eq!(alias, "alice"),
        _ => panic!("expected node connection error"),
    }
}

#[test]
fn connect_stops_at_first_failure() {
    let result = run_connect(
        vec![config("alice", "a:1"), config("bob", "b:1"), config("carol", "c:1")],
        |c| {
            if c.alias == "alice" {
                Ok("client".to_string())
            } else {
                Err(format!("refused by {}", c.socket))
            }
        },
    );
    match result {
        Err(LndConnectError::NodeConnect { alias, message }) => {
            assert_eq!(alias, "bob");
            assert_eq!(message, "refused by b:1");
        }
        _ => panic!("expected node connection error"),
    }
}

#[test]
fn validation_checks_aliases_only() {
    assert!(validate_node_configs(vec![config("alice", "a:1"), config("bob", "a:1")]).is_ok());
}

#[test]
fn validation_reports_first_problem() {
    let result = validate_node_configs(vec![
        config("alice", "a:1"),
        config("bob", "b:1"),
        config("alice", "a:2"),
        config("", "c:1"),
    ]);
    assert!(matches!(result, Err(LndConnectError::DuplicateAlias(alias)) if alias == "alice"));

    let result = validate_node_configs(vec![
        config("alice", "a:1"),
        config("", "c:1"),
        config("alice", "a:2"),
    ]);
    assert!(matches!(result, Err(LndConnectError::EmptyAlias)));
}

#[test]
fn validation_returns_configs_unchanged() {
    let configs = vec![config("alice", "a:1"), config("bob", "b:1"), config("carol", "c:1")];
    let accepted = validate_node_configs(configs.clone()).unwrap();
    assert_eq!(accepted, configs);
}

#[test]
fn all_connected_gives_one_client_per_node() {
    let configs = vec![config("alice", "a:1"), config("bob", "b:1"), config("carol", "c:1")];
    let clients = run_connect(configs.clone(), |c| Ok(format!("client for {}", c.socket))).unwrap();
    assert_eq!(clients.len(), configs.len());
    for c in configs.iter() {
        assert_eq!(clients.get(&c.alias), Some(&format!("client for {}", c.socket)));
    }
    assert_eq!(clients.aliases(), vec!["alice", "bob", "carol"]);
}

#[test]
fn test_lnd_node_clients_accessors() {
    let mut clients: LndNodeClients<String> = LndNodeClients::new();
    assert!(clients.insert("alice".to_string(), "deadbeef".to_string()).is_none());
    assert!(clients
        .insert("bob".to_string(), "0201036c6e640224030a10".to_string())
        .is_none());

    assert_eq!(clients.len(), 2);
    assert!(!clients.is_empty());
    assert!(clients.contains("alice"));
    assert!(clients.get("alice").is_some());
    assert!(clients.get_mut("alice").is_some());
    assert!(clients.get_cloned("alice").is_some());
    assert!(clients.get("carol").is_none());

    let mut aliases = clients.aliases();
    aliases.sort_unstable();
    assert_eq!(aliases, vec!["alice", "bob"]);

    let mut iter_aliases = clients.iter().into_iter().map(|(alias, _)| alias).collect::<Vec<_>>();
    iter_aliases.sort_unstable();
    assert_eq!(iter_aliases, vec!["alice", "bob"]);

    let mut index = 0;
    while let Some((_, client)) = clients.iter_mut(index) {
        client.push('!');
        index += 1;
    }
    assert_eq!(index, 2);
    assert_eq!(clients.get("alice").unwrap(), "deadbeef!");

    let inner = clients.into_inner();
    assert_eq!(inner.len(), 2);
}

#[test]
fn insert_replaces_and_returns_previous() {
    let mut clients: LndNodeClients<u32> = LndNodeClients::new();
    assert_eq!(clients.insert("alice".to_string(), 1), None);
    assert_eq!(clients.insert("alice".to_string(), 2), Some(1));
    assert_eq!(clients.len(), 1);
    assert_eq!(clients.get("alice"), Some(&2));
    if let Some(c) = clients.get_mut("alice") {
        *c = 5;
    }
    assert_eq!(clients.get_cloned("alice"), Some(5));
    assert!(clients.get_mut("bob").is_none());
}

#[test]
fn clone_and_order() {
    let mut clients: LndNodeClients<u32> = LndNodeClients::new();
    clients.insert("carol".to_string(), 3);
    clients.insert("alice".to_string(), 1);
    clients.insert("bob".to_string(), 2);
    let copy = clients.clone();
    assert_eq!(copy.aliases(), vec!["carol", "alice", "bob"]);
    assert_eq!(clients.aliases(), copy.aliases());
    assert_eq!(copy.get("bob"), Some(&2));
    let mut pairs = copy.into_inner();
    pairs.sort();
    assert_eq!(
        pairs,
        vec![("alice".to_string(), 1), ("bob".to_string(), 2), ("carol".to_string(), 3)]
    );
    assert!(clients.iter_mut(3).is_none());
}

/// Works out each node's endpoint as `connect` does before opening the
/// channel; the endpoint's URI stands in for the client.
fn endpoint_outcome(config: &LndNodeConfig) -> Result<String, String> {
    match channel_endpoint(&config.cert, &config.socket) {
        Ok(endpoint) => Ok(endpoint.uri.to_string()),
        Err(ChannelSetupError::InvalidCertificateHex(err)) => Err(err.to_string()),
        Err(ChannelSetupError::InvalidUri(err)) => Err(err.to_string()),
    }
}

#[test]
fn connect_run_with_invalid_cert_hex_names_node() {
    let result = run_connect(
        vec![LndNodeConfig::new("alice", "not-hex", "deadbeef", "localhost:10009")],
        endpoint_outcome,
    );
    match result {
        Err(LndConnectError::NodeConnect { alias, message }) => {
            assert_eq!(alias, "alice");
            assert_eq!(message, "Odd number of digits");
        }
        _ => panic!("expected node connection error"),
    }
}

#[test]
fn connect_run_reaches_each_socket() {
    let clients = run_connect(
        vec![
            LndNodeConfig::new("alice", "00ff", "deadbeef", "localhost:10009"),
            LndNodeConfig::new("bob", "0a0b", "deadbeef", "example.org:10010"),
        ],
        endpoint_outcome,
    )
    .unwrap();
    assert_eq!(clients.len(), 2);
    assert_eq!(clients.get("alice").unwrap(), "https://localhost:10009/");
    assert_eq!(clients.get("bob").unwrap(), "https://example.org:10010/");
}
