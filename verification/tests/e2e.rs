use mosaic_contracts::e2e::{check_required_fields, tx_outcome, Chain, Contract, Error, TxPoll, TxWait, TxWaitAction};
use mosaic_contracts::fixtures::{test_color, test_position, test_token_id, MockQuerier};
use mosaic_contracts::grid::{Color, Position};

#[test]
fn chain_and_contract() {
    let chain = Chain::new("http://node:26657", "test-1");
    assert_eq!(chain.get_node(), "http://node:26657");
    let default = Chain::default();
    assert_eq!(default.get_node(), "https://rpc.elgafar-1.stargaze-apis.com:443");
    let contract = Contract::new("stars1abc", chain);
    assert_eq!(contract.address, "stars1abc");
    assert_eq!(contract.chain.get_node(), "http://node:26657");
}

#[test]
fn command_lines() {
    let chain = Chain::new("http://node", "test-1");
    let args = chain.tx_args("addr", "{}", "alice", Some("5ustars"));
    assert_eq!(args.len(), 26);
    assert_eq!(&args[..5], &["tx", "wasm", "execute", "addr", "{}"]);
    assert_eq!(&args[7..11], &["--chain-id", "test-1", "--node", "http://node"]);
    assert_eq!(&args[24..], &["--amount", "5ustars"]);
    assert_eq!(chain.tx_args("addr", "{}", "alice", None).len(), 24);
    assert_eq!(
        chain.tx_status_args("ABC"),
        vec!["query", "tx", "ABC", "--node", "http://node", "--output", "json"]
    );
    assert_eq!(chain.query_args("addr", "{}")[3], "smart");
    assert_eq!(chain.balance_args("alice", "ustars")[5], "ustars");
}

#[test]
fn schema_required_fields() {
    let contract = Contract::new("addr", Chain::default());
    let required = vec!["token_id".to_string(), "owner".to_string()];
    assert!(contract.validate_message(&required, &vec!["owner".to_string(), "token_id".to_string()]).is_ok());
    assert_eq!(
        contract.validate_message(&required, &vec!["token_id".to_string()]).unwrap_err(),
        Error::SchemaValidation("Missing required field: owner".to_string())
    );
    assert_eq!(
        check_required_fields(&required, &vec![]).unwrap_err(),
        Error::SchemaValidation("Missing required field: token_id".to_string())
    );
    assert!(check_required_fields(&vec![], &vec![]).is_ok());
}

#[test]
fn waiting_for_a_transaction() {
    assert!(tx_outcome(Some(0), None).is_ok());
    assert_eq!(tx_outcome(Some(5), Some("out of gas".to_string())).unwrap_err(), Error::TransactionFailed("out of gas".to_string()));
    assert_eq!(tx_outcome(None, None).unwrap_err(), Error::TransactionFailed("Unknown error".to_string()));

    let mut wait = TxWait::new();
    let mut polls = 0;
    while wait.should_poll() {
        polls += 1;
        match wait.on_poll(TxPoll::Pending { stderr: format!("not found {}", polls) }) {
            TxWaitAction::PollAgain => {},
            TxWaitAction::Finish(_) => panic!("a pending lookup does not end the wait"),
        }
    }
    assert_eq!(polls, 10);
    assert_eq!(
        wait.give_up(),
        Error::TransactionFailed("Transaction not found after 10 retries. Last error: not found 10".to_string())
    );
    assert_eq!(
        TxWait::new().give_up(),
        Error::TransactionFailed("Transaction not found after 10 retries. Last error: Unknown error".to_string())
    );

    let mut wait = TxWait::new();
    match wait.on_poll(TxPoll::Included { code: Some(0), raw_log: None }) {
        TxWaitAction::Finish(r) => assert!(r.is_ok()),
        TxWaitAction::PollAgain => panic!("an included transaction ends the wait"),
    }
}

#[test]
fn fixtures() {
    assert_eq!(test_position(0), Position { x: 0, y: 0 });
    assert_eq!(test_position(7), Position { x: 2, y: 2 });
    assert_eq!(test_color(1), Color { r: 0, g: 255, b: 0 });
    assert_eq!(test_color(9), Color { r: 255, g: 0, b: 255 });
    assert_eq!(test_token_id(&Position { x: 3, y: 4 }), "tile_3_4");
    let mut q = MockQuerier::new();
    q.mock_nft_token(Position { x: 1, y: 1 }, "user1".to_string(), Color { r: 1, g: 2, b: 3 });
    assert_eq!(q.owner_of(&"tile_1_1".to_string()), "user1");
    assert_eq!(q.color_of(&"tile_1_1".to_string()), Color { r: 1, g: 2, b: 3 });
    assert_eq!(q.owner_of(&"tile_2_2".to_string()), "");
    q.mock_nft_owner("tile_1_1".to_string(), "user2".to_string());
    assert_eq!(q.owner_of(&"tile_1_1".to_string()), "user2");
    q.mock_nft_color("tile_9_9".to_string(), Color { r: 9, g: 9, b: 9 });
    assert_eq!(q.color_of(&"tile_9_9".to_string()), Color { r: 9, g: 9, b: 9 });
    assert_eq!(q.color_of(&"nope".to_string()), Color { r: 0, g: 0, b: 0 });
}
