use pecrab::dispatch::{Route, Router};
use pecrab::errors::EngineError;
use pecrab::parse_file_path;

#[test]
fn clients_are_numbered_in_order_of_appearance() {
    let mut router = Router::new();
    assert_eq!(router.route(7), Route { actor: 0, spawn: true });
    assert_eq!(router.route(3), Route { actor: 1, spawn: true });
    assert_eq!(router.route(7), Route { actor: 0, spawn: false });
    assert_eq!(router.route(0), Route { actor: 2, spawn: true });
    assert_eq!(router.route(3), Route { actor: 1, spawn: false });
}

#[test]
fn every_client_has_an_actor_of_its_own() {
    let mut router = Router::new();
    for client in 0..=u16::MAX {
        let route = router.route(client);
        assert!(route.spawn);
        assert_eq!(route.actor, usize::from(client));
    }
    for client in 0..=u16::MAX {
        assert_eq!(router.route(client), Route { actor: usize::from(client), spawn: false });
    }
}

#[test]
fn test_parse_file_path_with_arg() {
    let result = parse_file_path(Some("transactions.csv".to_owned()));
    assert_eq!(result.unwrap(), "transactions.csv");
}

#[test]
fn test_parse_file_path_missing_arg() {
    let result = parse_file_path(None);
    assert!(matches!(result, Err(EngineError::InvalidCliArgument(_))));
    match result {
        Err(EngineError::InvalidCliArgument(text)) => assert_eq!(text, "CSV filename missing in cli argument"),
        _ => unreachable!(),
    }
}

#[test]
fn rows_share_an_actor_exactly_if_they_share_a_client() {
    let rows: Vec<u16> = vec![5, 2, 5, 9, 2, 2, 0, 9, 5, 65535, 0];
    let mut router = Router::new();
    let actors: Vec<usize> = rows.iter().map(|client| router.route(*client).actor).collect();
    for i in 0..rows.len() {
        for j in 0..rows.len() {
            assert_eq!(actors[i] == actors[j], rows[i] == rows[j]);
        }
    }
}
