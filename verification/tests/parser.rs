use raft::parser::validate_peers;

#[test]
fn validate_peers_reads_id_and_address() {
    let p = validate_peers("2@127.0.0.1:8082").unwrap();
    assert_eq!(p.id, 2);
    assert_eq!(p.server, "127.0.0.1:8082");
}

#[test]
fn validate_peers_accepts_signed_ids() {
    assert_eq!(validate_peers("-5@host").unwrap().id, -5);
    assert_eq!(validate_peers("+7@host").unwrap().id, 7);
    assert_eq!(validate_peers("007@host").unwrap().id, 7);
}

#[test]
fn validate_peers_accepts_the_i32_bounds() {
    assert_eq!(validate_peers("2147483647@h").unwrap().id, i32::MAX);
    assert_eq!(validate_peers("-2147483648@h").unwrap().id, i32::MIN);
}

#[test]
fn validate_peers_accepts_an_empty_address() {
    let p = validate_peers("1@").unwrap();
    assert_eq!(p.id, 1);
    assert_eq!(p.server, "");
}

#[test]
fn validate_peers_refuses_empty_input() {
    assert_eq!(validate_peers("").unwrap_err(), "peer is empty");
}

#[test]
fn validate_peers_refuses_a_missing_separator() {
    assert_eq!(validate_peers("abc").unwrap_err(), "peer abc is invalid");
}

#[test]
fn validate_peers_refuses_two_separators() {
    assert_eq!(validate_peers("1@a@b").unwrap_err(), "peer 1@a@b is invalid");
    assert_eq!(validate_peers("@@").unwrap_err(), "peer @@ is invalid");
}

#[test]
fn validate_peers_refuses_a_bad_id() {
    assert_eq!(validate_peers("x@host").unwrap_err(), "peer x@host id is invalid");
    assert_eq!(validate_peers("@host").unwrap_err(), "peer @host id is invalid");
    assert_eq!(validate_peers("-@host").unwrap_err(), "peer -@host id is invalid");
    assert_eq!(validate_peers("+@host").unwrap_err(), "peer +@host id is invalid");
    assert_eq!(validate_peers(" 1@host").unwrap_err(), "peer  1@host id is invalid");
    assert_eq!(validate_peers("1.5@host").unwrap_err(), "peer 1.5@host id is invalid");
}

#[test]
fn validate_peers_refuses_ids_beyond_i32() {
    assert_eq!(validate_peers("2147483648@h").unwrap_err(), "peer 2147483648@h id is invalid");
    assert_eq!(validate_peers("-2147483649@h").unwrap_err(), "peer -2147483649@h id is invalid");
    assert_eq!(
        validate_peers("99999999999999999999@h").unwrap_err(),
        "peer 99999999999999999999@h id is invalid"
    );
}

#[test]
fn validate_peers_handles_non_ascii_text() {
    let p = validate_peers("3@hôte").unwrap();
    assert_eq!(p.id, 3);
    assert_eq!(p.server, "hôte");
    assert_eq!(validate_peers("é@h").unwrap_err(), "peer é@h id is invalid");
}

#[test]
fn formatted_peers_are_read_back() {
    for id in [0, 1, -1, 42, 1000, -98765, i32::MAX, i32::MIN] {
        for server in ["127.0.0.1:8080", "", "host.example:1"] {
            let p = validate_peers(&format!("{}@{}", id, server)).unwrap();
            assert_eq!(p.id, id);
            assert_eq!(p.server, server);
        }
    }
}
