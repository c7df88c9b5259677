use tarpipe::transport::{
    accept_outcome, connect_outcome, format_bind_address, select_mode, Config, ConfigError, Mode,
    TransportError,
};

fn config(
    mappings: Vec<&[u8]>,
    serve_address: &[u8],
    listen_port: u16,
    listen_destination: &[u8],
) -> Config {
    Config {
        mappings: mappings.iter().map(|m| m.to_vec()).collect(),
        serve_address: serve_address.to_vec(),
        listen_port,
        listen_destination: listen_destination.to_vec(),
    }
}

#[test]
fn serve_address_selects_send_mode() {
    let c = config(vec![b"docs"], b"example.net:9000", 0, b"");
    match select_mode(&c) {
        Ok(Mode::Send { address }) => assert_eq!(address, b"example.net:9000".to_vec()),
        _ => panic!("a non-empty serve address selects send mode"),
    }
}

#[test]
fn listen_port_selects_receive_mode() {
    let c = config(vec![], b"", 9000, b"incoming");
    match select_mode(&c) {
        Ok(Mode::Receive { port, destination }) => {
            assert_eq!(port, 9000);
            assert_eq!(destination, b"incoming".to_vec());
        }
        _ => panic!("a non-zero listen port selects receive mode"),
    }
}

#[test]
fn serve_address_wins_over_listen_port() {
    let c = config(vec![b"docs"], b"example.net:9000", 9000, b"incoming");
    match select_mode(&c) {
        Ok(Mode::Send { address }) => assert_eq!(address, b"example.net:9000".to_vec()),
        _ => panic!("send mode is checked first"),
    }
}

#[test]
fn neither_mode_is_invalid() {
    let c = config(vec![], b"", 0, b"");
    match select_mode(&c) {
        Err(e) => assert_eq!(e, ConfigError::InvalidMode),
        Ok(_) => panic!("no mode arguments is an invalid invocation"),
    }
}

#[test]
fn failed_connection_names_the_address() {
    // Send mode against an address with no listener: the attempt fails
    // and the operation reports a connect error for that address.
    let address = b"127.0.0.1:1".to_vec();
    match connect_outcome(false, &address, b"connection refused".to_vec()) {
        Err(TransportError::Connect { address: a, cause }) => {
            assert_eq!(a, address);
            assert_eq!(cause, b"connection refused".to_vec());
        }
        _ => panic!("a failed connect is a connect error"),
    }
}

#[test]
fn successful_connection_proceeds() {
    let address = b"127.0.0.1:9000".to_vec();
    assert!(connect_outcome(true, &address, Vec::new()).is_ok());
}

#[test]
fn no_client_within_wait_is_no_connection() {
    // Receive mode where nothing connects within the configured wait:
    // the operation fails with a missing connection and nothing is
    // written under the destination.
    match accept_outcome(false) {
        Err(TransportError::NoConnection) => {}
        _ => panic!("an empty accept is a missing connection"),
    }
}

#[test]
fn accepted_client_proceeds() {
    assert!(accept_outcome(true).is_ok());
}

#[test]
fn bind_address_names_all_interfaces() {
    assert_eq!(format_bind_address(9000), b"0.0.0.0:9000".to_vec());
    assert_eq!(format_bind_address(0), b"0.0.0.0:0".to_vec());
    assert_eq!(format_bind_address(65535), b"0.0.0.0:65535".to_vec());
}
