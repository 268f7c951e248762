use parser::quotes::{
    _append_tickers, error_reply, is_ping, ping_timed_out, read_stream_request, request_action,
    response_kind, stream_request_command, LineAction, ResponseKind, StreamCommand, StreamRequest,
    PING_INTERVAL_SECS, PING_TIMEOUT_MILLISECS, SERVER_ADDR,
};

#[test]
fn reads_a_stream_request() {
    let request = read_stream_request("  stream udp://127.0.0.1:9100 unh,crm,,Aapl ").unwrap();
    assert_eq!(request.addr, "127.0.0.1:9100");
    assert_eq!(request.tickers, vec!["UNH".to_string(), "CRM".to_string(), "AAPL".to_string()]);
}

#[test]
fn refuses_malformed_requests() {
    assert_eq!(
        read_stream_request("STREAM udp://127.0.0.1:9100").unwrap_err(),
        "Неверный формат команды: STREAM udp://host:port TICKER1,TICKER2"
    );
    assert_eq!(
        read_stream_request("START udp://127.0.0.1:9100 A").unwrap_err(),
        "Неверный формат команды: STREAM udp://host:port TICKER1,TICKER2"
    );
    assert_eq!(
        read_stream_request("STREAM tcp://127.0.0.1:9100 A").unwrap_err(),
        "Принимаем только UDP: в адресе нет префикса udp://"
    );
}

#[test]
fn command_checks_address_then_tickers() {
    let request = StreamRequest { addr: "x".to_string(), tickers: vec![] };
    assert_eq!(
        StreamCommand::from_request(request, Some("invalid socket address syntax".to_string()))
            .unwrap_err(),
        "Адрес не распарсился x: invalid socket address syntax"
    );
    let request = read_stream_request("STREAM udp://127.0.0.1:9100 ,,").unwrap();
    assert_eq!(
        StreamCommand::from_request(request, None).unwrap_err(),
        "Не указано ни одной компании"
    );
    let request = read_stream_request("STREAM udp://127.0.0.1:9100 tsla").unwrap();
    let command = StreamCommand::from_request(request, None).unwrap();
    assert_eq!(command.client_udp_addr, "127.0.0.1:9100");
    assert_eq!(command.tickers, vec!["TSLA".to_string()]);
}

#[test]
fn server_decides_per_line() {
    assert!(matches!(request_action(0, ""), LineAction::Close));
    match request_action(3, " \n") {
        LineAction::Reply(m) => assert_eq!(
            m,
            "Вы ничего не ввели. Введите команду в формате: STREAM udp://host:port TICKER1,TICKER2\n"
        ),
        _ => panic!("expected a reply"),
    }
    match request_action(5, "HELLO\n") {
        LineAction::Reply(m) => assert_eq!(
            m,
            "ERROR: Неверный формат команды: STREAM udp://host:port TICKER1,TICKER2\n"
        ),
        _ => panic!("expected a reply"),
    }
    match request_action(30, "STREAM udp://127.0.0.1:9100 UNH\n") {
        LineAction::Start(r) => assert_eq!(r.addr, "127.0.0.1:9100"),
        _ => panic!("expected a request"),
    }
    assert_eq!(error_reply("boom"), "ERROR: boom\n");
}

#[test]
fn client_side() {
    let subs = vec!["AAPL".to_string(), "MSFT".to_string()];
    assert_eq!(stream_request_command(30000, &subs), "STREAM udp://127.0.0.1:30000 AAPL,MSFT");
    assert_eq!(stream_request_command(1, &Vec::new()), "STREAM udp://127.0.0.1:1 ");
    assert_eq!(response_kind("OK: Начало стриминга"), ResponseKind::Streaming);
    assert_eq!(response_kind("ERROR: нет"), ResponseKind::Refused);
    assert_eq!(response_kind("  \n"), ResponseKind::Other);
    assert!(is_ping(" PING\n"));
    assert!(!is_ping("PONG"));
    assert!(!ping_timed_out(5000, 0));
    assert!(ping_timed_out(5001, 0));
    assert!(!ping_timed_out(0, 10));
    let mut command = String::from(">");
    _append_tickers(&mut command, subs);
    assert_eq!(command, ">AAPLMSFT");
    assert_eq!(SERVER_ADDR, "127.0.0.1:11000");
    assert_eq!(PING_INTERVAL_SECS, 3);
    assert_eq!(PING_TIMEOUT_MILLISECS, 5000);
}
