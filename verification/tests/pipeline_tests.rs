use skunk::address::{Host, TcpAddress};
use skunk::byte_io::Reader;
use skunk::flow::{FlowBus, FlowEmitter, FlowEventKind, Received};
use skunk::proxy::{plan, Filter, Passthrough, ProxyAction};
use skunk::socks::parse_request;

fn addr(host: &str, port: u16) -> TcpAddress {
    TcpAddress { host: Host::Hostname(host.as_bytes().to_vec()), port }
}

#[test]
fn plain_http_request_through_socks_is_intercepted_without_tls() {
    // The client asks the SOCKS server for example.com:80.
    let mut wire = vec![5u8, 1, 0, 3, 11];
    wire.extend_from_slice(b"example.com");
    wire.extend_from_slice(&[0, 80]);
    let mut reader = Reader::new(wire.as_slice());
    let request = parse_request(&mut reader).expect("valid request");

    // The connection is intercepted and TLS stays off on port 80.
    let filter = Filter::All;
    assert_eq!(
        plan(&filter, &request.destination),
        ProxyAction::Intercept { decrypt_tls: false }
    );

    // The intercepted request surfaces as one flow whose events arrive in
    // lifecycle order on a subscriber that lost nothing.
    let mut bus = FlowBus::new();
    let s = bus.subscribe(16);
    let mut emitter = FlowEmitter::new(1);
    bus.publish(emitter.start());
    bus.publish(emitter.request_body());
    bus.publish(emitter.response_headers());
    bus.publish(emitter.response_body());
    bus.publish(emitter.complete());
    let mut kinds = Vec::new();
    while let Some(Received::Event(e)) = bus.recv(s) {
        kinds.push(e.kind);
    }
    assert_eq!(
        kinds,
        vec![
            FlowEventKind::Started,
            FlowEventKind::RequestBody,
            FlowEventKind::ResponseHeaders,
            FlowEventKind::ResponseBody,
            FlowEventKind::Completed,
        ]
    );
}

#[test]
fn out_of_filter_host_passes_through_byte_exact() {
    // The filter names example.com:443 only; the client wants other.com.
    let filter = Filter::Targets(vec![addr("example.com", 443)]);
    let destination = addr("other.com", 443);
    assert_eq!(plan(&filter, &destination), ProxyAction::Passthrough);

    // Passthrough copies the TLS records untouched in both directions.
    let client_hello: Vec<u8> = vec![0x16, 0x03, 0x01, 0x00, 0x05, 1, 2, 3, 4, 5];
    assert_eq!(Passthrough.forward(&client_hello), client_hello);
}

#[test]
fn https_intercept_decrypts_on_port_443() {
    let filter = Filter::Targets(vec![addr("example.com", 443)]);
    assert_eq!(
        plan(&filter, &addr("example.com", 443)),
        ProxyAction::Intercept { decrypt_tls: true }
    );
}
