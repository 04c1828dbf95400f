use skunk::tls::{
    maybe_decrypt, peek_sni, plan_root_ca, CacheDecision, Context, DecryptPlan, MintTicket,
    RootCaAction, TlsError,
};

#[test]
fn root_ca_is_loaded_only_when_both_files_exist() {
    assert_eq!(plan_root_ca(true, true), RootCaAction::LoadExisting);
    assert_eq!(plan_root_ca(true, false), RootCaAction::Generate);
    assert_eq!(plan_root_ca(false, true), RootCaAction::Generate);
    assert_eq!(plan_root_ca(false, false), RootCaAction::Generate);
}

#[test]
fn cold_cache_needs_a_mint() {
    let ctx = Context::new();
    match ctx.lookup(&b"example.com".to_vec(), 1_000, 60) {
        CacheDecision::NeedsMint => {}
        other => panic!("expected NeedsMint, got {:?}", other),
    }
}

#[test]
fn mint_single_flight_many_requesters_one_leader() {
    let mut ctx = Context::new();
    let sni = b"example.com".to_vec();
    let mut leads = 0;
    let mut follows = 0;
    for _ in 0..100 {
        match ctx.begin_mint(&sni) {
            MintTicket::Lead => leads += 1,
            MintTicket::Follow => follows += 1,
        }
    }
    assert_eq!(leads, 1);
    assert_eq!(follows, 99);

    ctx.finish_mint(&sni, b"CERTIFICATE".to_vec(), 10_000);

    // Every requester that now reads the cache reads the same bytes.
    for _ in 0..100 {
        match ctx.lookup(&sni, 1_000, 60) {
            CacheDecision::Fresh(cert) => assert_eq!(cert, b"CERTIFICATE".to_vec()),
            other => panic!("expected Fresh, got {:?}", other),
        }
    }

    // The mint is over: a new requester would lead again.
    assert_eq!(ctx.begin_mint(&sni), MintTicket::Lead);
}

#[test]
fn entry_inside_renewal_window_is_reminted() {
    let mut ctx = Context::new();
    let sni = b"example.com".to_vec();
    assert_eq!(ctx.begin_mint(&sni), MintTicket::Lead);
    ctx.finish_mint(&sni, b"OLD".to_vec(), 1_050);
    // Only 50 seconds of validity are left: under a 60-second window.
    match ctx.lookup(&sni, 1_000, 60) {
        CacheDecision::NeedsMint => {}
        other => panic!("expected NeedsMint, got {:?}", other),
    }
    // With a smaller window the same entry is still fresh.
    match ctx.lookup(&sni, 1_000, 30) {
        CacheDecision::Fresh(cert) => assert_eq!(cert, b"OLD".to_vec()),
        other => panic!("expected Fresh, got {:?}", other),
    }
}

#[test]
fn finishing_a_mint_replaces_the_old_entry() {
    let mut ctx = Context::new();
    let sni = b"example.com".to_vec();
    assert_eq!(ctx.begin_mint(&sni), MintTicket::Lead);
    ctx.finish_mint(&sni, b"FIRST".to_vec(), 2_000);
    assert_eq!(ctx.begin_mint(&sni), MintTicket::Lead);
    ctx.finish_mint(&sni, b"SECOND".to_vec(), 3_000);
    match ctx.lookup(&sni, 1_000, 60) {
        CacheDecision::Fresh(cert) => assert_eq!(cert, b"SECOND".to_vec()),
        other => panic!("expected Fresh, got {:?}", other),
    }
}

#[test]
fn failed_mint_does_not_poison_the_cache() {
    let mut ctx = Context::new();
    let sni = b"example.com".to_vec();
    assert_eq!(ctx.begin_mint(&sni), MintTicket::Lead);
    ctx.fail_mint(&sni);
    // The failure outlives the mint in no way: the next requester leads.
    assert_eq!(ctx.begin_mint(&sni), MintTicket::Lead);
    ctx.finish_mint(&sni, b"CERTIFICATE".to_vec(), 10_000);
    match ctx.lookup(&sni, 1_000, 60) {
        CacheDecision::Fresh(cert) => assert_eq!(cert, b"CERTIFICATE".to_vec()),
        other => panic!("expected Fresh, got {:?}", other),
    }
}

#[test]
fn mints_for_different_snis_do_not_share_flight() {
    let mut ctx = Context::new();
    assert_eq!(ctx.begin_mint(&b"one.example".to_vec()), MintTicket::Lead);
    assert_eq!(ctx.begin_mint(&b"two.example".to_vec()), MintTicket::Lead);
    assert_eq!(ctx.begin_mint(&b"one.example".to_vec()), MintTicket::Follow);
}

fn client_hello_with_sni(host: &[u8]) -> Vec<u8> {
    // server_name extension: list(name_type 0, len, host).
    let name_list_len = (3 + host.len()) as u16;
    let ext_len = 2 + name_list_len;
    let mut extensions: Vec<u8> = Vec::new();
    extensions.extend_from_slice(&[0, 0]);
    extensions.extend_from_slice(&ext_len.to_be_bytes());
    extensions.extend_from_slice(&name_list_len.to_be_bytes());
    extensions.push(0);
    extensions.extend_from_slice(&(host.len() as u16).to_be_bytes());
    extensions.extend_from_slice(host);

    let mut hello: Vec<u8> = Vec::new();
    hello.extend_from_slice(&[3, 3]); // client version
    hello.extend_from_slice(&[0u8; 32]); // random
    hello.push(0); // session id
    hello.extend_from_slice(&[0, 2, 0x13, 0x01]); // one cipher suite
    hello.extend_from_slice(&[1, 0]); // null compression
    hello.extend_from_slice(&((extensions.len() as u16).to_be_bytes()));
    hello.extend_from_slice(&extensions);

    let mut handshake: Vec<u8> = vec![1];
    let len = hello.len() as u32;
    handshake.extend_from_slice(&len.to_be_bytes()[1..4]);
    handshake.extend_from_slice(&hello);

    let mut record: Vec<u8> = vec![22, 3, 1];
    record.extend_from_slice(&(handshake.len() as u16).to_be_bytes());
    record.extend_from_slice(&handshake);
    record
}

#[test]
fn sni_is_read_out_of_a_client_hello() {
    let record = client_hello_with_sni(b"example.com");
    assert_eq!(peek_sni(record.as_slice()).expect("has a name"), b"example.com".to_vec());
}

#[test]
fn record_without_server_name_has_no_sni() {
    let mut hello: Vec<u8> = Vec::new();
    hello.extend_from_slice(&[3, 3]);
    hello.extend_from_slice(&[0u8; 32]);
    hello.push(0);
    hello.extend_from_slice(&[0, 2, 0x13, 0x01]);
    hello.extend_from_slice(&[1, 0]);
    hello.extend_from_slice(&[0, 0]); // no extensions
    let mut handshake: Vec<u8> = vec![1];
    handshake.extend_from_slice(&(hello.len() as u32).to_be_bytes()[1..4]);
    handshake.extend_from_slice(&hello);
    let mut record: Vec<u8> = vec![22, 3, 1];
    record.extend_from_slice(&(handshake.len() as u16).to_be_bytes());
    record.extend_from_slice(&handshake);
    assert_eq!(peek_sni(record.as_slice()), Err(TlsError::SniAbsent));
}

#[test]
fn non_handshake_record_has_no_sni() {
    // An application-data record.
    let record = vec![23u8, 3, 3, 0, 2, 1, 2];
    assert_eq!(peek_sni(record.as_slice()), Err(TlsError::SniAbsent));
}

#[test]
fn eviction_drops_the_oldest_leaves_first() {
    let mut ctx = Context::new();
    for (sni, cert) in [
        (b"one.example".to_vec(), b"ONE".to_vec()),
        (b"two.example".to_vec(), b"TWO".to_vec()),
        (b"three.example".to_vec(), b"THREE".to_vec()),
    ] {
        assert_eq!(ctx.begin_mint(&sni), MintTicket::Lead);
        ctx.finish_mint(&sni, cert, 10_000);
    }
    ctx.evict_to(2);
    // The oldest-minted leaf left; the two younger ones stay.
    match ctx.lookup(&b"one.example".to_vec(), 1_000, 60) {
        CacheDecision::NeedsMint => {}
        other => panic!("expected NeedsMint, got {:?}", other),
    }
    match ctx.lookup(&b"two.example".to_vec(), 1_000, 60) {
        CacheDecision::Fresh(cert) => assert_eq!(cert, b"TWO".to_vec()),
        other => panic!("expected Fresh, got {:?}", other),
    }
    match ctx.lookup(&b"three.example".to_vec(), 1_000, 60) {
        CacheDecision::Fresh(cert) => assert_eq!(cert, b"THREE".to_vec()),
        other => panic!("expected Fresh, got {:?}", other),
    }
    // A bound the cache already meets changes nothing.
    ctx.evict_to(5);
    match ctx.lookup(&b"two.example".to_vec(), 1_000, 60) {
        CacheDecision::Fresh(cert) => assert_eq!(cert, b"TWO".to_vec()),
        other => panic!("expected Fresh, got {:?}", other),
    }
}

#[test]
fn decrypt_off_hands_the_pair_back_unchanged() {
    // Off port 443 the streams, stood for here by their handles, come
    // back exactly as they went in.
    match maybe_decrypt(7u32, 9u32, false) {
        DecryptPlan::Forward(a, b) => {
            assert_eq!(a, 7);
            assert_eq!(b, 9);
        }
        other => panic!("expected Forward, got {:?}", other),
    }
    match maybe_decrypt(7u32, 9u32, true) {
        DecryptPlan::Terminate(a, b) => {
            assert_eq!(a, 7);
            assert_eq!(b, 9);
        }
        other => panic!("expected Terminate, got {:?}", other),
    }
}
