use crypto_mgr::cipher::SessionKey;
use crypto_mgr::connection::Connection;
use crypto_mgr::masking::{mask_block, mask_byte, mask_bytes, mask_word, Block};
use crypto_mgr::messages::{
    Action, AuthRequest, Connect, Inbound, KeyExchangeRequest, ProtocolError,
};
use crypto_mgr::resource::resource_reply;
use crypto_mgr::text::field_text;

fn ready_conn() -> Connection {
    let mut c = Connection::new(7, String::from("/srv/res"));
    let r = c.handle(Inbound::Connect(Connect { sentinel_a: 0xf6, sentinel_b: 0xfd }));
    assert!(matches!(r, Ok(Action::SendConnectAck(_))));
    c
}

fn padded(s: &[u8]) -> Block {
    let mut b = [0u8; 16];
    b[..s.len()].copy_from_slice(s);
    b
}

fn seal(key: &SessionKey, plain: &Block) -> Block {
    let mut c = key.encrypt_block(plain);
    mask_block(&mut c);
    c
}

fn open(key: &SessionKey, sealed: &Block) -> Block {
    let mut m = *sealed;
    mask_block(&mut m);
    key.decrypt_block(&m)
}

fn test_key() -> SessionKey {
    SessionKey::from_bytes(*b"abcDEFghI").unwrap()
}

fn conn_with_key() -> (Connection, SessionKey) {
    let mut c = ready_conn();
    let r = c.handle(Inbound::KeyExchange(KeyExchangeRequest { key_split_point: 0 }));
    let Ok(Action::SendKeyExchange(resp)) = r else { panic!("no key exchange reply") };
    let bytes: Vec<u8> = resp.shortkey.iter().map(|b| b ^ 0xb3).collect();
    let mut k = [0u8; 9];
    k.copy_from_slice(&bytes);
    (c, SessionKey::from_bytes(k).unwrap())
}

fn auth_request(key: &SessionKey) -> AuthRequest {
    AuthRequest {
        xor_port: mask_word(1234),
        unk1: 0,
        unk2: 0,
        ip_origin: seal(key, &padded(b"10.0.0.2")),
        ip_local: seal(key, &padded(b"192.168.1.2")),
        srchash: vec![seal(key, &padded(b"0123456789abcdef")), seal(key, &padded(b"0123"))],
        binbuf: vec![seal(key, &padded(b"blob"))],
    }
}

#[test]
fn connect_with_sentinels_gives_fixed_ack() {
    let mut c = Connection::new(1, String::from("/srv"));
    let r = c.handle(Inbound::Connect(Connect { sentinel_a: 0xf6, sentinel_b: 0xfd }));
    let Ok(Action::SendConnectAck(a)) = r else { panic!("no ack") };
    assert_eq!(a.unk1, 0);
    assert_eq!(a.unk2, [0x00, 0xff, 0x00, 0xff, 0x00, 0x00, 0x00, 0x00]);
    assert_eq!(a.unk3, 0xf6);
    assert_eq!(a.unk4, 0xf6);
    assert_eq!(a.unk5, 0x398ab300);
    assert_eq!(a.unk6, 0x1f);
    assert!(c.is_ready());
}

#[test]
fn connect_with_wrong_sentinel_is_refused() {
    let mut c = Connection::new(1, String::from("/srv"));
    let r = c.handle(Inbound::Connect(Connect { sentinel_a: 0xf6, sentinel_b: 0xfe }));
    assert!(matches!(r, Err(ProtocolError::BadSentinel)));
    assert!(!c.is_ready());
    let r = c.handle(Inbound::Connect(Connect { sentinel_a: 0x00, sentinel_b: 0xfd }));
    assert!(matches!(r, Err(ProtocolError::BadSentinel)));
}

#[test]
fn first_message_must_be_connect() {
    let mut c = Connection::new(1, String::from("/srv"));
    let r = c.handle(Inbound::KeyExchange(KeyExchangeRequest { key_split_point: 0 }));
    assert!(matches!(r, Err(ProtocolError::UnexpectedMessage)));
    assert!(c.session_key().is_none());
}

#[test]
fn key_exchange_masks_split_point_and_key() {
    let mut c = ready_conn();
    let r = c.handle(Inbound::KeyExchange(KeyExchangeRequest { key_split_point: 0 }));
    let Ok(Action::SendKeyExchange(resp)) = r else { panic!("no reply") };
    assert_eq!(resp.key_split_point, 0x1f398ab3);
    assert_eq!(resp.shortkey.len(), 9);
    let key = c.session_key().unwrap();
    for (i, b) in resp.shortkey.iter().enumerate() {
        let plain = b ^ 0xb3;
        assert!(plain.is_ascii_alphabetic());
        assert_eq!(plain, key[i]);
    }
}

#[test]
fn key_exchange_keeps_the_first_key() {
    let mut c = ready_conn();
    c.handle(Inbound::KeyExchange(KeyExchangeRequest { key_split_point: 5 })).unwrap();
    let first = c.session_key().unwrap();
    let r = c.handle(Inbound::KeyExchange(KeyExchangeRequest { key_split_point: 0x1f398ab3 }));
    let Ok(Action::SendKeyExchange(resp)) = r else { panic!("no reply") };
    assert_eq!(resp.key_split_point, 0);
    assert_eq!(c.session_key().unwrap(), first);
}

#[test]
fn auth_before_key_exchange_is_not_initialized() {
    let mut c = ready_conn();
    let req = auth_request(&test_key());
    let r = c.handle(Inbound::Auth(req));
    assert!(matches!(r, Err(ProtocolError::NotInitialized)));
    assert!(c.session_key().is_none());
    assert!(c.is_ready());
}

#[test]
fn auth_with_nonzero_reserved_is_refused() {
    let (mut c, key) = conn_with_key();
    let mut req = auth_request(&key);
    req.unk2 = 3;
    assert!(matches!(c.handle(Inbound::Auth(req)), Err(ProtocolError::NonzeroReserved)));
    let mut req = auth_request(&key);
    req.unk1 = 1;
    assert!(matches!(c.handle(Inbound::Auth(req)), Err(ProtocolError::NonzeroReserved)));
}

#[test]
fn auth_with_undecodable_field_is_refused() {
    let (mut c, key) = conn_with_key();
    let mut req = auth_request(&key);
    req.ip_origin = seal(&key, &padded(&[0xff, 0xfe, 0x41]));
    assert!(matches!(c.handle(Inbound::Auth(req)), Err(ProtocolError::InvalidText)));
}

#[test]
fn auth_reply_carries_sealed_resource_names() {
    let (mut c, key) = conn_with_key();
    let r = c.handle(Inbound::Auth(auth_request(&key)));
    let Ok(Action::SendAuth(a)) = r else { panic!("no auth reply") };
    assert_eq!(a.unk1, 1);
    assert_eq!(a.xor_unk2, 0x03010101 ^ 0x1f398ab3);
    assert_eq!(a.ip_local, padded(b"127.0.0.1"));
    assert_eq!(a.xor_unk3, 4 ^ 0xb3);
    assert_eq!(a.xor_unk4, 2 ^ 0xb3);
    assert_eq!(a.xor_unk5, 1 ^ 0xb3);
    assert_eq!(a.port, 38180);
    for (blocks, name) in [
        (&a.enc_item, &b"Data/Item.scp"[..]),
        (&a.enc_mobs, &b"Data/Mobs.scp"[..]),
        (&a.enc_warp, &b"Data/Warp.scp"[..]),
    ] {
        assert_eq!(blocks.len(), 16);
        assert_ne!(blocks[0], padded(name));
        assert_eq!(open(&key, &blocks[0]), padded(name));
        for b in &blocks[1..] {
            assert_eq!(open(&key, b), [0u8; 16]);
        }
    }
}

#[test]
fn other_kinds_are_skipped() {
    let mut c = ready_conn();
    assert!(matches!(c.handle(Inbound::Other), Ok(Action::Skip)));
    let r = c.handle(Inbound::Connect(Connect { sentinel_a: 0, sentinel_b: 0 }));
    assert!(matches!(r, Ok(Action::Skip)));
}

fn resource_payload(id: u32, hash: &str) -> Vec<u8> {
    let mut v = id.to_le_bytes().to_vec();
    v.extend_from_slice(&(hash.len() as u64).to_le_bytes());
    v.extend_from_slice(hash.as_bytes());
    v
}

#[test]
fn resource_request_names_its_file() {
    let mut c = ready_conn();
    let r = c.handle(Inbound::Resource(resource_payload(3, "a1b2c3")));
    let Ok(Action::ReadResource(path)) = r else { panic!("no path") };
    assert_eq!(path, "/srv/res/resources/esym/a1b2c3.esym");
}

#[test]
fn resource_request_for_missing_file_names_its_path() {
    let c = ready_conn();
    let path = c.handle_esym(&resource_payload(0, "no_such_hash")).unwrap();
    assert_eq!(path, "/srv/res/resources/esym/no_such_hash.esym");
}

#[test]
fn resource_request_with_trailing_bytes_is_refused() {
    let c = ready_conn();
    let mut p = resource_payload(3, "abc");
    p.push(0);
    assert!(matches!(c.handle_esym(&p), Err(ProtocolError::TrailingData)));
}

#[test]
fn resource_request_malformed_is_refused() {
    let c = ready_conn();
    assert!(matches!(c.handle_esym(&[1, 2, 3]), Err(ProtocolError::MalformedRequest)));
}

#[test]
fn resource_request_with_oversized_length_is_refused() {
    let c = ready_conn();
    let mut p = 7u32.to_le_bytes().to_vec();
    p.extend_from_slice(&[0xff; 8]);
    assert!(matches!(c.handle_esym(&p), Err(ProtocolError::MalformedRequest)));
    let mut p = 7u32.to_le_bytes().to_vec();
    p.extend_from_slice(&5u64.to_le_bytes());
    p.extend_from_slice(b"abcd");
    assert!(matches!(c.handle_esym(&p), Err(ProtocolError::MalformedRequest)));
}

#[test]
fn resource_request_with_invalid_text_is_refused() {
    let c = ready_conn();
    let mut p = 7u32.to_le_bytes().to_vec();
    p.extend_from_slice(&2u64.to_le_bytes());
    p.extend_from_slice(&[0xc3, 0x28]);
    assert!(matches!(c.handle_esym(&p), Err(ProtocolError::MalformedRequest)));
}

#[test]
fn resource_request_with_separator_is_refused() {
    let c = ready_conn();
    let p = resource_payload(3, "../../etc/passwd");
    assert!(matches!(c.handle_esym(&p), Err(ProtocolError::InvalidResourceName)));
    let p = resource_payload(3, "a\\b");
    assert!(matches!(c.handle_esym(&p), Err(ProtocolError::InvalidResourceName)));
}

#[test]
fn resource_reply_has_tag_length_and_bytes() {
    let r = resource_reply(&[9, 8, 7]).unwrap();
    assert_eq!(r, vec![1, 0, 0, 0, 3, 0, 0, 0, 9, 8, 7]);
    let r = resource_reply(&[]).unwrap();
    assert_eq!(r, vec![1, 0, 0, 0, 0, 0, 0, 0]);
}

#[test]
fn masks_round_trip() {
    for x in [0u32, 1, 0x1f398ab3, 0xffff_ffff, 0x1234_5678] {
        assert_eq!(mask_word(mask_word(x)), x);
    }
    assert_eq!(mask_word(0), 0x1f398ab3);
    for b in 0..=255u8 {
        assert_eq!(mask_byte(mask_byte(b)), b);
    }
    assert_eq!(mask_byte(0), 0xb3);
    assert_eq!(mask_bytes(&[0, 0xb3, 0xff]), vec![0xb3, 0, 0x4c]);
}

#[test]
fn same_key_bytes_give_same_cipher() {
    let k1 = test_key();
    let k2 = test_key();
    let block = padded(b"hello");
    let c1 = k1.encrypt_block(&block);
    assert_eq!(c1, k2.encrypt_block(&block));
    assert_ne!(c1, block);
    assert_eq!(k2.decrypt_block(&c1), block);
    let other = SessionKey::from_bytes(*b"abcDEFghJ").unwrap();
    assert_ne!(other.encrypt_block(&block), c1);
}

#[test]
fn session_key_must_be_letters() {
    assert!(SessionKey::from_bytes(*b"abcdefgh1").is_none());
    assert!(SessionKey::from_bytes([0u8; 9]).is_none());
    assert_eq!(test_key().bytes(), *b"abcDEFghI");
    let g = SessionKey::generate();
    assert!(g.bytes().iter().all(|b| b.is_ascii_alphabetic()));
}

#[test]
fn field_text_stops_at_nul() {
    assert_eq!(field_text(b"abc\0def").unwrap(), "abc");
    assert_eq!(field_text(b"").unwrap(), "");
    assert!(field_text(&[0xc3, 0x28]).is_none());
    assert_eq!(field_text(&[0xc3, 0x28, 0, 0]).is_none(), true);
    assert_eq!(field_text(&[0x41, 0, 0xc3, 0x28]).unwrap(), "A");
}
