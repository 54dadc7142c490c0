//! One client connection: the handshake and key-exchange state machine.
use vstd::prelude::*;
use vstd::utf8::valid_utf8;

use crate::cipher::{aria256_decrypt, aria256_encrypt, expanded_key, is_ascii_letter, SessionKey};
use crate::masking::{
    byte_masked, bytes_masked, mask_block, mask_blocks, mask_bytes, mask_word, word_masked, Block, BYTE_MASK,
};
use crate::messages::{
    Action, AuthRequest, AuthResponse, Connect, ConnectAck, Inbound, KeyExchangeRequest,
    KeyExchangeResponse, ProtocolError,
};
use crate::resource::{
    decode_resource_request, legacy_request, name_ok, resource_name_ok, resource_path,
};
use crate::masking::lemma_bytes_mask_round_trip;
use crate::text::{field_text, text_part};

verus! {

/// First sentinel of a valid greeting.
pub const SENTINEL_A: u8 = 0xf6;

/// Second sentinel of a valid greeting.
pub const SENTINEL_B: u8 = 0xfd;

/// Port announced in the authentication reply.
pub const OUTBOUND_PORT: u16 = 38180;

/// What a connection is, in the abstract.
pub struct ConnectionView {
    pub id: i32,
    /// Whether the greeting has been accepted.
    pub ready: bool,
    /// The session key, once made.
    pub key: Option<Seq<u8>>,
    pub resources_dir: Seq<char>,
}

/// A session key: nine ASCII letters.
pub open spec fn key_ok(k: Seq<u8>) -> bool {
    k.len() == 9 && forall|i: int| 0 <= i < 9 ==> #[trigger] is_ascii_letter(k[i])
}

/// One client connection.
pub struct Connection {
    pub id: i32,
    ready: bool,
    shortkey: Option<SessionKey>,
    resources_dir: String,
}

impl View for Connection {
    type V = ConnectionView;

    closed spec fn view(&self) -> ConnectionView {
        ConnectionView {
            id: self.id,
            ready: self.ready,
            key: match self.shortkey {
                Some(k) => Some(k@),
                None => None,
            },
            resources_dir: self.resources_dir@,
        }
    }
}

/// The fixed acknowledgement of a valid greeting.
pub open spec fn is_connect_ack(a: ConnectAck) -> bool {
    &&& a.unk1 == 0
    &&& a.unk2@ == seq![0x00u8, 0xff, 0x00, 0xff, 0x00, 0x00, 0x00, 0x00]
    &&& a.unk3 == 0xf6
    &&& a.unk4 == 0xf6
    &&& a.unk5 == 0x398ab300
    &&& a.unk6 == 0x1f
}

/// A field block as the client meant it: unmasked, then decrypted.
pub open spec fn field_plain(k: Seq<u8>, b: Block) -> Seq<u8> {
    aria256_decrypt(expanded_key(k), bytes_masked(b@))
}

/// A variable-length field as the client meant it: each chunk unmasked and
/// decrypted, the results joined.
pub open spec fn chunks_plain(k: Seq<u8>, bs: Seq<Block>) -> Seq<u8>
    decreases bs.len(),
{
    if bs.len() == 0 {
        seq![]
    } else {
        chunks_plain(k, bs.drop_last()) + field_plain(k, bs.last())
    }
}

pub open spec fn text_ok(s: Seq<u8>) -> bool {
    valid_utf8(text_part(s))
}

/// Whether the four enciphered fields of `req` decode as text under `k`.
pub open spec fn auth_fields_ok(k: Seq<u8>, req: AuthRequest) -> bool {
    &&& text_ok(field_plain(k, req.ip_origin))
    &&& text_ok(field_plain(k, req.ip_local))
    &&& text_ok(chunks_plain(k, req.srchash@))
    &&& text_ok(chunks_plain(k, req.binbuf@))
}

/// Why an authentication request is refused under the given session key,
/// if it is.
pub open spec fn auth_error(key: Option<Seq<u8>>, req: AuthRequest) -> Option<ProtocolError> {
    match key {
        None => Some(ProtocolError::NotInitialized),
        Some(k) => if req.unk1 != 0 || req.unk2 != 0 {
            Some(ProtocolError::NonzeroReserved)
        } else if !auth_fields_ok(k, req) {
            Some(ProtocolError::InvalidText)
        } else {
            None
        },
    }
}

/// What a resource request asks for under resource directory `dir`: the
/// path of the file to read, or why it is refused.
pub open spec fn resource_outcome(dir: Seq<char>, payload: Seq<u8>) -> Result<Seq<char>, ProtocolError> {
    match legacy_request(payload) {
        None => Err(ProtocolError::MalformedRequest),
        Some((id, s, n)) => if n != payload.len() {
            Err(ProtocolError::TrailingData)
        } else if !name_ok(s) {
            Err(ProtocolError::InvalidResourceName)
        } else {
            Ok(dir + "/resources/esym/"@ + s + ".esym"@)
        },
    }
}

/// One step of a connection as `handle` takes it: from `old`, on message
/// `msg`, giving `r` and leaving `new`.
pub open spec fn handle_step(
    old: ConnectionView,
    msg: Inbound,
    r: Result<Action, ProtocolError>,
    new: ConnectionView,
) -> bool {
    &&& (r is Err ==> new == old)
    &&& (!old.ready ==> match msg {
        Inbound::Connect(h) => if h.sentinel_a == SENTINEL_A && h.sentinel_b == SENTINEL_B {
            r matches Ok(Action::SendConnectAck(a)) && is_connect_ack(a)
                && new == (ConnectionView { ready: true, ..old })
        } else {
            r == Err::<Action, ProtocolError>(ProtocolError::BadSentinel)
        },
        _ => r == Err::<Action, ProtocolError>(ProtocolError::UnexpectedMessage),
    })
    &&& (old.ready ==> match msg {
        Inbound::KeyExchange(q) => r matches Ok(Action::SendKeyExchange(a))
            && new.key is Some
            && (old.key is Some ==> new == old)
            && (old.key is None ==> new == (ConnectionView {
                key: new.key,
                ..old
            }))
            && a.key_split_point == word_masked(q.key_split_point)
            && a.shortkey@ == bytes_masked(new.key->0),
        Inbound::Auth(q) => new == old && match auth_error(old.key, q) {
            Some(e) => r == Err::<Action, ProtocolError>(e),
            None => r matches Ok(Action::SendAuth(a)) && is_auth_reply(old.key->0, a),
        },
        Inbound::Resource(p) => new == old && match resource_outcome(
            old.resources_dir,
            p@,
        ) {
            Ok(path) => r matches Ok(Action::ReadResource(q)) && q@ == path,
            Err(e) => r == Err::<Action, ProtocolError>(e),
        },
        _ => r matches Ok(Action::Skip) && new == old,
    })
}

/// `s` followed by zeros up to one block.
pub open spec fn padded(s: Seq<u8>) -> Seq<u8> {
    s + Seq::new((16 - s.len()) as nat, |i: int| 0u8)
}

/// A block as sent: encrypted under `k`, then masked.
pub open spec fn sealed(k: Seq<u8>, plain: Seq<u8>) -> Seq<u8> {
    bytes_masked(aria256_encrypt(expanded_key(k), plain))
}

/// Sixteen sealed blocks, the first holding `name`, the others zeros.
pub open spec fn name_sealed(k: Seq<u8>, name: Seq<u8>, bs: Seq<Block>) -> bool {
    &&& bs.len() == 16
    &&& bs[0]@ == sealed(k, padded(name))
    &&& forall|i: int| 1 <= i < 16 ==> #[trigger] bs[i]@ == sealed(k, padded(seq![]))
}

/// Sixteen blocks that, unmasked and decrypted under `k`, give `name`
/// padded to a block, then zero blocks.
pub open spec fn name_opens(k: Seq<u8>, name: Seq<u8>, bs: Seq<Block>) -> bool {
    &&& bs.len() == 16
    &&& field_plain(k, bs[0]) == padded(name)
    &&& forall|i: int| 1 <= i < 16 ==> #[trigger] field_plain(k, bs[i]) == padded(seq![])
}

pub open spec fn loopback() -> Seq<u8> {
    seq![0x31u8, 0x32, 0x37, 0x2e, 0x30, 0x2e, 0x30, 0x2e, 0x31]
}

pub open spec fn item_name() -> Seq<u8> {
    seq![0x44u8, 0x61, 0x74, 0x61, 0x2f, 0x49, 0x74, 0x65, 0x6d, 0x2e, 0x73, 0x63, 0x70]
}

pub open spec fn mobs_name() -> Seq<u8> {
    seq![0x44u8, 0x61, 0x74, 0x61, 0x2f, 0x4d, 0x6f, 0x62, 0x73, 0x2e, 0x73, 0x63, 0x70]
}

pub open spec fn warp_name() -> Seq<u8> {
    seq![0x44u8, 0x61, 0x74, 0x61, 0x2f, 0x57, 0x61, 0x72, 0x70, 0x2e, 0x73, 0x63, 0x70]
}

/// The authentication reply owed under session key `k`.
pub open spec fn is_auth_reply(k: Seq<u8>, r: AuthResponse) -> bool {
    &&& r.unk1 == 1
    &&& r.xor_unk2 == word_masked(0x03010101)
    &&& r.ip_local@ == padded(loopback())
    &&& r.xor_unk3 == byte_masked(4)
    &&& name_sealed(k, item_name(), r.enc_item@)
    &&& name_opens(k, item_name(), r.enc_item@)
    &&& r.xor_unk4 == byte_masked(2)
    &&& name_sealed(k, mobs_name(), r.enc_mobs@)
    &&& name_opens(k, mobs_name(), r.enc_mobs@)
    &&& r.xor_unk5 == byte_masked(1)
    &&& name_sealed(k, warp_name(), r.enc_warp@)
    &&& name_opens(k, warp_name(), r.enc_warp@)
    &&& r.port == OUTBOUND_PORT
}

/// `name` followed by zeros up to one block.
fn padded_block(name: &[u8]) -> (r: Block)
    requires
        name@.len() <= 16,
    ensures
        r@ == padded(name@),
{
    let mut b: Block = [0u8; 16];
    let mut i: usize = 0;
    while i < name.len()
        invariant
            0 <= i <= name@.len() <= 16,
            b@.len() == 16,
            forall|j: int| 0 <= j < i ==> b@[j] == name@[j],
            forall|j: int| i <= j < 16 ==> b@[j] == 0u8,
        decreases name@.len() - i,
    {
        b[i] = name[i];
        i = i + 1;
    }
    assert(b@ =~= padded(name@));
    b
}

/// Sixteen blocks holding `name`, each encrypted under `key`, then masked.
fn seal_name(key: &SessionKey, name: &[u8]) -> (r: Vec<Block>)
    requires
        name@.len() <= 16,
    ensures
        name_sealed(key@, name@, r@),
        name_opens(key@, name@, r@),
{
    let first = padded_block(name);
    let zero = padded_block(&[]);
    let mut r: Vec<Block> = Vec::new();
    let mut i: usize = 0;
    while i < 16
        invariant
            0 <= i <= 16,
            r@.len() == i,
            first@ == padded(name@),
            zero@ == padded(Seq::<u8>::empty()),
            i > 0 ==> r@[0]@ == aria256_encrypt(expanded_key(key@), padded(name@)),
            i > 0 ==> aria256_decrypt(expanded_key(key@), r@[0]@) == padded(name@),
            forall|j: int|
                1 <= j < i ==> #[trigger] aria256_decrypt(expanded_key(key@), r@[j]@) == padded(
                    Seq::<u8>::empty(),
                ),
            forall|j: int|
                1 <= j < i ==> #[trigger] r@[j]@ == aria256_encrypt(
                    expanded_key(key@),
                    padded(seq![]),
                ),
        decreases 16 - i,
    {
        let plain = if i == 0 {
            first
        } else {
            zero
        };
        r.push(key.encrypt_block(&plain));
        i = i + 1;
    }
    mask_blocks(&mut r);
    let ghost enc0 = aria256_encrypt(expanded_key(key@), padded(name@));
    proof {
        lemma_bytes_mask_round_trip(enc0);
    }
    assert(r@[0]@ == sealed(key@, padded(name@)));
    assert forall|j: int| 1 <= j < 16 implies #[trigger] field_plain(key@, r@[j]) == padded(
        seq![],
    ) by {
        let e = aria256_encrypt(expanded_key(key@), padded(seq![]));
        lemma_bytes_mask_round_trip(e);
        assert(r@[j]@ == bytes_masked(e));
    }
    assert forall|j: int| 1 <= j < 16 implies #[trigger] r@[j]@ == sealed(key@, padded(seq![])) by {
        assert(r@[j]@ == bytes_masked(aria256_encrypt(expanded_key(key@), padded(seq![]))));
    }
    r
}

/// Unmasks and decrypts each chunk of a variable-length field, joining them.
fn open_chunks(key: &SessionKey, bs: &Vec<Block>) -> (r: Vec<u8>)
    ensures
        r@ == chunks_plain(key@, bs@),
{
    let mut r: Vec<u8> = Vec::new();
    let mut i: usize = 0;
    while i < bs.len()
        invariant
            0 <= i <= bs@.len(),
            r@ == chunks_plain(key@, bs@.take(i as int)),
        decreases bs@.len() - i,
    {
        let p = open_block(key, &bs[i]);
        let mut j: usize = 0;
        let ghost before = r@;
        while j < 16
            invariant
                0 <= j <= 16,
                p@.len() == 16,
                r@ == before + p@.take(j as int),
            decreases 16 - j,
        {
            r.push(p[j]);
            j = j + 1;
            assert(p@.take(j as int) =~= p@.take(j - 1).push(p@[j - 1]));
        }
        assert(p@.take(16) =~= p@);
        assert(bs@.take(i + 1).drop_last() =~= bs@.take(i as int));
        i = i + 1;
    }
    assert(bs@.take(bs@.len() as int) =~= bs@);
    r
}

/// Unmasks and decrypts one field block.
fn open_block(key: &SessionKey, b: &Block) -> (r: Block)
    ensures
        r@ == field_plain(key@, *b),
{
    let mut m = *b;
    mask_block(&mut m);
    key.decrypt_block(&m)
}

impl ConnectionView {
    pub open spec fn wf(&self) -> bool {
        self.key matches Some(k) ==> key_ok(k)
    }
}

impl Connection {
    pub open spec fn wf(&self) -> bool {
        self@.wf()
    }

    /// A fresh connection awaiting its greeting, with no session key.
    pub fn new(id: i32, resources_dir: String) -> (r: Connection)
        ensures
            r@ == (ConnectionView { id, ready: false, key: None, resources_dir: resources_dir@ }),
            r.wf(),
    {
        Connection { id, ready: false, shortkey: None, resources_dir }
    }

    /// Whether the greeting has been accepted.
    pub fn is_ready(&self) -> (r: bool)
        ensures
            r == self@.ready,
    {
        self.ready
    }

    /// The session key's bytes, once made.
    pub fn session_key(&self) -> (r: Option<[u8; 9]>)
        ensures
            match self@.key {
                None => r is None,
                Some(k) => r matches Some(b) && b@ == k,
            },
    {
        match &self.shortkey {
            None => None,
            Some(k) => Some(k.bytes()),
        }
    }

    /// The greeting: accepted only with both fixed sentinels, which makes
    /// the connection ready and gives the fixed acknowledgement. A rejected
    /// greeting changes nothing.
    pub fn handle_connect(&mut self, hello: Connect) -> (r: Result<ConnectAck, ProtocolError>)
        ensures
            hello.sentinel_a == SENTINEL_A && hello.sentinel_b == SENTINEL_B ==> (r matches Ok(
                a,
            ) && is_connect_ack(a) && final(self)@ == (ConnectionView { ready: true, ..old(self)@ })),
            !(hello.sentinel_a == SENTINEL_A && hello.sentinel_b == SENTINEL_B) ==> r == Err::<
                ConnectAck,
                ProtocolError,
            >(ProtocolError::BadSentinel) && final(self)@ == old(self)@,
    {
        if hello.sentinel_a != SENTINEL_A || hello.sentinel_b != SENTINEL_B {
            return Err(ProtocolError::BadSentinel);
        }
        self.ready = true;
        let ack = ConnectAck {
            unk1: 0x0,
            unk2: [0x00, 0xff, 0x00, 0xff, 0x00, 0x00, 0x00, 0x00],
            unk3: 0xf6,
            unk4: 0xf6,
            unk5: 0x398ab300,
            unk6: 0x1f,
        };
        assert(ack.unk2@ =~= seq![0x00u8, 0xff, 0x00, 0xff, 0x00, 0x00, 0x00, 0x00]);
        Ok(ack)
    }

    /// Key exchange: makes the session key if there is none yet (a key once
    /// made is kept), and replies with the masked split point and the key,
    /// each byte masked.
    pub fn handle_key_req(&mut self, req: KeyExchangeRequest) -> (r: KeyExchangeResponse)
        requires
            old(self).wf(),
        ensures
            final(self).wf(),
            final(self)@.id == old(self)@.id,
            final(self)@.ready == old(self)@.ready,
            final(self)@.resources_dir == old(self)@.resources_dir,
            final(self)@.key is Some,
            old(self)@.key is Some ==> final(self)@.key == old(self)@.key,
            r.key_split_point == word_masked(req.key_split_point),
            r.shortkey@ == bytes_masked(final(self)@.key->0),
    {
        let split = mask_word(req.key_split_point);
        if self.shortkey.is_none() {
            self.shortkey = Some(SessionKey::generate());
        }
        let key = match &self.shortkey {
            Some(k) => k.bytes(),
            None => [0u8; 9],
        };
        let masked = mask_bytes(&key);
        KeyExchangeResponse { key_split_point: split, shortkey: masked }
    }

    /// Authentication: needs a session key; both reserved fields must be
    /// zero and the four enciphered fields must decode as text. The reply is
    /// fixed but for the three resource names, sealed under the session key.
    pub fn handle_auth_req(&self, req: &AuthRequest) -> (r: Result<AuthResponse, ProtocolError>)
        requires
            self.wf(),
        ensures
            match auth_error(self@.key, *req) {
                Some(e) => r == Err::<AuthResponse, ProtocolError>(e),
                None => r matches Ok(a) && is_auth_reply(self@.key->0, a),
            },
    {
        let key = match &self.shortkey {
            None => return Err(ProtocolError::NotInitialized),
            Some(k) => k,
        };
        if req.unk1 != 0 || req.unk2 != 0 {
            return Err(ProtocolError::NonzeroReserved);
        }
        let ip_origin = open_block(key, &req.ip_origin);
        let ip_local = open_block(key, &req.ip_local);
        let srchash = open_chunks(key, &req.srchash);
        let binbuf = open_chunks(key, &req.binbuf);
        if field_text(&ip_origin).is_none() || field_text(&ip_local).is_none() || field_text(
            srchash.as_slice(),
        ).is_none() || field_text(binbuf.as_slice()).is_none() {
            return Err(ProtocolError::InvalidText);
        }
        let lo: [u8; 9] = [0x31, 0x32, 0x37, 0x2e, 0x30, 0x2e, 0x30, 0x2e, 0x31];
        let item: [u8; 13] = [
            0x44, 0x61, 0x74, 0x61, 0x2f, 0x49, 0x74, 0x65, 0x6d, 0x2e, 0x73, 0x63, 0x70,
        ];
        let mobs: [u8; 13] = [
            0x44, 0x61, 0x74, 0x61, 0x2f, 0x4d, 0x6f, 0x62, 0x73, 0x2e, 0x73, 0x63, 0x70,
        ];
        let warp: [u8; 13] = [
            0x44, 0x61, 0x74, 0x61, 0x2f, 0x57, 0x61, 0x72, 0x70, 0x2e, 0x73, 0x63, 0x70,
        ];
        assert(lo@ =~= loopback());
        assert(item@ =~= item_name());
        assert(mobs@ =~= mobs_name());
        assert(warp@ =~= warp_name());
        let ip_local = padded_block(&lo);
        let enc_item = seal_name(key, &item);
        let enc_mobs = seal_name(key, &mobs);
        let enc_warp = seal_name(key, &warp);
        Ok(
            AuthResponse {
                unk1: 0x1,
                xor_unk2: mask_word(0x03010101),
                ip_local,
                xor_unk3: 4 ^ BYTE_MASK,
                enc_item,
                xor_unk4: 2 ^ BYTE_MASK,
                enc_mobs,
                xor_unk5: 1 ^ BYTE_MASK,
                enc_warp,
                port: OUTBOUND_PORT,
            },
        )
    }

    /// A resource request: the path of the file to read, or why the
    /// request is refused.
    pub fn handle_esym(&self, payload: &[u8]) -> (r: Result<String, ProtocolError>)
        ensures
            match resource_outcome(self@.resources_dir, payload@) {
                Ok(p) => r matches Ok(q) && q@ == p,
                Err(e) => r == Err::<String, ProtocolError>(e),
            },
    {
        let req = match decode_resource_request(payload) {
            Ok(q) => q,
            Err(e) => return Err(e),
        };
        if !resource_name_ok(req.srchash.as_str()) {
            return Err(ProtocolError::InvalidResourceName);
        }
        Ok(resource_path(self.resources_dir.as_str(), req.srchash.as_str()))
    }

    /// One step of the connection: before the greeting only a Connect is
    /// accepted; afterwards key exchange, authentication and resource
    /// requests are served and other kinds skipped. Only the greeting and
    /// the first key exchange change the connection.
    pub fn handle(&mut self, msg: Inbound) -> (r: Result<Action, ProtocolError>)
        requires
            old(self).wf(),
        ensures
            final(self).wf(),
            handle_step(old(self)@, msg, r, final(self)@),
    {
        if !self.ready {
            return match msg {
                Inbound::Connect(h) => match self.handle_connect(h) {
                    Ok(a) => Ok(Action::SendConnectAck(a)),
                    Err(e) => Err(e),
                },
                _ => Err(ProtocolError::UnexpectedMessage),
            };
        }
        match msg {
            Inbound::KeyExchange(q) => Ok(Action::SendKeyExchange(self.handle_key_req(q))),
            Inbound::Auth(q) => match self.handle_auth_req(&q) {
                Ok(a) => Ok(Action::SendAuth(a)),
                Err(e) => Err(e),
            },
            Inbound::Resource(p) => match self.handle_esym(p.as_slice()) {
                Ok(path) => Ok(Action::ReadResource(path)),
                Err(e) => Err(e),
            },
            _ => Ok(Action::Skip),
        }
    }
}

/// Authentication on a connection that has no session key yet, that is
/// before any key exchange, is always refused as not initialized.
pub proof fn lemma_auth_needs_key_exchange(c: ConnectionView, req: AuthRequest)
    requires
        c.key is None,
    ensures
        auth_error(c.key, req) == Some(ProtocolError::NotInitialized),
{
}

/// Whether decrypting under `k` undoes encrypting `t`: what the cipher
/// gives of every block encrypted through `SessionKey::encrypt_block`.
pub open spec fn round_trips(k: Seq<u8>, t: Seq<u8>) -> bool {
    aria256_decrypt(expanded_key(k), aria256_encrypt(expanded_key(k), t)) == t
}

/// Plaintext blocks joined in order.
pub open spec fn joined(ts: Seq<Seq<u8>>) -> Seq<u8>
    decreases ts.len(),
{
    if ts.len() == 0 {
        seq![]
    } else {
        joined(ts.drop_last()) + ts.last()
    }
}

/// Blocks that a client sealed from the plaintexts `ts`, one each:
/// encrypted under `k`, then masked.
pub open spec fn sealed_chunks(k: Seq<u8>, bs: Seq<Block>, ts: Seq<Seq<u8>>) -> bool {
    &&& bs.len() == ts.len()
    &&& forall|i: int|
        #![trigger bs[i]]
        0 <= i < bs.len() ==> bs[i]@ == sealed(k, ts[i]) && round_trips(k, ts[i])
}

/// Unmasking then decrypting a sealed block gives its plaintext back.
pub proof fn lemma_sealed_block_opens(k: Seq<u8>, b: Block, t: Seq<u8>)
    requires
        b@ == sealed(k, t),
        round_trips(k, t),
    ensures
        field_plain(k, b) == t,
{
    lemma_bytes_mask_round_trip(aria256_encrypt(expanded_key(k), t));
}

/// Unmasking then decrypting sealed chunks gives their plaintexts, joined.
pub proof fn lemma_sealed_chunks_open(k: Seq<u8>, bs: Seq<Block>, ts: Seq<Seq<u8>>)
    requires
        sealed_chunks(k, bs, ts),
    ensures
        chunks_plain(k, bs) == joined(ts),
    decreases bs.len(),
{
    if bs.len() > 0 {
        let n = bs.len() - 1;
        assert(sealed_chunks(k, bs.drop_last(), ts.drop_last())) by {
            assert forall|i: int| 0 <= i < n implies #[trigger] bs.drop_last()[i]@ == sealed(
                k,
                ts.drop_last()[i],
            ) && round_trips(k, ts.drop_last()[i]) by {
                assert(0 <= i < bs.len());
                let b = bs[i];
                assert(b@ == sealed(k, ts[i]));
                assert(round_trips(k, ts[i]));
                assert(bs.drop_last()[i] == b);
                assert(ts.drop_last()[i] == ts[i]);
            }
        }
        lemma_sealed_chunks_open(k, bs.drop_last(), ts.drop_last());
        let last = bs[n];
        assert(last@ == sealed(k, ts[n]) && round_trips(k, ts[n]));
        lemma_sealed_block_opens(k, bs.last(), ts.last());
    }
}

/// An authentication request with zero reserved fields, whose four fields
/// the client sealed from valid texts under the session key (encrypt, then
/// mask), is accepted.
pub proof fn lemma_sealed_request_accepted(
    k: Seq<u8>,
    req: AuthRequest,
    origin: Seq<u8>,
    local: Seq<u8>,
    hash: Seq<Seq<u8>>,
    blob: Seq<Seq<u8>>,
)
    requires
        req.unk1 == 0,
        req.unk2 == 0,
        req.ip_origin@ == sealed(k, origin),
        round_trips(k, origin),
        text_ok(origin),
        req.ip_local@ == sealed(k, local),
        round_trips(k, local),
        text_ok(local),
        sealed_chunks(k, req.srchash@, hash),
        text_ok(joined(hash)),
        sealed_chunks(k, req.binbuf@, blob),
        text_ok(joined(blob)),
    ensures
        auth_error(Some(k), req) is None,
{
    lemma_sealed_block_opens(k, req.ip_origin, origin);
    lemma_sealed_block_opens(k, req.ip_local, local);
    lemma_sealed_chunks_open(k, req.srchash@, hash);
    lemma_sealed_chunks_open(k, req.binbuf@, blob);
}

pub open spec fn sends_connect_ack(r: Result<Action, ProtocolError>) -> bool {
    r matches Ok(Action::SendConnectAck(_))
}

pub open spec fn sends_key_exchange(r: Result<Action, ProtocolError>) -> bool {
    r matches Ok(Action::SendKeyExchange(_))
}

pub open spec fn sends_auth(r: Result<Action, ProtocolError>) -> bool {
    r matches Ok(Action::SendAuth(_))
}

/// A run of a fresh connection: states `vs`, messages `ms` and results
/// `rs`, each step as `handle` takes it.
pub open spec fn is_run(
    vs: Seq<ConnectionView>,
    ms: Seq<Inbound>,
    rs: Seq<Result<Action, ProtocolError>>,
) -> bool {
    &&& vs.len() == ms.len() + 1
    &&& rs.len() == ms.len()
    &&& !vs[0].ready
    &&& vs[0].key is None
    &&& forall|i: int| 0 <= i < ms.len() ==> #[trigger] handle_step(vs[i], ms[i], rs[i], vs[i + 1])
}

proof fn lemma_run_history(
    vs: Seq<ConnectionView>,
    ms: Seq<Inbound>,
    rs: Seq<Result<Action, ProtocolError>>,
    i: int,
)
    requires
        is_run(vs, ms, rs),
        0 <= i <= ms.len(),
    ensures
        vs[i].key is Some ==> exists|j: int| 0 <= j < i && #[trigger] sends_key_exchange(rs[j]),
        vs[i].ready ==> exists|j: int| 0 <= j < i && #[trigger] sends_connect_ack(rs[j]),
    decreases i,
{
    if i > 0 {
        lemma_run_history(vs, ms, rs, i - 1);
        let p = i - 1;
        assert(handle_step(vs[p], ms[p], rs[p], vs[p + 1]));
        if vs[i].key is Some && vs[p].key is None {
            assert(sends_key_exchange(rs[p]));
        }
        if vs[i].ready && !vs[p].ready {
            assert(sends_connect_ack(rs[p]));
        }
    }
}

/// Over every run of a fresh connection, nothing but a greeting's
/// acknowledgement is sent before the greeting is accepted, and every
/// authentication reply comes after a key exchange reply.
pub proof fn lemma_handshake_order(
    vs: Seq<ConnectionView>,
    ms: Seq<Inbound>,
    rs: Seq<Result<Action, ProtocolError>>,
)
    requires
        is_run(vs, ms, rs),
    ensures
        forall|i: int|
            0 <= i < rs.len() && (forall|j: int| 0 <= j < i ==> !#[trigger] sends_connect_ack(rs[j]))
                ==> #[trigger] rs[i] is Err || sends_connect_ack(rs[i]),
        forall|i: int|
            0 <= i < rs.len() && #[trigger] sends_auth(rs[i]) ==> exists|j: int|
                0 <= j < i && #[trigger] sends_key_exchange(rs[j]),
{
    assert forall|i: int|
        0 <= i < rs.len() && (forall|j: int| 0 <= j < i ==> !#[trigger] sends_connect_ack(rs[j]))
            implies #[trigger] rs[i] is Err || sends_connect_ack(rs[i]) by {
        lemma_run_history(vs, ms, rs, i);
        assert(handle_step(vs[i], ms[i], rs[i], vs[i + 1]));
    }
    assert forall|i: int| 0 <= i < rs.len() && #[trigger] sends_auth(rs[i]) implies exists|j: int|
        0 <= j < i && #[trigger] sends_key_exchange(rs[j]) by {
        lemma_run_history(vs, ms, rs, i);
        assert(handle_step(vs[i], ms[i], rs[i], vs[i + 1]));
    }
}

} // verus!
