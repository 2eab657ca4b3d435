//! The P2P layer's data and framing: gossip messages, length-prefixed
//! frames, the chunking of encrypted writes, the buffer that reassembles
//! decrypted bytes, and node identities. Sockets and the Noise handshake
//! stay with the caller.

use vstd::prelude::*;

use crate::block::Block;
use crate::difficulty::be_value;
use crate::hexcodec::{hex_encode, hex_encode_chars};
use crate::primitives::append_bytes;
use crate::transaction::Transaction;

verus! {

pub const PROTOCOL_VERSION: u32 = 1;

/// Largest gossip message accepted, 64 MiB.
pub const MAX_MESSAGE_LEN: usize = 64 * 1024 * 1024;

/// Noise caps a transport message at 65535 bytes of ciphertext, including
/// a 16-byte tag.
pub const MAX_NOISE_PLAINTEXT: usize = 65535 - 16;

/// The Noise protocol the transport runs.
pub const NOISE_PARAMS: &'static str = "Noise_XX_25519_ChaChaPoly_BLAKE2s";

/// Calls `params.parse::<snow::params::NoiseParams>()` and snow's
/// `Builder::new(params).generate_keypair()` with the default resolver: a
/// fresh X25519 key pair from the OS random source, private key first. For
/// the transport's own parameters the parse succeeds, and the default
/// resolver always supplies the random source and the 25519 Diffie-Hellman,
/// whose keys are 32 bytes each. Nothing is said of the key values.
#[verifier::external_body]
fn x25519_keypair(params: &str) -> (r: (Vec<u8>, Vec<u8>))
    requires
        params@ == NOISE_PARAMS@,
    ensures
        r.0@.len() == 32,
        r.1@.len() == 32,
{
    let p: snow::params::NoiseParams = params.parse().expect("the transport's Noise parameters parse");
    let kp = snow::Builder::new(p).generate_keypair().expect("the default resolver has an RNG and X25519");
    (kp.private, kp.public)
}

#[derive(Clone, Debug)]
pub enum Message {
    Handshake { version: u32, network: String, height: u64 },
    NewBlock(Block),
    NewTransaction(Transaction),
    Ping,
    Pong,
}

/// What a connection does with a message from its peer.
#[derive(Clone, Copy, Debug, PartialEq, Eq, Structural)]
pub enum Reaction {
    /// Close the connection: the peer is on another network.
    Disconnect,
    /// Hand the block to the node.
    DeliverBlock,
    /// Hand the transaction to the node.
    DeliverTransaction,
    /// Answer with `Pong`.
    ReplyPong,
    /// Nothing to do.
    Ignore,
}

/// The decision a connection makes for each incoming message: a handshake
/// from another network ends the connection, blocks and transactions go to
/// the node, a ping is answered.
pub fn on_message(network_name: &String, msg: &Message) -> (r: Reaction)
    ensures
        match msg {
            Message::Handshake { network, .. } => r == (if network@ == network_name@ { Reaction::Ignore } else { Reaction::Disconnect }),
            Message::NewBlock(_) => r == Reaction::DeliverBlock,
            Message::NewTransaction(_) => r == Reaction::DeliverTransaction,
            Message::Ping => r == Reaction::ReplyPong,
            Message::Pong => r == Reaction::Ignore,
        },
{
    match msg {
        Message::Handshake { network, .. } => {
            if network.eq(network_name) {
                Reaction::Ignore
            } else {
                Reaction::Disconnect
            }
        },
        Message::NewBlock(_) => Reaction::DeliverBlock,
        Message::NewTransaction(_) => Reaction::DeliverTransaction,
        Message::Ping => Reaction::ReplyPong,
        Message::Pong => Reaction::Ignore,
    }
}

/// Why an incoming frame is refused.
#[derive(Clone, Copy, Debug, PartialEq, Eq, Structural)]
pub enum FrameError {
    /// The announced message length exceeds `MAX_MESSAGE_LEN`.
    MessageTooLarge { len: u64 },
}

/// Big-endian bytes of the low `k` bytes of `x`.
pub open spec fn be_bytes(x: nat, k: nat) -> Seq<u8>
    decreases k,
{
    if k == 0 {
        Seq::empty()
    } else {
        be_bytes(x / 256, (k - 1) as nat).push((x % 256) as u8)
    }
}

/// A gossip frame: the payload length as 4 big-endian bytes (the low 32
/// bits of it), then the payload.
pub open spec fn message_frame(payload: Seq<u8>) -> Seq<u8> {
    be_bytes(payload.len() % 0x1_0000_0000, 4) + payload
}

/// An encrypted-transport frame: 2 big-endian length bytes (the low 16 bits
/// of the length), then the data.
pub open spec fn noise_frame(data: Seq<u8>) -> Seq<u8> {
    be_bytes(data.len() % 0x1_0000, 2) + data
}

/// `be_bytes` reads back as the value modulo 256^k.
pub proof fn lemma_be_bytes_value(x: nat, k: nat)
    ensures
        be_bytes(x, k).len() == k,
        be_value(be_bytes(x, k)) == (x as int) % vstd::arithmetic::power::pow(256, k),
    decreases k,
{
    if k > 0 {
        lemma_be_bytes_value(x / 256, (k - 1) as nat);
        let b = be_bytes(x, k);
        assert(b.drop_last() =~= be_bytes(x / 256, (k - 1) as nat));
        let p = vstd::arithmetic::power::pow(256, (k - 1) as nat);
        vstd::arithmetic::power::lemma_pow_positive(256, (k - 1) as nat);
        vstd::arithmetic::power::lemma_pow_adds(256, 1, (k - 1) as nat);
        vstd::arithmetic::power::lemma_pow1(256);
        vstd::arithmetic::div_mod::lemma_breakdown(x as int, 256, p as int);
        assert(256 * p == vstd::arithmetic::power::pow(256, k));
    } else {
        assert(vstd::arithmetic::power::pow(256, 0) == 1) by {
            vstd::arithmetic::power::lemma_pow0(256);
        }
    }
}

/// Appends the low `k` bytes of `x`, big-endian.
fn push_be(v: &mut Vec<u8>, x: u64, k: usize)
    requires
        k <= 8,
    ensures
        final(v)@ == old(v)@ + be_bytes(x as nat, k as nat),
    decreases k,
{
    if k > 0 {
        push_be(v, x / 256, k - 1);
        v.push((x % 256) as u8);
        proof {
            assert(be_bytes(x as nat, k as nat) =~= be_bytes((x / 256) as nat, (k - 1) as nat).push((x % 256) as u8));
        }
    }
}

/// Frames a serialized message for the wire: 4-byte big-endian length
/// (cut to 32 bits), then the payload.
pub fn encode_message_frame(payload: &[u8]) -> (f: Vec<u8>)
    ensures
        f@ == message_frame(payload@),
{
    let mut out: Vec<u8> = Vec::new();
    let len32: u64 = (payload.len() as u64) % 0x1_0000_0000;
    push_be(&mut out, len32, 4);
    append_bytes(&mut out, payload);
    out
}

/// Reads the length prefix of a gossip frame; lengths above
/// `MAX_MESSAGE_LEN` are refused.
pub fn decode_message_len(len_buf: [u8; 4]) -> (r: Result<usize, FrameError>)
    ensures
        be_value(len_buf@) <= MAX_MESSAGE_LEN ==> r == Ok::<usize, FrameError>(be_value(len_buf@) as usize),
        be_value(len_buf@) > MAX_MESSAGE_LEN ==> r == Err::<usize, FrameError>(FrameError::MessageTooLarge { len: be_value(len_buf@) as u64 }),
{
    let len: u64 = (len_buf[0] as u64) * 16777216 + (len_buf[1] as u64) * 65536 + (len_buf[2] as u64) * 256 + (len_buf[3] as u64);
    proof {
        let s = len_buf@;
        assert(s.take(0) =~= Seq::<u8>::empty());
        assert(be_value(Seq::<u8>::empty()) == 0);
        crate::difficulty::lemma_be_value_take_step(s, 0);
        crate::difficulty::lemma_be_value_take_step(s, 1);
        crate::difficulty::lemma_be_value_take_step(s, 2);
        crate::difficulty::lemma_be_value_take_step(s, 3);
        assert(s.take(4) =~= s);
    }
    if len > MAX_MESSAGE_LEN as u64 {
        Err(FrameError::MessageTooLarge { len })
    } else {
        Ok(len as usize)
    }
}

/// Frames encrypted data: 2-byte big-endian length (cut to 16 bits), then
/// the data.
pub fn encode_noise_frame(data: &[u8]) -> (f: Vec<u8>)
    ensures
        f@ == noise_frame(data@),
{
    let mut out: Vec<u8> = Vec::new();
    let len16: u64 = (data.len() as u64) % 0x1_0000;
    push_be(&mut out, len16, 2);
    append_bytes(&mut out, data);
    out
}

/// Reads the length prefix of an encrypted-transport frame.
pub fn decode_noise_len(len_buf: [u8; 2]) -> (n: usize)
    ensures
        n == be_value(len_buf@),
{
    proof {
        let s = len_buf@;
        assert(s.take(0) =~= Seq::<u8>::empty());
        assert(be_value(Seq::<u8>::empty()) == 0);
        crate::difficulty::lemma_be_value_take_step(s, 0);
        crate::difficulty::lemma_be_value_take_step(s, 1);
        assert(s.take(2) =~= s);
    }
    (len_buf[0] as usize) * 256 + (len_buf[1] as usize)
}

/// The ranges an encrypted write splits a `len`-byte plaintext into: pieces
/// of `MAX_NOISE_PLAINTEXT` bytes, the last one shorter; none for an empty
/// plaintext.
pub open spec fn chunk_ranges_spec(len: nat) -> Seq<(usize, usize)> {
    let c = MAX_NOISE_PLAINTEXT as nat;
    Seq::new(
        ((len + c - 1) / (c as int)) as nat,
        |k: int| ((k * c) as usize, (if (k + 1) * c <= len { (k + 1) * c } else { len as int }) as usize),
    )
}

#[verifier::spinoff_prover]
proof fn lemma_ceil_div(len: int, c: int, k: int)
    requires
        c > 0,
        len >= 0,
        k >= 0,
    ensures
        k * c < len ==> k < (len + c - 1) / c,
        (k == 0 && len == 0) || (k >= 1 && (k - 1) * c < len && len <= k * c) ==> k == (len + c - 1) / c,
{
    if k * c < len {
        assert(k * c + c <= len + c - 1);
        vstd::arithmetic::div_mod::lemma_div_is_ordered(k * c + c, len + c - 1, c);
        assert((k + 1) * c == k * c + c) by (nonlinear_arith);
        vstd::arithmetic::div_mod::lemma_div_multiples_vanish(k + 1, c);
        assert(c * (k + 1) == k * c + c) by (nonlinear_arith);
        assert((k * c + c) / c == k + 1);
        assert(k + 1 <= (len + c - 1) / c);
    }
    if k == 0 && len == 0 {
        vstd::arithmetic::div_mod::lemma_fundamental_div_mod_converse(c - 1, c, 0, c - 1);
    }
    if k >= 1 && (k - 1) * c < len && len <= k * c {
        assert((k - 1) * c == k * c - c) by (nonlinear_arith);
        vstd::arithmetic::div_mod::lemma_fundamental_div_mod_converse(len + c - 1, c, k, len + c - 1 - k * c);
    }
}

/// Chunk boundaries for an encrypted write of `len` bytes.
pub fn chunk_ranges(len: usize) -> (v: Vec<(usize, usize)>)
    ensures
        v@ == chunk_ranges_spec(len as nat),
{
    let c: usize = MAX_NOISE_PLAINTEXT;
    let mut v: Vec<(usize, usize)> = Vec::new();
    let mut start: usize = 0;
    let mut k: usize = 0;
    let ghost n = ((len + c - 1) / (c as int)) as nat;
    assert(0 * (c as int) == 0);
    while start < len
        invariant
            c == MAX_NOISE_PLAINTEXT,
            start <= k * c,
            start < len ==> start == k * c,
            start <= len,
            k > 0 ==> (k - 1) * c < len,
            n == ((len + c - 1) / (c as int)) as nat,
            v@ == chunk_ranges_spec(len as nat).take(k as int),
        decreases len - start,
    {
        proof {
            lemma_ceil_div(len as int, c as int, k as int);
            assert((k + 1) * c == k * c + c) by (nonlinear_arith);
        }
        let end: usize = if len - start >= c { start + c } else { len };
        v.push((start, end));
        assert(v@ =~= chunk_ranges_spec(len as nat).take(k + 1));
        start = end;
        k = k + 1;
        proof {
            assert((k - 1) * c == k * c - c) by (nonlinear_arith);
            if start < len {
                assert(start == k * c);
            }
        }
    }
    proof {
        lemma_ceil_div(len as int, c as int, k as int);
    }
    assert(v@ =~= chunk_ranges_spec(len as nat));
    v
}

/// The plaintext pieces the ranges `r` cut out of `p`, joined in order.
pub open spec fn join_chunks(p: Seq<u8>, r: Seq<(usize, usize)>) -> Seq<u8>
    decreases r.len(),
{
    if r.len() == 0 {
        Seq::empty()
    } else {
        join_chunks(p, r.drop_last()) + p.subrange(r.last().0 as int, r.last().1 as int)
    }
}

/// Every chunk index below the chunk count starts inside the plaintext, and
/// the chunks together reach its end.
proof fn lemma_chunk_bounds(len: int, c: int, j: int)
    requires
        c > 0,
        len >= 0,
        j >= 0,
    ensures
        j < (len + c - 1) / c ==> j * c < len,
        ((len + c - 1) / c) * c >= len,
{
    vstd::arithmetic::div_mod::lemma_fundamental_div_mod(len + c - 1, c);
    let n = (len + c - 1) / c;
    if j < n && j * c >= len {
        assert(len + c - 1 <= j * c + c - 1);
        vstd::arithmetic::div_mod::lemma_div_is_ordered(len + c - 1, j * c + c - 1, c);
        vstd::arithmetic::div_mod::lemma_fundamental_div_mod_converse(j * c + c - 1, c, j, c - 1);
    }
    assert(n * c == (len + c - 1) - (len + c - 1) % c) by (nonlinear_arith)
        requires len + c - 1 == c * ((len + c - 1) / c) + (len + c - 1) % c, n == (len + c - 1) / c;
}

proof fn lemma_join_prefix(p: Seq<u8>, k: nat)
    requires
        p.len() <= usize::MAX,
        k <= chunk_ranges_spec(p.len()).len(),
    ensures
        join_chunks(p, chunk_ranges_spec(p.len()).take(k as int))
            == p.take(if k * (MAX_NOISE_PLAINTEXT as int) <= p.len() { k * (MAX_NOISE_PLAINTEXT as int) } else { p.len() as int }),
    decreases k,
{
    let c = MAX_NOISE_PLAINTEXT as int;
    let len = p.len() as int;
    let r = chunk_ranges_spec(p.len());
    if k == 0 {
        assert(r.take(0) =~= Seq::<(usize, usize)>::empty());
        assert(p.take(0) =~= Seq::<u8>::empty());
    } else {
        lemma_join_prefix(p, (k - 1) as nat);
        assert(r.take(k as int).drop_last() =~= r.take(k - 1));
        assert(r.take(k as int).last() == r[k - 1]);
        lemma_chunk_bounds(len, c, k - 1);
        assert((k - 1) * c < len);
        assert(k * c == (k - 1) * c + c) by (nonlinear_arith);
        let start = (k - 1) * c;
        let end = if k * c <= len { k * c } else { len };
        assert(r[k - 1] == (start as usize, end as usize));
        assert(p.take(start) + p.subrange(start, end) =~= p.take(end));
    }
}

/// Chunking loses nothing: joining the pieces `chunk_ranges` cuts a
/// plaintext into gives the plaintext back, so a reader that decrypts and
/// buffers every frame reads the whole message.
pub proof fn lemma_chunks_rejoin(p: Seq<u8>)
    requires
        p.len() <= usize::MAX,
    ensures
        join_chunks(p, chunk_ranges_spec(p.len())) == p,
{
    let c = MAX_NOISE_PLAINTEXT as int;
    let r = chunk_ranges_spec(p.len());
    lemma_join_prefix(p, r.len());
    assert(r.take(r.len() as int) =~= r);
    lemma_chunk_bounds(p.len() as int, c, 0);
    assert(p.take(p.len() as int) =~= p);
}

/// Decrypted bytes not yet handed out: frame boundaries chosen by the
/// sender need not match the sizes a reader asks for.
pub struct ReadBuffer {
    leftover: Vec<u8>,
}

impl View for ReadBuffer {
    type V = Seq<u8>;

    closed spec fn view(&self) -> Seq<u8> {
        self.leftover@
    }
}

impl ReadBuffer {
    pub fn new() -> (b: ReadBuffer)
        ensures
            b@ == Seq::<u8>::empty(),
    {
        ReadBuffer { leftover: Vec::new() }
    }

    pub fn len(&self) -> (n: usize)
        ensures
            n == self@.len(),
    {
        self.leftover.len()
    }

    /// Adds freshly decrypted bytes at the end.
    pub fn extend(&mut self, data: &[u8])
        ensures
            final(self)@ == old(self)@ + data@,
    {
        append_bytes(&mut self.leftover, data);
    }

    /// Removes and returns the first `n` bytes.
    pub fn take(&mut self, n: usize) -> (out: Vec<u8>)
        requires
            n <= old(self)@.len(),
        ensures
            out@ == old(self)@.take(n as int),
            final(self)@ == old(self)@.skip(n as int),
    {
        let mut out: Vec<u8> = Vec::new();
        let mut rest: Vec<u8> = Vec::new();
        let mut i: usize = 0;
        let ghost s = self.leftover@;
        while i < self.leftover.len()
            invariant
                0 <= i <= s.len(),
                n <= s.len(),
                s == self.leftover@,
                out@ == s.take(if i < n { i as int } else { n as int }),
                rest@ == (if i <= n { Seq::<u8>::empty() } else { s.subrange(n as int, i as int) }),
            decreases s.len() - i,
        {
            if i < n {
                out.push(self.leftover[i]);
            } else {
                rest.push(self.leftover[i]);
            }
            i = i + 1;
            assert(out@ =~= s.take(if i < n { i as int } else { n as int }));
            assert(rest@ =~= (if i <= n { Seq::<u8>::empty() } else { s.subrange(n as int, i as int) }));
        }
        assert(rest@ =~= s.skip(n as int));
        self.leftover = rest;
        out
    }
}

/// Bytes come out of a read buffer in the order they went in: taking `a`
/// and then `b` bytes gives the first `a + b` bytes.
pub proof fn lemma_reads_reassemble(s: Seq<u8>, a: int, b: int)
    requires
        0 <= a,
        0 <= b,
        a + b <= s.len(),
    ensures
        s.take(a) + s.skip(a).take(b) == s.take(a + b),
        s.skip(a).skip(b) == s.skip(a + b),
{
    assert(s.take(a) + s.skip(a).take(b) =~= s.take(a + b));
    assert(s.skip(a).skip(b) =~= s.skip(a + b));
}

/// A node's transport identity: its X25519 key pair.
pub struct NodeIdentity {
    private_key: Vec<u8>,
    pub public_key: [u8; 32],
}

/// The identity file: 32 private-key bytes followed by the public key.
pub open spec fn identity_file(private_key: Seq<u8>, public_key: Seq<u8>) -> Seq<u8> {
    private_key + public_key
}

impl NodeIdentity {
    pub closed spec fn private_view(&self) -> Seq<u8> {
        self.private_key@
    }

    pub closed spec fn public_view(&self) -> Seq<u8> {
        self.public_key@
    }

    pub fn new(private_key: Vec<u8>, public_key: [u8; 32]) -> (id: NodeIdentity)
        ensures
            id.private_view() == private_key@,
            id.public_view() == public_key@,
    {
        NodeIdentity { private_key, public_key }
    }

    pub fn private_key(&self) -> (k: &[u8])
        ensures
            k@ == self.private_view(),
    {
        self.private_key.as_slice()
    }

    /// A fresh identity: a new X25519 key pair for the transport. Both keys
    /// are 32 bytes, so its identity file reads back as the same identity
    /// (`lemma_identity_file_roundtrip`).
    pub fn generate() -> (id: NodeIdentity)
        ensures
            id.private_view().len() == 32,
            id.public_view().len() == 32,
    {
        let (private_key, public) = x25519_keypair(NOISE_PARAMS);
        let mut public_key = [0u8; 32];
        let mut i: usize = 0;
        while i < 32
            invariant
                0 <= i <= 32,
                public@.len() == 32,
                public_key@.len() == 32,
            decreases 32 - i,
        {
            public_key[i] = public[i];
            i = i + 1;
        }
        NodeIdentity { private_key, public_key }
    }

    /// Reads an identity file: exactly 64 bytes, else none.
    pub fn from_file_bytes(bytes: &[u8]) -> (r: Option<NodeIdentity>)
        ensures
            r is Some <==> bytes@.len() == 64,
            r matches Some(id) ==> id.private_view() == bytes@.take(32) && id.public_view() == bytes@.skip(32),
    {
        if bytes.len() != 64 {
            return None;
        }
        let mut private_key: Vec<u8> = Vec::new();
        let mut public_key = [0u8; 32];
        let mut i: usize = 0;
        while i < 32
            invariant
                0 <= i <= 32,
                bytes@.len() == 64,
                private_key@ == bytes@.take(i as int),
                public_key@.len() == 32,
                forall|j: int| 0 <= j < i ==> public_key@[j] == bytes@[32 + j],
            decreases 32 - i,
        {
            private_key.push(bytes[i]);
            public_key[i] = bytes[32 + i];
            i = i + 1;
            assert(private_key@ =~= bytes@.take(i as int));
        }
        assert(public_key@ =~= bytes@.skip(32));
        Some(NodeIdentity { private_key, public_key })
    }

    /// The identity file contents.
    pub fn to_file_bytes(&self) -> (b: Vec<u8>)
        ensures
            b@ == identity_file(self.private_view(), self.public_view()),
    {
        let mut v: Vec<u8> = Vec::new();
        append_bytes(&mut v, self.private_key.as_slice());
        append_bytes(&mut v, &self.public_key);
        v
    }
}

/// An identity written to its file and read back is the same identity.
pub proof fn lemma_identity_file_roundtrip(private_key: Seq<u8>, public_key: Seq<u8>)
    requires
        private_key.len() == 32,
        public_key.len() == 32,
    ensures
        identity_file(private_key, public_key).len() == 64,
        identity_file(private_key, public_key).take(32) == private_key,
        identity_file(private_key, public_key).skip(32) == public_key,
{
    assert(identity_file(private_key, public_key).take(32) =~= private_key);
    assert(identity_file(private_key, public_key).skip(32) =~= public_key);
}

/// A peer id as 64 lowercase hex digits.
pub fn peer_id_hex(id: &[u8; 32]) -> (s: String)
    ensures
        s@ == hex_encode_chars(id@),
{
    hex_encode(id)
}

} // verus!
