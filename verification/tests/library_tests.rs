use rand::{RngCore, SeedableRng};
use ondris::block::{merkle_root, Block};
use ondris::chain::{
    apply_block, assemble_block, check_block_difficulty, check_block_link,
    check_block_transactions, check_block_work, dataset_seed, difficulty_params_fit,
    expected_difficulty, genesis_block, retarget_heights, touched_addresses, validate_block,
    ChainError,
};
use ondris::difficulty::{next_difficulty, target_for_difficulty, MAX_TARGET};
use ondris::genesis::{genesis_block_hash, GenesisConfig, PremineEntry};
use ondris::header::BlockHeader;
use ondris::keystore::{create, try_unlock, unlock, Keystore, KeystoreError};
use ondris::miner::search_nonces;
use ondris::network::{
    chunk_ranges, decode_message_len, decode_noise_len, encode_message_frame, encode_noise_frame,
    on_message, peer_id_hex, FrameError, Message, NodeIdentity, Reaction, ReadBuffer,
    MAX_NOISE_PLAINTEXT,
};
use ondris::pow::{epoch_of, epoch_seed, meets_target, ondris_hash_with_sizes, Dataset};
use ondris::primitives::{Address, Hash256, KeyPair, PrimitiveError, PublicKey, Signature};
use ondris::rpc_types::{AccountInfo, WorkTemplate};
use ondris::state::{Account, Accounts};
use ondris::transaction::Transaction;

fn seed_bytes(hex_text: &str) -> [u8; 32] {
    let v = hex::decode(hex_text).unwrap();
    let mut a = [0u8; 32];
    a.copy_from_slice(&v);
    a
}

#[test]
fn blake3_of_empty_input_matches_the_reference_vector() {
    let h = Hash256::hash(b"");
    assert_eq!(h.to_hex(), "af1349b9f5f9a1a6a0404dea36dcc9499bcb25c9adc112b7cc9a93cae41f3262");
}

#[test]
fn hash_hex_roundtrip_and_short_input_gives_zero() {
    let h = Hash256::hash(b"ondris");
    assert_eq!(Hash256::from_hex(&h.to_hex()).unwrap(), h);
    assert_eq!(Hash256::from_hex("abcd").unwrap(), Hash256([0u8; 32]));
    assert!(Hash256::from_hex("abc").is_err());
    assert!(Hash256::from_hex("zz").is_err());
}

#[test]
fn public_key_parse_errors() {
    assert!(matches!(PublicKey::from_hex("00"), Err(PrimitiveError::InvalidLength)));
    assert!(matches!(PublicKey::from_hex("xy"), Err(PrimitiveError::InvalidHex(_))));
    let hex_text = "d75a980182b10ab7d54bfed3c964073a0ee172f3daa62325af021a68f707511a";
    assert_eq!(PublicKey::from_hex(hex_text).unwrap().to_hex(), hex_text);
}

#[test]
fn ed25519_reference_vector() {
    let kp = KeyPair::from_seed(seed_bytes("9d61b19deffd5a60ba844af492ec2cc44449c5697b326919703bac031cae7f60"));
    assert_eq!(kp.public().to_hex(), "d75a980182b10ab7d54bfed3c964073a0ee172f3daa62325af021a68f707511a");
    let sig = kp.sign(b"");
    assert_eq!(
        sig.to_hex(),
        "e5564300c360ac729086e2cc806e828a84877f1eb8e5d974d873e065224901555fb8821590a33bacc61e39701cf9b46bd25bf5f0595bbe24655141438e7a100b"
    );
    assert!(kp.public().verify(b"", &sig));
    assert!(!kp.public().verify(b"x", &sig));
    assert_eq!(kp.seed_bytes(), seed_bytes("9d61b19deffd5a60ba844af492ec2cc44449c5697b326919703bac031cae7f60"));
}

#[test]
fn address_text_forms() {
    let kp = KeyPair::from_seed([7u8; 32]);
    let addr = kp.address();
    let text = addr.to_string();
    assert!(text.starts_with("ondr"));
    assert_eq!(text.len(), 44);
    assert_eq!(Address::parse_str(&text[4..]).unwrap(), addr);
    assert_eq!(Address::from_hex(&addr.to_hex()).unwrap(), addr);
    assert!(matches!(Address::parse_str("ondr1234"), Err(PrimitiveError::InvalidLength)));
    assert!(matches!(Address::parse_str("ondrxyz"), Err(PrimitiveError::InvalidHex(_))));
    let h = Hash256::hash(&kp.public().0);
    assert_eq!(&addr.0[..], &h.0[..20]);
}

#[test]
fn targets_for_some_difficulties() {
    assert_eq!(target_for_difficulty(0), MAX_TARGET);
    let t2 = target_for_difficulty(2);
    assert_eq!(t2[0], 0x7f);
    assert!(t2[1..].iter().all(|b| *b == 0xff));
    let t256 = target_for_difficulty(256);
    assert_eq!(t256[0], 0x00);
    assert!(t256[1..].iter().all(|b| *b == 0xff));
}

#[test]
fn retarget_values_and_clamp() {
    assert_eq!(next_difficulty(1000, 0, 30, 60), 4000);
    assert_eq!(next_difficulty(1000, 1_000_000, 30, 60), 250);
    assert_eq!(next_difficulty(1000, 1800, 30, 60), 1000);
    assert_eq!(next_difficulty(1000, 900, 30, 60), 2000);
    assert_eq!(next_difficulty(0, 100, 30, 60), 1);
}

#[test]
fn meets_target_is_numeric_comparison() {
    let mut t = [0u8; 32];
    t[0] = 1;
    let mut h = [0xffu8; 32];
    h[0] = 0;
    assert!(meets_target(&Hash256(h), &t));
    assert!(meets_target(&Hash256(t), &t));
    let mut above = t;
    above[31] = 1;
    assert!(!meets_target(&Hash256(above), &t));
}

#[test]
fn epochs_and_seeds() {
    assert_eq!(epoch_of(0), 0);
    assert_eq!(epoch_of(2047), 0);
    assert_eq!(epoch_of(2048), 1);
    assert_eq!(epoch_seed(None), Hash256::hash(b"ONDRIS_GENESIS_EPOCH"));
    let h = Hash256::hash(b"boundary");
    assert_eq!(epoch_seed(Some(h)), Hash256::hash(&h.0));
    assert_eq!(dataset_seed(0, None).unwrap(), epoch_seed(None));
    assert_eq!(dataset_seed(2, None), Err(ChainError::EpochBoundaryMissing { height: 4096 }));
    assert_eq!(dataset_seed(2, Some(h)).unwrap(), epoch_seed(Some(h)));
}

#[test]
fn dataset_sizes() {
    let ds = Dataset::generate_with_sizes(3, Hash256::hash(b"s"), 64, 100);
    assert_eq!(ds.len_bytes(), 96);
    assert_eq!(ds.epoch, 3);
}

fn test_keys() -> (KeyPair, KeyPair) {
    (KeyPair::from_seed([1u8; 32]), KeyPair::from_seed([2u8; 32]))
}

#[test]
fn transaction_bytes_json_and_signature() {
    let (alice, bob) = test_keys();
    let mut tx = Transaction::new_unsigned(alice.public(), bob.address(), 10, 2, 0);
    assert_eq!(tx.signing_bytes().len(), 32 + 20 + 24);
    let expected_unsigned = format!(
        "{{\"from\":\"{}\",\"to\":\"{}\",\"amount\":10,\"fee\":2,\"account_nonce\":0,\"signature\":null}}",
        alice.public().to_hex(),
        bob.address().to_string()
    );
    assert_eq!(tx.json_bytes(), expected_unsigned.as_bytes());
    assert_eq!(tx.hash(), Hash256::hash(expected_unsigned.as_bytes()));
    assert!(!tx.is_signature_valid());
    assert!(!tx.sign_checked(&bob));
    assert!(tx.signature.is_none());
    assert!(tx.sign_checked(&alice));
    assert!(tx.is_signature_valid());
    let sig: Signature = tx.signature.unwrap();
    let expected_signed = format!(
        "{{\"from\":\"{}\",\"to\":\"{}\",\"amount\":10,\"fee\":2,\"account_nonce\":0,\"signature\":\"{}\"}}",
        alice.public().to_hex(),
        bob.address().to_string(),
        sig.to_hex()
    );
    assert_eq!(tx.json_bytes(), expected_signed.as_bytes());
    tx.amount = 11;
    assert!(!tx.is_signature_valid());
}

#[test]
fn header_pow_bytes_layout() {
    let header = BlockHeader {
        height: 5,
        prev_hash: Hash256([1u8; 32]),
        tx_root: Hash256([2u8; 32]),
        timestamp: 7,
        difficulty: 9,
        miner: Address([3u8; 20]),
        nonce: 11,
    };
    let b = header.bytes_for_pow();
    assert_eq!(b.len(), 108);
    assert_eq!(&b[0..8], &5u64.to_le_bytes());
    assert_eq!(&b[8..40], &[1u8; 32]);
    assert_eq!(&b[40..72], &[2u8; 32]);
    assert_eq!(&b[72..80], &7u64.to_le_bytes());
    assert_eq!(&b[80..88], &9u64.to_le_bytes());
    assert_eq!(&b[88..108], &[3u8; 20]);
    let ds = Dataset::generate_with_sizes(0, Hash256::hash(b"x"), 64, 64);
    assert_eq!(
        ondris_hash_with_sizes(&b, 11, &ds, 64, 1),
        ondris_hash_with_sizes(&b, 11, &ds, 64, 1)
    );
}

fn funded(accounts: &mut Accounts, addr: &Address, balance: u64) {
    accounts.set(addr, Account { balance, nonce: 0 });
}

fn signed(from: &KeyPair, to: Address, amount: u64, fee: u64, nonce: u64) -> Transaction {
    let mut tx = Transaction::new_unsigned(from.public(), to, amount, fee, nonce);
    assert!(tx.sign_checked(from));
    tx
}

#[test]
fn block_link_checks_in_order() {
    let g = GenesisConfig::testnet_default();
    let mut block = genesis_block(&g);
    let tip_hash = Hash256::hash(b"tip");
    assert_eq!(check_block_link(None, &block), Err(ChainError::NotInitialized));
    block.header.height = 3;
    assert_eq!(
        check_block_link(Some((0, tip_hash)), &block),
        Err(ChainError::UnexpectedHeight { got: 3, expected: 1 })
    );
    block.header.height = 1;
    assert_eq!(check_block_link(Some((0, tip_hash)), &block), Err(ChainError::PrevHashMismatch));
    block.header.prev_hash = tip_hash;
    block.header.tx_root = Hash256::hash(b"wrong");
    assert_eq!(check_block_link(Some((0, tip_hash)), &block), Err(ChainError::InvalidTxRoot));
    block.header.tx_root = block.compute_tx_root();
    assert_eq!(check_block_link(Some((0, tip_hash)), &block), Ok(()));
    assert_eq!(check_block_difficulty(&block, 1000), Ok(()));
    assert_eq!(check_block_difficulty(&block, 999), Err(ChainError::WrongDifficulty));
}

#[test]
fn proof_of_work_check() {
    let ds = Dataset::generate_with_sizes(0, Hash256::hash(b"d"), 64, 64);
    let mut block = genesis_block(&GenesisConfig::testnet_default());
    block.header.difficulty = 1;
    let h = check_block_work(&block, &ds).unwrap();
    assert_eq!(h, block.header.id(&ds));
    block.header.difficulty = u64::MAX;
    // Target is 2^256 / 2^64 - 1: almost every hash misses it.
    let r = check_block_work(&block, &ds);
    assert!(r == Err(ChainError::InsufficientWork) || r.is_ok());
}

#[test]
fn transaction_checks_and_application() {
    let (alice, bob) = test_keys();
    let miner = Address([9u8; 20]);
    let mut accounts = Accounts::new();
    funded(&mut accounts, &alice.address(), 100);
    let tx = signed(&alice, bob.address(), 30, 5, 0);
    let block = assemble_block(0, Hash256::hash(b"g"), miner, vec![tx], 123, 1000);
    assert_eq!(block.header.height, 1);
    assert_eq!(block.header.tx_root, merkle_root(&[tx.hash()]));
    assert_eq!(check_block_transactions(&block, &accounts), Some(Ok(())));
    apply_block(&block, &mut accounts, 50);
    assert_eq!(accounts.get(&alice.address()), Account { balance: 65, nonce: 1 });
    assert_eq!(accounts.get(&bob.address()), Account { balance: 30, nonce: 0 });
    assert_eq!(accounts.get(&miner), Account { balance: 50, nonce: 0 });
    // Replaying the same transaction now fails on its nonce.
    assert_eq!(check_block_transactions(&block, &accounts), Some(Err(ChainError::InvalidNonce)));

    let poor = signed(&bob, alice.address(), 31, 0, 0);
    let b2 = Block { header: block.header, transactions: vec![poor] };
    assert_eq!(check_block_transactions(&b2, &accounts), Some(Err(ChainError::InsufficientBalance)));

    let mut unsigned = poor;
    unsigned.signature = None;
    let b3 = Block { header: block.header, transactions: vec![unsigned] };
    assert_eq!(check_block_transactions(&b3, &accounts), Some(Err(ChainError::InvalidSignature)));

    let t = touched_addresses(&block);
    assert_eq!(t, vec![alice.address(), bob.address(), miner]);
}

#[test]
fn transactions_are_checked_against_the_state_before_the_block() {
    let (alice, bob) = test_keys();
    let mut accounts = Accounts::new();
    funded(&mut accounts, &alice.address(), 100);
    let header = genesis_block(&GenesisConfig::testnet_default()).header;
    // The same transaction twice: the sender/nonce pair repeats.
    let t = signed(&alice, bob.address(), 10, 0, 0);
    let twice = Block { header, transactions: vec![t, t] };
    assert_eq!(check_block_transactions(&twice, &accounts), Some(Err(ChainError::InvalidNonce)));
    // Two transactions with the sender's current nonce, together overspending.
    let t1 = signed(&alice, bob.address(), 60, 0, 0);
    let t2 = signed(&alice, bob.address(), 40, 0, 0);
    let pair = Block { header, transactions: vec![t1, t2] };
    assert_eq!(check_block_transactions(&pair, &accounts), Some(Err(ChainError::InvalidNonce)));
    // The sender's next nonce after this block is refused within it.
    let t3 = signed(&alice, bob.address(), 10, 0, 1);
    let next = Block { header, transactions: vec![t1, t3] };
    assert_eq!(check_block_transactions(&next, &accounts), Some(Err(ChainError::InvalidNonce)));
    // Funds received earlier in the block do not count for a later sender.
    let t4 = signed(&bob, alice.address(), 50, 0, 0);
    let relay = Block { header, transactions: vec![t1, t4] };
    assert_eq!(check_block_transactions(&relay, &accounts), Some(Err(ChainError::InsufficientBalance)));
    // Distinct senders, each covered before the block, pass.
    funded(&mut accounts, &bob.address(), 50);
    assert_eq!(check_block_transactions(&relay, &accounts), Some(Ok(())));
    // A sender whose balance covers amount + fee only by saturation overflows.
    let mut rich = Accounts::new();
    funded(&mut rich, &alice.address(), u64::MAX);
    let huge = signed(&alice, bob.address(), u64::MAX, 1, 0);
    let b = Block { header, transactions: vec![huge] };
    assert_eq!(check_block_transactions(&b, &rich), None);
}

#[test]
fn validate_block_checks_everything_before_writing() {
    let (alice, bob) = test_keys();
    let g = GenesisConfig::testnet_default();
    let ds = Dataset::generate_with_sizes(0, Hash256::hash(b"v"), 64, 64);
    let miner = Address([7u8; 20]);
    let tip = Hash256::hash(b"tip");
    let mut accounts = Accounts::new();
    funded(&mut accounts, &alice.address(), 100);
    let t = signed(&alice, bob.address(), 10, 1, 0);
    let mut block = assemble_block(4, tip, miner, vec![t, t], 0, 1);
    block.header.difficulty = 1;
    // Duplicated transaction: refused, accounts untouched.
    let r = validate_block(Some((4, tip)), &block, &ds, Ok(1), &g, &mut accounts);
    assert_eq!(r, Some(Err(ChainError::InvalidNonce)));
    assert_eq!(accounts.get(&alice.address()), Account { balance: 100, nonce: 0 });
    assert_eq!(accounts.get(&miner), Account::default());
    // Wrong expected difficulty comes before the transactions.
    let r = validate_block(Some((4, tip)), &block, &ds, Ok(2), &g, &mut accounts);
    assert_eq!(r, Some(Err(ChainError::WrongDifficulty)));
    let r = validate_block(Some((4, tip)), &block, &ds, Err(ChainError::WindowStartMissing), &g, &mut accounts);
    assert_eq!(r, Some(Err(ChainError::WindowStartMissing)));
    let r = validate_block(Some((3, tip)), &block, &ds, Ok(1), &g, &mut accounts);
    assert_eq!(r, Some(Err(ChainError::UnexpectedHeight { got: 5, expected: 4 })));
    // A good block is applied with the reward of its height.
    let good = assemble_block(4, tip, miner, vec![t], 0, 1);
    let r = validate_block(Some((4, tip)), &good, &ds, Ok(1), &g, &mut accounts);
    assert_eq!(r, Some(Ok(good.header.id(&ds))));
    assert_eq!(accounts.get(&alice.address()), Account { balance: 89, nonce: 1 });
    assert_eq!(accounts.get(&bob.address()), Account { balance: 10, nonce: 0 });
    assert_eq!(accounts.get(&miner).balance, g.block_reward(5));
}

#[test]
fn accounts_credit_saturates() {
    let mut accounts = Accounts::new();
    let a = Address([1u8; 20]);
    assert_eq!(accounts.get(&a), Account::default());
    accounts.credit(&a, u64::MAX - 1);
    accounts.credit(&a, 5);
    assert_eq!(accounts.get(&a).balance, u64::MAX);
    let copy = accounts.duplicate();
    assert_eq!(copy.get(&a).balance, u64::MAX);
    assert_eq!(accounts.entries().len(), 2);
}

#[test]
fn retarget_schedule() {
    let g = GenesisConfig::testnet_default();
    assert!(difficulty_params_fit(&g));
    assert_eq!(retarget_heights(&g, 60), None);
    assert_eq!(retarget_heights(&g, 61), Some((60, 0)));
    assert_eq!(expected_difficulty(&g, 10, None, None), Ok(1000));
    assert_eq!(expected_difficulty(&g, 61, None, None), Err(ChainError::BlockMissing { height: 60 }));
    let mut tip = genesis_block(&g).header;
    let mut start = tip;
    assert_eq!(expected_difficulty(&g, 61, Some(tip), None), Err(ChainError::WindowStartMissing));
    start.timestamp = 1000;
    tip.timestamp = 1900;
    assert_eq!(expected_difficulty(&g, 61, Some(tip), Some(start)), Ok(2000));
    tip.timestamp = 10;
    assert_eq!(expected_difficulty(&g, 61, Some(tip), Some(start)), Ok(4000));
}

#[test]
fn genesis_values() {
    let g = GenesisConfig::testnet_default();
    assert_eq!(g.network_name, "ondris-testnet");
    assert_eq!(
        genesis_block_hash(&g),
        Hash256::hash(b"ONDRIS_GENESIS:ondris-testnet:1784678400")
    );
    assert_eq!(g.block_reward(0), 5_000_000_000);
    assert_eq!(g.block_reward(210_000), 2_500_000_000);
    assert_eq!(g.block_reward(64 * 210_000), 0);
    let b = genesis_block(&g);
    assert_eq!(b.header.timestamp, 1_784_678_400);
    assert!(b.transactions.is_empty());
    assert!(g.premine_parsed().unwrap().is_empty());
    let addr = KeyPair::from_seed([3u8; 32]).address();
    let mut g2 = g.clone();
    g2.premine = vec![PremineEntry { address: addr.to_string(), amount: 7 }];
    assert_eq!(g2.premine_parsed().unwrap(), vec![(addr, 7)]);
    g2.premine.push(PremineEntry { address: "nope".to_string(), amount: 1 });
    assert!(g2.premine_parsed().is_err());
}

#[test]
fn frames_and_lengths() {
    assert_eq!(encode_message_frame(b"hello"), vec![0, 0, 0, 5, b'h', b'e', b'l', b'l', b'o']);
    assert_eq!(decode_message_len([0, 0, 1, 0]), Ok(256));
    assert_eq!(decode_message_len([4, 0, 0, 1]), Err(FrameError::MessageTooLarge { len: 0x0400_0001 }));
    assert_eq!(decode_message_len([4, 0, 0, 0]), Ok(64 * 1024 * 1024));
    assert_eq!(encode_noise_frame(&[9, 8]), vec![0, 2, 9, 8]);
    assert_eq!(decode_noise_len([1, 2]), 258);
}

#[test]
fn chunking_of_encrypted_writes() {
    assert!(chunk_ranges(0).is_empty());
    assert_eq!(chunk_ranges(10), vec![(0, 10)]);
    assert_eq!(chunk_ranges(MAX_NOISE_PLAINTEXT), vec![(0, MAX_NOISE_PLAINTEXT)]);
    let r = chunk_ranges(200_003);
    assert_eq!(r.len(), 4);
    assert_eq!(r[3], (3 * 65519, 200_003));
}

#[test]
fn read_buffer_reassembles_two_messages_from_one_frame() {
    let mut framed = Vec::new();
    framed.extend_from_slice(&11u32.to_be_bytes());
    framed.extend_from_slice(b"hello world");
    let mut buf = ReadBuffer::new();
    buf.extend(&framed);
    let len_bytes = buf.take(4);
    let len = u32::from_be_bytes(len_bytes.try_into().unwrap()) as usize;
    assert_eq!(len, 11);
    assert_eq!(buf.take(len), b"hello world");
    assert_eq!(buf.len(), 0);
}

#[test]
fn identity_file_roundtrip_and_peer_id() {
    let id = NodeIdentity::new(vec![5u8; 32], [6u8; 32]);
    let bytes = id.to_file_bytes();
    let back = NodeIdentity::from_file_bytes(&bytes).unwrap();
    assert_eq!(back.private_key(), &[5u8; 32][..]);
    assert_eq!(back.public_key, [6u8; 32]);
    assert!(NodeIdentity::from_file_bytes(&bytes[..63]).is_none());
    assert_eq!(peer_id_hex(&[0xabu8; 32]), "ab".repeat(32));
}

#[test]
fn keystore_roundtrip_and_wrong_password() {
    let (ks, kp) = create("correct horse").unwrap();
    let back = unlock(&ks, "correct horse").unwrap();
    assert_eq!(back.seed_bytes(), kp.seed_bytes());
    assert_eq!(ks.public_key, kp.public().to_hex());
    assert_eq!(ks.address, kp.address().to_string());
    assert!(matches!(unlock(&ks, "wrong horse"), Err(KeystoreError::Decryption)));
    assert_eq!(ks.salt().len(), 32);
    assert_eq!(ks.nonce().len(), 24);
    assert_eq!(ks.ciphertext().len(), 96);
}

#[test]
fn nonce_search() {
    let ds = Dataset::generate_with_sizes(0, Hash256::hash(b"m"), 64, 64);
    assert_eq!(search_nonces(b"h", 5, 3, 10, &ds, &MAX_TARGET), Some(5));
    assert_eq!(search_nonces(b"h", 5, 3, 10, &ds, &[0u8; 32]), None);
    assert_eq!(search_nonces(b"h", 5, 3, 0, &ds, &MAX_TARGET), None);
}

#[test]
fn work_template_and_account_info() {
    let mut block = genesis_block(&GenesisConfig::testnet_default());
    block.header.height = 4096;
    block.header.difficulty = 2;
    let w = WorkTemplate::new(block, None);
    assert_eq!(w.epoch, 2);
    assert_eq!(w.target, target_for_difficulty(2));
    let info = AccountInfo::new(Address([1u8; 20]), Account { balance: 3, nonce: 4 });
    assert_eq!((info.balance, info.nonce), (3, 4));
}

#[test]
fn try_unlock_refuses_a_nonce_of_the_wrong_length() {
    let (ks, kp) = create("correct horse").unwrap();
    let good = try_unlock(&ks, "correct horse").unwrap().unwrap();
    assert_eq!(good.seed_bytes(), kp.seed_bytes());
    let short_nonce = Keystore::from_parts(
        ks.public_key.clone(),
        ks.address.clone(),
        ks.salt().to_string(),
        "00112233445566778899aa".to_string(),
        ks.ciphertext().to_string(),
    );
    assert!(try_unlock(&short_nonce, "correct horse").is_none());
    let bad_hex = Keystore::from_parts(
        ks.public_key.clone(),
        ks.address.clone(),
        "zz".to_string(),
        "00".to_string(),
        ks.ciphertext().to_string(),
    );
    assert!(matches!(
        try_unlock(&bad_hex, "correct horse"),
        Some(Err(KeystoreError::InvalidHex(_)))
    ));
    let short_salt = Keystore::from_parts(
        ks.public_key.clone(),
        ks.address.clone(),
        "0011".to_string(),
        "00".to_string(),
        ks.ciphertext().to_string(),
    );
    assert!(matches!(
        try_unlock(&short_salt, "correct horse"),
        Some(Err(KeystoreError::KeyDerivation(_)))
    ));
}

/// OndrisHash written out directly over `blake3` and `rand_xoshiro`, as the
/// algorithm document describes it, to hold the library's result against.
fn reference_ondris_hash(
    seed: [u8; 32],
    cache_size: usize,
    dataset_size: usize,
    header: &[u8],
    nonce: u64,
    scratchpad_size: usize,
    rounds: usize,
) -> [u8; 32] {
    let mut cache = vec![0u8; cache_size];
    let mut hasher = blake3::Hasher::new();
    hasher.update(&seed);
    hasher.finalize_xof().fill(&mut cache);
    let n_items = dataset_size / 32;
    let mut ds = vec![0u8; n_items * 32];
    for i in 0..n_items {
        let off = (i * 32) % (cache_size - 32 + 1).max(1);
        let mut item = [0u8; 32];
        item.copy_from_slice(&cache[off..off + 32]);
        for _ in 0..2 {
            let mut h = blake3::Hasher::new();
            h.update(&item);
            h.update(&(i as u64).to_le_bytes());
            item = *h.finalize().as_bytes();
        }
        ds[i * 32..(i + 1) * 32].copy_from_slice(&item);
    }
    let mut input = header.to_vec();
    input.extend_from_slice(&nonce.to_le_bytes());
    let s = *blake3::hash(&input).as_bytes();
    let mut rng = rand_xoshiro::Xoshiro256StarStar::from_seed(s);
    let nb = (scratchpad_size / 32).max(1);
    let mut pad = vec![0u8; nb * 32];
    for b in 0..nb {
        let idx = (rng.next_u64() % n_items as u64) as usize;
        for k in 0..32 {
            pad[b * 32 + k] = ds[idx * 32 + k] ^ s[k];
        }
    }
    for _ in 0..rounds {
        for b in 0..nb {
            let dep = (rng.next_u64() as usize) % nb;
            let mut h = blake3::Hasher::new();
            h.update(&pad[b * 32..b * 32 + 32]);
            h.update(&pad[dep * 32..dep * 32 + 32]);
            let out = *h.finalize().as_bytes();
            pad[b * 32..b * 32 + 32].copy_from_slice(&out);
        }
    }
    *blake3::hash(&pad).as_bytes()
}

#[test]
fn ondris_hash_matches_a_direct_computation() {
    let seed = Hash256::hash(b"reference-seed");
    for &(cache, data, pad, rounds, nonce) in &[
        (4096usize, 8192usize, 1024usize, 3usize, 7u64),
        (100, 1000, 32, 2, 0),
        (64, 64, 8, 0, u64::MAX),
    ] {
        let ds = Dataset::generate_with_sizes(0, seed, cache, data);
        let got = ondris_hash_with_sizes(b"header", nonce, &ds, pad, rounds);
        let want = reference_ondris_hash(seed.0, cache, data, b"header", nonce, pad, rounds);
        assert_eq!(got.0, want);
    }
}

#[test]
fn connection_reactions() {
    let name = "ondris-testnet".to_string();
    let same = Message::Handshake { version: 1, network: name.clone(), height: 3 };
    let other = Message::Handshake { version: 1, network: "elsewhere".to_string(), height: 3 };
    assert_eq!(on_message(&name, &same), Reaction::Ignore);
    assert_eq!(on_message(&name, &other), Reaction::Disconnect);
    assert_eq!(on_message(&name, &Message::Ping), Reaction::ReplyPong);
    assert_eq!(on_message(&name, &Message::Pong), Reaction::Ignore);
    let block = genesis_block(&GenesisConfig::testnet_default());
    assert_eq!(on_message(&name, &Message::NewBlock(block)), Reaction::DeliverBlock);
    let (alice, bob) = test_keys();
    let tx = signed(&alice, bob.address(), 1, 0, 0);
    assert_eq!(on_message(&name, &Message::NewTransaction(tx)), Reaction::DeliverTransaction);
}

#[test]
fn chunks_rejoin_through_the_read_buffer() {
    let p: Vec<u8> = (0..200_003u32).map(|i| (i % 251) as u8).collect();
    let mut buf = ReadBuffer::new();
    for (start, end) in chunk_ranges(p.len()) {
        buf.extend(&p[start..end]);
    }
    assert_eq!(buf.take(p.len()), p);
    assert_eq!(buf.len(), 0);
}

#[test]
fn rebuilt_dataset_hashes_like_the_original() {
    let seed = epoch_seed(Some(Hash256::hash(b"boundary")));
    let a = Dataset::generate_with_sizes(1, seed, 256, 1024);
    let b = Dataset::generate_with_sizes(1, seed, 256, 1024);
    assert_eq!(a.epoch(), 1);
    for nonce in 0..4u64 {
        assert_eq!(
            ondris_hash_with_sizes(b"hdr", nonce, &a, 128, 2),
            ondris_hash_with_sizes(b"hdr", nonce, &b, 128, 2)
        );
    }
}

#[test]
fn keystore_fields_are_hex_of_the_sealed_seed() {
    let (ks, kp) = create("correct horse").unwrap();
    assert_eq!(ks.public_key(), kp.public().to_hex());
    assert_eq!(ks.address(), kp.address().to_string());
    let salt = hex::decode(ks.salt()).unwrap();
    let nonce = hex::decode(ks.nonce()).unwrap();
    let ct = hex::decode(ks.ciphertext()).unwrap();
    assert_eq!((salt.len(), nonce.len(), ct.len()), (16, 12, 48));
    assert!(!ks.ciphertext().contains(&hex::encode(kp.seed_bytes())));
}

#[test]
fn retarget_saturates_instead_of_wrapping() {
    // Blocks four times too fast from a huge difficulty: the quotient
    // exceeds 64 bits and saturates.
    assert_eq!(next_difficulty(1u64 << 63, 450, 30, 60), u64::MAX);
    assert_eq!(next_difficulty(u64::MAX, 1, 30, 60), u64::MAX);
}

#[test]
fn generated_identity_survives_its_file() {
    let id = NodeIdentity::generate();
    assert_eq!(id.private_key().len(), 32);
    let back = NodeIdentity::from_file_bytes(&id.to_file_bytes()).unwrap();
    assert_eq!(back.public_key, id.public_key);
    assert_eq!(back.private_key(), id.private_key());
    assert_ne!(NodeIdentity::generate().public_key, id.public_key);
}
