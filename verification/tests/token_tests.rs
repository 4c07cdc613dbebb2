use biscuit::builder::{fact, s, string, date, BiscuitBuilder, BlockBuilder};
use biscuit::crypto::KeyPair;
use biscuit::error::Error;
use biscuit::token::{default_symbol_table, Biscuit};

fn root_pair() -> KeyPair {
    KeyPair::from_seed(vec![7u8; 32])
}

fn block_pair() -> KeyPair {
    KeyPair::from_seed(vec![42u8; 32])
}

fn basic_token(root: &KeyPair) -> Biscuit {
    let mut builder = BiscuitBuilder::new(root, default_symbol_table());
    builder.add_right("/data", "read");
    builder.build().unwrap()
}

fn ambient(resource: &str, operation: &str) -> Vec<biscuit::builder::Fact> {
    vec![
        fact("resource", &vec![s("ambient"), string(resource)]),
        fact("operation", &vec![s("ambient"), s(operation)]),
    ]
}

#[test]
fn create_then_verify_succeeds() {
    let root = root_pair();
    let token = basic_token(&root);
    assert!(token.verify(&root.public_key()).is_ok());
}

#[test]
fn verify_with_wrong_root_fails() {
    let root = root_pair();
    let other = block_pair();
    let token = basic_token(&root);
    let r = token.verify(&other.public_key());
    assert_eq!(r, Err(Error::Chain { block_index: 0, fault: biscuit::error::ChainFault::BadSignature }));
}

#[test]
fn tampered_block_fails_at_its_index() {
    let root = root_pair();
    let mut token = basic_token(&root);
    // changing any serialized byte of the block breaks its signature; here
    // the block index field
    token.blocks[0].block.index = 9;
    let r = token.verify(&root.public_key());
    assert_eq!(r, Err(Error::Chain { block_index: 0, fault: biscuit::error::ChainFault::BadSignature }));
}

#[test]
fn appended_chain_verifies_and_tamper_is_located() {
    let root = root_pair();
    let token = basic_token(&root);
    let mut block_builder = BlockBuilder::new(1, token.symbols.clone());
    block_builder.check_operation("read");
    let block = block_builder.build();
    let token2 = token.append(&block_pair(), block).unwrap();
    assert!(token2.verify(&root.public_key()).is_ok());

    let mut tampered = token2;
    tampered.blocks[1].block.index = 9;
    let r = tampered.verify(&root.public_key());
    assert_eq!(r, Err(Error::Chain { block_index: 1, fault: biscuit::error::ChainFault::BadSignature }));
}

#[test]
fn append_with_wrong_offset_is_refused() {
    let root = root_pair();
    let token = basic_token(&root);
    // a builder based on an unrelated table yields a mismatched offset
    let mut block_builder = BlockBuilder::new(1, default_symbol_table());
    block_builder.check_operation("read");
    let block = block_builder.build();
    // the authority block interned "read", so the cumulative count
    // differs from the default table's length
    assert!(matches!(token.append(&block_pair(), block), Err(Error::BlockOffsetMismatch)));
}

#[test]
fn append_with_wrong_index_is_refused() {
    let root = root_pair();
    let token = basic_token(&root);
    let mut block_builder = BlockBuilder::new(7, token.symbols.clone());
    block_builder.check_operation("read");
    let block = block_builder.build();
    assert!(matches!(token.append(&block_pair(), block), Err(Error::BlockOffsetMismatch)));
}

#[test]
fn authorize_is_idempotent() {
    let root = root_pair();
    let token = basic_token(&root);
    let amb = ambient("/data", "read");
    let first = token.authorize(&amb, &root.public_key());
    let second = token.authorize(&amb, &root.public_key());
    assert_eq!(first, second);
}

#[test]
fn check_right_read_passes() {
    let root = root_pair();
    let token = basic_token(&root);
    let mut block_builder = BlockBuilder::new(1, token.symbols.clone());
    block_builder.check_right("read");
    let token2 = token.append(&block_pair(), block_builder.build()).unwrap();
    let r = token2.authorize(&ambient("/data", "read"), &root.public_key());
    assert_eq!(r, Ok(()));
}

#[test]
fn check_right_write_fails() {
    let root = root_pair();
    let token = basic_token(&root);
    let mut block_builder = BlockBuilder::new(1, token.symbols.clone());
    block_builder.check_right("read");
    let token2 = token.append(&block_pair(), block_builder.build()).unwrap();
    let r = token2.authorize(&ambient("/data", "write"), &root.public_key());
    assert_eq!(r, Err(Error::CaveatFailed { block_index: 1, caveat_index: 0 }));
}

#[test]
fn resource_prefix_matches_and_rejects() {
    let root = root_pair();
    let token = basic_token(&root);
    let mut block_builder = BlockBuilder::new(1, token.symbols.clone());
    block_builder.resource_prefix("/data/");
    let token2 = token.append(&block_pair(), block_builder.build()).unwrap();

    let ok = token2.authorize(
        &vec![fact("resource", &vec![s("ambient"), string("/data/public/file.txt")])],
        &root.public_key(),
    );
    assert_eq!(ok, Ok(()));

    let denied = token2.authorize(
        &vec![fact("resource", &vec![s("ambient"), string("/other/file.txt")])],
        &root.public_key(),
    );
    assert_eq!(denied, Err(Error::CaveatFailed { block_index: 1, caveat_index: 0 }));
}

#[test]
fn resource_suffix_matches_and_rejects() {
    let root = root_pair();
    let token = basic_token(&root);
    let mut block_builder = BlockBuilder::new(1, token.symbols.clone());
    block_builder.resource_suffix(".txt");
    let token2 = token.append(&block_pair(), block_builder.build()).unwrap();

    let ok = token2.authorize(
        &vec![fact("resource", &vec![s("ambient"), string("/data/file.txt")])],
        &root.public_key(),
    );
    assert_eq!(ok, Ok(()));

    let denied = token2.authorize(
        &vec![fact("resource", &vec![s("ambient"), string("/data/file.zip")])],
        &root.public_key(),
    );
    assert_eq!(denied, Err(Error::CaveatFailed { block_index: 1, caveat_index: 0 }));
}

#[test]
fn expiration_date_boundaries() {
    let t: u64 = 1_000_000;
    let root = root_pair();
    let token = basic_token(&root);
    let mut block_builder = BlockBuilder::new(1, token.symbols.clone());
    block_builder.expiration_date(t);
    let token2 = token.append(&block_pair(), block_builder.build()).unwrap();

    let late = token2.authorize(
        &vec![fact("time", &vec![s("ambient"), date(t + 1)])],
        &root.public_key(),
    );
    assert_eq!(late, Err(Error::CaveatFailed { block_index: 1, caveat_index: 0 }));

    let early = token2.authorize(
        &vec![fact("time", &vec![s("ambient"), date(t - 1)])],
        &root.public_key(),
    );
    assert_eq!(early, Ok(()));

    // the bound is inclusive
    let exact = token2.authorize(
        &vec![fact("time", &vec![s("ambient"), date(t)])],
        &root.public_key(),
    );
    assert_eq!(exact, Ok(()));
}

#[test]
fn caveats_only_attenuate() {
    let root = root_pair();
    let token = basic_token(&root);
    let amb = ambient("/data", "read");
    assert_eq!(token.authorize(&amb, &root.public_key()), Ok(()));

    // appending a caveat-only block can turn success into denial
    let mut block_builder = BlockBuilder::new(1, token.symbols.clone());
    block_builder.check_operation("write");
    let token2 = token.append(&block_pair(), block_builder.build()).unwrap();
    assert_eq!(
        token2.authorize(&amb, &root.public_key()),
        Err(Error::CaveatFailed { block_index: 1, caveat_index: 0 })
    );
}

#[test]
fn authorize_rejects_invalid_chain_before_caveats() {
    let root = root_pair();
    let mut token = basic_token(&root);
    token.blocks[0].block.index = 3;
    let r = token.authorize(&ambient("/data", "read"), &root.public_key());
    assert_eq!(r, Err(Error::Chain { block_index: 0, fault: biscuit::error::ChainFault::BadSignature }));
}

#[test]
fn revocation_id_fact_is_recorded() {
    let root = root_pair();
    let token = basic_token(&root);
    let mut block_builder = BlockBuilder::new(1, token.symbols.clone());
    block_builder.revocation_id(1234);
    let token2 = token.append(&block_pair(), block_builder.build()).unwrap();
    assert_eq!(token2.blocks[1].block.facts.len(), 1);
    assert!(token2.verify(&root.public_key()).is_ok());
}

#[test]
fn generated_keypair_signs_valid_tokens() {
    let root = KeyPair::generate();
    let token = basic_token(&root);
    assert!(token.verify(&root.public_key()).is_ok());
}
