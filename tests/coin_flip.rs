use stellarcade::error::ArcadeError;
use stellarcade::fairness::{draw_digest, seed_commitment, RandomGenerator};
use stellarcade::game::{CoinFlip, GameStatus, Side};
use stellarcade::pool::PrizePool;

const OPERATOR: u64 = 99;
const PLAYER: u64 = 7;

fn setup() -> (CoinFlip, PrizePool, RandomGenerator) {
    let mut pool = PrizePool::new();
    pool.initialize(OPERATOR).unwrap();
    pool.deposit(PLAYER, 1000).unwrap();
    (CoinFlip::new(OPERATOR), pool, RandomGenerator::new())
}

/// A server seed whose draw for this client seed and nonce lands on `bit`.
fn seed_for(client: &Vec<u8>, nonce: u64, bit: u8) -> Vec<u8> {
    for i in 0u32..64 {
        let seed = i.to_be_bytes().to_vec();
        if draw_digest(&seed, client, nonce)[0] % 2 == bit {
            return seed;
        }
    }
    panic!("no seed found");
}

fn play_and_resolve(choice: u32) -> (CoinFlip, PrizePool, RandomGenerator, Result<i128, ArcadeError>) {
    let (mut coin, mut pool, mut rng) = setup();
    let client = b"client seed".to_vec();
    let seed = seed_for(&client, 0, 0);
    let commitment = seed_commitment(&seed, 0);
    let id = coin.play(&mut pool, &mut rng, PLAYER, 100, choice, client, commitment).unwrap();
    assert_eq!(id, 0);
    assert_eq!(pool.get_balance(PLAYER), 1000);
    assert_eq!(pool.get_locked(PLAYER), 100);
    let open = coin.get_game_result(id).unwrap();
    assert_eq!(open.status, GameStatus::Committed);
    assert_eq!(open.server_seed_revealed, None);
    let r = coin.resolve(&mut pool, &mut rng, OPERATOR, true, id, seed);
    (coin, pool, rng, r)
}

#[test]
fn winning_game_pays_the_pot() {
    let (coin, pool, _rng, r) = play_and_resolve(0);
    assert_eq!(r, Ok(100));
    assert_eq!(pool.get_balance(PLAYER), 1100);
    assert_eq!(pool.get_locked(PLAYER), 0);
    let g = coin.get_game_result(0).unwrap();
    assert_eq!(g.status, GameStatus::Settled);
    assert_eq!(g.client_seed, b"client seed".to_vec());
    let seed = g.server_seed_revealed.clone().unwrap();
    assert_eq!(g.commit_hash, seed_commitment(&seed, 0));
    assert_eq!(draw_digest(&seed, &g.client_seed, g.nonce)[0] % 2, 0);
    assert_eq!(g.outcome, Some(Side::A));
    assert_eq!(g.payout_delta, 100);
}

#[test]
fn losing_game_takes_the_stake() {
    let (coin, pool, _rng, r) = play_and_resolve(1);
    assert_eq!(r, Ok(-100));
    assert_eq!(pool.get_balance(PLAYER), 900);
    assert_eq!(pool.get_locked(PLAYER), 0);
    assert_eq!(pool.get_house_net(), 100);
    assert_eq!(coin.get_game_result(0).unwrap().choice, Side::B);
}

#[test]
fn winning_game_with_fee() {
    let (mut coin, mut pool, mut rng) = setup();
    pool.set_fee(OPERATOR, true, 500).unwrap();
    let client = b"c".to_vec();
    let seed = seed_for(&client, 0, 1);
    let commitment = seed_commitment(&seed, 0);
    coin.play(&mut pool, &mut rng, PLAYER, 100, 1, client, commitment).unwrap();
    assert_eq!(coin.resolve(&mut pool, &mut rng, OPERATOR, true, 0, seed), Ok(90));
    assert_eq!(pool.get_balance(PLAYER), 1090);
    assert_eq!(pool.get_house_net(), -90);
}

#[test]
fn zero_stake_is_invalid() {
    let (mut coin, mut pool, mut rng) = setup();
    let r = coin.play(&mut pool, &mut rng, PLAYER, 0, 0, b"c".to_vec(), vec![0; 32]);
    assert_eq!(r, Err(ArcadeError::InvalidAmount));
    assert_eq!(coin.get_game_result(0), Err(ArcadeError::NotFound));
    assert_eq!(pool.get_locked(PLAYER), 0);
}

#[test]
fn invalid_choice_is_rejected() {
    let (mut coin, mut pool, mut rng) = setup();
    let r = coin.play(&mut pool, &mut rng, PLAYER, 10, 2, b"c".to_vec(), vec![0; 32]);
    assert_eq!(r, Err(ArcadeError::InvalidChoice));
    assert_eq!(pool.get_locked(PLAYER), 0);
}

#[test]
fn stake_above_available_is_rejected() {
    let (mut coin, mut pool, mut rng) = setup();
    let r = coin.play(&mut pool, &mut rng, PLAYER, 1001, 0, b"c".to_vec(), vec![0; 32]);
    assert_eq!(r, Err(ArcadeError::InsufficientFunds));
    assert_eq!(coin.get_game_result(0), Err(ArcadeError::NotFound));
    assert_eq!(pool.get_locked(PLAYER), 0);
}

#[test]
fn reused_commitment_voids_the_game() {
    let (mut coin, mut pool, mut rng) = setup();
    rng.commit(0, vec![5; 32]).unwrap();
    let r = coin.play(&mut pool, &mut rng, PLAYER, 100, 0, b"c".to_vec(), vec![0; 32]);
    assert_eq!(r, Err(ArcadeError::AlreadyCommitted));
    assert_eq!(pool.get_locked(PLAYER), 0);
    assert_eq!(pool.get_balance(PLAYER), 1000);
    assert_eq!(coin.get_game_result(0).unwrap().status, GameStatus::Voided);
    let id = coin.play(&mut pool, &mut rng, PLAYER, 100, 0, b"c".to_vec(), vec![0; 32]);
    assert_eq!(id, Ok(1));
}

#[test]
fn resolve_only_by_operator_and_only_once() {
    let (mut coin, mut pool, mut rng) = setup();
    let client = b"c".to_vec();
    let seed = b"seed".to_vec();
    let commitment = seed_commitment(&seed, 0);
    coin.play(&mut pool, &mut rng, PLAYER, 100, 0, client, commitment).unwrap();
    assert_eq!(
        coin.resolve(&mut pool, &mut rng, PLAYER, true, 0, seed.clone()),
        Err(ArcadeError::Unauthorized)
    );
    assert_eq!(
        coin.resolve(&mut pool, &mut rng, OPERATOR, false, 0, seed.clone()),
        Err(ArcadeError::Unauthorized)
    );
    assert_eq!(
        coin.resolve(&mut pool, &mut rng, OPERATOR, true, 1, seed.clone()),
        Err(ArcadeError::NotFound)
    );
    assert_eq!(
        coin.resolve(&mut pool, &mut rng, OPERATOR, true, 0, b"other".to_vec()),
        Err(ArcadeError::CommitMismatch)
    );
    assert_eq!(pool.get_locked(PLAYER), 100);
    assert!(coin.resolve(&mut pool, &mut rng, OPERATOR, true, 0, seed.clone()).is_ok());
    assert_eq!(pool.get_locked(PLAYER), 0);
    let balance = pool.get_balance(PLAYER);
    assert_eq!(
        coin.resolve(&mut pool, &mut rng, OPERATOR, true, 0, seed.clone()),
        Err(ArcadeError::AlreadySettled)
    );
    assert_eq!(pool.get_balance(PLAYER), balance);
    assert_eq!(pool.get_locked(PLAYER), 0);
    assert!(rng.verify_fairness(0, &seed));
    assert!(!rng.verify_fairness(0, &b"other".to_vec()));
}

#[test]
fn concurrent_games_lock_additively() {
    let (mut coin, mut pool, mut rng) = setup();
    let s0 = b"zero".to_vec();
    let s1 = b"one".to_vec();
    let c0 = seed_commitment(&s0, 0);
    let c1 = seed_commitment(&s1, 1);
    coin.play(&mut pool, &mut rng, PLAYER, 300, 0, b"a".to_vec(), c0).unwrap();
    coin.play(&mut pool, &mut rng, PLAYER, 200, 1, b"b".to_vec(), c1).unwrap();
    assert_eq!(pool.get_locked(PLAYER), 500);
    assert_eq!(pool.withdraw(PLAYER, 501, true), Err(ArcadeError::InsufficientFunds));
    coin.resolve(&mut pool, &mut rng, OPERATOR, true, 1, s1).unwrap();
    assert_eq!(pool.get_locked(PLAYER), 300);
    coin.resolve(&mut pool, &mut rng, OPERATOR, true, 0, s0).unwrap();
    assert_eq!(pool.get_locked(PLAYER), 0);
    assert_eq!(pool.get_balance(PLAYER) + pool.get_house_net(), 1000);
}
