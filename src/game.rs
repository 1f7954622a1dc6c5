use vstd::prelude::*;
use crate::error::ArcadeError;
use crate::fairness::{append_bytes, CommitView, RandomGenerator, RevealView};
use crate::pool::PrizePool;

verus! {

/// A side of the coin.
#[derive(Clone, Copy, Debug, PartialEq, Eq, Structural)]
pub enum Side {
    A,
    B,
}

/// Where a game stands.
#[derive(Clone, Copy, Debug, PartialEq, Eq, Structural)]
pub enum GameStatus {
    /// The stake is locked and the seed committed; the outcome is not drawn yet.
    Committed,
    /// The outcome was drawn and the stake settled.
    Settled,
    /// The game could not go ahead; its stake was released untouched.
    Voided,
}

/// The side a player's choice names: 0 is A, 1 is B.
pub open spec fn side_of_choice(choice: u32) -> Side {
    if choice == 0 { Side::A } else { Side::B }
}

/// The side an outcome bit names: 0 is A, 1 is B.
pub open spec fn side_of_bit(bit: u8) -> Side {
    if bit == 0 { Side::A } else { Side::B }
}

/// The side an outcome bit names.
pub fn side_from_bit(bit: u8) -> (r: Side)
    ensures
        r == side_of_bit(bit),
{
    if bit == 0 { Side::A } else { Side::B }
}

/// Everything stored about one game.
pub struct GameRecord {
    pub id: u64,
    pub player: u64,
    pub stake: i128,
    pub choice: Side,
    pub commit_hash: Vec<u8>,
    pub server_seed_revealed: Option<Vec<u8>>,
    pub client_seed: Vec<u8>,
    pub nonce: u64,
    pub outcome: Option<Side>,
    pub status: GameStatus,
    pub payout_delta: i128,
}

/// The public projection of a game record: enough for anyone to recompute its draw.
#[derive(Clone, Debug, PartialEq, Eq)]
pub struct GameResult {
    pub id: u64,
    pub player: u64,
    pub stake: i128,
    pub choice: Side,
    pub commit_hash: Vec<u8>,
    pub server_seed_revealed: Option<Vec<u8>>,
    pub client_seed: Vec<u8>,
    pub nonce: u64,
    pub outcome: Option<Side>,
    pub status: GameStatus,
    pub payout_delta: i128,
}

/// Mathematical form of a `GameRecord`.
pub struct GameView {
    pub player: u64,
    pub stake: int,
    pub choice: Side,
    pub commit_hash: Seq<u8>,
    pub server_seed_revealed: Option<Seq<u8>>,
    pub client_seed: Seq<u8>,
    pub nonce: u64,
    pub outcome: Option<Side>,
    pub status: GameStatus,
    pub payout_delta: int,
}

pub open spec fn game_view(g: GameRecord) -> GameView {
    GameView {
        player: g.player,
        stake: g.stake as int,
        choice: g.choice,
        commit_hash: g.commit_hash@,
        server_seed_revealed: match g.server_seed_revealed {
            Some(s) => Some(s@),
            None => None,
        },
        client_seed: g.client_seed@,
        nonce: g.nonce,
        outcome: g.outcome,
        status: g.status,
        payout_delta: g.payout_delta as int,
    }
}

/// `r` shows record `g` of game `id`, field for field.
pub open spec fn shows(r: GameResult, id: u64, g: GameView) -> bool {
    &&& r.id == id
    &&& r.player == g.player
    &&& r.stake == g.stake
    &&& r.choice == g.choice
    &&& r.commit_hash@ == g.commit_hash
    &&& match r.server_seed_revealed {
        Some(s) => g.server_seed_revealed == Some(s@),
        None => g.server_seed_revealed is None,
    }
    &&& r.client_seed@ == g.client_seed
    &&& r.nonce == g.nonce
    &&& r.outcome == g.outcome
    &&& r.status == g.status
    &&& r.payout_delta == g.payout_delta
}

/// How a drawn game changes the player's balance: on a win the payout less the stake, on a
/// loss minus the stake.
pub open spec fn settlement(pool: &PrizePool, stake: int, won: bool) -> Result<int, ArcadeError> {
    if won {
        match pool.payout_outcome(stake) {
            Ok(p) => Ok(p - stake),
            Err(e) => Err(e),
        }
    } else {
        Ok(-stake)
    }
}

/// The stake a record still holds locked for `player`: its stake while it is committed.
pub open spec fn held_stake(g: GameRecord, player: u64) -> int {
    if g.player == player && g.status == GameStatus::Committed { g.stake as int } else { 0 }
}

/// The stakes of all of `player`'s games that are committed and not yet resolved.
pub open spec fn open_stake(s: Seq<GameRecord>, player: u64) -> int
    decreases s.len(),
{
    if s.len() == 0 { 0 } else { open_stake(s.drop_last(), player) + held_stake(s.last(), player) }
}

proof fn lemma_open_stake_update(s: Seq<GameRecord>, i: int, g: GameRecord, player: u64)
    requires
        0 <= i < s.len(),
    ensures
        open_stake(s.update(i, g), player) == open_stake(s, player) - held_stake(s[i], player)
            + held_stake(g, player),
    decreases s.len(),
{
    let t = s.update(i, g);
    if i == s.len() - 1 {
        assert(t.drop_last() =~= s.drop_last());
    } else {
        lemma_open_stake_update(s.drop_last(), i, g, player);
        assert(t.drop_last() =~= s.drop_last().update(i, g));
    }
}

proof fn lemma_open_stake_push(s: Seq<GameRecord>, g: GameRecord, player: u64)
    ensures
        open_stake(s.push(g), player) == open_stake(s, player) + held_stake(g, player),
{
    assert(s.push(g).drop_last() =~= s);
}

/// Orchestrates coin-flip games: locks stakes in a `PrizePool`, draws outcomes through a
/// `RandomGenerator`, settles, and keeps one record per game. Game ids count up from 0.
pub struct CoinFlip {
    operator: u64,
    games: Vec<GameRecord>,
}

impl CoinFlip {
    /// The identity allowed to resolve games.
    pub closed spec fn operator(&self) -> u64 {
        self.operator
    }

    /// The id the next game will get.
    pub closed spec fn next_id(&self) -> int {
        self.games@.len() as int
    }

    /// The record of game `id`, if there is one.
    pub closed spec fn game(&self, id: u64) -> Option<GameView> {
        if id < self.games@.len() { Some(game_view(self.games@[id as int])) } else { None }
    }

    /// The stakes of `player`'s games that are committed and not yet resolved.
    pub closed spec fn committed_stake(&self, player: u64) -> int {
        open_stake(self.games@, player)
    }

    /// Each player's lock in `pool` is exactly the stake of their unresolved games.
    pub open spec fn locks_match(&self, pool: &PrizePool) -> bool {
        forall|p: u64| pool.locked_of(p) == self.committed_stake(p)
    }

    pub closed spec fn wf(&self) -> bool {
        &&& self.games@.len() <= u64::MAX
        &&& forall|i: int| 0 <= i < self.games@.len() ==> (#[trigger] self.games@[i]).id == i
                && self.games@[i].stake > 0
    }

    /// No game record other than `id` differs between the two coordinators.
    pub open spec fn other_games_same(&self, other: &CoinFlip, id: int) -> bool {
        &&& self.operator() == other.operator()
        &&& forall|k: u64| k != id ==> self.game(k) == other.game(k)
    }

    /// What `resolve` answers for these arguments.
    pub open spec fn resolve_result(
        &self,
        pool: &PrizePool,
        rng: &RandomGenerator,
        caller: u64,
        caller_verified: bool,
        game_id: u64,
        server_seed: Seq<u8>,
    ) -> Result<i128, ArcadeError> {
        if !caller_verified || caller != self.operator() {
            Err(ArcadeError::Unauthorized)
        } else {
            match self.game(game_id) {
                None => Err(ArcadeError::NotFound),
                Some(g) => if g.status != GameStatus::Committed {
                    Err(ArcadeError::AlreadySettled)
                } else {
                    match rng.draw_result(game_id, server_seed, g.client_seed, g.nonce) {
                        Err(e) => Err(e),
                        Ok(bit) => match settlement(pool, g.stake, side_of_bit(bit) == g.choice) {
                            Err(e) => Err(e),
                            Ok(d) => match pool.settle_outcome(g.player, g.stake, d) {
                                Err(e) => Err(e),
                                Ok(_) => Ok(d as i128),
                            },
                        },
                    }
                },
            }
        }
    }

    /// A coordinator with no games, resolved by `operator`.
    pub fn new(operator: u64) -> (r: CoinFlip)
        ensures
            r.wf(),
            r.operator() == operator,
            r.next_id() == 0,
            forall|id: u64| r.game(id) is None,
            forall|p: u64| r.committed_stake(p) == 0,
    {
        CoinFlip { operator, games: Vec::new() }
    }

    /// The public projection of game `game_id`.
    pub fn get_game_result(&self, game_id: u64) -> (r: Result<GameResult, ArcadeError>)
        requires
            self.wf(),
        ensures
            self.game(game_id) is None ==> r == Err::<GameResult, ArcadeError>(
                ArcadeError::NotFound,
            ),
            self.game(game_id) is Some ==> r is Ok && shows(
                r->Ok_0,
                game_id,
                self.game(game_id)->Some_0,
            ),
    {
        if game_id >= self.games.len() as u64 {
            return Err(ArcadeError::NotFound);
        }
        let g = &self.games[game_id as usize];
        let mut commit_hash: Vec<u8> = Vec::new();
        append_bytes(&mut commit_hash, &g.commit_hash);
        let mut client_seed: Vec<u8> = Vec::new();
        append_bytes(&mut client_seed, &g.client_seed);
        let server_seed_revealed = match &g.server_seed_revealed {
            Some(seed) => {
                let mut copy: Vec<u8> = Vec::new();
                append_bytes(&mut copy, seed);
                Some(copy)
            },
            None => None,
        };
        Ok(
            GameResult {
                id: game_id,
                player: g.player,
                stake: g.stake,
                choice: g.choice,
                commit_hash,
                server_seed_revealed,
                client_seed,
                nonce: g.nonce,
                outcome: g.outcome,
                status: g.status,
                payout_delta: g.payout_delta,
            },
        )
    }

    /// Starts a game: locks `amount` of `player`'s funds, commits the operator's seed
    /// commitment under the new game id, and records the game. `choice` is 0 for A and 1 for
    /// B; `seed` is the player's seed. Should the commitment be refused, the lock is released
    /// at once and the game recorded as voided.
    pub fn play(
        &mut self,
        pool: &mut PrizePool,
        rng: &mut RandomGenerator,
        player: u64,
        amount: i128,
        choice: u32,
        seed: Vec<u8>,
        commitment: Vec<u8>,
    ) -> (r: Result<u64, ArcadeError>)
        requires
            old(self).wf(),
            old(pool).wf(),
            old(rng).wf(),
        ensures
            final(self).wf(),
            final(pool).wf(),
            final(rng).wf(),
            old(self).locks_match(old(pool)) ==> final(self).locks_match(final(pool)),
            amount <= 0 ==> r == Err::<u64, ArcadeError>(ArcadeError::InvalidAmount),
            amount > 0 && choice > 1 ==> r == Err::<u64, ArcadeError>(ArcadeError::InvalidChoice),
            amount > 0 && choice <= 1 && old(self).next_id() == u64::MAX ==> r == Err::<
                u64,
                ArcadeError,
            >(ArcadeError::Overflow),
            amount > 0 && choice <= 1 && old(self).next_id() < u64::MAX && amount > old(
                pool,
            ).available_of(player) ==> r == Err::<u64, ArcadeError>(ArcadeError::InsufficientFunds),
            amount <= 0 || choice > 1 || old(self).next_id() == u64::MAX || amount > old(
                pool,
            ).available_of(player) ==> *final(self) == *old(self) && *final(pool) == *old(pool)
                && *final(rng) == *old(rng),
            amount > 0 && choice <= 1 && old(self).next_id() < u64::MAX && amount <= old(
                pool,
            ).available_of(player) ==> ({
                let id = old(self).next_id();
                let committed = old(rng).entry(id as u64) is None;
                &&& final(self).next_id() == id + 1
                &&& final(self).other_games_same(old(self), id)
                &&& forall|k: u64| k != id ==> final(rng).entry(k) == old(rng).entry(k)
                &&& final(self).game(id as u64) == Some(
                    GameView {
                        player,
                        stake: amount as int,
                        choice: side_of_choice(choice),
                        commit_hash: commitment@,
                        server_seed_revealed: None,
                        client_seed: seed@,
                        nonce: id as u64,
                        outcome: None,
                        status: if committed {
                            GameStatus::Committed
                        } else {
                            GameStatus::Voided
                        },
                        payout_delta: 0,
                    },
                )
                &&& committed ==> r == Ok::<u64, ArcadeError>(id as u64)
                    && final(rng).entry(id as u64) == Some(
                    CommitView { commit_hash: commitment@, reveal: None },
                ) && final(pool).locked_of(player) == old(pool).locked_of(player) + amount
                    && final(pool).balance_of(player) == old(pool).balance_of(player)
                    && final(pool).known(player) && final(pool).same_except(old(pool), player)
                    && final(pool).house() == old(pool).house()
                    && final(pool).total_deposited() == old(pool).total_deposited()
                    && final(pool).total_withdrawn() == old(pool).total_withdrawn()
                &&& !committed ==> r == Err::<u64, ArcadeError>(ArcadeError::AlreadyCommitted)
                    && final(rng).entry(id as u64) == old(rng).entry(id as u64)
                    && final(pool).same_funds(old(pool)) && final(pool).admin() == old(
                    pool,
                ).admin() && final(pool).fee() == old(pool).fee()
            }),
    {
        if amount <= 0 {
            return Err(ArcadeError::InvalidAmount);
        }
        if choice > 1 {
            return Err(ArcadeError::InvalidChoice);
        }
        if self.games.len() as u64 >= u64::MAX {
            return Err(ArcadeError::Overflow);
        }
        let id = self.games.len() as u64;
        proof {
            pool.lemma_bounds(player);
        }
        let locked = pool.lock(player, amount);
        if locked.is_err() {
            return Err(ArcadeError::InsufficientFunds);
        }
        let mut commit_copy: Vec<u8> = Vec::new();
        append_bytes(&mut commit_copy, &commitment);
        let committed = rng.commit(id, commit_copy);
        let side = if choice == 0 { Side::A } else { Side::B };
        let status = match committed {
            Ok(_) => GameStatus::Committed,
            Err(_) => {
                proof {
                    pool.lemma_bounds(player);
                }
                let _released = pool.release_and_settle(player, amount, 0);
                GameStatus::Voided
            },
        };
        let record = GameRecord {
            id,
            player,
            stake: amount,
            choice: side,
            commit_hash: commitment,
            server_seed_revealed: None,
            client_seed: seed,
            nonce: id,
            outcome: None,
            status,
            payout_delta: 0,
        };
        proof {
            assert forall|p: u64| open_stake(self.games@.push(record), p) == open_stake(self.games@, p)
                + held_stake(record, p) by {
                lemma_open_stake_push(self.games@, record, p);
            }
        }
        self.games.push(record);
        assert(self.games@ =~= old(self).games@.push(record));
        assert(forall|k: int| 0 <= k < id ==> self.games@[k] == old(self).games@[k]);
        assert(self.games@[id as int] == record);
        match committed {
            Ok(_) => Ok(id),
            Err(e) => Err(e),
        }
    }

    /// Settles game `game_id` with the operator's revealed `server_seed`: draws the outcome,
    /// releases the stake and pays the player `payout - stake` on a win, or takes the stake on
    /// a loss. Returns the change to the player's balance. Only the verified operator may
    /// resolve, and each game only once; on any error nothing changes.
    pub fn resolve(
        &mut self,
        pool: &mut PrizePool,
        rng: &mut RandomGenerator,
        caller: u64,
        caller_verified: bool,
        game_id: u64,
        server_seed: Vec<u8>,
    ) -> (r: Result<i128, ArcadeError>)
        requires
            old(self).wf(),
            old(pool).wf(),
            old(rng).wf(),
        ensures
            final(self).wf(),
            final(pool).wf(),
            final(rng).wf(),
            r == old(self).resolve_result(
                old(pool),
                old(rng),
                caller,
                caller_verified,
                game_id,
                server_seed@,
            ),
            old(self).locks_match(old(pool)) ==> final(self).locks_match(final(pool)),
            r is Err ==> *final(self) == *old(self) && *final(pool) == *old(pool) && *final(rng)
                == *old(rng),
            r is Ok ==> ({
                let g = old(self).game(game_id)->Some_0;
                let d = r->Ok_0 as int;
                let bit = old(rng).draw_result(game_id, server_seed@, g.client_seed, g.nonce)->Ok_0;
                &&& final(self).game(game_id) == Some(
                    GameView {
                        player: g.player,
                        stake: g.stake,
                        choice: g.choice,
                        commit_hash: g.commit_hash,
                        server_seed_revealed: Some(server_seed@),
                        client_seed: g.client_seed,
                        nonce: g.nonce,
                        outcome: Some(side_of_bit(bit)),
                        status: GameStatus::Settled,
                        payout_delta: d,
                    },
                )
                &&& final(self).next_id() == old(self).next_id()
                &&& final(self).other_games_same(old(self), game_id as int)
                &&& final(pool).locked_of(g.player) == old(pool).locked_of(g.player) - g.stake
                &&& final(pool).balance_of(g.player) == old(pool).balance_of(g.player) + d
                &&& final(pool).known(g.player)
                &&& final(pool).same_except(old(pool), g.player)
                &&& final(pool).house() == old(pool).house() - d
                &&& final(pool).total_deposited() == old(pool).total_deposited()
                &&& final(pool).total_withdrawn() == old(pool).total_withdrawn()
                &&& final(rng).entry(game_id) == Some(
                    CommitView {
                        commit_hash: old(rng).entry(game_id)->Some_0.commit_hash,
                        reveal: Some(
                            RevealView {
                                server_seed: server_seed@,
                                client_seed: g.client_seed,
                                nonce: g.nonce,
                                outcome: bit,
                            },
                        ),
                    },
                )
                &&& forall|k: u64| k != game_id ==> final(rng).entry(k) == old(rng).entry(k)
            }),
    {
        if !caller_verified || caller != self.operator {
            return Err(ArcadeError::Unauthorized);
        }
        if game_id >= self.games.len() as u64 {
            return Err(ArcadeError::NotFound);
        }
        let idx = game_id as usize;
        match self.games[idx].status {
            GameStatus::Committed => {},
            _ => {
                return Err(ArcadeError::AlreadySettled);
            },
        }
        let player = self.games[idx].player;
        let stake = self.games[idx].stake;
        let choice = self.games[idx].choice;
        let nonce = self.games[idx].nonce;
        let bit = match rng.draw(game_id, &server_seed, &self.games[idx].client_seed, nonce) {
            Err(e) => {
                return Err(e);
            },
            Ok(b) => b,
        };
        let outcome = side_from_bit(bit);
        proof {
            pool.lemma_bounds(player);
        }
        let delta: i128 = if outcome == choice {
            match pool.calculate_payout(stake) {
                Err(e) => {
                    return Err(e);
                },
                Ok(p) => {
                    assert(p >= 0) by (nonlinear_arith)
                        requires
                            p == stake * 2 * (10000 - pool.fee()) / 10000,
                            stake > 0,
                            0 <= pool.fee() <= 10000,
                    ;
                    p - stake
                },
            }
        } else {
            -stake
        };
        match pool.settle_check(player, stake, delta) {
            Err(e) => {
                return Err(e);
            },
            Ok(_) => {},
        }
        let mut seed_copy: Vec<u8> = Vec::new();
        append_bytes(&mut seed_copy, &server_seed);
        let mut client_copy: Vec<u8> = Vec::new();
        append_bytes(&mut client_copy, &self.games[idx].client_seed);
        let _revealed = rng.generate_random(game_id, seed_copy, client_copy, nonce);
        let _settled = pool.release_and_settle(player, stake, delta);
        let mut rec = self.games.remove(idx);
        rec.server_seed_revealed = Some(server_seed);
        rec.outcome = Some(outcome);
        rec.status = GameStatus::Settled;
        rec.payout_delta = delta;
        self.games.insert(idx, rec);
        assert(self.games@ =~= old(self).games@.update(idx as int, rec));
        proof {
            assert forall|p: u64| open_stake(self.games@, p) == open_stake(old(self).games@, p)
                - held_stake(old(self).games@[idx as int], p) + held_stake(rec, p) by {
                lemma_open_stake_update(old(self).games@, idx as int, rec, p);
            }
        }
        Ok(delta)
    }
}

/// A fresh coordinator and a fresh pool agree: nobody has anything locked or at stake.
pub proof fn lemma_fresh_locks_match(coin: &CoinFlip, pool: &PrizePool)
    requires
        forall|p: u64| coin.committed_stake(p) == 0,
        forall|p: u64| pool.locked_of(p) == 0,
    ensures
        coin.locks_match(pool),
{
}

/// A game's stake is settled at most once: once the game is no longer committed (settled or
/// voided), every further `resolve` of it fails, and a failed `resolve` changes nothing.
pub proof fn lemma_resolve_at_most_once(
    coin: &CoinFlip,
    pool: &PrizePool,
    rng: &RandomGenerator,
    caller: u64,
    caller_verified: bool,
    game_id: u64,
    server_seed: Seq<u8>,
)
    requires
        coin.game(game_id) is Some,
        coin.game(game_id)->Some_0.status != GameStatus::Committed,
    ensures
        coin.resolve_result(pool, rng, caller, caller_verified, game_id, server_seed) is Err,
{
}

/// Game ids never run past `u64::MAX`.
pub proof fn lemma_next_id_bounded(coin: &CoinFlip)
    requires
        coin.wf(),
    ensures
        0 <= coin.next_id() <= u64::MAX,
{
}

} // verus!
