use vstd::prelude::*;
use crate::error::ArcadeError;

verus! {

/// The SHA-256 digest of a byte string.
pub uninterp spec fn sha256_of(data: Seq<u8>) -> Seq<u8>;

/// Relies on sha2's `Sha256::digest`: the SHA-256 digest of the bytes, 32 bytes long.
#[verifier::external_body]
fn sha256(data: &Vec<u8>) -> (r: Vec<u8>)
    ensures
        r@ == sha256_of(data@),
        r@.len() == 32,
{
    <sha2::Sha256 as sha2::Digest>::digest(data.as_slice()).to_vec()
}

/// The eight bytes of `n`, most significant first.
pub open spec fn be_bytes(n: u64) -> Seq<u8> {
    seq![
        (n >> 56u64) as u8,
        (n >> 48u64) as u8,
        (n >> 40u64) as u8,
        (n >> 32u64) as u8,
        (n >> 24u64) as u8,
        (n >> 16u64) as u8,
        (n >> 8u64) as u8,
        n as u8,
    ]
}

/// The published commitment to a server seed: `sha256(server_seed ++ be_bytes(game_id))`.
/// Folding the game id in keeps a commitment from being replayed for another game.
pub open spec fn commit_hash_of(server_seed: Seq<u8>, game_id: u64) -> Seq<u8> {
    sha256_of(server_seed + be_bytes(game_id))
}

/// The digest a draw is taken from: `sha256(server_seed ++ client_seed ++ be_bytes(nonce))`.
pub open spec fn draw_digest_of(server_seed: Seq<u8>, client_seed: Seq<u8>, nonce: u64) -> Seq<u8> {
    sha256_of(server_seed + client_seed + be_bytes(nonce))
}

/// The published bit-extraction rule: the first byte of the digest, modulo 2.
pub open spec fn outcome_of(digest: Seq<u8>) -> u8 {
    (digest[0] % 2) as u8
}

/// The outcome bit of a draw.
pub open spec fn draw_bit(server_seed: Seq<u8>, client_seed: Seq<u8>, nonce: u64) -> u8 {
    outcome_of(draw_digest_of(server_seed, client_seed, nonce))
}

/// What a reveal recorded for later audit.
pub struct Reveal {
    pub server_seed: Vec<u8>,
    pub client_seed: Vec<u8>,
    pub nonce: u64,
    pub outcome: u8,
}

/// The commitment of one game and, once revealed, its reveal.
pub struct CommitEntry {
    pub game_id: u64,
    pub commit_hash: Vec<u8>,
    pub reveal: Option<Reveal>,
}

/// Mathematical form of a `Reveal`.
pub struct RevealView {
    pub server_seed: Seq<u8>,
    pub client_seed: Seq<u8>,
    pub nonce: u64,
    pub outcome: u8,
}

/// Mathematical form of a `CommitEntry`, without its id.
pub struct CommitView {
    pub commit_hash: Seq<u8>,
    pub reveal: Option<RevealView>,
}

pub open spec fn reveal_view(r: Reveal) -> RevealView {
    RevealView {
        server_seed: r.server_seed@,
        client_seed: r.client_seed@,
        nonce: r.nonce,
        outcome: r.outcome,
    }
}

pub open spec fn entry_view(e: CommitEntry) -> CommitView {
    CommitView {
        commit_hash: e.commit_hash@,
        reveal: match e.reveal {
            Some(r) => Some(reveal_view(r)),
            None => None,
        },
    }
}

pub open spec fn game_ids_unique(s: Seq<CommitEntry>) -> bool {
    forall|i: int, j: int|
        0 <= i < s.len() && 0 <= j < s.len() && s[i].game_id == s[j].game_id ==> i == j
}

pub open spec fn has_entry(s: Seq<CommitEntry>, id: u64) -> bool {
    exists|i: int| 0 <= i < s.len() && s[i].game_id == id
}

pub open spec fn entry_index(s: Seq<CommitEntry>, id: u64) -> int {
    choose|i: int| 0 <= i < s.len() && s[i].game_id == id
}

pub open spec fn entry_in(s: Seq<CommitEntry>, id: u64) -> Option<CommitView> {
    if has_entry(s, id) { Some(entry_view(s[entry_index(s, id)])) } else { None }
}

/// A recorded reveal is consistent with its commitment and its outcome.
pub open spec fn entry_sound(e: CommitEntry) -> bool {
    match e.reveal {
        Some(r) => e.commit_hash@ == commit_hash_of(r.server_seed@, e.game_id)
            && r.outcome == draw_bit(r.server_seed@, r.client_seed@, r.nonce),
        None => true,
    }
}

proof fn lemma_entry_update(s: Seq<CommitEntry>, i: int, e: CommitEntry)
    requires
        game_ids_unique(s),
        0 <= i < s.len(),
        e.game_id == s[i].game_id,
    ensures
        game_ids_unique(s.update(i, e)),
        forall|id: u64| id != e.game_id ==> entry_in(s.update(i, e), id) == entry_in(s, id),
        entry_in(s.update(i, e), e.game_id) == Some(entry_view(e)),
{
    let t = s.update(i, e);
    assert forall|id: u64| id != e.game_id implies entry_in(t, id) == entry_in(s, id) by {
        if has_entry(s, id) {
            let k = entry_index(s, id);
            assert(t[k].game_id == id);
            let m = entry_index(t, id);
            assert(s[m].game_id == id);
        }
        if has_entry(t, id) {
            let k = entry_index(t, id);
            assert(s[k].game_id == id);
        }
    }
    assert(t[i].game_id == e.game_id);
    let m = entry_index(t, e.game_id);
    assert(m == i);
}

proof fn lemma_entry_push(s: Seq<CommitEntry>, e: CommitEntry)
    requires
        game_ids_unique(s),
        !has_entry(s, e.game_id),
    ensures
        game_ids_unique(s.push(e)),
        forall|id: u64| id != e.game_id ==> entry_in(s.push(e), id) == entry_in(s, id),
        entry_in(s.push(e), e.game_id) == Some(entry_view(e)),
{
    let t = s.push(e);
    assert forall|id: u64| id != e.game_id implies entry_in(t, id) == entry_in(s, id) by {
        if has_entry(s, id) {
            let k = entry_index(s, id);
            assert(t[k].game_id == id);
            let m = entry_index(t, id);
            assert(m < s.len());
            assert(s[m].game_id == id);
        }
        if has_entry(t, id) {
            let k = entry_index(t, id);
            assert(s[k].game_id == id);
        }
    }
    assert(t[s.len() as int].game_id == e.game_id);
    let m = entry_index(t, e.game_id);
    assert(m == s.len());
}

/// Appends `src` to `out`.
pub(crate) fn append_bytes(out: &mut Vec<u8>, src: &Vec<u8>)
    ensures
        final(out)@ == old(out)@ + src@,
{
    let mut i: usize = 0;
    while i < src.len()
        invariant
            i <= src@.len(),
            out@ == old(out)@ + src@.subrange(0, i as int),
        decreases src@.len() - i,
    {
        out.push(src[i]);
        assert(src@.subrange(0, i + 1) =~= src@.subrange(0, i as int).push(src@[i as int]));
        i = i + 1;
    }
    assert(src@.subrange(0, src@.len() as int) =~= src@);
}

/// The eight bytes of `n`, most significant first.
pub fn u64_be_bytes(n: u64) -> (r: Vec<u8>)
    ensures
        r@ == be_bytes(n),
{
    let r = vec![
        (n >> 56u64) as u8,
        (n >> 48u64) as u8,
        (n >> 40u64) as u8,
        (n >> 32u64) as u8,
        (n >> 24u64) as u8,
        (n >> 16u64) as u8,
        (n >> 8u64) as u8,
        n as u8,
    ];
    assert(r@ =~= be_bytes(n));
    r
}

/// Whether two byte strings are equal.
pub fn bytes_equal(a: &Vec<u8>, b: &Vec<u8>) -> (r: bool)
    ensures
        r == (a@ == b@),
{
    if a.len() != b.len() {
        return false;
    }
    let mut i: usize = 0;
    while i < a.len()
        invariant
            a@.len() == b@.len(),
            i <= a@.len(),
            forall|j: int| 0 <= j < i ==> a@[j] == b@[j],
        decreases a@.len() - i,
    {
        if a[i] != b[i] {
            return false;
        }
        i = i + 1;
    }
    assert(a@ =~= b@);
    true
}

/// The outcome bit that the published rule takes from a draw digest.
pub fn outcome_bit(digest: &Vec<u8>) -> (r: u8)
    requires
        digest@.len() > 0,
    ensures
        r == outcome_of(digest@),
        r < 2,
{
    digest[0] % 2
}

/// The commitment an operator publishes for `server_seed` in game `game_id`.
pub fn seed_commitment(server_seed: &Vec<u8>, game_id: u64) -> (r: Vec<u8>)
    ensures
        r@ == commit_hash_of(server_seed@, game_id),
{
    let mut data: Vec<u8> = Vec::new();
    append_bytes(&mut data, server_seed);
    let id_bytes = u64_be_bytes(game_id);
    append_bytes(&mut data, &id_bytes);
    assert(data@ =~= server_seed@ + be_bytes(game_id));
    sha256(&data)
}

/// The digest a draw takes its outcome from.
pub fn draw_digest(server_seed: &Vec<u8>, client_seed: &Vec<u8>, nonce: u64) -> (r: Vec<
    u8,
>)
    ensures
        r@ == draw_digest_of(server_seed@, client_seed@, nonce),
        r@.len() == 32,
{
    let mut data: Vec<u8> = Vec::new();
    append_bytes(&mut data, server_seed);
    append_bytes(&mut data, client_seed);
    let nonce_bytes = u64_be_bytes(nonce);
    append_bytes(&mut data, &nonce_bytes);
    assert(data@ =~= server_seed@ + client_seed@ + be_bytes(nonce));
    sha256(&data)
}

/// The commit-reveal randomness protocol. Each game id moves from uncommitted to committed
/// (its seed commitment stored) to revealed (its seed, client seed, nonce and outcome stored).
pub struct RandomGenerator {
    entries: Vec<CommitEntry>,
}

impl RandomGenerator {
    /// The commitment and reveal stored for `game_id`, if it was committed.
    pub closed spec fn entry(&self, game_id: u64) -> Option<CommitView> {
        entry_in(self.entries@, game_id)
    }

    pub closed spec fn wf(&self) -> bool {
        &&& game_ids_unique(self.entries@)
        &&& forall|i: int| 0 <= i < self.entries@.len() ==> #[trigger] entry_sound(self.entries@[i])
    }

    /// What `generate_random` answers for these arguments.
    pub open spec fn draw_result(
        &self,
        game_id: u64,
        server_seed: Seq<u8>,
        client_seed: Seq<u8>,
        nonce: u64,
    ) -> Result<u8, ArcadeError> {
        match self.entry(game_id) {
            None => Err(ArcadeError::NotCommitted),
            Some(e) => if e.reveal is Some {
                Err(ArcadeError::AlreadySettled)
            } else if commit_hash_of(server_seed, game_id) != e.commit_hash {
                Err(ArcadeError::CommitMismatch)
            } else {
                Ok(draw_bit(server_seed, client_seed, nonce))
            },
        }
    }

    /// Whether `server_seed` is the seed revealed for `game_id`.
    pub open spec fn revealed_with(&self, game_id: u64, server_seed: Seq<u8>) -> bool {
        match self.entry(game_id) {
            Some(e) => match e.reveal {
                Some(rv) => rv.server_seed == server_seed,
                None => false,
            },
            None => false,
        }
    }

    /// A generator with nothing committed.
    pub fn new() -> (r: RandomGenerator)
        ensures
            r.wf(),
            forall|id: u64| r.entry(id) is None,
    {
        RandomGenerator { entries: Vec::new() }
    }

    fn find(&self, id: u64) -> (r: Option<usize>)
        ensures
            match r {
                Some(i) => i < self.entries@.len() && self.entries@[i as int].game_id == id,
                None => !has_entry(self.entries@, id),
            },
    {
        let mut i: usize = 0;
        while i < self.entries.len()
            invariant
                i <= self.entries@.len(),
                forall|j: int| 0 <= j < i ==> self.entries@[j].game_id != id,
            decreases self.entries@.len() - i,
        {
            if self.entries[i].game_id == id {
                return Some(i);
            }
            i = i + 1;
        }
        None
    }

    proof fn lemma_at(&self, i: int)
        requires
            self.wf(),
            0 <= i < self.entries@.len(),
        ensures
            self.entry(self.entries@[i].game_id) == Some(entry_view(self.entries@[i])),
            entry_sound(self.entries@[i]),
    {
        let id = self.entries@[i].game_id;
        assert(has_entry(self.entries@, id));
        let k = entry_index(self.entries@, id);
        assert(k == i);
    }

    /// Stores the commitment for `game_id`; a game id can be committed only once.
    pub fn commit(&mut self, game_id: u64, server_seed_hash: Vec<u8>) -> (r: Result<(), ArcadeError>)
        requires
            old(self).wf(),
        ensures
            final(self).wf(),
            old(self).entry(game_id) is Some ==> r == Err::<(), ArcadeError>(
                ArcadeError::AlreadyCommitted,
            ) && final(self).entry(game_id) == old(self).entry(game_id),
            old(self).entry(game_id) is None ==> r is Ok && final(self).entry(game_id) == Some(
                CommitView { commit_hash: server_seed_hash@, reveal: None },
            ),
            forall|id: u64| id != game_id ==> final(self).entry(id) == old(self).entry(id),
    {
        match self.find(game_id) {
            Some(i) => {
                proof {
                    self.lemma_at(i as int);
                }
                Err(ArcadeError::AlreadyCommitted)
            },
            None => {
                let e = CommitEntry { game_id, commit_hash: server_seed_hash, reveal: None };
                proof {
                    lemma_entry_push(self.entries@, e);
                }
                self.entries.push(e);
                assert forall|i: int| 0 <= i < self.entries@.len() implies #[trigger] entry_sound(
                    self.entries@[i],
                ) by {
                    if i < self.entries@.len() - 1 {
                        assert(self.entries@[i] == old(self).entries@[i]);
                    }
                }
                Ok(())
            },
        }
    }

    /// Checks a reveal against the commitment of `game_id`; on success gives the entry's
    /// index and the outcome bit.
    fn draw_at(&self, game_id: u64, server_seed: &Vec<u8>, client_seed: &Vec<u8>, nonce: u64) -> (r:
        Result<(usize, u8), ArcadeError>)
        requires
            self.wf(),
        ensures
            match r {
                Ok((i, bit)) => i < self.entries@.len() && self.entries@[i as int].game_id
                    == game_id && self.draw_result(game_id, server_seed@, client_seed@, nonce)
                    == Ok::<u8, ArcadeError>(bit),
                Err(e) => self.draw_result(game_id, server_seed@, client_seed@, nonce) == Err::<
                    u8,
                    ArcadeError,
                >(e),
            },
    {
        match self.find(game_id) {
            None => Err(ArcadeError::NotCommitted),
            Some(i) => {
                proof {
                    self.lemma_at(i as int);
                }
                if self.entries[i].reveal.is_some() {
                    return Err(ArcadeError::AlreadySettled);
                }
                let expected = seed_commitment(server_seed, game_id);
                if !bytes_equal(&expected, &self.entries[i].commit_hash) {
                    return Err(ArcadeError::CommitMismatch);
                }
                let digest = draw_digest(server_seed, client_seed, nonce);
                Ok((i, outcome_bit(&digest)))
            },
        }
    }

    /// Checks a reveal against the commitment of `game_id` and computes its outcome bit,
    /// changing nothing.
    pub fn draw(&self, game_id: u64, server_seed: &Vec<u8>, client_seed: &Vec<u8>, nonce: u64) -> (r:
        Result<u8, ArcadeError>)
        requires
            self.wf(),
        ensures
            r == self.draw_result(game_id, server_seed@, client_seed@, nonce),
    {
        match self.draw_at(game_id, server_seed, client_seed, nonce) {
            Ok((_, bit)) => Ok(bit),
            Err(e) => Err(e),
        }
    }

    /// Reveals the server seed of `game_id` and draws its outcome bit from both seeds and the
    /// nonce; the reveal is stored for audit. Fails unless `game_id` was committed, not yet
    /// revealed, and `server_seed` matches its commitment.
    pub fn generate_random(
        &mut self,
        game_id: u64,
        server_seed: Vec<u8>,
        client_seed: Vec<u8>,
        nonce: u64,
    ) -> (r: Result<u8, ArcadeError>)
        requires
            old(self).wf(),
        ensures
            final(self).wf(),
            r == old(self).draw_result(game_id, server_seed@, client_seed@, nonce),
            r is Err ==> forall|id: u64| final(self).entry(id) == old(self).entry(id),
            r is Ok ==> final(self).entry(game_id) == Some(
                CommitView {
                    commit_hash: old(self).entry(game_id)->Some_0.commit_hash,
                    reveal: Some(
                        RevealView {
                            server_seed: server_seed@,
                            client_seed: client_seed@,
                            nonce,
                            outcome: r->Ok_0,
                        },
                    ),
                },
            ),
            forall|id: u64| id != game_id ==> final(self).entry(id) == old(self).entry(id),
    {
        let (i, bit) = match self.draw_at(game_id, &server_seed, &client_seed, nonce) {
            Err(e) => {
                return Err(e);
            },
            Ok(found) => found,
        };
        proof {
            self.lemma_at(i as int);
        }
        let old_entry = self.entries.remove(i);
        let e = CommitEntry {
            game_id,
            commit_hash: old_entry.commit_hash,
            reveal: Some(Reveal { server_seed, client_seed, nonce, outcome: bit }),
        };
        proof {
            lemma_entry_update(old(self).entries@, i as int, e);
        }
        self.entries.insert(i, e);
        assert(self.entries@ =~= old(self).entries@.update(i as int, e));
        assert forall|j: int| 0 <= j < self.entries@.len() implies #[trigger] entry_sound(
            self.entries@[j],
        ) by {
            if j != i {
                assert(self.entries@[j] == old(self).entries@[j]);
            }
        }
        Ok(bit)
    }

    /// Whether `server_seed` is the seed revealed for `game_id`. The claim is checked the way a
    /// third party would: the seed must hash to the stored commitment and reproduce the stored
    /// outcome from the stored client seed and nonce.
    pub fn verify_fairness(&self, game_id: u64, server_seed: &Vec<u8>) -> (r: bool)
        requires
            self.wf(),
        ensures
            r == self.revealed_with(game_id, server_seed@),
    {
        match self.find(game_id) {
            None => false,
            Some(i) => {
                proof {
                    self.lemma_at(i as int);
                }
                let entry = &self.entries[i];
                match &entry.reveal {
                    None => false,
                    Some(rv) => {
                        if !bytes_equal(&rv.server_seed, server_seed) {
                            return false;
                        }
                        let commitment = seed_commitment(server_seed, game_id);
                        let commit_ok = bytes_equal(&commitment, &entry.commit_hash);
                        let digest = draw_digest(server_seed, &rv.client_seed, rv.nonce);
                        commit_ok && outcome_bit(&digest) == rv.outcome
                    },
                }
            },
        }
    }
}

/// A revealed seed always hashes to its game's commitment and reproduces its outcome, so a
/// seed that hashes to a different commitment is never the revealed one.
pub proof fn lemma_reveal_matches_commitment(rng: &RandomGenerator, game_id: u64)
    requires
        rng.wf(),
        rng.entry(game_id) is Some,
        rng.entry(game_id)->Some_0.reveal is Some,
    ensures
        ({
            let e = rng.entry(game_id)->Some_0;
            let rv = e.reveal->Some_0;
            e.commit_hash == commit_hash_of(rv.server_seed, game_id) && rv.outcome == draw_bit(
                rv.server_seed,
                rv.client_seed,
                rv.nonce,
            )
        }),
{
    let k = entry_index(rng.entries@, game_id);
    assert(entry_sound(rng.entries@[k]));
}

} // verus!
