//! Announce tokens (BEP 5): a peer gets a token bound to its address and the
//! info hash it asked about, and may announce with it while the secret that
//! made it is current or was replaced recently enough.
//!
//! Times are monotonic instants in milliseconds; addresses are their octets.
use vstd::prelude::*;
use crate::dht::InfoHash;

verus! {

/// Length of a rolling secret.
pub const SECRET_LEN: usize = 32;

/// How often secrets roll over and how long a replaced one is still honoured.
#[derive(Debug, Clone, Copy, PartialEq, Eq, Structural)]
pub struct TokenConfig {
    /// Milliseconds a secret stays current.
    pub rotation_period: u64,
    /// Milliseconds, from its start, during which a replaced secret is still honoured.
    pub acceptance_window: u64,
}

impl Default for TokenConfig {
    fn default() -> (r: Self)
        ensures
            r.rotation_period == 300_000,
            r.acceptance_window == 600_000,
    {
        TokenConfig { rotation_period: 300_000, acceptance_window: 600_000 }
    }
}

#[derive(Debug, Clone, Copy)]
struct RollingSecret {
    secret: [u8; 32],
    started_at: u64,
}

/// Mints and checks announce tokens.
#[derive(Debug, Clone)]
pub struct TokenService {
    config: TokenConfig,
    current: RollingSecret,
    previous: Option<RollingSecret>,
}

/// A secret and the instant it became current.
pub struct SecretView {
    pub secret: Seq<u8>,
    pub started_at: u64,
}

/// The state of a token service.
pub struct TokenServiceView {
    pub config: TokenConfig,
    pub current: SecretView,
    pub previous: Option<SecretView>,
}

/// SHA-1 digest of `data`.
pub uninterp spec fn sha1(data: Seq<u8>) -> Seq<u8>;

/// Calls `sha1::Sha1::digest` on `data`: the SHA-1 digest, which is 20 bytes long.
#[verifier::external_body]
pub(crate) fn sha1_digest(data: &[u8]) -> (r: Vec<u8>)
    ensures
        r@ == sha1(data@),
        r@.len() == 20,
{
    <sha1::Sha1 as sha1::Digest>::digest(data).to_vec()
}

/// Calls `rand::random` for a fresh secret; nothing is claimed of its bytes.
#[verifier::external_body]
fn random_secret() -> (r: [u8; 32]) {
    rand::random::<[u8; 32]>()
}

/// Milliseconds from `since` to `now`, zero when `now` is earlier.
pub open spec fn elapsed(now: u64, since: u64) -> int {
    if now >= since {
        now - since
    } else {
        0
    }
}

/// The token a secret gives for an address and an info hash.
pub open spec fn token_for(secret: Seq<u8>, addr: Seq<u8>, info_hash: Seq<u8>) -> Seq<u8> {
    sha1(secret + addr + info_hash)
}

/// `previous`, or nothing once it is older than the acceptance window.
pub open spec fn drop_expired(previous: Option<SecretView>, now: u64, window: u64) -> Option<
    SecretView,
> {
    match previous {
        Some(p) => if elapsed(now, p.started_at) > window {
            None
        } else {
            previous
        },
        None => None,
    }
}

/// `after` is `before` brought up to `now`: the current secret is replaced by
/// a fresh one once it has been current for a rotation period, becoming the
/// previous one, and a previous secret past the acceptance window is dropped.
pub open spec fn rotated(before: TokenServiceView, now: u64, after: TokenServiceView) -> bool {
    &&& after.config == before.config
    &&& if elapsed(now, before.current.started_at) < before.config.rotation_period {
        &&& after.current == before.current
        &&& after.previous == drop_expired(before.previous, now, before.config.acceptance_window)
    } else {
        &&& after.current.started_at == now
        &&& after.current.secret.len() == SECRET_LEN
        &&& after.previous == drop_expired(
            Some(before.current),
            now,
            before.config.acceptance_window,
        )
    }
}

/// Whether the service, as it stands, accepts `token` for the address and info hash.
pub open spec fn accepts(
    s: TokenServiceView,
    addr: Seq<u8>,
    info_hash: Seq<u8>,
    token: Seq<u8>,
    now: u64,
) -> bool {
    ||| token == token_for(s.current.secret, addr, info_hash)
    ||| match s.previous {
        Some(p) => elapsed(now, p.started_at) <= s.config.acceptance_window && token == token_for(
            p.secret,
            addr,
            info_hash,
        ),
        None => false,
    }
}

fn bytes_equal(a: &[u8], b: &[u8]) -> (r: bool)
    ensures
        r == (a@ == b@),
{
    if a.len() != b.len() {
        return false;
    }
    let mut i: usize = 0;
    while i < a.len()
        invariant
            a@.len() == b@.len(),
            i <= a@.len(),
            forall|j: int| 0 <= j < i ==> a@[j] == b@[j],
        decreases a@.len() - i,
    {
        if a[i] != b[i] {
            return false;
        }
        i = i + 1;
    }
    assert(a@ =~= b@);
    true
}

fn derive_token(secret: &[u8; 32], addr: &[u8], info_hash: &InfoHash) -> (r: Vec<u8>)
    ensures
        r@ == token_for(secret@, addr@, info_hash@),
{
    let mut data: Vec<u8> = Vec::new();
    let mut i: usize = 0;
    while i < 32
        invariant
            i <= 32,
            data@ == secret@.subrange(0, i as int),
        decreases 32 - i,
    {
        data.push(secret[i]);
        i = i + 1;
        assert(secret@.subrange(0, i as int) == secret@.subrange(0, i - 1) + seq![secret@[i - 1]]);
    }
    let mut j: usize = 0;
    while j < addr.len()
        invariant
            j <= addr@.len(),
            data@ == secret@ + addr@.subrange(0, j as int),
        decreases addr@.len() - j,
    {
        data.push(addr[j]);
        j = j + 1;
        assert(addr@.subrange(0, j as int) == addr@.subrange(0, j - 1) + seq![addr@[j - 1]]);
    }
    assert(addr@.subrange(0, j as int) == addr@);
    let mut k: usize = 0;
    while k < 20
        invariant
            k <= 20,
            data@ == secret@ + addr@ + info_hash@.subrange(0, k as int),
        decreases 20 - k,
    {
        data.push(info_hash[k]);
        k = k + 1;
        assert(info_hash@.subrange(0, k as int) == info_hash@.subrange(0, k - 1) + seq![
            info_hash@[k - 1],
        ]);
    }
    assert(info_hash@.subrange(0, 20) == info_hash@);
    sha1_digest(data.as_slice())
}

impl RollingSecret {
    spec fn view(self) -> SecretView {
        SecretView { secret: self.secret@, started_at: self.started_at }
    }
}

impl TokenService {
    pub closed spec fn view(&self) -> TokenServiceView {
        TokenServiceView {
            config: self.config,
            current: self.current.view(),
            previous: match self.previous {
                Some(p) => Some(p.view()),
                None => None,
            },
        }
    }

    /// A service whose first secret, freshly drawn, starts at `now`.
    pub fn new(config: TokenConfig, now: u64) -> (r: Self)
        ensures
            r@.config == config,
            r@.current.started_at == now,
            r@.current.secret.len() == SECRET_LEN,
            r@.previous is None,
    {
        TokenService {
            config,
            current: RollingSecret { secret: random_secret(), started_at: now },
            previous: None,
        }
    }

    pub fn config(&self) -> (r: &TokenConfig)
        ensures
            *r == self@.config,
    {
        &self.config
    }

    fn elapsed_since(now: u64, since: u64) -> (r: u64)
        ensures
            r == elapsed(now, since),
    {
        if now >= since {
            now - since
        } else {
            0
        }
    }

    fn drop_expired_previous(&mut self, now: u64)
        ensures
            final(self)@.config == old(self)@.config,
            final(self)@.current == old(self)@.current,
            final(self)@.previous == drop_expired(
                old(self)@.previous,
                now,
                old(self)@.config.acceptance_window,
            ),
    {
        let expired = match &self.previous {
            Some(p) => Self::elapsed_since(now, p.started_at) > self.config.acceptance_window,
            None => false,
        };
        if expired {
            self.previous = None;
        }
    }

    fn rotate_if_due(&mut self, now: u64)
        ensures
            rotated(old(self)@, now, final(self)@),
    {
        if Self::elapsed_since(now, self.current.started_at) < self.config.rotation_period {
            self.drop_expired_previous(now);
            return;
        }
        let old_current = self.current;
        self.previous = Some(old_current);
        self.current = RollingSecret { secret: random_secret(), started_at: now };
        self.drop_expired_previous(now);
    }

    /// The token for `addr` and `info_hash`, made with the current secret once
    /// the secrets are brought up to `now`.
    pub fn mint_for(&mut self, addr: &[u8], info_hash: &InfoHash, now: u64) -> (token: Vec<u8>)
        ensures
            rotated(old(self)@, now, final(self)@),
            token@ == token_for(final(self)@.current.secret, addr@, info_hash@),
    {
        self.rotate_if_due(now);
        derive_token(&self.current.secret, addr, info_hash)
    }

    /// Whether `token` was made for `addr` and `info_hash` by the current
    /// secret, or by the previous one while it is within the acceptance window.
    pub fn validate_for(&mut self, addr: &[u8], info_hash: &InfoHash, token: &[u8], now: u64) -> (r:
        bool)
        ensures
            rotated(old(self)@, now, final(self)@),
            r == accepts(final(self)@, addr@, info_hash@, token@, now),
    {
        self.rotate_if_due(now);
        let current = derive_token(&self.current.secret, addr, info_hash);
        if bytes_equal(current.as_slice(), token) {
            return true;
        }
        match &self.previous {
            Some(previous) => {
                if Self::elapsed_since(now, previous.started_at) <= self.config.acceptance_window {
                    let old_token = derive_token(&previous.secret, addr, info_hash);
                    bytes_equal(old_token.as_slice(), token)
                } else {
                    false
                }
            },
            None => false,
        }
    }
}

/// A token is accepted when it is checked at the instant it was minted, for
/// the address and info hash it was minted for, whatever the configuration.
pub proof fn lemma_minted_token_validates(
    s0: TokenServiceView,
    s1: TokenServiceView,
    s2: TokenServiceView,
    addr: Seq<u8>,
    info_hash: Seq<u8>,
    now: u64,
)
    requires
        rotated(s0, now, s1),
        rotated(s1, now, s2),
    ensures
        accepts(s2, addr, info_hash, token_for(s1.current.secret, addr, info_hash), now),
{
}

} // verus!
