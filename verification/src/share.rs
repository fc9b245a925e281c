//! Browser shares: an explicit set of files served over HTTP under an
//! unguessable token, for a limited time and a limited number of fetches.
//!
//! A share only ever serves the files it was created with. A request names a
//! file by its index, never by a name or a path, and every limit is checked on
//! every request.

use vstd::prelude::*;

use crate::encoding::{base64url, encode_base64url, law_base64url_is_url_safe, url_safe};
use crate::error::{LanBeamError, Result};
use crate::keymap::{kept, lemma_entry, KeyMap};
use crate::order::{
    ascending, law_ranked_sorts, lemma_lex_total, lemma_lex_trans, lemma_ranked_members, lex_le,
    lex_leq, sort, Ranked,
};
use crate::pages::{
    content_disposition, disposition, landing_text, message_page, message_text, render_landing,
    shown_files,
};
use crate::text::{chars_of, concat, decimal, decimal_string};
use crate::time::{elapsed, Clock, Duration, Instant};

verus! {

/// Random bytes behind a share token: a multiple of three, so that the encoded
/// token has no partial group.
pub const TOKEN_BYTES: usize = 18;

/// The shortest and the longest life of a share, in seconds.
pub const SHARE_TTL_RANGE_SECS: (u64, u64) = (60, 86_400);

/// The greatest download cap that a share can have.
pub const MAX_SHARE_DOWNLOADS: u32 = 1000;

/// A requested life in seconds, brought into the range of lives.
pub fn clamp_ttl(secs: u64) -> (d: Duration)
    ensures
        d.nanos == Duration::of_secs(
            if secs < 60 {
                60
            } else if secs > 86_400 {
                86_400
            } else {
                secs as nat
            },
        ),
{
    if secs < SHARE_TTL_RANGE_SECS.0 {
        Duration::from_secs(SHARE_TTL_RANGE_SECS.0)
    } else if secs > SHARE_TTL_RANGE_SECS.1 {
        Duration::from_secs(SHARE_TTL_RANGE_SECS.1)
    } else {
        Duration::from_secs(secs)
    }
}

/// A requested download cap: none stays unlimited, and a number is brought
/// into `1..=MAX_SHARE_DOWNLOADS`.
pub fn clamp_max_downloads(max: Option<u32>) -> (r: Option<u32>)
    ensures
        r == match max {
            None => None::<u32>,
            Some(n) => Some(
                if n < 1 {
                    1u32
                } else if n > MAX_SHARE_DOWNLOADS {
                    MAX_SHARE_DOWNLOADS
                } else {
                    n
                },
            ),
        },
{
    match max {
        None => None,
        Some(n) => {
            if n < 1 {
                Some(1)
            } else if n > MAX_SHARE_DOWNLOADS {
                Some(MAX_SHARE_DOWNLOADS)
            } else {
                Some(n)
            }
        },
    }
}

/// One file of a share: the name shown to the browser, the absolute path its
/// bytes come from, and its length when the share was made.
#[derive(Debug)]
pub struct ShareFile {
    pub name: String,
    pub path: String,
    pub size: u64,
}

/// A browser share. Its limits are `active`, `created` with `ttl`, and
/// `downloads` against `max_downloads`; `expires_at_secs` is a wall-clock time
/// for display only.
#[derive(Debug)]
pub struct Share {
    pub token: String,
    pub files: Vec<ShareFile>,
    pub created: Instant,
    pub ttl: Duration,
    /// The cap per file, or none for unlimited.
    pub max_downloads: Option<u32>,
    /// How many single files were fetched so far.
    pub downloads: u32,
    pub active: bool,
    pub expires_at_secs: u64,
}

/// Why a request is refused.
#[derive(Debug, Clone, Copy, PartialEq, Eq, Structural)]
pub enum Denied {
    /// An unknown token, or no file at that index.
    NotFound,
    /// A share that was stopped, has expired or is spent.
    Gone,
}

/// The sum of the sizes of the files.
pub open spec fn total_size(files: Seq<ShareFile>) -> nat
    decreases files.len(),
{
    if files.len() == 0 {
        0
    } else {
        total_size(files.drop_last()) + files.last().size as nat
    }
}

impl Share {
    /// Neither stopped nor expired.
    pub open spec fn live(self, now: Instant) -> bool {
        self.active && elapsed(self.created, now) < self.ttl.nanos
    }

    /// How many fetches a cap allows in all: the cap for every file.
    pub open spec fn budget(self, per_file: u32) -> nat {
        let count = if self.files@.len() == 0 {
            1
        } else {
            self.files@.len()
        };
        if per_file * count > u32::MAX {
            u32::MAX as nat
        } else {
            (per_file * count) as nat
        }
    }

    pub open spec fn spent(self) -> bool {
        match self.max_downloads {
            Some(per_file) => self.downloads >= self.budget(per_file),
            None => false,
        }
    }

    /// Whether a request is served now.
    pub open spec fn serveable(self, now: Instant) -> bool {
        self.live(now) && !self.spent()
    }

    /// At least one file, few enough to be indexed, with sizes that add up.
    pub open spec fn wf(self) -> bool {
        &&& 1 <= self.files@.len() <= u32::MAX
        &&& total_size(self.files@) <= u64::MAX
    }

    /// How often the whole set of files was fetched.
    pub open spec fn whole_sets(self) -> nat {
        self.downloads as nat / self.files@.len()
    }

    fn is_live(&self, now: Instant) -> (r: bool)
        ensures
            r == self.live(now),
    {
        self.active && now.duration_since(self.created).nanos < self.ttl.nanos
    }

    /// Whether a request is served, as a function of the time.
    pub fn check(&self, now: Instant) -> (r: std::result::Result<(), Denied>)
        requires
            self.files@.len() <= u32::MAX,
        ensures
            r is Ok == self.serveable(now),
            r is Ok <==> self.active && self.ttl.nanos > 0 && now.nanos < self.created.nanos
                + self.ttl.nanos && !self.spent(),
            r matches Err(d) ==> d == Denied::Gone,
    {
        if !self.active {
            return Err(Denied::Gone);
        }
        if now.duration_since(self.created).nanos >= self.ttl.nanos {
            return Err(Denied::Gone);
        }
        match self.max_downloads {
            Some(per_file) => {
                let count: u64 = if self.files.len() == 0 {
                    1
                } else {
                    self.files.len() as u64
                };
                proof {
                    assert(per_file * count <= 0xFFFF_FFFF * 0xFFFF_FFFF) by (nonlinear_arith)
                        requires
                            per_file <= 0xFFFF_FFFF,
                            count <= 0xFFFF_FFFF,
                    ;
                }
                let product: u64 = per_file as u64 * count;
                let budget: u64 = if product > u32::MAX as u64 {
                    u32::MAX as u64
                } else {
                    product
                };
                if self.downloads as u64 >= budget {
                    return Err(Denied::Gone);
                }
            },
            None => {},
        }
        Ok(())
    }
}

/// The live shares, by token.
#[derive(Debug)]
pub struct ShareRegistry {
    pub shares: KeyMap<String, Share>,
}

impl View for ShareRegistry {
    type V = Map<Seq<char>, Share>;

    open spec fn view(&self) -> Map<Seq<char>, Share> {
        self.shares@
    }
}

impl ShareRegistry {
    /// Every share is well formed and stands under its own token.
    pub open spec fn wf(&self) -> bool {
        &&& self.shares.wf()
        &&& shares_wf(self@)
    }
}

pub open spec fn shares_wf(m: Map<Seq<char>, Share>) -> bool {
    forall|t: Seq<char>| #[trigger] m.contains_key(t) ==> m[t].token@ == t && m[t].wf()
}

pub fn new_registry() -> (r: ShareRegistry)
    ensures
        r.wf(),
        r@ == Map::<Seq<char>, Share>::empty(),
{
    ShareRegistry { shares: KeyMap::new() }
}

// ── creation ──────────────────────────────────────────────────────────────

/// What the file system says of a path that is to be shared.
#[derive(Debug)]
pub enum PathProbe {
    /// The path is not absolute.
    Relative,
    /// The file system gave this error.
    Unreadable(String),
    /// There is something that is no regular file.
    NotRegular,
    /// A regular file of this length.
    Regular(u64),
}

/// A file that is to be shared, with what is found at its path.
#[derive(Debug)]
pub struct ShareCandidate {
    pub name: String,
    pub path: String,
    pub probe: PathProbe,
}

impl ShareCandidate {
    pub open spec fn size(self) -> nat {
        match self.probe {
            PathProbe::Regular(n) => n as nat,
            _ => 0,
        }
    }

    /// Whether `e` is how this candidate is refused.
    pub open spec fn refused_with(self, e: LanBeamError) -> bool {
        match self.probe {
            PathProbe::Relative => e matches LanBeamError::UnsafePath(m) && m@
                == "share path is not absolute: "@ + self.path@,
            PathProbe::Unreadable(why) => e matches LanBeamError::Io(m) && m@ == "share file "@
                + self.path@ + ": "@ + why@,
            PathProbe::NotRegular => e matches LanBeamError::UnsafePath(m) && m@
                == "share path is not a regular file: "@ + self.path@,
            PathProbe::Regular(_) => false,
        }
    }
}

pub open spec fn candidates_size(files: Seq<ShareCandidate>) -> nat
    decreases files.len(),
{
    if files.len() == 0 {
        0
    } else {
        candidates_size(files.drop_last()) + files.last().size()
    }
}

/// The first candidate that is refused, or how many there are.
pub open spec fn first_refused(files: Seq<ShareCandidate>) -> int
    decreases files.len(),
{
    if files.len() == 0 {
        0
    } else {
        let n = first_refused(files.drop_last());
        if n < files.len() - 1 || !(files.last().probe is Regular) {
            n
        } else {
            files.len() as int
        }
    }
}

proof fn lemma_first_refused(files: Seq<ShareCandidate>, n: int)
    requires
        0 <= n <= files.len(),
        forall|i: int| 0 <= i < n ==> (#[trigger] files[i]).probe is Regular,
        n < files.len() ==> !(files[n].probe is Regular),
    ensures
        first_refused(files) == n,
    decreases files.len(),
{
    if files.len() > 0 {
        let rest = files.drop_last();
        if n < files.len() {
            assert(forall|i: int| 0 <= i < rest.len() ==> rest[i] == files[i]);
            lemma_first_refused(rest, n);
        } else {
            assert(forall|i: int| 0 <= i < rest.len() ==> rest[i] == files[i]);
            lemma_first_refused(rest, n - 1);
        }
    }
}

/// The files of a share are the candidates, in order.
pub open spec fn captured(files: Seq<ShareFile>, from: Seq<ShareCandidate>) -> bool {
    &&& files.len() == from.len()
    &&& forall|i: int|
        0 <= i < files.len() ==> (#[trigger] files[i]).name@ == from[i].name@ && files[i].path@
            == from[i].path@ && from[i].probe == PathProbe::Regular(files[i].size)
}

/// A share as it is when it is made.
pub open spec fn freshly_made(
    s: Share,
    token: Seq<char>,
    from: Seq<ShareCandidate>,
    ttl: Duration,
    max_downloads: Option<u32>,
    clock: Clock,
) -> bool {
    &&& s.token@ == token
    &&& captured(s.files@, from)
    &&& s.created == clock.now
    &&& s.ttl == ttl
    &&& s.max_downloads == max_downloads
    &&& s.downloads == 0
    &&& s.active
    &&& s.expires_at_secs == shown_expiry(clock.unix_secs, ttl)
}

/// The wall-clock time at which a share ends, for display.
pub open spec fn shown_expiry(now_secs: u64, ttl: Duration) -> u64 {
    if now_secs + ttl.whole_secs() > u64::MAX {
        u64::MAX
    } else {
        (now_secs + ttl.whole_secs()) as u64
    }
}

/// The candidates as the files of a share, or the refusal of the first one
/// that is no readable regular file at an absolute path.
pub fn capture_files(files: Vec<ShareCandidate>) -> (r: Result<Vec<ShareFile>>)
    ensures
        match r {
            Ok(v) => files@.len() > 0 && first_refused(files@) == files@.len() && captured(
                v@,
                files@,
            ),
            Err(e) => if files@.len() == 0 {
                e matches LanBeamError::UnsafePath(m) && m@
                    == "a share must contain at least one file"@
            } else {
                first_refused(files@) < files@.len() && files@[first_refused(
                    files@,
                )].refused_with(e)
            },
        },
{
    if files.len() == 0 {
        return Err(
            LanBeamError::UnsafePath("a share must contain at least one file".to_owned()),
        );
    }
    let n: usize = files.len();
    let mut out: Vec<ShareFile> = Vec::new();
    for i in 0..n
        invariant
            n == files@.len(),
            n > 0,
            captured(out@, files@.subrange(0, i as int)),
            forall|k: int| 0 <= k < i ==> (#[trigger] files@[k]).probe is Regular,
    {
        let c = &files[i];
        match &c.probe {
            PathProbe::Relative => {
                proof {
                    lemma_first_refused(files@, i as int);
                }
                return Err(
                    LanBeamError::UnsafePath(
                        concat("share path is not absolute: ", c.path.as_str()),
                    ),
                );
            },
            PathProbe::Unreadable(why) => {
                proof {
                    lemma_first_refused(files@, i as int);
                }
                let mut m = concat("share file ", c.path.as_str());
                m.append(": ");
                m.append(why.as_str());
                return Err(LanBeamError::Io(m));
            },
            PathProbe::NotRegular => {
                proof {
                    lemma_first_refused(files@, i as int);
                }
                return Err(
                    LanBeamError::UnsafePath(
                        concat("share path is not a regular file: ", c.path.as_str()),
                    ),
                );
            },
            PathProbe::Regular(size) => {
                out.push(
                    ShareFile { name: c.name.clone(), path: c.path.clone(), size: *size },
                );
                proof {
                    let now = files@.subrange(0, i + 1);
                    assert forall|k: int| 0 <= k < out@.len() implies (#[trigger] out@[k]).name@
                        == now[k].name@ && out@[k].path@ == now[k].path@ && now[k].probe
                        == PathProbe::Regular(out@[k].size) by {
                        if k < i {
                            assert(now[k] == files@.subrange(0, i as int)[k]);
                        }
                    }
                }
            },
        }
    }
    proof {
        lemma_first_refused(files@, n as int);
        assert(files@.subrange(0, n as int) =~= files@);
    }
    Ok(out)
}

proof fn lemma_captured_size(files: Seq<ShareFile>, from: Seq<ShareCandidate>)
    requires
        captured(files, from),
    ensures
        total_size(files) == candidates_size(from),
    decreases files.len(),
{
    if files.len() > 0 {
        assert forall|i: int| 0 <= i < files.drop_last().len() implies (
        #[trigger] files.drop_last()[i]).name@ == from.drop_last()[i].name@
            && files.drop_last()[i].path@ == from.drop_last()[i].path@
            && from.drop_last()[i].probe == PathProbe::Regular(files.drop_last()[i].size) by {
            assert(files.drop_last()[i] == files[i]);
        }
        lemma_captured_size(files.drop_last(), from.drop_last());
        assert(files[files.len() - 1].size == from[files.len() - 1].size());
    }
}

/// Registers captured files under a token.
pub fn register_share(
    registry: &mut ShareRegistry,
    token: String,
    files: Vec<ShareFile>,
    ttl: Duration,
    max_downloads: Option<u32>,
    clock: Clock,
)
    requires
        old(registry).wf(),
        1 <= files@.len() <= u32::MAX,
        total_size(files@) <= u64::MAX,
    ensures
        final(registry).wf(),
        final(registry)@.contains_key(token@),
        ({
            let s = final(registry)@[token@];
            &&& final(registry)@ == old(registry)@.insert(token@, s)
            &&& s.token@ == token@
            &&& s.files@ == files@
            &&& s.created == clock.now
            &&& s.ttl == ttl
            &&& s.max_downloads == max_downloads
            &&& s.downloads == 0
            &&& s.active
            &&& s.expires_at_secs == shown_expiry(clock.unix_secs, ttl)
        }),
{
    let share = Share {
        token: token.clone(),
        files,
        created: clock.now,
        ttl,
        max_downloads,
        downloads: 0,
        active: true,
        expires_at_secs: clock.unix_secs.saturating_add(ttl.as_secs()),
    };
    let _previous = registry.shares.insert(token, share);
}

/// A failure of the operating system's random source.
#[verifier::external_type_specification]
#[verifier::external_body]
pub struct ExRandomError(getrandom::Error);

/// `getrandom::fill` fills the whole buffer with bytes of the operating
/// system's random source, or fails. Nothing is said of the bytes themselves.
#[verifier::external_body]
fn random_bytes() -> (r: std::result::Result<[u8; 18], getrandom::Error>)
{
    let mut buf = [0u8; TOKEN_BYTES];
    getrandom::fill(&mut buf).map(|_| buf)
}

/// A token: twenty-four characters that are safe in a URL.
pub open spec fn token_shaped(t: Seq<char>) -> bool {
    t.len() == 24 && forall|i: int| 0 <= i < t.len() ==> url_safe(#[trigger] t[i])
}

/// The token that stands for eighteen bytes.
pub fn token_of(bytes: &[u8; 18]) -> (t: String)
    ensures
        t@ == base64url(bytes@),
        token_shaped(t@),
{
    proof {
        law_base64url_is_url_safe(bytes@);
    }
    encode_base64url(bytes.as_slice())
}

/// A failure to draw a token.
pub open spec fn token_failure(e: LanBeamError) -> bool {
    e matches LanBeamError::Crypto(m) && crate::text::starts_with(m@, "share token rng: "@)
}

/// A fresh token, or a failure when the system has no randomness: a token is
/// never predictable.
pub fn generate_token() -> (r: Result<String>)
    ensures
        match r {
            Ok(t) => token_shaped(t@),
            Err(e) => token_failure(e),
        },
{
    match random_bytes() {
        Ok(bytes) => Ok(token_of(&bytes)),
        Err(e) => {
            let why = e.to_string();
            let m = concat("share token rng: ", why.as_str());
            proof {
                assert(m@.subrange(0, "share token rng: "@.len() as int)
                    =~= "share token rng: "@);
            }
            Err(LanBeamError::Crypto(m))
        },
    }
}

/// Makes a share over `files` and returns its token. Every path has to be
/// absolute and lead to a regular file.
pub fn create_share(
    registry: &mut ShareRegistry,
    files: Vec<ShareCandidate>,
    ttl: Duration,
    max_downloads: Option<u32>,
    clock: Clock,
) -> (r: Result<String>)
    requires
        old(registry).wf(),
        files@.len() <= u32::MAX,
        candidates_size(files@) <= u64::MAX,
    ensures
        final(registry).wf(),
        r is Err ==> *final(registry) == *old(registry),
        files@.len() == 0 ==> (r matches Err(LanBeamError::UnsafePath(m)) && m@
            == "a share must contain at least one file"@),
        first_refused(files@) < files@.len() ==> (r matches Err(e) && files@[first_refused(
            files@,
        )].refused_with(e)),
        files@.len() > 0 && first_refused(files@) == files@.len() ==> match r {
            Ok(t) => {
                &&& token_shaped(t@)
                &&& final(registry)@.contains_key(t@)
                &&& final(registry)@ == old(registry)@.insert(t@, final(registry)@[t@])
                &&& freshly_made(final(registry)@[t@], t@, files@, ttl, max_downloads, clock)
            },
            Err(e) => token_failure(e),
        },
{
    let ghost from = files@;
    let captured_files = match capture_files(files) {
        Ok(v) => v,
        Err(e) => {
            return Err(e);
        },
    };
    proof {
        lemma_captured_size(captured_files@, from);
    }
    match generate_token() {
        Ok(token) => {
            let key = token.clone();
            register_share(registry, key, captured_files, ttl, max_downloads, clock);
            Ok(token)
        },
        Err(e) => Err(e),
    }
}

// ── changes to a share ────────────────────────────────────────────────────

/// Stops a share: every later request is refused. Returns whether there is
/// such a share.
pub fn stop_share(registry: &mut ShareRegistry, token: &str) -> (found: bool)
    requires
        old(registry).wf(),
    ensures
        final(registry).wf(),
        found == old(registry)@.contains_key(token@),
        final(registry)@ == if found {
            old(registry)@.insert(token@, (Share { active: false, ..old(registry)@[token@] }))
        } else {
            old(registry)@
        },
{
    let key = token.to_owned();
    match registry.shares.get_mut(&key) {
        Some(s) => {
            s.active = false;
            true
        },
        None => false,
    }
}

/// Drops the shares that can never serve again: stopped or expired ones. A
/// spent share stays until it expires.
pub fn sweep(registry: &mut ShareRegistry, now: Instant)
    requires
        old(registry).wf(),
    ensures
        final(registry).wf(),
        final(registry)@ == kept(old(registry)@, |s: Share| s.live(now)),
{
    let keep = (|s: &Share| -> (r: bool)
        ensures
            r == s.live(now),
        { s.is_live(now) });
    registry.shares.retain(keep, Ghost(|s: Share| s.live(now)));
}

/// A share with a new life that begins now, and a new cap. What was fetched
/// stays counted.
pub open spec fn reconfigured(
    s: Share,
    ttl: Duration,
    max_downloads: Option<u32>,
    clock: Clock,
) -> Share {
    Share {
        created: clock.now,
        ttl,
        max_downloads,
        expires_at_secs: shown_expiry(clock.unix_secs, ttl),
        ..s
    }
}

/// Gives a live share a new life and cap; returns the expiry to show. An
/// unknown, stopped or expired share is left as it is.
pub fn update_share(
    registry: &mut ShareRegistry,
    token: &str,
    ttl: Duration,
    max_downloads: Option<u32>,
    clock: Clock,
) -> (r: Option<u64>)
    requires
        old(registry).wf(),
    ensures
        final(registry).wf(),
        ({
            let m = old(registry)@;
            if m.contains_key(token@) && m[token@].live(clock.now) {
                &&& r == Some(shown_expiry(clock.unix_secs, ttl))
                &&& final(registry)@ == m.insert(
                    token@,
                    reconfigured(m[token@], ttl, max_downloads, clock),
                )
            } else {
                &&& r is None
                &&& final(registry)@ == m
            }
        }),
{
    let key = token.to_owned();
    let ghost m = registry@;
    match registry.shares.get_mut(&key) {
        Some(s) => {
            if !s.is_live(clock.now) {
                proof {
                    assert(m.insert(token@, m[token@]) =~= m);
                }
                return None;
            }
            s.created = clock.now;
            s.ttl = ttl;
            s.max_downloads = max_downloads;
            s.expires_at_secs = clock.unix_secs.saturating_add(ttl.as_secs());
            Some(s.expires_at_secs)
        },
        None => None,
    }
}

/// The expiry to show for a share.
pub fn share_expiry_secs(registry: &ShareRegistry, token: &str) -> (r: Option<u64>)
    requires
        registry.wf(),
    ensures
        r == if registry@.contains_key(token@) {
            Some(registry@[token@].expires_at_secs)
        } else {
            None
        },
{
    let key = token.to_owned();
    match registry.shares.get(&key) {
        Some(s) => Some(s.expires_at_secs),
        None => None,
    }
}

/// A share with one fetch given back.
pub open spec fn refunded(s: Share) -> Share {
    Share {
        downloads: if s.downloads > 0 {
            (s.downloads - 1) as u32
        } else {
            0
        },
        ..s
    }
}

/// Gives one fetch back after a download that could not start.
pub fn refund(registry: &mut ShareRegistry, token: &str)
    requires
        old(registry).wf(),
    ensures
        final(registry).wf(),
        final(registry)@ == if old(registry)@.contains_key(token@) {
            old(registry)@.insert(token@, refunded(old(registry)@[token@]))
        } else {
            old(registry)@
        },
{
    let key = token.to_owned();
    match registry.shares.get_mut(&key) {
        Some(s) => {
            s.downloads = s.downloads.saturating_sub(1);
        },
        None => {},
    }
}

// ── listing ───────────────────────────────────────────────────────────────

/// A live share as the shares view shows it.
#[derive(Debug)]
pub struct ShareInfo {
    pub token: String,
    pub file_count: usize,
    pub total_size: u64,
    pub expires_at_secs: u64,
    /// How often the whole set was fetched.
    pub downloads: u32,
    /// The cap per file.
    pub max_downloads: Option<u32>,
}

/// Latest expiry first, ties by token.
impl Ranked for ShareInfo {
    open spec fn rank_le(a: Self, b: Self) -> bool {
        a.expires_at_secs > b.expires_at_secs || (a.expires_at_secs == b.expires_at_secs && lex_le(
            a.token@,
            b.token@,
        ))
    }

    fn leq(a: &Self, b: &Self) -> (r: bool) {
        if a.expires_at_secs != b.expires_at_secs {
            a.expires_at_secs > b.expires_at_secs
        } else {
            let x = chars_of(a.token.as_str());
            let y = chars_of(b.token.as_str());
            lex_leq(x.as_slice(), y.as_slice())
        }
    }

    proof fn rank_total(a: Self, b: Self) {
        lemma_lex_total(a.token@, b.token@);
    }

    proof fn rank_trans(a: Self, b: Self, c: Self) {
        if a.expires_at_secs == b.expires_at_secs && b.expires_at_secs == c.expires_at_secs {
            lemma_lex_trans(a.token@, b.token@, c.token@);
        }
    }
}

/// Whether `info` is how the share `s` is shown.
pub open spec fn describes(info: ShareInfo, s: Share) -> bool {
    &&& info.token@ == s.token@
    &&& info.file_count == s.files@.len()
    &&& info.total_size == total_size(s.files@)
    &&& info.expires_at_secs == s.expires_at_secs
    &&& info.downloads == s.whole_sets()
    &&& info.max_downloads == s.max_downloads
}

/// The list of the live shares: each of them once, in order.
pub open spec fn lists(infos: Seq<ShareInfo>, m: Map<Seq<char>, Share>, now: Instant) -> bool {
    &&& ascending(infos)
    &&& forall|i: int|
        0 <= i < infos.len() ==> m.contains_key((#[trigger] infos[i]).token@)
            && m[infos[i].token@].live(now) && describes(infos[i], m[infos[i].token@])
    &&& forall|i: int, j: int|
        0 <= i < j < infos.len() ==> (#[trigger] infos[i]).token@ != (#[trigger] infos[j]).token@
    &&& forall|t: Seq<char>| #[trigger]
        m.contains_key(t) && m[t].live(now) ==> exists|i: int|
            0 <= i < infos.len() && (#[trigger] infos[i]).token@ == t
}

fn sum_sizes(files: &Vec<ShareFile>) -> (n: u64)
    requires
        total_size(files@) <= u64::MAX,
    ensures
        n == total_size(files@),
{
    let mut n: u64 = 0;
    for i in 0..files.len()
        invariant
            total_size(files@) <= u64::MAX,
            n == total_size(files@.subrange(0, i as int)),
    {
        proof {
            assert(files@.subrange(0, i + 1).drop_last() =~= files@.subrange(0, i as int));
            assert(files@.subrange(0, i + 1).last() == files@[i as int]);
            lemma_total_size_prefix(files@, i + 1);
        }
        n = n + files[i].size;
    }
    proof {
        assert(files@.subrange(0, files@.len() as int) =~= files@);
    }
    n
}

proof fn lemma_total_size_prefix(files: Seq<ShareFile>, n: int)
    requires
        0 <= n <= files.len(),
    ensures
        total_size(files.subrange(0, n)) <= total_size(files),
    decreases files.len(),
{
    if n == files.len() {
        assert(files.subrange(0, n) =~= files);
    } else {
        lemma_total_size_prefix(files.drop_last(), n);
        assert(files.drop_last().subrange(0, n) =~= files.subrange(0, n));
    }
}

fn describe(s: &Share) -> (info: ShareInfo)
    requires
        s.wf(),
    ensures
        describes(info, *s),
{
    let count: u32 = s.files.len() as u32;
    ShareInfo {
        token: s.token.clone(),
        file_count: s.files.len(),
        total_size: sum_sizes(&s.files),
        expires_at_secs: s.expires_at_secs,
        downloads: s.downloads / count,
        max_downloads: s.max_downloads,
    }
}

/// The shares that are neither stopped nor expired, spent ones among them.
pub fn list_shares(registry: &ShareRegistry, now: Instant) -> (r: Vec<ShareInfo>)
    requires
        registry.wf(),
    ensures
        lists(r@, registry@, now),
{
    let entries = &registry.shares.entries;
    let ghost m = registry@;
    let n: usize = entries.len();
    let mut out: Vec<ShareInfo> = Vec::new();
    for i in 0..n
        invariant
            n == entries@.len(),
            entries@ == registry.shares.entries@,
            m == registry@,
            registry.wf(),
            forall|k: int|
                0 <= k < out@.len() ==> m.contains_key((#[trigger] out@[k]).token@)
                    && m[out@[k].token@].live(now) && describes(out@[k], m[out@[k].token@]),
            forall|k: int|
                0 <= k < out@.len() ==> exists|e: int|
                    0 <= e < i && (#[trigger] entries@[e]).0@ == (#[trigger] out@[k]).token@,
            forall|a: int, b: int|
                0 <= a < b < out@.len() ==> (#[trigger] out@[a]).token@ != (
                #[trigger] out@[b]).token@,
            forall|e: int|
                0 <= e < i && (#[trigger] entries@[e]).1.live(now) ==> exists|k: int|
                    0 <= k < out@.len() && (#[trigger] out@[k]).token@ == entries@[e].0@,
    {
        let s = &entries[i].1;
        proof {
            lemma_entry(entries@, i as int);
            assert(m.contains_key(entries@[i as int].0@));
        }
        if s.is_live(now) {
            let ghost before = out@;
            let info = describe(s);
            let ghost shown = info;
            out.push(info);
            proof {
                assert(shown.token@ == entries@[i as int].0@);
                assert forall|k: int| 0 <= k < out@.len() implies exists|e: int|
                    0 <= e < i + 1 && (#[trigger] entries@[e]).0@ == (
                    #[trigger] out@[k]).token@ by {
                    if k < before.len() {
                        assert(out@[k] == before[k]);
                        let e = choose|e: int|
                            0 <= e < i && (#[trigger] entries@[e]).0@ == before[k].token@;
                        assert(entries@[e].0@ == out@[k].token@);
                    } else {
                        assert(entries@[i as int].0@ == out@[k].token@);
                    }
                }
                assert forall|a: int, b: int| 0 <= a < b < out@.len() implies (
                #[trigger] out@[a]).token@ != (#[trigger] out@[b]).token@ by {
                    assert(out@[a] == before[a]);
                    if b < before.len() {
                        assert(out@[b] == before[b]);
                    } else {
                        let e = choose|e: int|
                            0 <= e < i && (#[trigger] entries@[e]).0@ == before[a].token@;
                        assert(entries@[e].0@ != entries@[i as int].0@);
                    }
                }
                assert forall|e: int|
                    0 <= e < i + 1 && (#[trigger] entries@[e]).1.live(now) implies exists|k: int|
                    0 <= k < out@.len() && (#[trigger] out@[k]).token@ == entries@[e].0@ by {
                    if e < i {
                        let k = choose|k: int|
                            0 <= k < before.len() && (#[trigger] before[k]).token@
                                == entries@[e].0@;
                        assert(out@[k].token@ == entries@[e].0@);
                    } else {
                        assert(out@[before.len() as int].token@ == entries@[e].0@);
                    }
                }
            }
        }
    }
    let ghost whole = out@;
    proof {
        assert(whole.no_duplicates());
        law_ranked_sorts(whole);
        lemma_ranked_members(whole);
        assert forall|t: Seq<char>| #[trigger]
            m.contains_key(t) && m[t].live(now) implies exists|k: int|
            0 <= k < whole.len() && (#[trigger] whole[k]).token@ == t by {
            let e = crate::keymap::key_index(entries@, t);
            lemma_entry(entries@, e);
            assert(entries@[e].1.live(now));
        }
    }
    let r = sort(out);
    proof {
        assert forall|i: int| 0 <= i < r@.len() implies m.contains_key((#[trigger] r@[i]).token@)
            && m[r@[i].token@].live(now) && describes(r@[i], m[r@[i].token@]) by {
            assert(r@.contains(r@[i]));
            assert(whole.contains(r@[i]));
            let k = choose|k: int| 0 <= k < whole.len() && whole[k] == r@[i];
            assert(whole[k] == r@[i]);
        }
        assert forall|i: int, j: int| 0 <= i < j < r@.len() implies (#[trigger] r@[i]).token@ != (
        #[trigger] r@[j]).token@ by {
            assert(r@.contains(r@[i]) && r@.contains(r@[j]));
            assert(whole.contains(r@[i]) && whole.contains(r@[j]));
            let a = choose|k: int| 0 <= k < whole.len() && whole[k] == r@[i];
            let b = choose|k: int| 0 <= k < whole.len() && whole[k] == r@[j];
            assert(whole[a] == r@[i] && whole[b] == r@[j]);
            assert(r@[i] != r@[j]);
            if a < b {
                assert(whole[a].token@ != whole[b].token@);
            } else {
                assert(whole[b].token@ != whole[a].token@);
            }
        }
        assert forall|t: Seq<char>| #[trigger]
            m.contains_key(t) && m[t].live(now) implies exists|i: int|
            0 <= i < r@.len() && (#[trigger] r@[i]).token@ == t by {
            let k = choose|k: int| 0 <= k < whole.len() && (#[trigger] whole[k]).token@ == t;
            assert(whole.contains(whole[k]));
            assert(r@.contains(whole[k]));
            let i = choose|i: int| 0 <= i < r@.len() && r@[i] == whole[k];
            assert(r@[i].token@ == t);
        }
    }
    r
}

pub open spec fn any_serveable(m: Map<Seq<char>, Share>, now: Instant) -> bool {
    exists|t: Seq<char>| #[trigger] m.contains_key(t) && m[t].serveable(now)
}

/// Whether some share would serve a request now.
pub fn has_active_share(registry: &ShareRegistry, now: Instant) -> (r: bool)
    requires
        registry.wf(),
    ensures
        r == any_serveable(registry@, now),
{
    let entries = &registry.shares.entries;
    for i in 0..entries.len()
        invariant
            entries@ == registry.shares.entries@,
            registry.wf(),
            forall|e: int| 0 <= e < i ==> !(#[trigger] entries@[e]).1.serveable(now),
    {
        proof {
            lemma_entry(entries@, i as int);
            assert(registry@.contains_key(entries@[i as int].0@));
        }
        if entries[i].1.check(now).is_ok() {
            proof {
                assert(registry@[entries@[i as int].0@].serveable(now));
            }
            return true;
        }
    }
    proof {
        assert forall|t: Seq<char>| #[trigger] registry@.contains_key(t) implies !registry@[t].serveable(
            now,
        ) by {
            let e = crate::keymap::key_index(entries@, t);
            lemma_entry(entries@, e);
            assert(!entries@[e].1.serveable(now));
        }
    }
    false
}

// ── requests ──────────────────────────────────────────────────────────────

/// A complete answer to a request.
#[derive(Debug)]
pub struct Reply {
    pub status: u16,
    /// The target of a redirect.
    pub location: Option<String>,
    /// An HTML document, empty for a redirect.
    pub body: String,
}

impl Reply {
    pub fn status(&self) -> (s: u16)
        ensures
            s == self.status,
    {
        self.status
    }

    pub open spec fn is_page(self, status: u16, body: Seq<char>) -> bool {
        self.status == status && self.location is None && self.body@ == body
    }
}

pub const NOT_FOUND_TEXT: &'static str = "This share link is invalid or the file no longer exists.";

pub const GONE_TEXT: &'static str = "This share is no longer available — it was stopped, expired, or hit its download limit.";

pub const INTERNAL_TEXT: &'static str = "Something went wrong serving this share.";

pub open spec fn denied_status(d: Denied) -> u16 {
    match d {
        Denied::NotFound => 404,
        Denied::Gone => 410,
    }
}

pub open spec fn denied_body(d: Denied) -> Seq<char> {
    match d {
        Denied::NotFound => message_text(NOT_FOUND_TEXT@),
        Denied::Gone => message_text(GONE_TEXT@),
    }
}

/// The page for a refused request.
pub fn denied(d: Denied) -> (r: Reply)
    ensures
        r.is_page(denied_status(d), denied_body(d)),
{
    match d {
        Denied::NotFound => Reply {
            status: 404,
            location: None,
            body: message_page(NOT_FOUND_TEXT),
        },
        Denied::Gone => Reply { status: 410, location: None, body: message_page(GONE_TEXT) },
    }
}

/// The page for a failure of the server itself.
pub fn internal_error() -> (r: Reply)
    ensures
        r.is_page(500, message_text(INTERNAL_TEXT@)),
{
    Reply { status: 500, location: None, body: message_page(INTERNAL_TEXT) }
}

/// A redirect to `location`.
pub fn redirect_to(location: &str) -> (r: Reply)
    ensures
        r.status == 302,
        r.location matches Some(l) && l@ == location@,
        r.body@.len() == 0,
{
    Reply { status: 302, location: Some(location.to_owned()), body: String::new() }
}

/// The names and sizes of the files of a share.
pub open spec fn listing(files: Seq<ShareFile>) -> Seq<(Seq<char>, nat)> {
    files.map_values(|f: ShareFile| (f.name@, f.size as nat))
}

fn name_listing(files: &Vec<ShareFile>) -> (r: Vec<(String, u64)>)
    ensures
        shown_files(r@) == listing(files@),
{
    let mut r: Vec<(String, u64)> = Vec::new();
    for i in 0..files.len()
        invariant
            r@.len() == i,
            forall|k: int|
                0 <= k < i ==> (#[trigger] r@[k]).0@ == files@[k].name@ && r@[k].1
                    == files@[k].size,
    {
        r.push((files[i].name.clone(), files[i].size));
    }
    proof {
        assert(shown_files(r@) =~= listing(files@));
    }
    r
}

/// The answer to a request for the share itself: a share of one file leads
/// straight to it, any other to a page with a link for every file. It never
/// counts as a fetch.
pub fn landing(registry: &ShareRegistry, token: &str, now: Instant) -> (r: Reply)
    requires
        registry.wf(),
    ensures
        if !registry@.contains_key(token@) {
            r.is_page(404, denied_body(Denied::NotFound))
        } else if !registry@[token@].serveable(now) {
            r.is_page(410, denied_body(Denied::Gone))
        } else if registry@[token@].files@.len() == 1 {
            &&& r.status == 302
            &&& r.location matches Some(l) && l@ == "/s/"@ + token@ + "/0"@
            &&& r.body@.len() == 0
        } else {
            r.is_page(200, landing_text(token@, listing(registry@[token@].files@)))
        },
{
    let key = token.to_owned();
    let share = match registry.shares.get(&key) {
        Some(s) => s,
        None => {
            return denied(Denied::NotFound);
        },
    };
    match share.check(now) {
        Ok(()) => {},
        Err(d) => {
            return denied(d);
        },
    }
    if share.files.len() == 1 {
        let mut target = concat("/s/", token);
        target.append("/0");
        return redirect_to(target.as_str());
    }
    let names = name_listing(&share.files);
    let body = render_landing(token, names.as_slice());
    Reply { status: 200, location: None, body }
}

/// What is announced of one fetched file.
#[derive(Debug, Clone)]
pub struct ShareDownloadEvent {
    pub token: String,
    pub index: u32,
    pub name: String,
    pub size: u64,
    /// How often the whole set was fetched.
    pub downloads: u32,
    pub max_downloads: Option<u32>,
    pub file_count: usize,
    pub peer_ip: String,
}

/// The next step of a request for one file.
#[derive(Debug)]
pub enum DownloadPlan {
    Refuse(Denied),
    /// Send the headers only.
    Head { name: String, size: u64 },
    /// Open the file at `path`; the fetch is already counted.
    Open { path: String, name: String, size: u64, event: ShareDownloadEvent },
}

/// A share with one more fetch counted.
pub open spec fn reserved(s: Share) -> Share {
    Share { downloads: (s.downloads + 1) as u32, ..s }
}

/// Whether `ev` announces the fetch of file `index` of `s`, already counted.
pub open spec fn announces(
    ev: ShareDownloadEvent,
    s: Share,
    index: u32,
    peer_ip: Seq<char>,
) -> bool {
    &&& ev.token@ == s.token@
    &&& ev.index == index
    &&& ev.name@ == s.files@[index as int].name@
    &&& ev.size == s.files@[index as int].size
    &&& ev.downloads == s.whole_sets()
    &&& ev.max_downloads == s.max_downloads
    &&& ev.file_count == s.files@.len()
    &&& ev.peer_ip@ == peer_ip
}

/// The first half of a request for one file: all checks, and the count of a
/// fetch, in one step. A request for the headers counts nothing.
pub fn begin_download(
    registry: &mut ShareRegistry,
    token: &str,
    index: u32,
    is_head: bool,
    now: Instant,
    peer_ip: &str,
) -> (plan: DownloadPlan)
    requires
        old(registry).wf(),
        old(registry)@.contains_key(token@) && old(registry)@[token@].max_downloads is None
            && !is_head ==> old(registry)@[token@].downloads < u32::MAX,
    ensures
        final(registry).wf(),
        old(registry)@.contains_key(token@) ==> ({
            let s = old(registry)@[token@];
            s.active && s.ttl.nanos > 0 && now.nanos < s.created.nanos + s.ttl.nanos && !s.spent()
                && index < s.files@.len() <==> !(plan is Refuse)
        }),
        ({
            let m = old(registry)@;
            let s = m[token@];
            if !m.contains_key(token@) {
                plan == DownloadPlan::Refuse(Denied::NotFound) && final(registry)@ == m
            } else if !s.serveable(now) {
                plan == DownloadPlan::Refuse(Denied::Gone) && final(registry)@ == m
            } else if index >= s.files@.len() {
                plan == DownloadPlan::Refuse(Denied::NotFound) && final(registry)@ == m
            } else if is_head {
                &&& plan matches DownloadPlan::Head { name, size } && name@
                    == s.files@[index as int].name@ && size == s.files@[index as int].size
                &&& final(registry)@ == m
            } else {
                &&& plan matches DownloadPlan::Open { path, name, size, event } && path@
                    == s.files@[index as int].path@ && name@ == s.files@[index as int].name@
                    && size == s.files@[index as int].size && announces(
                    event,
                    reserved(s),
                    index,
                    peer_ip@,
                )
                &&& final(registry)@ == m.insert(token@, reserved(s))
            }
        }),
{
    let key = token.to_owned();
    let ghost m = registry@;
    let share = match registry.shares.get_mut(&key) {
        Some(s) => s,
        None => {
            return DownloadPlan::Refuse(Denied::NotFound);
        },
    };
    proof {
        assert(m.insert(token@, m[token@]) =~= m);
    }
    match share.check(now) {
        Ok(()) => {},
        Err(d) => {
            return DownloadPlan::Refuse(d);
        },
    }
    let i: usize = index as usize;
    if i >= share.files.len() {
        return DownloadPlan::Refuse(Denied::NotFound);
    }
    let path = share.files[i].path.clone();
    let name = share.files[i].name.clone();
    let size: u64 = share.files[i].size;
    if is_head {
        return DownloadPlan::Head { name, size };
    }
    share.downloads = share.downloads + 1;
    let file_count: usize = share.files.len();
    let event = ShareDownloadEvent {
        token: share.token.clone(),
        index,
        name: name.clone(),
        size,
        downloads: share.downloads / (file_count as u32),
        max_downloads: share.max_downloads,
        file_count,
        peer_ip: peer_ip.to_owned(),
    };
    DownloadPlan::Open { path, name, size, event }
}

/// What came of opening the file.
#[derive(Debug, Clone, Copy, PartialEq, Eq, Structural)]
pub enum Opened {
    /// The file could not be opened.
    Failed,
    /// The file is open, and its length is known.
    Length(u64),
    /// The file is open, but its length could not be read.
    UnknownLength,
}

/// The second half of a request for one file: the length to announce, or a
/// refusal that gives the fetch back.
pub fn finish_download(
    registry: &mut ShareRegistry,
    token: &str,
    size: u64,
    opened: Opened,
) -> (r: std::result::Result<u64, Denied>)
    requires
        old(registry).wf(),
    ensures
        final(registry).wf(),
        match opened {
            Opened::Failed => {
                &&& r == Err::<u64, Denied>(Denied::NotFound)
                &&& final(registry)@ == if old(registry)@.contains_key(token@) {
                    old(registry)@.insert(token@, refunded(old(registry)@[token@]))
                } else {
                    old(registry)@
                }
            },
            Opened::Length(n) => r == Ok::<u64, Denied>(n) && final(registry)@ == old(registry)@,
            Opened::UnknownLength => r == Ok::<u64, Denied>(size) && final(registry)@ == old(
                registry,
            )@,
        },
{
    match opened {
        Opened::Failed => {
            refund(registry, token);
            Err(Denied::NotFound)
        },
        Opened::Length(n) => Ok(n),
        Opened::UnknownLength => Ok(size),
    }
}

/// The headers of a served file, each with its value.
#[derive(Debug)]
pub struct FileHeaders {
    pub content_type: String,
    pub content_length: String,
    pub content_disposition: String,
}

/// The headers of a file of `len` bytes named `name`, the same for the headers
/// alone and for the file.
pub fn file_headers(len: u64, name: &str) -> (h: FileHeaders)
    ensures
        h.content_type@ == "application/octet-stream"@,
        h.content_length@ == decimal(len as nat),
        h.content_disposition@ == disposition(name@),
{
    FileHeaders {
        content_type: "application/octet-stream".to_owned(),
        content_length: decimal_string(len),
        content_disposition: content_disposition(name),
    }
}

// ── laws ──────────────────────────────────────────────────────────────────

/// A share that is stopped or has expired stays so: at no later time does it
/// serve again, so the sweep only drops shares that never would.
pub proof fn law_dead_share_stays_dead(s: Share, now: Instant, later: Instant)
    requires
        !s.live(now),
        now.nanos <= later.nanos,
    ensures
        !s.live(later),
        !s.serveable(later),
{
}

/// The sweep keeps every share that would serve now.
pub proof fn law_sweep_keeps_serveable(m: Map<Seq<char>, Share>, t: Seq<char>, now: Instant)
    requires
        m.contains_key(t),
        m[t].serveable(now),
    ensures
        kept(m, |s: Share| s.live(now)).contains_key(t),
        kept(m, |s: Share| s.live(now))[t] == m[t],
{
}

/// Giving a fetch back after counting it leaves the share as it was.
pub proof fn law_refund_undoes_reservation(s: Share)
    requires
        s.downloads < u32::MAX,
    ensures
        refunded(reserved(s)) == s,
{
}

/// A fetch is only counted within the budget: after it the count is still no
/// more than the cap times the number of files.
pub proof fn law_budget_is_never_exceeded(s: Share, now: Instant)
    requires
        s.serveable(now),
        s.downloads < u32::MAX,
    ensures
        s.max_downloads matches Some(n) ==> reserved(s).downloads <= reserved(s).budget(n)
            && reserved(s).downloads <= n * (if s.files@.len() == 0 {
            1
        } else {
            s.files@.len()
        }),
{
}

/// Within the budget, the whole set is never reported as fetched more often
/// than the cap.
pub proof fn law_whole_sets_within_cap(s: Share)
    requires
        s.wf(),
        s.max_downloads is Some,
        s.downloads <= s.budget(s.max_downloads->0),
    ensures
        s.whole_sets() <= s.max_downloads->0,
{
    let n = s.max_downloads->0 as int;
    let k = s.files@.len() as int;
    let d = s.downloads as int;
    assert(d <= n * k);
    assert(d / k <= n) by (nonlinear_arith)
        requires
            d <= n * k,
            k >= 1,
            d >= 0,
    ;
}

/// A cap of `n` on `k` files serves exactly `n * k` fetches: while fewer are
/// counted a live share serves, and from then on it does not.
pub proof fn law_cap_is_per_file(s: Share, now: Instant, n: u32)
    requires
        s.live(now),
        s.files@.len() >= 1,
        n * s.files@.len() <= u32::MAX,
        s.max_downloads == Some(n),
    ensures
        s.serveable(now) <==> s.downloads < n * s.files@.len(),
{
}

/// A share only ever serves the files it was made with: no change to a share
/// touches them.
pub proof fn law_files_never_change(
    s: Share,
    ttl: Duration,
    max_downloads: Option<u32>,
    clock: Clock,
)
    ensures
        reserved(s).files == s.files,
        refunded(s).files == s.files,
        (Share { active: false, ..s }).files == s.files,
        reconfigured(s, ttl, max_downloads, clock).files == s.files,
{
}

/// A new life begins at once; it keeps the token, the files and the count.
pub proof fn law_reconfiguring_keeps_files_and_count(
    s: Share,
    ttl: Duration,
    max_downloads: Option<u32>,
    clock: Clock,
)
    ensures
        reconfigured(s, ttl, max_downloads, clock).files@ == s.files@,
        reconfigured(s, ttl, max_downloads, clock).downloads == s.downloads,
        reconfigured(s, ttl, max_downloads, clock).token@ == s.token@,
        s.active && ttl.nanos > 0 ==> reconfigured(s, ttl, max_downloads, clock).live(clock.now),
{
}

} // verus!
