//! Content access and rate limiter: posts with gating flags, at-most-once
//! interactions with explicit counters, authorized-viewer overrides, a report
//! threshold that soft-deletes abusive posts, and per-(principal, post-type)
//! cooldowns derived from a marker substring in the metadata payload.

use vstd::prelude::*;
use vstd::string::StringSliceAdditionalSpecFns;

use crate::errors::ContractError;
use crate::oracle::EntitlementOracle;
use crate::tribe_controller::{MemberStatus, TribeController};

verus! {

pub const DEFAULT_ADMIN_ROLE: &'static str = "DEFAULT_ADMIN_ROLE";

pub const RATE_LIMIT_MANAGER_ROLE: &'static str = "RATE_LIMIT_MANAGER_ROLE";

pub const PROJECT_CREATOR_ROLE: &'static str = "PROJECT_CREATOR_ROLE";

/// A post is soft-deleted once this many distinct principals report it.
pub const REPORT_THRESHOLD: u64 = 5;

/// At most this many posts per batch call.
pub const MAX_BATCH_POSTS: u64 = 5;

pub const BATCH_POST_COOLDOWN: u64 = 300;

#[allow(non_camel_case_types)]
#[derive(Clone, Copy, Debug, PartialEq, Eq, Structural)]
pub enum PostType {
    TEXT,
    RICH_MEDIA,
    EVENT,
    POLL,
    PROJECT_UPDATE,
    COMMUNITY_UPDATE,
    ENCRYPTED,
}

#[allow(non_camel_case_types)]
#[derive(Clone, Copy, Debug, PartialEq, Eq, Structural)]
pub enum InteractionType {
    LIKE,
    DISLIKE,
    SHARE,
    REPORT,
    REPLY,
}

/// One post: creator, owning community, payload, gating flags, optional
/// entitlement reference and access signer, parent id (0 = root) and the
/// sticky soft-delete flag.
pub struct PostData {
    pub id: u64,
    pub creator: String,
    pub tribe_id: u64,
    pub metadata: String,
    pub is_gated: bool,
    pub collectible_contract: Option<String>,
    pub collectible_id: u64,
    pub is_encrypted: bool,
    pub encryption_key_hash: Option<String>,
    pub access_signer: Option<String>,
    pub parent_post_id: u64,
    pub created_at: u64,
    pub is_deleted: bool,
}

pub ghost struct PostDataV {
    pub id: u64,
    pub creator: Seq<char>,
    pub tribe_id: u64,
    pub metadata: Seq<char>,
    pub is_gated: bool,
    pub collectible_contract: Option<Seq<char>>,
    pub collectible_id: u64,
    pub is_encrypted: bool,
    pub encryption_key_hash: Option<Seq<char>>,
    pub access_signer: Option<Seq<char>>,
    pub parent_post_id: u64,
    pub created_at: u64,
    pub is_deleted: bool,
}

impl View for PostData {
    type V = PostDataV;

    open spec fn view(&self) -> PostDataV {
        PostDataV {
            id: self.id,
            creator: self.creator@,
            tribe_id: self.tribe_id,
            metadata: self.metadata@,
            is_gated: self.is_gated,
            collectible_contract: match self.collectible_contract {
                Some(c) => Some(c@),
                None => None,
            },
            collectible_id: self.collectible_id,
            is_encrypted: self.is_encrypted,
            encryption_key_hash: match self.encryption_key_hash {
                Some(h) => Some(h@),
                None => None,
            },
            access_signer: match self.access_signer {
                Some(a) => Some(a@),
                None => None,
            },
            parent_post_id: self.parent_post_id,
            created_at: self.created_at,
            is_deleted: self.is_deleted,
        }
    }
}

/// One batch item: payload, gating, optional entitlement reference, and the
/// declared post type the payload must structurally match.
pub struct BatchPostData {
    pub metadata: String,
    pub is_gated: bool,
    pub collectible_contract: Option<String>,
    pub collectible_id: u64,
    pub post_type: PostType,
}

pub struct BoolResponse {
    pub result: bool,
}

pub struct GetPostResponse {
    pub id: u64,
    pub creator: String,
    pub tribe_id: u64,
    pub metadata: String,
    pub is_gated: bool,
    pub collectible_contract: Option<String>,
    pub collectible_id: u64,
    pub is_encrypted: bool,
    pub access_signer: Option<String>,
}

pub struct InteractionCountResponse {
    pub count: u64,
}

pub struct PostRepliesResponse {
    pub replies: Vec<u64>,
}

pub struct StringResponse {
    pub value: String,
}

pub struct PostsResponse {
    pub posts: Vec<u64>,
    pub total: u64,
}

pub struct CooldownResponse {
    pub cooldown: u64,
}

pub struct BatchLimitsResponse {
    pub max_batch_size: u64,
    pub batch_cooldown: u64,
}

/// Query shapes consumed from the neighbouring components.
pub enum RoleManagerQuery {
    HasRole { user: String, role: String },
}

pub enum TribeControllerQuery {
    GetMemberStatus { tribe_id: u64, member: String },
    GetTribeAdmin { tribe_id: u64 },
}

pub struct MemberStatusResponse {
    pub status: MemberStatus,
}

pub struct TribeAdminResponse {
    pub admin: String,
}

pub enum CollectibleControllerQuery {
    GetCollectible { collectible_id: u64 },
    BalanceOf { account: String, id: u64 },
}

pub struct CollectibleResponse {
    pub is_active: bool,
}

pub struct BalanceResponse {
    pub balance: u128,
}

/// Whether `m` holds `marker` as a contiguous byte substring.
pub open spec fn contains_marker(h: Seq<u8>, m: Seq<u8>) -> bool {
    exists|i: int| 0 <= i && i + m.len() <= h.len() && (#[trigger] h.subrange(i, i + m.len())) == m
}

/// Whether `m` matches `h` at offset `i`.
fn matches_at(h: &[u8], m: &[u8], i: usize) -> (r: bool)
    requires
        i + m@.len() <= h@.len(),
    ensures
        r == (h@.subrange(i as int, i + m@.len()) == m@),
{
    let hn = h.len();
    let mn = m.len();
    let mut j: usize = 0;
    while j < m.len()
        invariant
            j <= m@.len(),
            hn == h@.len(),
            mn == m@.len(),
            forall|k: int| 0 <= k < j ==> h@[i + k] == m@[k],
        decreases m@.len() - j,
    {
        if h[i + j] != m[j] {
            proof {
                assert(h@.subrange(i as int, i + m@.len())[j as int] == h@[i + j]);
            }
            return false;
        }
        j = j + 1;
    }
    proof {
        assert(h@.subrange(i as int, i + m@.len()) =~= m@);
    }
    true
}

/// Byte-level substring search.
fn contains_bytes(h: &[u8], m: &[u8]) -> (r: bool)
    ensures
        r == contains_marker(h@, m@),
{
    if m.len() > h.len() {
        return false;
    }
    if m.len() == 0 {
        proof {
            let ml = m@.len() as int;
            assert(h@.subrange(0, 0 + ml) =~= m@);
            assert(contains_marker(h@, m@));
        }
        return true;
    }
    let mut i: usize = 0;
    while i <= h.len() - m.len()
        invariant
            m@.len() <= h@.len(),
            i <= h@.len() - m@.len() + 1,
            forall|k: int| 0 <= k < i ==> (#[trigger] h@.subrange(k, k + m@.len())) != m@,
        decreases h@.len() - m@.len() + 1 - i,
    {
        if matches_at(h, m, i) {
            return true;
        }
        i = i + 1;
    }
    false
}

pub open spec fn marker_event() -> Seq<u8> {
    "\"type\":\"EVENT\"".spec_bytes()
}

pub open spec fn marker_rich_media() -> Seq<u8> {
    "\"type\":\"RICH_MEDIA\"".spec_bytes()
}

pub open spec fn marker_project() -> Seq<u8> {
    "\"type\":\"PROJECT\"".spec_bytes()
}

pub open spec fn marker_project_update() -> Seq<u8> {
    "\"type\":\"PROJECT_UPDATE\"".spec_bytes()
}

pub open spec fn marker_poll() -> Seq<u8> {
    "\"type\":\"POLL\"".spec_bytes()
}

pub open spec fn marker_community_update() -> Seq<u8> {
    "\"type\":\"COMMUNITY_UPDATE\"".spec_bytes()
}

pub open spec fn marker_encrypted() -> Seq<u8> {
    "\"type\":\"ENCRYPTED\"".spec_bytes()
}

/// The post type a payload carries, decided by the first matching marker of
/// the fixed vocabulary; plain text is the default.
pub open spec fn spec_post_type(m: Seq<u8>) -> PostType {
    if contains_marker(m, marker_event()) {
        PostType::EVENT
    } else if contains_marker(m, marker_rich_media()) {
        PostType::RICH_MEDIA
    } else if contains_marker(m, marker_project()) || contains_marker(m, marker_project_update()) {
        PostType::PROJECT_UPDATE
    } else if contains_marker(m, marker_poll()) {
        PostType::POLL
    } else if contains_marker(m, marker_community_update()) {
        PostType::COMMUNITY_UPDATE
    } else if contains_marker(m, marker_encrypted()) {
        PostType::ENCRYPTED
    } else {
        PostType::TEXT
    }
}

/// Derives the post type from the payload's marker substring.
pub fn determine_post_type(metadata: &str) -> (pt: PostType)
    ensures
        pt == spec_post_type(metadata.spec_bytes()),
{
    let b = metadata.as_bytes();
    if contains_bytes(b, "\"type\":\"EVENT\"".as_bytes()) {
        PostType::EVENT
    } else if contains_bytes(b, "\"type\":\"RICH_MEDIA\"".as_bytes()) {
        PostType::RICH_MEDIA
    } else if contains_bytes(b, "\"type\":\"PROJECT\"".as_bytes()) {
        PostType::PROJECT_UPDATE
    } else if contains_bytes(b, "\"type\":\"PROJECT_UPDATE\"".as_bytes()) {
        PostType::PROJECT_UPDATE
    } else if contains_bytes(b, "\"type\":\"POLL\"".as_bytes()) {
        PostType::POLL
    } else if contains_bytes(b, "\"type\":\"COMMUNITY_UPDATE\"".as_bytes()) {
        PostType::COMMUNITY_UPDATE
    } else if contains_bytes(b, "\"type\":\"ENCRYPTED\"".as_bytes()) {
        PostType::ENCRYPTED
    } else {
        PostType::TEXT
    }
}

/// The structural rule a payload must meet for its declared type: a length
/// between 10 and 5000 bytes, and the type's own marker where one is required.
pub open spec fn spec_valid_metadata(m: Seq<u8>, pt: PostType) -> bool {
    &&& 10 <= m.len() <= 5000
    &&& match pt {
        PostType::EVENT => contains_marker(m, marker_event()),
        PostType::RICH_MEDIA => contains_marker(m, marker_rich_media()),
        PostType::PROJECT_UPDATE => contains_marker(m, marker_project_update()),
        _ => true,
    }
}

/// Validates a payload against its declared type's structural rules.
#[allow(non_snake_case)]
pub fn validateMetadata(metadata: &str, post_type: &PostType) -> (r: bool)
    ensures
        r == spec_valid_metadata(metadata.spec_bytes(), *post_type),
{
    let b = metadata.as_bytes();
    if b.len() < 10 || b.len() > 5000 {
        return false;
    }
    match post_type {
        PostType::EVENT => contains_bytes(b, "\"type\":\"EVENT\"".as_bytes()),
        PostType::RICH_MEDIA => contains_bytes(b, "\"type\":\"RICH_MEDIA\"".as_bytes()),
        PostType::PROJECT_UPDATE => contains_bytes(b, "\"type\":\"PROJECT_UPDATE\"".as_bytes()),
        _ => true,
    }
}

/// The batch posting caps: items per call and the batch window.
#[allow(non_snake_case)]
pub fn getBatchPostingLimits() -> (r: BatchLimitsResponse)
    ensures
        r.max_batch_size == MAX_BATCH_POSTS,
        r.batch_cooldown == BATCH_POST_COOLDOWN,
{
    BatchLimitsResponse { max_batch_size: MAX_BATCH_POSTS, batch_cooldown: BATCH_POST_COOLDOWN }
}

} // verus!
verus! {

/// The bytes a payload string carries.
pub open spec fn md_bytes(m: Seq<char>) -> Seq<u8> {
    vstd::utf8::encode_utf8(m)
}

pub open spec fn inter_matches(
    e: (u64, String, InteractionType),
    p: u64,
    u: Seq<char>,
    k: InteractionType,
) -> bool {
    e.0 == p && e.1@ == u && e.2 == k
}

/// Whether an interaction record exists for (post, principal, kind).
pub open spec fn has_inter(
    s: Seq<(u64, String, InteractionType)>,
    p: u64,
    u: Seq<char>,
    k: InteractionType,
) -> bool
    decreases s.len(),
{
    if s.len() == 0 {
        false
    } else {
        inter_matches(s.last(), p, u, k) || has_inter(s.drop_last(), p, u, k)
    }
}

pub open spec fn inter_contrib(e: (u64, String, InteractionType), p: u64, k: InteractionType) -> nat {
    if e.0 == p && e.2 == k {
        1nat
    } else {
        0nat
    }
}

/// How many interaction records exist for (post, kind): one per distinct
/// principal, since records are at-most-once.
pub open spec fn count_inter(
    s: Seq<(u64, String, InteractionType)>,
    p: u64,
    k: InteractionType,
) -> nat
    decreases s.len(),
{
    if s.len() == 0 {
        0
    } else {
        count_inter(s.drop_last(), p, k) + inter_contrib(s.last(), p, k)
    }
}

proof fn lemma_inter_push(
    s: Seq<(u64, String, InteractionType)>,
    e: (u64, String, InteractionType),
    p: u64,
    k: InteractionType,
)
    ensures
        count_inter(s.push(e), p, k) == count_inter(s, p, k) + inter_contrib(e, p, k),
        forall|u: Seq<char>|
            #[trigger] has_inter(s.push(e), p, u, k) == (inter_matches(e, p, u, k) || has_inter(
                s,
                p,
                u,
                k,
            )),
{
    assert(s.push(e).drop_last() =~= s);
    assert(s.push(e).last() == e);
}

proof fn lemma_inter_le(s: Seq<(u64, String, InteractionType)>, p: u64, k: InteractionType)
    ensures
        count_inter(s, p, k) <= s.len(),
    decreases s.len(),
{
    if s.len() > 0 {
        lemma_inter_le(s.drop_last(), p, k);
    }
}

proof fn lemma_inter_zero(s: Seq<(u64, String, InteractionType)>, p: u64, k: InteractionType)
    requires
        forall|i: int| 0 <= i < s.len() ==> (#[trigger] s[i]).0 != p,
    ensures
        count_inter(s, p, k) == 0,
        forall|u: Seq<char>| !has_inter(s, p, u, k),
    decreases s.len(),
{
    if s.len() > 0 {
        assert(forall|i: int| 0 <= i < s.drop_last().len() ==> (#[trigger] s.drop_last()[i]).0 != p);
        lemma_inter_zero(s.drop_last(), p, k);
        assert(s.last() == s[s.len() - 1]);
        assert forall|u: Seq<char>| !has_inter(s, p, u, k) by {
            assert(!has_inter(s.drop_last(), p, u, k));
            assert(!inter_matches(s.last(), p, u, k));
        }
    }
}

/// The stored counter for (post, kind); 0 when none was recorded yet. Later
/// entries are shadowed by earlier ones.
pub open spec fn count_val_of(s: Seq<(u64, InteractionType, u64)>, p: u64, k: InteractionType) -> u64
    decreases s.len(),
{
    if s.len() == 0 {
        0
    } else if s[0].0 == p && s[0].1 == k {
        s[0].2
    } else {
        count_val_of(s.drop_first(), p, k)
    }
}

/// The last recorded posting time for (principal, post type), if any.
pub open spec fn last_time_of(s: Seq<(String, PostType, u64)>, u: Seq<char>, pt: PostType) -> Option<
    u64,
>
    decreases s.len(),
{
    if s.len() == 0 {
        None
    } else if s[0].0@ == u && s[0].1 == pt {
        Some(s[0].2)
    } else {
        last_time_of(s.drop_first(), u, pt)
    }
}

/// The configured cooldown seconds for a post type; 0 when unset.
pub open spec fn cooldown_of(s: Seq<(PostType, u64)>, pt: PostType) -> u64
    decreases s.len(),
{
    if s.len() == 0 {
        0
    } else if s[0].0 == pt {
        s[0].1
    } else {
        cooldown_of(s.drop_first(), pt)
    }
}

/// The stored key for a keyed string table, first match wins.
pub open spec fn key_of(s: Seq<(u64, String)>, id: u64) -> Option<Seq<char>>
    decreases s.len(),
{
    if s.len() == 0 {
        None
    } else if s[0].0 == id {
        Some(s[0].1@)
    } else {
        key_of(s.drop_first(), id)
    }
}

pub open spec fn role_in(s: Seq<(String, String)>, u: Seq<char>, r: Seq<char>) -> bool
    decreases s.len(),
{
    if s.len() == 0 {
        false
    } else {
        (s.last().0@ == u && s.last().1@ == r) || role_in(s.drop_last(), u, r)
    }
}

pub open spec fn viewer_in(s: Seq<(u64, String)>, p: u64, u: Seq<char>) -> bool
    decreases s.len(),
{
    if s.len() == 0 {
        false
    } else {
        (s.last().0 == p && s.last().1@ == u) || viewer_in(s.drop_last(), p, u)
    }
}

/// Kinds whose stored counter must equal the number of interaction records;
/// reply counters are fed by reply creation instead.
pub open spec fn spec_counted_kind(k: InteractionType) -> bool {
    k != InteractionType::REPLY
}

/// The content store's whole state.
pub struct PostMinter {
    owner: String,
    collectible_controller: String,
    roles: Vec<(String, String)>,
    posts: Vec<PostData>,
    interactions: Vec<(u64, String, InteractionType)>,
    counts: Vec<(u64, InteractionType, u64)>,
    authorized_viewers: Vec<(u64, String)>,
    last_post_time: Vec<(String, PostType, u64)>,
    decryption_keys: Vec<(u64, String, String)>,
    tribe_keys: Vec<(u64, String)>,
    cooldowns: Vec<(PostType, u64)>,
    paused: bool,
}

impl PostMinter {
    /// Post ids are their indexes; interaction records reference stored posts;
    /// each stored counter of a counted kind equals the number of its records;
    /// and the report threshold is sticky: five reports force deletion and a
    /// deleted post takes no further reports.
    pub closed spec fn wf(&self) -> bool {
        &&& forall|i: int|
            0 <= i < self.posts@.len() ==> (#[trigger] self.posts@[i]).id == i as u64
        &&& forall|i: int|
            0 <= i < self.interactions@.len() ==> (#[trigger] self.interactions@[i]).0
                < self.posts@.len()
        &&& forall|p: u64, k: InteractionType|
            spec_counted_kind(k) ==> (#[trigger] count_val_of(self.counts@, p, k)) == count_inter(
                self.interactions@,
                p,
                k,
            )
        &&& forall|p: u64|
            (#[trigger] count_inter(self.interactions@, p, InteractionType::REPORT))
                <= REPORT_THRESHOLD
        &&& forall|p: u64|
            p < self.posts@.len() && (#[trigger] count_inter(
                self.interactions@,
                p,
                InteractionType::REPORT,
            )) == REPORT_THRESHOLD ==> self.posts@[p as int].is_deleted
    }

    /// How many posts were ever created; ids run from 0 to this count.
    pub closed spec fn spec_post_count(&self) -> nat {
        self.posts@.len()
    }

    /// The stored post under `id`.
    pub closed spec fn spec_post(&self, id: u64) -> PostDataV {
        self.posts@[id as int]@
    }

    /// Whether (post, principal, kind) was already recorded.
    pub closed spec fn spec_interacted(&self, p: u64, u: Seq<char>, k: InteractionType) -> bool {
        has_inter(self.interactions@, p, u, k)
    }

    /// The interaction counter for (post, kind).
    pub closed spec fn spec_count(&self, p: u64, k: InteractionType) -> u64 {
        count_val_of(self.counts@, p, k)
    }

    /// Whether `u` holds an explicit view override for post `p`.
    pub closed spec fn spec_authorized(&self, p: u64, u: Seq<char>) -> bool {
        viewer_in(self.authorized_viewers@, p, u)
    }

    /// When `u` last posted with type `pt`, if ever.
    pub closed spec fn spec_last(&self, u: Seq<char>, pt: PostType) -> Option<u64> {
        last_time_of(self.last_post_time@, u, pt)
    }

    /// The configured cooldown for a post type.
    pub closed spec fn spec_cooldown(&self, pt: PostType) -> u64 {
        cooldown_of(self.cooldowns@, pt)
    }

    /// Whether `u` must still wait before posting with type `pt` at `now`.
    pub open spec fn spec_on_cooldown(&self, u: Seq<char>, pt: PostType, now: u64) -> bool {
        match self.spec_last(u, pt) {
            Some(t) => now < t + self.spec_cooldown(pt),
            None => false,
        }
    }

    /// Whether `u` holds `role` in the content store's own role table.
    pub closed spec fn spec_has_role(&self, u: Seq<char>, role: Seq<char>) -> bool {
        role_in(self.roles@, u, role)
    }

    /// Whether `u` is exempt from posting cooldowns.
    pub open spec fn spec_rate_exempt(&self, u: Seq<char>) -> bool {
        self.spec_has_role(u, RATE_LIMIT_MANAGER_ROLE@)
    }

    pub closed spec fn spec_paused(&self) -> bool {
        self.paused
    }

    pub closed spec fn spec_owner(&self) -> Seq<char> {
        self.owner@
    }

    pub closed spec fn spec_collectible_controller(&self) -> Seq<char> {
        self.collectible_controller@
    }

    /// The recorded tribe encryption key, if any.
    pub closed spec fn spec_tribe_key(&self, t: u64) -> Option<Seq<char>> {
        key_of(self.tribe_keys@, t)
    }

    /// The decryption key recorded for (post, principal), if any.
    pub closed spec fn spec_decryption_key(&self, p: u64, u: Seq<char>) -> Option<Seq<char>> {
        Self::dkey_of(self.decryption_keys@, p, u)
    }

    pub closed spec fn dkey_of(s: Seq<(u64, String, String)>, p: u64, u: Seq<char>) -> Option<
        Seq<char>,
    >
        decreases s.len(),
    {
        if s.len() == 0 {
            None
        } else if s[0].0 == p && s[0].1@ == u {
            Some(s[0].2@)
        } else {
            Self::dkey_of(s.drop_first(), p, u)
        }
    }

    /// A fresh content store: the deployer holds the admin, rate-limit and
    /// project-creator capabilities, no posts exist, and the cooldown table is
    /// seeded with the fixed per-type defaults.
    pub fn new(owner: String, collectible_controller: String) -> (r: PostMinter)
        ensures
            r.wf(),
            r.spec_post_count() == 0,
            !r.spec_paused(),
            r.spec_owner() == owner@,
            r.spec_collectible_controller() == collectible_controller@,
            forall|u: Seq<char>, ro: Seq<char>|
                #[trigger] r.spec_has_role(u, ro) <==> (u == owner@ && (ro == DEFAULT_ADMIN_ROLE@
                    || ro == RATE_LIMIT_MANAGER_ROLE@ || ro == PROJECT_CREATOR_ROLE@)),
            r.spec_rate_exempt(owner@),
            r.spec_cooldown(PostType::TEXT) == 60,
            r.spec_cooldown(PostType::RICH_MEDIA) == 120,
            r.spec_cooldown(PostType::EVENT) == 30,
            r.spec_cooldown(PostType::POLL) == 300,
            r.spec_cooldown(PostType::PROJECT_UPDATE) == 120,
            r.spec_cooldown(PostType::COMMUNITY_UPDATE) == 300,
            r.spec_cooldown(PostType::ENCRYPTED) == 120,
            forall|u: Seq<char>, pt: PostType| #[trigger] r.spec_last(u, pt) is None,
            forall|p: u64, u: Seq<char>, k: InteractionType| !(#[trigger] r.spec_interacted(p, u, k)),
            forall|p: u64, k: InteractionType| #[trigger] r.spec_count(p, k) == 0,
            forall|p: u64, u: Seq<char>| !(#[trigger] r.spec_authorized(p, u)),
    {
        let mut roles: Vec<(String, String)> = Vec::new();
        roles.push((owner.clone(), String::from_str(DEFAULT_ADMIN_ROLE)));
        roles.push((owner.clone(), String::from_str(RATE_LIMIT_MANAGER_ROLE)));
        roles.push((owner.clone(), String::from_str(PROJECT_CREATOR_ROLE)));
        let mut cooldowns: Vec<(PostType, u64)> = Vec::new();
        cooldowns.push((PostType::TEXT, 60));
        cooldowns.push((PostType::RICH_MEDIA, 120));
        cooldowns.push((PostType::EVENT, 30));
        cooldowns.push((PostType::POLL, 300));
        cooldowns.push((PostType::PROJECT_UPDATE, 120));
        cooldowns.push((PostType::COMMUNITY_UPDATE, 300));
        cooldowns.push((PostType::ENCRYPTED, 120));
        let r = PostMinter {
            owner,
            collectible_controller,
            roles,
            posts: Vec::new(),
            interactions: Vec::new(),
            counts: Vec::new(),
            authorized_viewers: Vec::new(),
            last_post_time: Vec::new(),
            decryption_keys: Vec::new(),
            tribe_keys: Vec::new(),
            cooldowns,
            paused: false,
        };
        proof {
            assert(r.roles@.len() == 3);
            reveal_with_fuel(role_in, 5);
            assert(r.roles@.last() == r.roles@[2]);
            assert(r.roles@.drop_last().last() == r.roles@[1]);
            assert(r.roles@.drop_last().drop_last().last() == r.roles@[0]);
            assert(r.roles@.drop_last().drop_last().drop_last() =~= Seq::<
                (String, String),
            >::empty());
            assert(r.roles@[0].1@ == DEFAULT_ADMIN_ROLE@);
            assert(r.roles@[1].1@ == RATE_LIMIT_MANAGER_ROLE@);
            assert(r.roles@[2].1@ == PROJECT_CREATOR_ROLE@);
            assert(r.roles@[0].0@ == r.owner@ && r.roles@[1].0@ == r.owner@ && r.roles@[2].0@
                == r.owner@);
            assert forall|u: Seq<char>, ro: Seq<char>| #[trigger] r.spec_has_role(u, ro) <==> (u
                == r.owner@ && (ro == DEFAULT_ADMIN_ROLE@ || ro == RATE_LIMIT_MANAGER_ROLE@ || ro
                == PROJECT_CREATOR_ROLE@)) by {
                if u == r.owner@ && (ro == DEFAULT_ADMIN_ROLE@ || ro == RATE_LIMIT_MANAGER_ROLE@
                    || ro == PROJECT_CREATOR_ROLE@) {
                    assert(r.spec_has_role(u, ro));
                }
            }
            assert(r.cooldowns@.len() == 7);
            assert(r.cooldowns@.drop_first() =~= r.cooldowns@.subrange(1, 7));
            assert(r.spec_cooldown(PostType::TEXT) == 60) by {
                assert(r.cooldowns@[0] == (PostType::TEXT, 60u64));
            }
            reveal_with_fuel(cooldown_of, 9);
            assert(r.cooldowns@.drop_first()[0] == (PostType::RICH_MEDIA, 120u64));
            assert(r.cooldowns@.drop_first().drop_first() =~= r.cooldowns@.subrange(2, 7));
            assert(r.cooldowns@.subrange(2, 7)[0] == (PostType::EVENT, 30u64));
            assert(r.cooldowns@.subrange(2, 7).drop_first() =~= r.cooldowns@.subrange(3, 7));
            assert(r.cooldowns@.subrange(3, 7)[0] == (PostType::POLL, 300u64));
            assert(r.cooldowns@.subrange(3, 7).drop_first() =~= r.cooldowns@.subrange(4, 7));
            assert(r.cooldowns@.subrange(4, 7)[0] == (PostType::PROJECT_UPDATE, 120u64));
            assert(r.cooldowns@.subrange(4, 7).drop_first() =~= r.cooldowns@.subrange(5, 7));
            assert(r.cooldowns@.subrange(5, 7)[0] == (PostType::COMMUNITY_UPDATE, 300u64));
            assert(r.cooldowns@.subrange(5, 7).drop_first() =~= r.cooldowns@.subrange(6, 7));
            assert(r.cooldowns@.subrange(6, 7)[0] == (PostType::ENCRYPTED, 120u64));
            assert(r.cooldowns@.subrange(6, 7).drop_first() =~= r.cooldowns@.subrange(7, 7));
        }
        r
    }

    /// Whether `addr` holds `role` in the content store's role table.
    fn has_role(&self, addr: &String, role: &str) -> (r: bool)
        ensures
            r == self.spec_has_role(addr@, role@),
    {
        let mut i: usize = self.roles.len();
        let rs = String::from_str(role);
        proof {
            assert(self.roles@.take(self.roles@.len() as int) =~= self.roles@);
        }
        while i > 0
            invariant
                i <= self.roles@.len(),
                role_in(self.roles@, addr@, role@) == role_in(
                    self.roles@.take(i as int),
                    addr@,
                    role@,
                ),
            decreases i,
        {
            proof {
                assert(self.roles@.take(i as int).last() == self.roles@[i - 1]);
                assert(self.roles@.take(i as int).drop_last() =~= self.roles@.take(i - 1));
            }
            i = i - 1;
            if self.roles[i].0 == *addr && self.roles[i].1 == rs {
                return true;
            }
        }
        proof {
            assert(self.roles@.take(0) =~= Seq::<(String, String)>::empty());
        }
        false
    }
}

} // verus!
verus! {

impl PostMinter {
    pub open spec fn interactions_unchanged(pre: Self, post: Self) -> bool {
        &&& forall|p: u64, u: Seq<char>, k: InteractionType|
            (#[trigger] post.spec_interacted(p, u, k)) == pre.spec_interacted(p, u, k)
        &&& forall|p: u64, k: InteractionType|
            (#[trigger] post.spec_count(p, k)) == pre.spec_count(p, k)
    }

    pub open spec fn viewers_unchanged(pre: Self, post: Self) -> bool {
        forall|p: u64, u: Seq<char>|
            (#[trigger] post.spec_authorized(p, u)) == pre.spec_authorized(p, u)
    }

    pub open spec fn lasts_unchanged(pre: Self, post: Self) -> bool {
        forall|u: Seq<char>, pt: PostType| (#[trigger] post.spec_last(u, pt)) == pre.spec_last(u, pt)
    }

    pub open spec fn lasts_unchanged_except(pre: Self, post: Self, u: Seq<char>, pt: PostType) -> bool {
        forall|u2: Seq<char>, pt2: PostType|
            !(u2 == u && pt2 == pt) ==> (#[trigger] post.spec_last(u2, pt2)) == pre.spec_last(
                u2,
                pt2,
            )
    }

    pub open spec fn keys_unchanged(pre: Self, post: Self) -> bool {
        &&& forall|t: u64| (#[trigger] post.spec_tribe_key(t)) == pre.spec_tribe_key(t)
        &&& forall|p: u64, u: Seq<char>|
            (#[trigger] post.spec_decryption_key(p, u)) == pre.spec_decryption_key(p, u)
    }

    pub open spec fn cooldowns_unchanged(pre: Self, post: Self) -> bool {
        forall|pt: PostType| (#[trigger] post.spec_cooldown(pt)) == pre.spec_cooldown(pt)
    }

    pub open spec fn admin_unchanged(pre: Self, post: Self) -> bool {
        &&& forall|u: Seq<char>, ro: Seq<char>|
            (#[trigger] post.spec_has_role(u, ro)) == pre.spec_has_role(u, ro)
        &&& post.spec_paused() == pre.spec_paused()
        &&& post.spec_owner() == pre.spec_owner()
        &&& post.spec_collectible_controller() == pre.spec_collectible_controller()
    }

    pub open spec fn posts_unchanged(pre: Self, post: Self) -> bool {
        &&& post.spec_post_count() == pre.spec_post_count()
        &&& forall|p: u64|
            p < pre.spec_post_count() ==> (#[trigger] post.spec_post(p)) == pre.spec_post(p)
    }

    /// The configured cooldown for `pt`.
    #[allow(non_snake_case)]
    pub fn getPostTypeCooldown(&self, post_type: PostType) -> (r: CooldownResponse)
        ensures
            r.cooldown == self.spec_cooldown(post_type),
    {
        let mut i: usize = 0;
        proof {
            assert(self.cooldowns@.skip(0) =~= self.cooldowns@);
        }
        while i < self.cooldowns.len()
            invariant
                i <= self.cooldowns@.len(),
                cooldown_of(self.cooldowns@.skip(i as int), post_type) == self.spec_cooldown(
                    post_type,
                ),
            decreases self.cooldowns@.len() - i,
        {
            proof {
                assert(self.cooldowns@.skip(i as int)[0] == self.cooldowns@[i as int]);
                assert(self.cooldowns@.skip(i as int).drop_first() =~= self.cooldowns@.skip(
                    i as int + 1,
                ));
            }
            if self.cooldowns[i].0 == post_type {
                return CooldownResponse { cooldown: self.cooldowns[i].1 };
            }
            i = i + 1;
        }
        proof {
            assert(self.cooldowns@.skip(i as int) =~= Seq::<(PostType, u64)>::empty());
        }
        CooldownResponse { cooldown: 0 }
    }

    /// When `u` last posted with type `pt`, if ever.
    fn get_last(&self, u: &String, pt: PostType) -> (r: Option<u64>)
        ensures
            r == self.spec_last(u@, pt),
    {
        let mut i: usize = 0;
        proof {
            assert(self.last_post_time@.skip(0) =~= self.last_post_time@);
        }
        while i < self.last_post_time.len()
            invariant
                i <= self.last_post_time@.len(),
                last_time_of(self.last_post_time@.skip(i as int), u@, pt) == self.spec_last(u@, pt),
            decreases self.last_post_time@.len() - i,
        {
            proof {
                assert(self.last_post_time@.skip(i as int)[0] == self.last_post_time@[i as int]);
                assert(self.last_post_time@.skip(i as int).drop_first()
                    =~= self.last_post_time@.skip(i as int + 1));
            }
            if self.last_post_time[i].0 == *u && self.last_post_time[i].1 == pt {
                return Some(self.last_post_time[i].2);
            }
            i = i + 1;
        }
        proof {
            assert(self.last_post_time@.skip(i as int) =~= Seq::<(String, PostType, u64)>::empty());
        }
        None
    }

    /// Records that `u` posted with type `pt` at `now`; nothing else moves.
    fn set_last(&mut self, u: &String, pt: PostType, now: u64)
        ensures
            final(self).spec_last(u@, pt) == Some(now),
            Self::lasts_unchanged_except(*old(self), *final(self), u@, pt),
            final(self).posts@ == old(self).posts@,
            final(self).interactions@ == old(self).interactions@,
            final(self).counts@ == old(self).counts@,
            final(self).authorized_viewers@ == old(self).authorized_viewers@,
            final(self).decryption_keys@ == old(self).decryption_keys@,
            final(self).tribe_keys@ == old(self).tribe_keys@,
            final(self).cooldowns@ == old(self).cooldowns@,
            final(self).roles@ == old(self).roles@,
            final(self).paused == old(self).paused,
            final(self).owner == old(self).owner,
            final(self).collectible_controller == old(self).collectible_controller,
    {
        let ghost uv = u@;
        self.last_post_time.insert(0, (u.clone(), pt, now));
        proof {
            assert(self.last_post_time@[0].0@ == uv);
            assert(self.last_post_time@.drop_first() =~= old(self).last_post_time@);
        }
    }

    /// Whether `u` must still wait before posting with type `pt` at `now`.
    fn on_cooldown(&self, u: &String, pt: PostType, now: u64) -> (r: bool)
        ensures
            r == self.spec_on_cooldown(u@, pt, now),
    {
        match self.get_last(u, pt) {
            None => false,
            Some(t) => {
                let cd = self.getPostTypeCooldown(pt).cooldown;
                (now as u128) < (t as u128) + (cd as u128)
            },
        }
    }

    /// The seconds `user` must still wait before posting with type `pt`;
    /// 0 once the window has passed or when nothing was recorded, and capped
    /// at the largest representable wait.
    #[allow(non_snake_case)]
    pub fn getRemainingCooldown(&self, user: &String, post_type: PostType, now: u64) -> (r:
        CooldownResponse)
        ensures
            r.cooldown as int == (match self.spec_last(user@, post_type) {
                Some(t) => {
                    if now >= t + self.spec_cooldown(post_type) {
                        0int
                    } else if t + self.spec_cooldown(post_type) - now > u64::MAX {
                        u64::MAX as int
                    } else {
                        t + self.spec_cooldown(post_type) - now
                    }
                },
                None => 0int,
            }),
    {
        match self.get_last(user, post_type) {
            None => CooldownResponse { cooldown: 0 },
            Some(t) => {
                let cd = self.getPostTypeCooldown(post_type).cooldown;
                let due = (t as u128) + (cd as u128);
                if (now as u128) >= due {
                    CooldownResponse { cooldown: 0 }
                } else {
                    let rem = due - (now as u128);
                    if rem > u64::MAX as u128 {
                        CooldownResponse { cooldown: u64::MAX }
                    } else {
                        CooldownResponse { cooldown: rem as u64 }
                    }
                }
            },
        }
    }

    /// Capability-gated: replaces the cooldown for one post type.
    #[allow(non_snake_case)]
    pub fn setPostTypeCooldown(&mut self, sender: &String, post_type: PostType, cooldown: u64) -> (r:
        Result<(), ContractError>)
        requires
            old(self).wf(),
        ensures
            final(self).wf(),
            r is Ok <==> old(self).spec_rate_exempt(sender@),
            r is Err ==> r == Result::<(), ContractError>::Err(ContractError::Unauthorized)
                && *final(self) == *old(self),
            r is Ok ==> {
                &&& final(self).spec_cooldown(post_type) == cooldown
                &&& forall|pt2: PostType|
                    pt2 != post_type ==> (#[trigger] final(self).spec_cooldown(pt2)) == old(self).spec_cooldown(pt2)
                &&& Self::posts_unchanged(*old(self), *final(self))
                &&& Self::interactions_unchanged(*old(self), *final(self))
                &&& Self::viewers_unchanged(*old(self), *final(self))
                &&& Self::lasts_unchanged(*old(self), *final(self))
                &&& Self::keys_unchanged(*old(self), *final(self))
                &&& Self::admin_unchanged(*old(self), *final(self))
            },
    {
        if !self.has_role(sender, RATE_LIMIT_MANAGER_ROLE) {
            return Err(ContractError::Unauthorized);
        }
        self.cooldowns.insert(0, (post_type, cooldown));
        proof {
            assert(self.cooldowns@.drop_first() =~= old(self).cooldowns@);
        }
        Ok(())
    }

    /// Owner-gated: raises the advisory pause flag.
    pub fn pause(&mut self, sender: &String) -> (r: Result<(), ContractError>)
        requires
            old(self).wf(),
        ensures
            final(self).wf(),
            r is Ok <==> sender@ == old(self).spec_owner(),
            r is Err ==> r == Result::<(), ContractError>::Err(ContractError::Unauthorized)
                && *final(self) == *old(self),
            r is Ok ==> {
                &&& final(self).spec_paused()
                &&& Self::posts_unchanged(*old(self), *final(self))
                &&& Self::interactions_unchanged(*old(self), *final(self))
                &&& Self::viewers_unchanged(*old(self), *final(self))
                &&& Self::lasts_unchanged(*old(self), *final(self))
                &&& Self::keys_unchanged(*old(self), *final(self))
                &&& Self::cooldowns_unchanged(*old(self), *final(self))
                &&& forall|u: Seq<char>, ro: Seq<char>|
                    (#[trigger] final(self).spec_has_role(u, ro)) == old(self).spec_has_role(u, ro)
                &&& final(self).spec_owner() == old(self).spec_owner()
                &&& final(self).spec_collectible_controller() == old(
                    self,
                ).spec_collectible_controller()
            },
    {
        if !(*sender == self.owner) {
            return Err(ContractError::Unauthorized);
        }
        self.paused = true;
        Ok(())
    }

    /// Owner-gated: clears the advisory pause flag.
    pub fn unpause(&mut self, sender: &String) -> (r: Result<(), ContractError>)
        requires
            old(self).wf(),
        ensures
            final(self).wf(),
            r is Ok <==> sender@ == old(self).spec_owner(),
            r is Err ==> r == Result::<(), ContractError>::Err(ContractError::Unauthorized)
                && *final(self) == *old(self),
            r is Ok ==> {
                &&& !final(self).spec_paused()
                &&& Self::posts_unchanged(*old(self), *final(self))
                &&& Self::interactions_unchanged(*old(self), *final(self))
                &&& Self::viewers_unchanged(*old(self), *final(self))
                &&& Self::lasts_unchanged(*old(self), *final(self))
                &&& Self::keys_unchanged(*old(self), *final(self))
                &&& Self::cooldowns_unchanged(*old(self), *final(self))
                &&& forall|u: Seq<char>, ro: Seq<char>|
                    (#[trigger] final(self).spec_has_role(u, ro)) == old(self).spec_has_role(u, ro)
                &&& final(self).spec_owner() == old(self).spec_owner()
                &&& final(self).spec_collectible_controller() == old(
                    self,
                ).spec_collectible_controller()
            },
    {
        if !(*sender == self.owner) {
            return Err(ContractError::Unauthorized);
        }
        self.paused = false;
        Ok(())
    }

    /// Creates a root post: the caller must be an ACTIVE member of the
    /// community and, unless rate-exempt, outside the cooldown window for the
    /// payload's derived post type; success stamps the window.
    #[allow(non_snake_case)]
    pub fn createPost(
        &mut self,
        tribes: &TribeController,
        sender: &String,
        tribe_id: u64,
        metadata: String,
        is_gated: bool,
        collectible_contract: Option<String>,
        collectible_id: u64,
        now: u64,
    ) -> (r: Result<u64, ContractError>)
        requires
            old(self).wf(),
            tribes.wf(),
        ensures
            final(self).wf(),
            r is Ok <==> (tribes.spec_status(tribe_id, sender@) == MemberStatus::ACTIVE && (old(self).spec_rate_exempt(sender@) || !old(self).spec_on_cooldown(
                sender@,
                spec_post_type(md_bytes(metadata@)),
                now,
            ))),
            r is Err ==> *final(self) == *old(self),
            tribes.spec_status(tribe_id, sender@) != MemberStatus::ACTIVE ==> r == Result::<
                u64,
                ContractError,
            >::Err(ContractError::Unauthorized),
            tribes.spec_status(tribe_id, sender@) == MemberStatus::ACTIVE && !old(self).spec_rate_exempt(sender@) && old(self).spec_on_cooldown(
                sender@,
                spec_post_type(md_bytes(metadata@)),
                now,
            ) ==> r == Result::<u64, ContractError>::Err(ContractError::InvalidState),
            r matches Ok(id) ==> {
                &&& id == old(self).spec_post_count()
                &&& final(self).spec_post_count() == old(self).spec_post_count() + 1
                &&& final(self).spec_post(id) == (PostDataV {
                    id: id,
                    creator: sender@,
                    tribe_id: tribe_id,
                    metadata: metadata@,
                    is_gated: is_gated,
                    collectible_contract: match collectible_contract {
                        Some(c) => Some(c@),
                        None => None,
                    },
                    collectible_id: collectible_id,
                    is_encrypted: false,
                    encryption_key_hash: None,
                    access_signer: None,
                    parent_post_id: 0,
                    created_at: now,
                    is_deleted: false,
                })
                &&& forall|p2: u64|
                    p2 < old(self).spec_post_count() ==> (#[trigger] final(self).spec_post(p2))
                        == old(self).spec_post(p2)
                &&& old(self).spec_rate_exempt(sender@) ==> Self::lasts_unchanged(
                    *old(self),
                    *final(self),
                )
                &&& !old(self).spec_rate_exempt(sender@) ==> final(self).spec_last(
                    sender@,
                    spec_post_type(md_bytes(metadata@)),
                ) == Some(now) && Self::lasts_unchanged_except(
                    *old(self),
                    *final(self),
                    sender@,
                    spec_post_type(md_bytes(metadata@)),
                )
                &&& Self::interactions_unchanged(*old(self), *final(self))
                &&& Self::viewers_unchanged(*old(self), *final(self))
                &&& Self::keys_unchanged(*old(self), *final(self))
                &&& Self::cooldowns_unchanged(*old(self), *final(self))
                &&& Self::admin_unchanged(*old(self), *final(self))
            },
    {
        if !tribes.is_tribe_member(tribe_id, sender) {
            return Err(ContractError::Unauthorized);
        }
        let pt = determine_post_type(metadata.as_str());
        let exempt = self.has_role(sender, RATE_LIMIT_MANAGER_ROLE);
        if !exempt {
            if self.on_cooldown(sender, pt, now) {
                return Err(ContractError::InvalidState);
            }
            self.set_last(sender, pt, now);
        }
        let ghost mid = *self;
        let id = self.push_post(
            sender,
            tribe_id,
            metadata,
            is_gated,
            collectible_contract,
            collectible_id,
            false,
            None,
            None,
            0,
            now,
        );
        proof {
            if !exempt {
                assert forall|u2: Seq<char>, pt2: PostType|
                    !(u2 == sender@ && pt2 == pt) implies (#[trigger] self.spec_last(u2, pt2))
                    == old(self).spec_last(u2, pt2) by {
                    assert(mid.spec_last(u2, pt2) == old(self).spec_last(u2, pt2));
                    assert(self.spec_last(u2, pt2) == mid.spec_last(u2, pt2));
                }
            }
        }
        Ok(id)
    }

    /// Appends a post with the next id; every other observation is untouched.
    #[allow(unused_parens)]
    fn push_post(
        &mut self,
        sender: &String,
        tribe_id: u64,
        metadata: String,
        is_gated: bool,
        collectible_contract: Option<String>,
        collectible_id: u64,
        is_encrypted: bool,
        encryption_key_hash: Option<String>,
        access_signer: Option<String>,
        parent_post_id: u64,
        now: u64,
    ) -> (id: u64)
        requires
            old(self).wf(),
        ensures
            final(self).wf(),
            id == old(self).spec_post_count(),
            final(self).spec_post_count() == old(self).spec_post_count() + 1,
            final(self).spec_post(id) == (PostDataV {
                id: id,
                creator: sender@,
                tribe_id: tribe_id,
                metadata: metadata@,
                is_gated: is_gated,
                collectible_contract: match collectible_contract {
                    Some(c) => Some(c@),
                    None => None,
                },
                collectible_id: collectible_id,
                is_encrypted: is_encrypted,
                encryption_key_hash: match encryption_key_hash {
                    Some(h) => Some(h@),
                    None => None,
                },
                access_signer: match access_signer {
                    Some(a) => Some(a@),
                    None => None,
                },
                parent_post_id: parent_post_id,
                created_at: now,
                is_deleted: false,
            }),
            forall|p2: u64|
                p2 < old(self).spec_post_count() ==> (#[trigger] final(self).spec_post(p2)) == old(self).spec_post(p2),
            final(self).interactions@ == old(self).interactions@,
            final(self).counts@ == old(self).counts@,
            final(self).authorized_viewers@ == old(self).authorized_viewers@,
            final(self).last_post_time@ == old(self).last_post_time@,
            final(self).decryption_keys@ == old(self).decryption_keys@,
            final(self).tribe_keys@ == old(self).tribe_keys@,
            final(self).cooldowns@ == old(self).cooldowns@,
            final(self).roles@ == old(self).roles@,
            final(self).paused == old(self).paused,
            final(self).owner == old(self).owner,
            final(self).collectible_controller == old(self).collectible_controller,
    {
        let n = self.posts.len();
        let id = n as u64;
        let post = PostData {
            id,
            creator: sender.clone(),
            tribe_id,
            metadata,
            is_gated,
            collectible_contract,
            collectible_id,
            is_encrypted,
            encryption_key_hash,
            access_signer,
            parent_post_id,
            created_at: now,
            is_deleted: false,
        };
        self.posts.push(post);
        proof {
            assert forall|p: u64|
                p < self.posts@.len() && (#[trigger] count_inter(
                    self.interactions@,
                    p,
                    InteractionType::REPORT,
                )) == REPORT_THRESHOLD implies self.posts@[p as int].is_deleted by {
                if p == id {
                    lemma_inter_zero(self.interactions@, p, InteractionType::REPORT);
                }
            }
        }
        id
    }
}

} // verus!
verus! {

impl PostMinter {
    fn get_count(&self, p: u64, k: InteractionType) -> (r: u64)
        ensures
            r == self.spec_count(p, k),
    {
        let mut i: usize = 0;
        proof {
            assert(self.counts@.skip(0) =~= self.counts@);
        }
        while i < self.counts.len()
            invariant
                i <= self.counts@.len(),
                count_val_of(self.counts@.skip(i as int), p, k) == self.spec_count(p, k),
            decreases self.counts@.len() - i,
        {
            proof {
                assert(self.counts@.skip(i as int)[0] == self.counts@[i as int]);
                assert(self.counts@.skip(i as int).drop_first() =~= self.counts@.skip(i as int + 1));
            }
            if self.counts[i].0 == p && self.counts[i].1 == k {
                return self.counts[i].2;
            }
            i = i + 1;
        }
        proof {
            assert(self.counts@.skip(i as int) =~= Seq::<(u64, InteractionType, u64)>::empty());
        }
        0
    }

    /// Overwrites the counter for (post, kind); nothing else moves.
    fn set_count(&mut self, p: u64, k: InteractionType, v: u64)
        ensures
            final(self).spec_count(p, k) == v,
            forall|p2: u64, k2: InteractionType|
                !(p2 == p && k2 == k) ==> (#[trigger] final(self).spec_count(p2, k2)) == old(self).spec_count(p2, k2),
            final(self).posts@ == old(self).posts@,
            final(self).interactions@ == old(self).interactions@,
            final(self).authorized_viewers@ == old(self).authorized_viewers@,
            final(self).last_post_time@ == old(self).last_post_time@,
            final(self).decryption_keys@ == old(self).decryption_keys@,
            final(self).tribe_keys@ == old(self).tribe_keys@,
            final(self).cooldowns@ == old(self).cooldowns@,
            final(self).roles@ == old(self).roles@,
            final(self).paused == old(self).paused,
            final(self).owner == old(self).owner,
            final(self).collectible_controller == old(self).collectible_controller,
    {
        self.counts.insert(0, (p, k, v));
        proof {
            assert(self.counts@.drop_first() =~= old(self).counts@);
        }
    }

    /// Whether (post, principal, kind) was already recorded.
    fn has_interaction(&self, p: u64, u: &String, k: InteractionType) -> (r: bool)
        ensures
            r == self.spec_interacted(p, u@, k),
    {
        let mut i: usize = self.interactions.len();
        proof {
            assert(self.interactions@.take(self.interactions@.len() as int)
                =~= self.interactions@);
        }
        while i > 0
            invariant
                i <= self.interactions@.len(),
                has_inter(self.interactions@.take(i as int), p, u@, k) == self.spec_interacted(
                    p,
                    u@,
                    k,
                ),
            decreases i,
        {
            proof {
                assert(self.interactions@.take(i as int).last() == self.interactions@[i - 1]);
                assert(self.interactions@.take(i as int).drop_last() =~= self.interactions@.take(
                    i - 1,
                ));
            }
            i = i - 1;
            if self.interactions[i].0 == p && self.interactions[i].2 == k
                && self.interactions[i].1 == *u {
                return true;
            }
        }
        proof {
            assert(self.interactions@.take(0) =~= Seq::<(u64, String, InteractionType)>::empty());
        }
        false
    }

    fn is_authorized(&self, p: u64, u: &String) -> (r: bool)
        ensures
            r == self.spec_authorized(p, u@),
    {
        let mut i: usize = self.authorized_viewers.len();
        proof {
            assert(self.authorized_viewers@.take(self.authorized_viewers@.len() as int)
                =~= self.authorized_viewers@);
        }
        while i > 0
            invariant
                i <= self.authorized_viewers@.len(),
                viewer_in(self.authorized_viewers@.take(i as int), p, u@) == self.spec_authorized(
                    p,
                    u@,
                ),
            decreases i,
        {
            proof {
                assert(self.authorized_viewers@.take(i as int).last()
                    == self.authorized_viewers@[i - 1]);
                assert(self.authorized_viewers@.take(i as int).drop_last()
                    =~= self.authorized_viewers@.take(i - 1));
            }
            i = i - 1;
            if self.authorized_viewers[i].0 == p && self.authorized_viewers[i].1 == *u {
                return true;
            }
        }
        proof {
            assert(self.authorized_viewers@.take(0) =~= Seq::<(u64, String)>::empty());
        }
        false
    }

    /// Records (post, principal, kind) and raises the counter by one; every
    /// other interaction observation is untouched.
    fn record_interaction(&mut self, p: u64, u: &String, k: InteractionType)
        requires
            old(self).wf(),
            p < old(self).spec_post_count(),
            spec_counted_kind(k),
            !old(self).spec_interacted(p, u@, k),
            k == InteractionType::REPORT ==> count_inter(
                old(self).interactions@,
                p,
                InteractionType::REPORT,
            ) < REPORT_THRESHOLD,
        ensures
            final(self).spec_interacted(p, u@, k),
            final(self).spec_count(p, k) == old(self).spec_count(p, k) + 1,
            forall|p2: u64, k2: InteractionType|
                !(p2 == p && k2 == k) ==> (#[trigger] final(self).spec_count(p2, k2)) == old(self).spec_count(p2, k2),
            forall|p2: u64, u2: Seq<char>, k2: InteractionType|
                !(p2 == p && u2 == u@ && k2 == k) ==> (#[trigger] final(self).spec_interacted(
                    p2,
                    u2,
                    k2,
                )) == old(self).spec_interacted(p2, u2, k2),
            forall|p2: u64, k2: InteractionType|
                (#[trigger] count_inter(final(self).interactions@, p2, k2)) == count_inter(
                    old(self).interactions@,
                    p2,
                    k2,
                ) + (
                if p2 == p && k2 == k {
                    1int
                } else {
                    0int
                }),
            final(self).posts@ == old(self).posts@,
            final(self).authorized_viewers@ == old(self).authorized_viewers@,
            final(self).last_post_time@ == old(self).last_post_time@,
            final(self).decryption_keys@ == old(self).decryption_keys@,
            final(self).tribe_keys@ == old(self).tribe_keys@,
            final(self).cooldowns@ == old(self).cooldowns@,
            final(self).roles@ == old(self).roles@,
            final(self).paused == old(self).paused,
            final(self).owner == old(self).owner,
            final(self).collectible_controller == old(self).collectible_controller,
            recs_in_range(final(self).interactions@, final(self).posts@.len()),
    {
        let c = self.get_count(p, k);
        let ghost olds = self.interactions@;
        self.interactions.push((p, u.clone(), k));
        let m = self.interactions.len();
        proof {
            assert(m == olds.len() + 1);
            assert(self.interactions@.drop_last() =~= olds);
            assert forall|p2: u64, k2: InteractionType|
                (#[trigger] count_inter(self.interactions@, p2, k2)) == count_inter(olds, p2, k2)
                    + (
                if p2 == p && k2 == k {
                    1int
                } else {
                    0int
                }) by {
                assert(self.interactions@ == olds.push(self.interactions@.last()));
                lemma_inter_push(olds, self.interactions@.last(), p2, k2);
            }
            assert(count_inter(olds, p, k) == old(self).spec_count(p, k)) by {
                assert(spec_counted_kind(k));
            }
            lemma_inter_le(olds, p, k);
            assert(c < u64::MAX) by {
                if k == InteractionType::REPORT {
                } else {
                    assert(count_inter(olds, p, k) <= olds.len());
                    assert(self.interactions@.len() == olds.len() + 1);
                }
            }
            assert forall|p2: u64, u2: Seq<char>, k2: InteractionType|
                !(p2 == p && u2 == u@ && k2 == k) implies (#[trigger] has_inter(
                self.interactions@,
                p2,
                u2,
                k2,
            )) == has_inter(olds, p2, u2, k2) by {
                assert(self.interactions@.last().0 == p && self.interactions@.last().1@ == u@
                    && self.interactions@.last().2 == k);
            }
            assert(has_inter(self.interactions@, p, u@, k)) by {
                assert(inter_matches(self.interactions@.last(), p, u@, k));
            }
        }
        self.set_count(p, k, c + 1);
    }
}

/// Every interaction record references a stored post.
pub open spec fn recs_in_range(s: Seq<(u64, String, InteractionType)>, n: nat) -> bool {
    forall|i: int| 0 <= i < s.len() ==> (#[trigger] s[i]).0 < n
}

} // verus!
verus! {

impl PostMinter {

    /// Re-establishes the store invariant after interaction changes: the
    /// stored counters moved exactly with the records, the report bound holds,
    /// and the threshold stays sticky.
    proof fn lemma_wf_after_interactions(pre: Self, post: Self, p: u64, k: InteractionType)
        requires
            pre.wf(),
            spec_counted_kind(k),
            p < pre.posts@.len(),
            post.posts@.len() == pre.posts@.len(),
            forall|i: int|
                0 <= i < post.posts@.len() && i != p as int ==> post.posts@[i] == pre.posts@[i],
            post.posts@[p as int].id == pre.posts@[p as int].id,
            post.posts@[p as int].is_deleted || pre.posts@[p as int].is_deleted
                == post.posts@[p as int].is_deleted,
            recs_in_range(post.interactions@, post.posts@.len()),
            forall|p2: u64, k2: InteractionType|
                (#[trigger] count_inter(post.interactions@, p2, k2)) == count_inter(
                    pre.interactions@,
                    p2,
                    k2,
                ) + (
                if p2 == p && k2 == k {
                    1int
                } else {
                    0int
                }),
            forall|p2: u64, k2: InteractionType|
                !(p2 == p && k2 == k) ==> (#[trigger] post.spec_count(p2, k2)) == pre.spec_count(
                    p2,
                    k2,
                ),
            post.spec_count(p, k) == pre.spec_count(p, k) + 1,
            k == InteractionType::REPORT ==> count_inter(
                pre.interactions@,
                p,
                InteractionType::REPORT,
            ) < REPORT_THRESHOLD,
            k == InteractionType::REPORT && count_inter(
                post.interactions@,
                p,
                InteractionType::REPORT,
            ) == REPORT_THRESHOLD ==> post.posts@[p as int].is_deleted,
        ensures
            post.wf(),
    {
        assert forall|p2: u64, k2: InteractionType| spec_counted_kind(k2) implies (
        #[trigger] count_val_of(post.counts@, p2, k2)) == count_inter(
            post.interactions@,
            p2,
            k2,
        ) by {
            assert(count_val_of(post.counts@, p2, k2) == post.spec_count(p2, k2));
            assert(count_val_of(pre.counts@, p2, k2) == pre.spec_count(p2, k2));
            assert(count_val_of(pre.counts@, p2, k2) == count_inter(pre.interactions@, p2, k2));
            if !(p2 == p && k2 == k) {
                assert(post.spec_count(p2, k2) == pre.spec_count(p2, k2));
            }
        }
        assert forall|p2: u64| (#[trigger] count_inter(
            post.interactions@,
            p2,
            InteractionType::REPORT,
        )) <= REPORT_THRESHOLD by {
            assert(count_inter(pre.interactions@, p2, InteractionType::REPORT)
                <= REPORT_THRESHOLD);
        }
        assert forall|p2: u64|
            p2 < post.posts@.len() && (#[trigger] count_inter(
                post.interactions@,
                p2,
                InteractionType::REPORT,
            )) == REPORT_THRESHOLD implies post.posts@[p2 as int].is_deleted by {
            assert(count_inter(pre.interactions@, p2, InteractionType::REPORT)
                <= REPORT_THRESHOLD);
            if !(p2 == p && k == InteractionType::REPORT) {
                assert(count_inter(pre.interactions@, p2, InteractionType::REPORT)
                    == REPORT_THRESHOLD);
                assert(pre.posts@[p2 as int].is_deleted);
            }
        }
        assert forall|i: int| 0 <= i < post.posts@.len() implies (#[trigger] post.posts@[i]).id
            == i as u64 by {
            assert(pre.posts@[i].id == i as u64);
        }
    }

    /// The visibility decision, first match wins: deleted denies; an explicit
    /// viewer override allows; the creator is allowed; non-members are
    /// denied; ungated posts are visible; a gated post with an entitlement
    /// reference needs a nonzero oracle balance (errors deny); a gated post
    /// without a reference falls back to allowing.
    pub open spec fn spec_can_view(
        &self,
        tribes: TribeController,
        o: EntitlementOracle,
        post_id: u64,
        viewer: Seq<char>,
    ) -> bool {
        if post_id >= self.spec_post_count() {
            false
        } else {
            let p = self.spec_post(post_id);
            if p.is_deleted {
                false
            } else if self.spec_authorized(post_id, viewer) {
                true
            } else if p.creator == viewer {
                true
            } else if tribes.spec_status(p.tribe_id, viewer) != MemberStatus::ACTIVE {
                false
            } else if !p.is_gated {
                true
            } else {
                match p.collectible_contract {
                    Some(c) => !o.spec_fails(c) && o.spec_bal1155(c, viewer, p.collectible_id) > 0,
                    None => true,
                }
            }
        }
    }

    /// Decides visibility without touching any state.
    #[allow(non_snake_case)]
    pub fn canViewPost(
        &self,
        tribes: &TribeController,
        oracle: &EntitlementOracle,
        post_id: u64,
        viewer: &String,
    ) -> (r: bool)
        requires
            self.wf(),
            tribes.wf(),
        ensures
            r == self.spec_can_view(*tribes, *oracle, post_id, viewer@),
    {
        let n = self.posts.len();
        if post_id >= n as u64 {
            return false;
        }
        let pi = post_id as usize;
        if self.posts[pi].is_deleted {
            return false;
        }
        if self.is_authorized(post_id, viewer) {
            return true;
        }
        if self.posts[pi].creator == *viewer {
            return true;
        }
        if !tribes.is_tribe_member(self.posts[pi].tribe_id, viewer) {
            return false;
        }
        if !self.posts[pi].is_gated {
            return true;
        }
        match &self.posts[pi].collectible_contract {
            Some(c) => {
                match oracle.erc1155_balance_of(c, viewer, self.posts[pi].collectible_id) {
                    Ok(b) => b > 0,
                    Err(_) => false,
                }
            },
            None => true,
        }
    }

    /// Creator-only soft delete; rejected when already deleted.
    #[allow(non_snake_case)]
    pub fn deletePost(&mut self, sender: &String, post_id: u64) -> (r: Result<(), ContractError>)
        requires
            old(self).wf(),
        ensures
            final(self).wf(),
            r is Ok <==> (post_id < old(self).spec_post_count() && old(self).spec_post(
                post_id,
            ).creator == sender@ && !old(self).spec_post(post_id).is_deleted),
            r is Err ==> *final(self) == *old(self),
            post_id >= old(self).spec_post_count() ==> r == Result::<(), ContractError>::Err(
                ContractError::NotFound,
            ),
            post_id < old(self).spec_post_count() && old(self).spec_post(post_id).creator
                != sender@ ==> r == Result::<(), ContractError>::Err(ContractError::Unauthorized),
            post_id < old(self).spec_post_count() && old(self).spec_post(post_id).creator == sender@
                && old(self).spec_post(post_id).is_deleted ==> r == Result::<
                (),
                ContractError,
            >::Err(ContractError::InvalidState),
            r is Ok ==> {
                &&& final(self).spec_post(post_id) == (PostDataV {
                    is_deleted: true,
                    ..old(self).spec_post(post_id)
                })
                &&& final(self).spec_post_count() == old(self).spec_post_count()
                &&& forall|p2: u64|
                    p2 < old(self).spec_post_count() && p2 != post_id ==> (#[trigger] final(self).spec_post(p2)) == old(self).spec_post(p2)
                &&& Self::interactions_unchanged(*old(self), *final(self))
                &&& Self::viewers_unchanged(*old(self), *final(self))
                &&& Self::lasts_unchanged(*old(self), *final(self))
                &&& Self::keys_unchanged(*old(self), *final(self))
                &&& Self::cooldowns_unchanged(*old(self), *final(self))
                &&& Self::admin_unchanged(*old(self), *final(self))
            },
    {
        let n = self.posts.len();
        if post_id >= n as u64 {
            return Err(ContractError::NotFound);
        }
        let pi = post_id as usize;
        if !(self.posts[pi].creator == *sender) {
            return Err(ContractError::Unauthorized);
        }
        if self.posts[pi].is_deleted {
            return Err(ContractError::InvalidState);
        }
        self.posts[pi].is_deleted = true;
        Ok(())
    }


    /// Soft-deletes the stored post under `pi`; every interaction, viewer,
    /// cooldown and key observation is untouched.
    fn mark_deleted(&mut self, pi: usize)
        requires
            pi < old(self).posts@.len(),
        ensures
            final(self).posts@.len() == old(self).posts@.len(),
            final(self).posts@[pi as int] == (PostData {
                is_deleted: true,
                ..old(self).posts@[pi as int]
            }),
            forall|i: int|
                0 <= i < final(self).posts@.len() && i != pi as int ==> final(self).posts@[i]
                    == old(self).posts@[i],
            forall|p2: u64, k2: InteractionType|
                (#[trigger] final(self).spec_count(p2, k2)) == old(self).spec_count(p2, k2),
            forall|p2: u64, u2: Seq<char>, k2: InteractionType|
                (#[trigger] final(self).spec_interacted(p2, u2, k2)) == old(self).spec_interacted(
                    p2,
                    u2,
                    k2,
                ),
            forall|p2: u64, k2: InteractionType|
                (#[trigger] count_inter(final(self).interactions@, p2, k2)) == count_inter(
                    old(self).interactions@,
                    p2,
                    k2,
                ),
            final(self).interactions@ == old(self).interactions@,
            Self::viewers_unchanged(*old(self), *final(self)),
            Self::lasts_unchanged(*old(self), *final(self)),
            Self::keys_unchanged(*old(self), *final(self)),
            Self::cooldowns_unchanged(*old(self), *final(self)),
            Self::admin_unchanged(*old(self), *final(self)),
    {
        self.posts[pi].is_deleted = true;
    }

    /// At-most-once report per (post, reporter); the post is soft-deleted
    /// exactly when the report counter reaches the threshold.
    #[allow(non_snake_case)]
    pub fn reportPost(&mut self, sender: &String, post_id: u64) -> (r: Result<(), ContractError>)
        requires
            old(self).wf(),
        ensures
            final(self).wf(),
            r is Ok <==> (post_id < old(self).spec_post_count() && !old(self).spec_post(
                post_id,
            ).is_deleted && !old(self).spec_interacted(post_id, sender@, InteractionType::REPORT)),
            r is Err ==> *final(self) == *old(self),
            post_id >= old(self).spec_post_count() ==> r == Result::<(), ContractError>::Err(
                ContractError::NotFound,
            ),
            post_id < old(self).spec_post_count() && old(self).spec_post(post_id).is_deleted ==> r
                == Result::<(), ContractError>::Err(ContractError::InvalidState),
            post_id < old(self).spec_post_count() && !old(self).spec_post(post_id).is_deleted
                && old(self).spec_interacted(post_id, sender@, InteractionType::REPORT) ==> r
                == Result::<(), ContractError>::Err(ContractError::AlreadyExists),
            r is Ok ==> {
                &&& final(self).spec_count(post_id, InteractionType::REPORT) == old(self).spec_count(post_id, InteractionType::REPORT) + 1
                &&& final(self).spec_interacted(post_id, sender@, InteractionType::REPORT)
                &&& final(self).spec_post(post_id).is_deleted <==> final(self).spec_count(
                    post_id,
                    InteractionType::REPORT,
                ) == REPORT_THRESHOLD
                &&& final(self).spec_post(post_id) == (PostDataV {
                    is_deleted: final(self).spec_post(post_id).is_deleted,
                    ..old(self).spec_post(post_id)
                })
                &&& final(self).spec_post_count() == old(self).spec_post_count()
                &&& forall|p2: u64|
                    p2 < old(self).spec_post_count() && p2 != post_id ==> (#[trigger] final(self).spec_post(p2)) == old(self).spec_post(p2)
                &&& forall|p2: u64, k2: InteractionType|
                    !(p2 == post_id && k2 == InteractionType::REPORT) ==> (#[trigger] final(self).spec_count(p2, k2)) == old(self).spec_count(p2, k2)
                &&& forall|p2: u64, u2: Seq<char>, k2: InteractionType|
                    !(p2 == post_id && u2 == sender@ && k2 == InteractionType::REPORT) ==> (
                    #[trigger] final(self).spec_interacted(p2, u2, k2)) == old(self).spec_interacted(p2, u2, k2)
                &&& Self::viewers_unchanged(*old(self), *final(self))
                &&& Self::lasts_unchanged(*old(self), *final(self))
                &&& Self::keys_unchanged(*old(self), *final(self))
                &&& Self::cooldowns_unchanged(*old(self), *final(self))
                &&& Self::admin_unchanged(*old(self), *final(self))
            },
    {
        let n = self.posts.len();
        if post_id >= n as u64 {
            return Err(ContractError::NotFound);
        }
        let pi = post_id as usize;
        if self.posts[pi].is_deleted {
            return Err(ContractError::InvalidState);
        }
        if self.has_interaction(post_id, sender, InteractionType::REPORT) {
            return Err(ContractError::AlreadyExists);
        }
        proof {
            assert(count_inter(self.interactions@, post_id, InteractionType::REPORT)
                < REPORT_THRESHOLD) by {
                if count_inter(self.interactions@, post_id, InteractionType::REPORT)
                    == REPORT_THRESHOLD {
                    assert(self.posts@[post_id as int].is_deleted);
                }
            }
        }
        self.record_interaction(post_id, sender, InteractionType::REPORT);
        let c = self.get_count(post_id, InteractionType::REPORT);
        if c >= REPORT_THRESHOLD {
            self.mark_deleted(pi);
        }
        proof {
            Self::lemma_wf_after_interactions(
                *old(self),
                *self,
                post_id,
                InteractionType::REPORT,
            );
        }
        Ok(())
    }

    /// Creator-only: grants `viewer` an unconditional view override.
    #[allow(non_snake_case)]
    pub fn authorizeViewer(&mut self, sender: &String, post_id: u64, viewer: String) -> (r: Result<
        (),
        ContractError,
    >)
        requires
            old(self).wf(),
        ensures
            final(self).wf(),
            r is Ok <==> (post_id < old(self).spec_post_count() && old(self).spec_post(
                post_id,
            ).creator == sender@),
            r is Err ==> *final(self) == *old(self),
            post_id >= old(self).spec_post_count() ==> r == Result::<(), ContractError>::Err(
                ContractError::NotFound,
            ),
            post_id < old(self).spec_post_count() && old(self).spec_post(post_id).creator
                != sender@ ==> r == Result::<(), ContractError>::Err(ContractError::Unauthorized),
            r is Ok ==> {
                &&& final(self).spec_authorized(post_id, viewer@)
                &&& forall|p2: u64, u2: Seq<char>|
                    !(p2 == post_id && u2 == viewer@) ==> (#[trigger] final(self).spec_authorized(
                        p2,
                        u2,
                    )) == old(self).spec_authorized(p2, u2)
                &&& Self::posts_unchanged(*old(self), *final(self))
                &&& Self::interactions_unchanged(*old(self), *final(self))
                &&& Self::lasts_unchanged(*old(self), *final(self))
                &&& Self::keys_unchanged(*old(self), *final(self))
                &&& Self::cooldowns_unchanged(*old(self), *final(self))
                &&& Self::admin_unchanged(*old(self), *final(self))
            },
    {
        let n = self.posts.len();
        if post_id >= n as u64 {
            return Err(ContractError::NotFound);
        }
        let pi = post_id as usize;
        if !(self.posts[pi].creator == *sender) {
            return Err(ContractError::Unauthorized);
        }
        let ghost vv = viewer@;
        let ghost olds = self.authorized_viewers@;
        self.authorized_viewers.push((post_id, viewer));
        proof {
            assert(self.authorized_viewers@.drop_last() =~= olds);
            assert(self.authorized_viewers@.last().0 == post_id
                && self.authorized_viewers@.last().1@ == vv);
            assert forall|p2: u64, k2: InteractionType| spec_counted_kind(k2) implies (
            #[trigger] count_val_of(self.counts@, p2, k2)) == count_inter(
                self.interactions@,
                p2,
                k2,
            ) by {
                assert(count_val_of(old(self).counts@, p2, k2) == count_inter(
                    old(self).interactions@,
                    p2,
                    k2,
                ));
            }
            assert forall|p2: u64| (#[trigger] count_inter(
                self.interactions@,
                p2,
                InteractionType::REPORT,
            )) <= REPORT_THRESHOLD by {
                assert(count_inter(old(self).interactions@, p2, InteractionType::REPORT)
                    <= REPORT_THRESHOLD);
            }
        }
        Ok(())
    }

    /// At-most-once like/dislike/share by a non-creator who can currently
    /// view the post; raises the (post, kind) counter by one.
    #[allow(non_snake_case)]
    pub fn interactWithPost(
        &mut self,
        tribes: &TribeController,
        oracle: &EntitlementOracle,
        sender: &String,
        post_id: u64,
        interaction_type: InteractionType,
    ) -> (r: Result<(), ContractError>)
        requires
            old(self).wf(),
            tribes.wf(),
        ensures
            final(self).wf(),
            r is Ok <==> ((interaction_type == InteractionType::LIKE || interaction_type
                == InteractionType::DISLIKE || interaction_type == InteractionType::SHARE)
                && post_id < old(self).spec_post_count() && !old(self).spec_post(
                post_id,
            ).is_deleted && old(self).spec_post(post_id).creator != sender@ && old(self).spec_can_view(*tribes, *oracle, post_id, sender@) && !old(self).spec_interacted(
                post_id,
                sender@,
                interaction_type,
            )),
            r is Err ==> *final(self) == *old(self),
            !(interaction_type == InteractionType::LIKE || interaction_type
                == InteractionType::DISLIKE || interaction_type == InteractionType::SHARE) ==> r
                == Result::<(), ContractError>::Err(ContractError::ValidationError),
            r is Ok ==> {
                &&& final(self).spec_count(post_id, interaction_type) == old(self).spec_count(
                    post_id,
                    interaction_type,
                ) + 1
                &&& final(self).spec_interacted(post_id, sender@, interaction_type)
                &&& forall|p2: u64, k2: InteractionType|
                    !(p2 == post_id && k2 == interaction_type) ==> (#[trigger] final(self).spec_count(p2, k2)) == old(self).spec_count(p2, k2)
                &&& forall|p2: u64, u2: Seq<char>, k2: InteractionType|
                    !(p2 == post_id && u2 == sender@ && k2 == interaction_type) ==> (
                    #[trigger] final(self).spec_interacted(p2, u2, k2)) == old(self).spec_interacted(p2, u2, k2)
                &&& Self::posts_unchanged(*old(self), *final(self))
                &&& Self::viewers_unchanged(*old(self), *final(self))
                &&& Self::lasts_unchanged(*old(self), *final(self))
                &&& Self::keys_unchanged(*old(self), *final(self))
                &&& Self::cooldowns_unchanged(*old(self), *final(self))
                &&& Self::admin_unchanged(*old(self), *final(self))
            },
    {
        if !(interaction_type == InteractionType::LIKE || interaction_type
            == InteractionType::DISLIKE || interaction_type == InteractionType::SHARE) {
            return Err(ContractError::ValidationError);
        }
        let n = self.posts.len();
        if post_id >= n as u64 {
            return Err(ContractError::NotFound);
        }
        let pi = post_id as usize;
        if self.posts[pi].is_deleted {
            return Err(ContractError::InvalidState);
        }
        if self.posts[pi].creator == *sender {
            return Err(ContractError::InvalidState);
        }
        if !self.canViewPost(tribes, oracle, post_id, sender) {
            return Err(ContractError::Unauthorized);
        }
        if self.has_interaction(post_id, sender, interaction_type) {
            return Err(ContractError::AlreadyExists);
        }
        self.record_interaction(post_id, sender, interaction_type);
        proof {
            Self::lemma_wf_after_interactions(*old(self), *self, post_id, interaction_type);
        }
        Ok(())
    }

    /// The counter for (post, kind).
    #[allow(non_snake_case)]
    pub fn getInteractionCount(&self, post_id: u64, interaction_type: InteractionType) -> (r:
        InteractionCountResponse)
        ensures
            r.count == self.spec_count(post_id, interaction_type),
    {
        InteractionCountResponse { count: self.get_count(post_id, interaction_type) }
    }

    /// The stored post's public fields.
    pub fn query_get_post(&self, post_id: u64) -> (r: Result<GetPostResponse, ContractError>)
        ensures
            r is Ok <==> post_id < self.spec_post_count(),
            r is Err ==> r == Result::<GetPostResponse, ContractError>::Err(ContractError::NotFound),
            r matches Ok(g) ==> {
                &&& g.id == self.spec_post(post_id).id
                &&& g.creator@ == self.spec_post(post_id).creator
                &&& g.tribe_id == self.spec_post(post_id).tribe_id
                &&& g.metadata@ == self.spec_post(post_id).metadata
                &&& g.is_gated == self.spec_post(post_id).is_gated
                &&& (match g.collectible_contract {
                    Some(c) => self.spec_post(post_id).collectible_contract == Some(c@),
                    None => self.spec_post(post_id).collectible_contract is None,
                })
                &&& g.collectible_id == self.spec_post(post_id).collectible_id
                &&& g.is_encrypted == self.spec_post(post_id).is_encrypted
                &&& (match g.access_signer {
                    Some(a) => self.spec_post(post_id).access_signer == Some(a@),
                    None => self.spec_post(post_id).access_signer is None,
                })
            },
    {
        let n = self.posts.len();
        if post_id >= n as u64 {
            return Err(ContractError::NotFound);
        }
        let p = &self.posts[post_id as usize];
        Ok(
            GetPostResponse {
                id: p.id,
                creator: p.creator.clone(),
                tribe_id: p.tribe_id,
                metadata: p.metadata.clone(),
                is_gated: p.is_gated,
                collectible_contract: match &p.collectible_contract {
                    Some(c) => Some(c.clone()),
                    None => None,
                },
                collectible_id: p.collectible_id,
                is_encrypted: p.is_encrypted,
                access_signer: match &p.access_signer {
                    Some(a) => Some(a.clone()),
                    None => None,
                },
            },
        )
    }

    /// Access check for a signature-gated post. Cryptographic verification is
    /// a stub that always allows; only the gating shape is enforced.
    #[allow(non_snake_case)]
    pub fn verifyPostAccess(&self, post_id: u64, _viewer: &String, _signature: &Vec<u8>) -> (r:
        Result<bool, ContractError>)
        ensures
            r is Ok <==> (post_id < self.spec_post_count() && self.spec_post(post_id).access_signer
                is Some),
            r is Ok ==> r == Result::<bool, ContractError>::Ok(true),
            post_id >= self.spec_post_count() ==> r == Result::<bool, ContractError>::Err(
                ContractError::NotFound,
            ),
            post_id < self.spec_post_count() && self.spec_post(post_id).access_signer is None ==> r
                == Result::<bool, ContractError>::Err(ContractError::InvalidState),
    {
        let n = self.posts.len();
        if post_id >= n as u64 {
            return Err(ContractError::NotFound);
        }
        match &self.posts[post_id as usize].access_signer {
            None => Err(ContractError::InvalidState),
            Some(_) => Ok(true),
        }
    }
}

} // verus!
verus! {

impl PostMinter {
    /// Stores with identical post, interaction and counter content satisfy
    /// the invariant together.
    proof fn lemma_wf_same_content(pre: Self, post: Self)
        requires
            pre.wf(),
            post.posts@ == pre.posts@,
            post.interactions@ == pre.interactions@,
            post.counts@ == pre.counts@,
        ensures
            post.wf(),
    {
        assert forall|p2: u64, k2: InteractionType| spec_counted_kind(k2) implies (
        #[trigger] count_val_of(post.counts@, p2, k2)) == count_inter(
            post.interactions@,
            p2,
            k2,
        ) by {
            assert(count_val_of(pre.counts@, p2, k2) == count_inter(pre.interactions@, p2, k2));
        }
        assert forall|p2: u64| (#[trigger] count_inter(
            post.interactions@,
            p2,
            InteractionType::REPORT,
        )) <= REPORT_THRESHOLD by {
            assert(count_inter(pre.interactions@, p2, InteractionType::REPORT)
                <= REPORT_THRESHOLD);
        }
        assert forall|p2: u64|
            p2 < post.posts@.len() && (#[trigger] count_inter(
                post.interactions@,
                p2,
                InteractionType::REPORT,
            )) == REPORT_THRESHOLD implies post.posts@[p2 as int].is_deleted by {
            assert(count_inter(pre.interactions@, p2, InteractionType::REPORT)
                == REPORT_THRESHOLD);
        }
        assert forall|i: int| 0 <= i < post.posts@.len() implies (#[trigger] post.posts@[i]).id
            == i as u64 by {
            assert(pre.posts@[i].id == i as u64);
        }
        assert forall|i: int| 0 <= i < post.interactions@.len() implies (
        #[trigger] post.interactions@[i]).0 < post.posts@.len() by {
            assert(pre.interactions@[i].0 < pre.posts@.len());
        }
    }

    /// Raises the reply counter of `parent`, saturating at the largest
    /// representable count; nothing else moves.
    fn bump_reply(&mut self, parent: u64)
        requires
            old(self).wf(),
        ensures
            final(self).wf(),
            final(self).spec_count(parent, InteractionType::REPLY) as int == (
            if old(self).spec_count(parent, InteractionType::REPLY) < u64::MAX {
                old(self).spec_count(parent, InteractionType::REPLY) + 1
            } else {
                u64::MAX as int
            }),
            forall|p2: u64, k2: InteractionType|
                !(p2 == parent && k2 == InteractionType::REPLY) ==> (#[trigger] final(self).spec_count(p2, k2)) == old(self).spec_count(p2, k2),
            forall|p2: u64, u2: Seq<char>, k2: InteractionType|
                (#[trigger] final(self).spec_interacted(p2, u2, k2)) == old(self).spec_interacted(
                    p2,
                    u2,
                    k2,
                ),
            final(self).posts@ == old(self).posts@,
            final(self).interactions@ == old(self).interactions@,
            final(self).authorized_viewers@ == old(self).authorized_viewers@,
            final(self).last_post_time@ == old(self).last_post_time@,
            final(self).decryption_keys@ == old(self).decryption_keys@,
            final(self).tribe_keys@ == old(self).tribe_keys@,
            final(self).cooldowns@ == old(self).cooldowns@,
            final(self).roles@ == old(self).roles@,
            final(self).paused == old(self).paused,
            final(self).owner == old(self).owner,
            final(self).collectible_controller == old(self).collectible_controller,
    {
        let c = self.get_count(parent, InteractionType::REPLY);
        let bumped: u64 = if c < u64::MAX {
            c + 1
        } else {
            c
        };
        self.set_count(parent, InteractionType::REPLY, bumped);
        proof {
            assert forall|p2: u64, k2: InteractionType| spec_counted_kind(k2) implies (
            #[trigger] count_val_of(self.counts@, p2, k2)) == count_inter(
                self.interactions@,
                p2,
                k2,
            ) by {
                assert(count_val_of(self.counts@, p2, k2) == self.spec_count(p2, k2));
                assert(self.spec_count(p2, k2) == old(self).spec_count(p2, k2));
                assert(count_val_of(old(self).counts@, p2, k2) == count_inter(
                    old(self).interactions@,
                    p2,
                    k2,
                ));
            }
            assert forall|p2: u64| (#[trigger] count_inter(
                self.interactions@,
                p2,
                InteractionType::REPORT,
            )) <= REPORT_THRESHOLD by {
                assert(count_inter(old(self).interactions@, p2, InteractionType::REPORT)
                    <= REPORT_THRESHOLD);
            }
        }
    }

    /// Creates a reply under an existing, undeleted parent: the caller must be
    /// an ACTIVE member of the parent's community and, unless exempt, outside
    /// the plain-text cooldown window; the parent's reply counter rises.
    #[allow(non_snake_case)]
    pub fn createReply(
        &mut self,
        tribes: &TribeController,
        sender: &String,
        parent_post_id: u64,
        metadata: String,
        is_gated: bool,
        collectible_contract: Option<String>,
        collectible_id: u64,
        now: u64,
    ) -> (r: Result<u64, ContractError>)
        requires
            old(self).wf(),
            tribes.wf(),
        ensures
            final(self).wf(),
            r is Ok <==> (parent_post_id < old(self).spec_post_count() && !old(self).spec_post(
                parent_post_id,
            ).is_deleted && tribes.spec_status(
                old(self).spec_post(parent_post_id).tribe_id,
                sender@,
            ) == MemberStatus::ACTIVE && (old(self).spec_rate_exempt(sender@) || !old(self).spec_on_cooldown(sender@, PostType::TEXT, now))),
            r is Err ==> *final(self) == *old(self),
            parent_post_id >= old(self).spec_post_count() ==> r == Result::<u64, ContractError>::Err(
                ContractError::NotFound,
            ),
            parent_post_id < old(self).spec_post_count() && old(self).spec_post(
                parent_post_id,
            ).is_deleted ==> r == Result::<u64, ContractError>::Err(ContractError::InvalidState),
            r matches Ok(id) ==> {
                &&& id == old(self).spec_post_count()
                &&& final(self).spec_post_count() == old(self).spec_post_count() + 1
                &&& final(self).spec_post(id) == (PostDataV {
                    id: id,
                    creator: sender@,
                    tribe_id: old(self).spec_post(parent_post_id).tribe_id,
                    metadata: metadata@,
                    is_gated: is_gated,
                    collectible_contract: match collectible_contract {
                        Some(c) => Some(c@),
                        None => None,
                    },
                    collectible_id: collectible_id,
                    is_encrypted: false,
                    encryption_key_hash: None,
                    access_signer: None,
                    parent_post_id: parent_post_id,
                    created_at: now,
                    is_deleted: false,
                })
                &&& forall|p2: u64|
                    p2 < old(self).spec_post_count() ==> (#[trigger] final(self).spec_post(p2))
                        == old(self).spec_post(p2)
                &&& final(self).spec_count(parent_post_id, InteractionType::REPLY) as int == (
                if old(self).spec_count(parent_post_id, InteractionType::REPLY) < u64::MAX {
                    old(self).spec_count(parent_post_id, InteractionType::REPLY) + 1
                } else {
                    u64::MAX as int
                })
                &&& forall|p2: u64, k2: InteractionType|
                    !(p2 == parent_post_id && k2 == InteractionType::REPLY) ==> (#[trigger] final(self).spec_count(p2, k2)) == old(self).spec_count(p2, k2)
                &&& final(self).spec_last(sender@, PostType::TEXT) == Some(now)
                &&& Self::lasts_unchanged_except(
                    *old(self),
                    *final(self),
                    sender@,
                    PostType::TEXT,
                )
                &&& Self::viewers_unchanged(*old(self), *final(self))
                &&& Self::keys_unchanged(*old(self), *final(self))
                &&& Self::cooldowns_unchanged(*old(self), *final(self))
                &&& Self::admin_unchanged(*old(self), *final(self))
            },
    {
        let n = self.posts.len();
        if parent_post_id >= n as u64 {
            return Err(ContractError::NotFound);
        }
        let pi = parent_post_id as usize;
        if self.posts[pi].is_deleted {
            return Err(ContractError::InvalidState);
        }
        let tribe_id = self.posts[pi].tribe_id;
        if !tribes.is_tribe_member(tribe_id, sender) {
            return Err(ContractError::Unauthorized);
        }
        let exempt = self.has_role(sender, RATE_LIMIT_MANAGER_ROLE);
        if !exempt && self.on_cooldown(sender, PostType::TEXT, now) {
            return Err(ContractError::InvalidState);
        }
        self.bump_reply(parent_post_id);
        let ghost mid1 = *self;
        self.set_last(sender, PostType::TEXT, now);
        let ghost mid2 = *self;
        proof {
            Self::lemma_wf_same_content(mid1, mid2);
        }
        let id = self.push_post(
            sender,
            tribe_id,
            metadata,
            is_gated,
            collectible_contract,
            collectible_id,
            false,
            None,
            None,
            parent_post_id,
            now,
        );
        proof {
            assert forall|u2: Seq<char>, pt2: PostType|
                !(u2 == sender@ && pt2 == PostType::TEXT) implies (#[trigger] self.spec_last(
                u2,
                pt2,
            )) == old(self).spec_last(u2, pt2) by {
                assert(self.spec_last(u2, pt2) == mid2.spec_last(u2, pt2));
                assert(mid2.spec_last(u2, pt2) == mid1.spec_last(u2, pt2));
                assert(mid1.spec_last(u2, pt2) == old(self).spec_last(u2, pt2));
            }
            assert forall|p2: u64, k2: InteractionType|
                !(p2 == parent_post_id && k2 == InteractionType::REPLY) implies (
            #[trigger] self.spec_count(p2, k2)) == old(self).spec_count(p2, k2) by {
                assert(self.spec_count(p2, k2) == mid2.spec_count(p2, k2));
                assert(mid2.spec_count(p2, k2) == mid1.spec_count(p2, k2));
                assert(mid1.spec_count(p2, k2) == old(self).spec_count(p2, k2));
            }
            assert(self.spec_count(parent_post_id, InteractionType::REPLY) == mid1.spec_count(
                parent_post_id,
                InteractionType::REPLY,
            ));
        }
        Ok(id)
    }

    /// Creates an encrypted post and records the creator's decryption key and
    /// the community's encryption key.
    #[allow(non_snake_case)]
    pub fn createEncryptedPost(
        &mut self,
        tribes: &TribeController,
        sender: &String,
        tribe_id: u64,
        metadata: String,
        encryption_key_hash: String,
        access_signer: String,
        now: u64,
    ) -> (r: Result<u64, ContractError>)
        requires
            old(self).wf(),
            tribes.wf(),
        ensures
            final(self).wf(),
            r is Ok <==> (tribes.spec_status(tribe_id, sender@) == MemberStatus::ACTIVE
                && metadata@.len() > 0 && encryption_key_hash@.len() > 0 && (old(self).spec_rate_exempt(sender@) || !old(self).spec_on_cooldown(
                sender@,
                PostType::ENCRYPTED,
                now,
            ))),
            r is Err ==> *final(self) == *old(self),
            tribes.spec_status(tribe_id, sender@) != MemberStatus::ACTIVE ==> r == Result::<
                u64,
                ContractError,
            >::Err(ContractError::Unauthorized),
            tribes.spec_status(tribe_id, sender@) == MemberStatus::ACTIVE && (metadata@.len() == 0
                || encryption_key_hash@.len() == 0) ==> r == Result::<u64, ContractError>::Err(
                ContractError::ValidationError,
            ),
            r matches Ok(id) ==> {
                &&& id == old(self).spec_post_count()
                &&& final(self).spec_post_count() == old(self).spec_post_count() + 1
                &&& final(self).spec_post(id) == (PostDataV {
                    id: id,
                    creator: sender@,
                    tribe_id: tribe_id,
                    metadata: metadata@,
                    is_gated: false,
                    collectible_contract: None,
                    collectible_id: 0,
                    is_encrypted: true,
                    encryption_key_hash: Some(encryption_key_hash@),
                    access_signer: Some(access_signer@),
                    parent_post_id: 0,
                    created_at: now,
                    is_deleted: false,
                })
                &&& forall|p2: u64|
                    p2 < old(self).spec_post_count() ==> (#[trigger] final(self).spec_post(p2))
                        == old(self).spec_post(p2)
                &&& final(self).spec_decryption_key(id, sender@) == Some(encryption_key_hash@)
                &&& final(self).spec_tribe_key(tribe_id) == Some(encryption_key_hash@)
                &&& final(self).spec_last(sender@, PostType::ENCRYPTED) == Some(now)
                &&& Self::interactions_unchanged(*old(self), *final(self))
                &&& Self::viewers_unchanged(*old(self), *final(self))
                &&& Self::cooldowns_unchanged(*old(self), *final(self))
                &&& Self::admin_unchanged(*old(self), *final(self))
            },
    {
        if !tribes.is_tribe_member(tribe_id, sender) {
            return Err(ContractError::Unauthorized);
        }
        if metadata.as_str().is_empty() {
            return Err(ContractError::ValidationError);
        }
        if encryption_key_hash.as_str().is_empty() {
            return Err(ContractError::ValidationError);
        }
        let exempt = self.has_role(sender, RATE_LIMIT_MANAGER_ROLE);
        if !exempt && self.on_cooldown(sender, PostType::ENCRYPTED, now) {
            return Err(ContractError::InvalidState);
        }
        let id = self.push_post(
            sender,
            tribe_id,
            metadata,
            false,
            None,
            0,
            true,
            Some(encryption_key_hash.clone()),
            Some(access_signer),
            0,
            now,
        );
        let ghost mid1 = *self;
        self.decryption_keys.insert(0, (id, sender.clone(), encryption_key_hash.clone()));
        proof {
            assert(self.decryption_keys@.drop_first() =~= mid1.decryption_keys@);
            Self::lemma_wf_same_content(mid1, *self);
        }
        let ghost mid2 = *self;
        self.tribe_keys.insert(0, (tribe_id, encryption_key_hash));
        proof {
            assert(self.tribe_keys@.drop_first() =~= mid2.tribe_keys@);
            Self::lemma_wf_same_content(mid2, *self);
        }
        let ghost mid3 = *self;
        self.set_last(sender, PostType::ENCRYPTED, now);
        proof {
            Self::lemma_wf_same_content(mid3, *self);
            assert forall|p2: u64| p2 < old(self).spec_post_count() implies (
            #[trigger] self.spec_post(p2)) == old(self).spec_post(p2) by {
                assert(self.spec_post(p2) == mid1.spec_post(p2));
            }
            assert(self.spec_post(id) == mid1.spec_post(id));
            assert(self.spec_post_count() == mid1.spec_post_count());
            assert(Self::dkey_of(self.decryption_keys@, id, sender@) == Self::dkey_of(
                mid2.decryption_keys@,
                id,
                sender@,
            ));
            assert(key_of(self.tribe_keys@, tribe_id) == key_of(mid3.tribe_keys@, tribe_id));
        }
        Ok(id)
    }

    /// Creates a signature-gated post: the entitlement reference must name the
    /// configured collectible contract and the collectible must be active; an
    /// unanswerable collectible query is a hard failure.
    #[allow(non_snake_case)]
    pub fn createSignatureGatedPost(
        &mut self,
        tribes: &TribeController,
        oracle: &EntitlementOracle,
        sender: &String,
        tribe_id: u64,
        metadata: String,
        encryption_key_hash: String,
        access_signer: String,
        collectible_contract: String,
        collectible_id: u64,
        now: u64,
    ) -> (r: Result<u64, ContractError>)
        requires
            old(self).wf(),
            tribes.wf(),
        ensures
            final(self).wf(),
            r is Ok <==> (tribes.spec_status(tribe_id, sender@) == MemberStatus::ACTIVE
                && metadata@.len() > 0 && encryption_key_hash@.len() > 0 && collectible_contract@
                == old(self).spec_collectible_controller() && !oracle.spec_fails(
                collectible_contract@,
            ) && oracle.spec_collectible(collectible_contract@, collectible_id) == Some(true) && (
            old(self).spec_rate_exempt(sender@) || !old(self).spec_on_cooldown(
                sender@,
                PostType::TEXT,
                now,
            ))),
            r is Err ==> *final(self) == *old(self),
            tribes.spec_status(tribe_id, sender@) == MemberStatus::ACTIVE && metadata@.len() > 0
                && encryption_key_hash@.len() > 0 && collectible_contract@ == old(self).spec_collectible_controller() && (oracle.spec_fails(collectible_contract@)
                || oracle.spec_collectible(collectible_contract@, collectible_id) is None) ==> r
                == Result::<u64, ContractError>::Err(ContractError::ExternalQueryFailure),
            r matches Ok(id) ==> {
                &&& id == old(self).spec_post_count()
                &&& final(self).spec_post_count() == old(self).spec_post_count() + 1
                &&& final(self).spec_post(id) == (PostDataV {
                    id: id,
                    creator: sender@,
                    tribe_id: tribe_id,
                    metadata: metadata@,
                    is_gated: true,
                    collectible_contract: Some(collectible_contract@),
                    collectible_id: collectible_id,
                    is_encrypted: true,
                    encryption_key_hash: Some(encryption_key_hash@),
                    access_signer: Some(access_signer@),
                    parent_post_id: 0,
                    created_at: now,
                    is_deleted: false,
                })
                &&& forall|p2: u64|
                    p2 < old(self).spec_post_count() ==> (#[trigger] final(self).spec_post(p2))
                        == old(self).spec_post(p2)
                &&& final(self).spec_last(sender@, PostType::TEXT) == Some(now)
                &&& Self::interactions_unchanged(*old(self), *final(self))
                &&& Self::viewers_unchanged(*old(self), *final(self))
                &&& Self::keys_unchanged(*old(self), *final(self))
                &&& Self::cooldowns_unchanged(*old(self), *final(self))
                &&& Self::admin_unchanged(*old(self), *final(self))
            },
    {
        if !tribes.is_tribe_member(tribe_id, sender) {
            return Err(ContractError::Unauthorized);
        }
        if metadata.as_str().is_empty() {
            return Err(ContractError::ValidationError);
        }
        if encryption_key_hash.as_str().is_empty() {
            return Err(ContractError::ValidationError);
        }
        if !(collectible_contract == self.collectible_controller) {
            return Err(ContractError::ValidationError);
        }
        match oracle.get_collectible(&collectible_contract, collectible_id) {
            Err(_) => {
                return Err(ContractError::ExternalQueryFailure);
            },
            Ok(active) => {
                if !active {
                    return Err(ContractError::InvalidState);
                }
            },
        }
        let exempt = self.has_role(sender, RATE_LIMIT_MANAGER_ROLE);
        if !exempt && self.on_cooldown(sender, PostType::TEXT, now) {
            return Err(ContractError::InvalidState);
        }
        let id = self.push_post(
            sender,
            tribe_id,
            metadata,
            true,
            Some(collectible_contract),
            collectible_id,
            true,
            Some(encryption_key_hash),
            Some(access_signer),
            0,
            now,
        );
        let ghost mid = *self;
        self.set_last(sender, PostType::TEXT, now);
        proof {
            Self::lemma_wf_same_content(mid, *self);
            assert forall|p2: u64| p2 < old(self).spec_post_count() implies (
            #[trigger] self.spec_post(p2)) == old(self).spec_post(p2) by {
                assert(self.spec_post(p2) == mid.spec_post(p2));
            }
            assert(self.spec_post(id) == mid.spec_post(id));
            assert(self.spec_post_count() == mid.spec_post_count());
        }
        Ok(id)
    }

    /// Community-admin-only (and the admin must be an ACTIVE member): stores
    /// the community's encryption key.
    #[allow(non_snake_case)]
    pub fn setTribeEncryptionKey(
        &mut self,
        tribes: &TribeController,
        sender: &String,
        tribe_id: u64,
        encryption_key: String,
    ) -> (r: Result<(), ContractError>)
        requires
            old(self).wf(),
            tribes.wf(),
        ensures
            final(self).wf(),
            r is Ok <==> (tribe_id < tribes.spec_tribe_count() && tribes.spec_tribe(tribe_id).admin
                == sender@ && tribes.spec_status(tribe_id, sender@) == MemberStatus::ACTIVE),
            r is Err ==> *final(self) == *old(self),
            tribe_id >= tribes.spec_tribe_count() ==> r == Result::<(), ContractError>::Err(
                ContractError::NotFound,
            ),
            r is Ok ==> {
                &&& final(self).spec_tribe_key(tribe_id) == Some(encryption_key@)
                &&& forall|t2: u64|
                    t2 != tribe_id ==> (#[trigger] final(self).spec_tribe_key(t2)) == old(self).spec_tribe_key(t2)
                &&& Self::posts_unchanged(*old(self), *final(self))
                &&& Self::interactions_unchanged(*old(self), *final(self))
                &&& Self::viewers_unchanged(*old(self), *final(self))
                &&& Self::lasts_unchanged(*old(self), *final(self))
                &&& Self::cooldowns_unchanged(*old(self), *final(self))
                &&& Self::admin_unchanged(*old(self), *final(self))
            },
    {
        match tribes.getTribeAdmin(tribe_id) {
            Err(_) => Err(ContractError::NotFound),
            Ok(resp) => {
                if !(resp.admin == *sender) {
                    return Err(ContractError::Unauthorized);
                }
                if !tribes.is_tribe_member(tribe_id, sender) {
                    return Err(ContractError::Unauthorized);
                }
                let ghost pre = *self;
                self.tribe_keys.insert(0, (tribe_id, encryption_key));
                proof {
                    assert(self.tribe_keys@.drop_first() =~= pre.tribe_keys@);
                    Self::lemma_wf_same_content(pre, *self);
                }
                Ok(())
            },
        }
    }

    /// Creator-only metadata replacement on an undeleted post; the new payload
    /// must satisfy its derived type's structural rules.
    #[allow(non_snake_case)]
    pub fn updatePost(&mut self, sender: &String, post_id: u64, metadata: String) -> (r: Result<
        (),
        ContractError,
    >)
        requires
            old(self).wf(),
        ensures
            final(self).wf(),
            r is Ok <==> (post_id < old(self).spec_post_count() && old(self).spec_post(
                post_id,
            ).creator == sender@ && !old(self).spec_post(post_id).is_deleted
                && spec_valid_metadata(
                md_bytes(metadata@),
                spec_post_type(md_bytes(metadata@)),
            )),
            r is Err ==> *final(self) == *old(self),
            post_id >= old(self).spec_post_count() ==> r == Result::<(), ContractError>::Err(
                ContractError::NotFound,
            ),
            r is Ok ==> {
                &&& final(self).spec_post(post_id) == (PostDataV {
                    metadata: metadata@,
                    ..old(self).spec_post(post_id)
                })
                &&& final(self).spec_post_count() == old(self).spec_post_count()
                &&& forall|p2: u64|
                    p2 < old(self).spec_post_count() && p2 != post_id ==> (#[trigger] final(self).spec_post(p2)) == old(self).spec_post(p2)
                &&& Self::interactions_unchanged(*old(self), *final(self))
                &&& Self::viewers_unchanged(*old(self), *final(self))
                &&& Self::lasts_unchanged(*old(self), *final(self))
                &&& Self::keys_unchanged(*old(self), *final(self))
                &&& Self::cooldowns_unchanged(*old(self), *final(self))
                &&& Self::admin_unchanged(*old(self), *final(self))
            },
    {
        let n = self.posts.len();
        if post_id >= n as u64 {
            return Err(ContractError::NotFound);
        }
        let pi = post_id as usize;
        if !(self.posts[pi].creator == *sender) {
            return Err(ContractError::Unauthorized);
        }
        if self.posts[pi].is_deleted {
            return Err(ContractError::InvalidState);
        }
        let pt = determine_post_type(metadata.as_str());
        if !validateMetadata(metadata.as_str(), &pt) {
            return Err(ContractError::ValidationError);
        }
        self.posts[pi].metadata = metadata;
        proof {
            assert forall|p2: u64, k2: InteractionType| spec_counted_kind(k2) implies (
            #[trigger] count_val_of(self.counts@, p2, k2)) == count_inter(
                self.interactions@,
                p2,
                k2,
            ) by {
                assert(count_val_of(old(self).counts@, p2, k2) == count_inter(
                    old(self).interactions@,
                    p2,
                    k2,
                ));
            }
            assert forall|p2: u64| (#[trigger] count_inter(
                self.interactions@,
                p2,
                InteractionType::REPORT,
            )) <= REPORT_THRESHOLD by {
                assert(count_inter(old(self).interactions@, p2, InteractionType::REPORT)
                    <= REPORT_THRESHOLD);
            }
            assert forall|p2: u64|
                p2 < self.posts@.len() && (#[trigger] count_inter(
                    self.interactions@,
                    p2,
                    InteractionType::REPORT,
                )) == REPORT_THRESHOLD implies self.posts@[p2 as int].is_deleted by {
                assert(count_inter(old(self).interactions@, p2, InteractionType::REPORT)
                    == REPORT_THRESHOLD);
                assert(old(self).posts@[p2 as int].is_deleted);
            }
        }
        Ok(())
    }
}

} // verus!
verus! {

pub ghost struct BatchPostDataV {
    pub metadata: Seq<char>,
    pub is_gated: bool,
    pub collectible_contract: Option<Seq<char>>,
    pub collectible_id: u64,
    pub post_type: PostType,
}

impl View for BatchPostData {
    type V = BatchPostDataV;

    open spec fn view(&self) -> BatchPostDataV {
        BatchPostDataV {
            metadata: self.metadata@,
            is_gated: self.is_gated,
            collectible_contract: match self.collectible_contract {
                Some(c) => Some(c@),
                None => None,
            },
            collectible_id: self.collectible_id,
            post_type: self.post_type,
        }
    }
}

impl PostMinter {
    /// Whether batch item `i` passes: its payload meets its declared type's
    /// rules, and its type's cooldown window is open — an earlier item of the
    /// same type has just stamped the window, so a repeat passes only with a
    /// zero cooldown.
    pub open spec fn spec_batch_item_ok(
        &self,
        u: Seq<char>,
        items: Seq<BatchPostDataV>,
        i: int,
        now: u64,
    ) -> bool {
        &&& spec_valid_metadata(md_bytes(items[i].metadata), items[i].post_type)
        &&& if exists|j: int|
            0 <= j < i && (#[trigger] items[j]).post_type == items[i].post_type {
            self.spec_cooldown(items[i].post_type) == 0
        } else {
            !self.spec_on_cooldown(u, items[i].post_type, now)
        }
    }

    pub open spec fn spec_batch_ok(
        &self,
        u: Seq<char>,
        items: Seq<BatchPostDataV>,
        now: u64,
    ) -> bool {
        forall|i: int| 0 <= i < items.len() ==> self.spec_batch_item_ok(u, items, i, now)
    }

    /// Creates up to the batch cap of posts in one call: the whole batch is
    /// validated first, so a failing call commits nothing; every item's
    /// cooldown window is stamped on success.
    #[allow(non_snake_case)]
    pub fn createBatchPosts(
        &mut self,
        tribes: &TribeController,
        sender: &String,
        tribe_id: u64,
        posts: Vec<BatchPostData>,
        now: u64,
    ) -> (r: Result<(), ContractError>)
        requires
            old(self).wf(),
            tribes.wf(),
        ensures
            final(self).wf(),
            r is Ok <==> (posts@.len() <= MAX_BATCH_POSTS && tribes.spec_status(tribe_id, sender@)
                == MemberStatus::ACTIVE && old(self).spec_batch_ok(
                sender@,
                posts@.map_values(|b: BatchPostData| b@),
                now,
            )),
            r is Err ==> *final(self) == *old(self),
            posts@.len() > MAX_BATCH_POSTS ==> r == Result::<(), ContractError>::Err(
                ContractError::ValidationError,
            ),
            posts@.len() <= MAX_BATCH_POSTS && tribes.spec_status(tribe_id, sender@)
                != MemberStatus::ACTIVE ==> r == Result::<(), ContractError>::Err(
                ContractError::Unauthorized,
            ),
            r is Ok ==> {
                &&& final(self).spec_post_count() == old(self).spec_post_count() + posts@.len()
                &&& forall|k: int|
                    0 <= k < posts@.len() ==> final(self).spec_post(
                        (old(self).spec_post_count() + k) as u64,
                    ) == (PostDataV {
                        id: (old(self).spec_post_count() + k) as u64,
                        creator: sender@,
                        tribe_id: tribe_id,
                        metadata: (#[trigger] posts@[k])@.metadata,
                        is_gated: posts@[k]@.is_gated,
                        collectible_contract: posts@[k]@.collectible_contract,
                        collectible_id: posts@[k]@.collectible_id,
                        is_encrypted: false,
                        encryption_key_hash: None,
                        access_signer: None,
                        parent_post_id: 0,
                        created_at: now,
                        is_deleted: false,
                    })
                &&& forall|p2: u64|
                    p2 < old(self).spec_post_count() ==> (#[trigger] final(self).spec_post(p2))
                        == old(self).spec_post(p2)
                &&& forall|pt2: PostType|
                    (exists|j: int|
                        0 <= j < posts@.len() && (#[trigger] posts@[j])@.post_type == pt2) ==> (
                    #[trigger] final(self).spec_last(sender@, pt2)) == Some(now)
                &&& forall|u2: Seq<char>, pt2: PostType|
                    (u2 != sender@ || !(exists|j: int|
                        0 <= j < posts@.len() && (#[trigger] posts@[j])@.post_type == pt2)) ==> (
                    #[trigger] final(self).spec_last(u2, pt2)) == old(self).spec_last(u2, pt2)
                &&& Self::interactions_unchanged(*old(self), *final(self))
                &&& Self::viewers_unchanged(*old(self), *final(self))
                &&& Self::keys_unchanged(*old(self), *final(self))
                &&& Self::cooldowns_unchanged(*old(self), *final(self))
                &&& Self::admin_unchanged(*old(self), *final(self))
            },
    {
        let ghost items = posts@.map_values(|b: BatchPostData| b@);
        let nb = posts.len();
        if nb as u64 > MAX_BATCH_POSTS {
            return Err(ContractError::ValidationError);
        }
        if !tribes.is_tribe_member(tribe_id, sender) {
            return Err(ContractError::Unauthorized);
        }
        let mut i: usize = 0;
        while i < nb
            invariant
                i <= nb,
                nb == posts@.len(),
                items == posts@.map_values(|b: BatchPostData| b@),
                forall|k: int| 0 <= k < i ==> self.spec_batch_item_ok(sender@, items, k, now),
            decreases nb - i,
        {
            proof {
                assert(items[i as int] == posts@[i as int]@);
            }
            let pt = posts[i].post_type;
            if !validateMetadata(posts[i].metadata.as_str(), &pt) {
                proof {
                    assert(!self.spec_batch_item_ok(sender@, items, i as int, now));
                }
                return Err(ContractError::ValidationError);
            }
            let mut dup = false;
            let mut j: usize = 0;
            while j < i
                invariant
                    j <= i,
                    i < nb,
                    nb == posts@.len(),
                    items == posts@.map_values(|b: BatchPostData| b@),
                    pt == items[i as int].post_type,
                    dup == exists|j2: int|
                        0 <= j2 < j && (#[trigger] items[j2]).post_type == pt,
                decreases i - j,
            {
                proof {
                    assert(items[j as int] == posts@[j as int]@);
                }
                if posts[j].post_type == pt {
                    dup = true;
                }
                j = j + 1;
            }
            if dup {
                if self.getPostTypeCooldown(pt).cooldown != 0 {
                    proof {
                        assert(!self.spec_batch_item_ok(sender@, items, i as int, now));
                    }
                    return Err(ContractError::InvalidState);
                }
            } else {
                if self.on_cooldown(sender, pt, now) {
                    proof {
                        assert(!self.spec_batch_item_ok(sender@, items, i as int, now));
                    }
                    return Err(ContractError::InvalidState);
                }
            }
            i = i + 1;
        }
        let ghost base = self.spec_post_count();
        let ghost pre = *self;
        let mut i2: usize = 0;
        while i2 < nb
            invariant
                i2 <= nb,
                nb == posts@.len(),
                items == posts@.map_values(|b: BatchPostData| b@),
                self.wf(),
                self.spec_post_count() == base + i2,
                base == pre.spec_post_count(),
                forall|k: int|
                    0 <= k < i2 ==> (#[trigger] self.spec_post((base + k) as u64)) == (PostDataV {
                        id: (base + k) as u64,
                        creator: sender@,
                        tribe_id: tribe_id,
                        metadata: items[k].metadata,
                        is_gated: items[k].is_gated,
                        collectible_contract: items[k].collectible_contract,
                        collectible_id: items[k].collectible_id,
                        is_encrypted: false,
                        encryption_key_hash: None,
                        access_signer: None,
                        parent_post_id: 0,
                        created_at: now,
                        is_deleted: false,
                    }),
                forall|p2: u64|
                    p2 < base ==> (#[trigger] self.spec_post(p2)) == pre.spec_post(p2),
                forall|pt2: PostType|
                    (exists|j: int| 0 <= j < i2 && (#[trigger] items[j]).post_type == pt2) ==> (
                    #[trigger] self.spec_last(sender@, pt2)) == Some(now),
                forall|u2: Seq<char>, pt2: PostType|
                    (u2 != sender@ || !(exists|j: int|
                        0 <= j < i2 && (#[trigger] items[j]).post_type == pt2)) ==> (
                    #[trigger] self.spec_last(u2, pt2)) == pre.spec_last(u2, pt2),
                Self::interactions_unchanged(pre, *self),
                Self::viewers_unchanged(pre, *self),
                Self::keys_unchanged(pre, *self),
                Self::cooldowns_unchanged(pre, *self),
                Self::admin_unchanged(pre, *self),
            decreases nb - i2,
        {
            proof {
                assert(items[i2 as int] == posts@[i2 as int]@);
            }
            let item_metadata = posts[i2].metadata.clone();
            let item_gated = posts[i2].is_gated;
            let item_contract: Option<String> = match &posts[i2].collectible_contract {
                Some(c) => Some(c.clone()),
                None => None,
            };
            let item_cid = posts[i2].collectible_id;
            let item_pt = posts[i2].post_type;
            let ghost m0 = *self;
            let id = self.push_post(
                sender,
                tribe_id,
                item_metadata,
                item_gated,
                item_contract,
                item_cid,
                false,
                None,
                None,
                0,
                now,
            );
            let ghost m1 = *self;
            self.set_last(sender, item_pt, now);
            proof {
                Self::lemma_wf_same_content(m1, *self);
                assert forall|k: int| 0 <= k < i2 + 1 implies (#[trigger] self.spec_post(
                    (base + k) as u64,
                )) == (PostDataV {
                    id: (base + k) as u64,
                    creator: sender@,
                    tribe_id: tribe_id,
                    metadata: items[k].metadata,
                    is_gated: items[k].is_gated,
                    collectible_contract: items[k].collectible_contract,
                    collectible_id: items[k].collectible_id,
                    is_encrypted: false,
                    encryption_key_hash: None,
                    access_signer: None,
                    parent_post_id: 0,
                    created_at: now,
                    is_deleted: false,
                }) by {
                    assert(self.spec_post((base + k) as u64) == m1.spec_post((base + k) as u64));
                    if k < i2 {
                        assert(m1.spec_post((base + k) as u64) == m0.spec_post((base + k) as u64));
                    }
                }
                assert forall|p2: u64| p2 < base implies (#[trigger] self.spec_post(p2))
                    == pre.spec_post(p2) by {
                    assert(self.spec_post(p2) == m1.spec_post(p2));
                    assert(m1.spec_post(p2) == m0.spec_post(p2));
                }
                assert forall|pt2: PostType|
                    (exists|j: int|
                        0 <= j < i2 + 1 && (#[trigger] items[j]).post_type == pt2) implies (
                #[trigger] self.spec_last(sender@, pt2)) == Some(now) by {
                    if pt2 == item_pt {
                    } else {
                        let j = choose|j: int|
                            0 <= j < i2 + 1 && (#[trigger] items[j]).post_type == pt2;
                        assert(j < i2);
                        assert(m0.spec_last(sender@, pt2) == Some(now));
                        assert(m1.spec_last(sender@, pt2) == m0.spec_last(sender@, pt2));
                        assert(self.spec_last(sender@, pt2) == m1.spec_last(sender@, pt2));
                    }
                }
                assert forall|u2: Seq<char>, pt2: PostType|
                    (u2 != sender@ || !(exists|j: int|
                        0 <= j < i2 + 1 && (#[trigger] items[j]).post_type == pt2)) implies (
                #[trigger] self.spec_last(u2, pt2)) == pre.spec_last(u2, pt2) by {
                    assert(!(u2 == sender@ && pt2 == item_pt)) by {
                        if u2 == sender@ && pt2 == item_pt {
                            assert(items[i2 as int].post_type == pt2);
                        }
                    }
                    assert(self.spec_last(u2, pt2) == m1.spec_last(u2, pt2));
                    assert(m1.spec_last(u2, pt2) == m0.spec_last(u2, pt2));
                    assert(m0.spec_last(u2, pt2) == pre.spec_last(u2, pt2)) by {
                        if u2 == sender@ && (exists|j: int|
                            0 <= j < i2 && (#[trigger] items[j]).post_type == pt2) {
                            assert(false);
                        }
                    }
                }
                assert forall|p2: u64, u2: Seq<char>, k2: InteractionType|
                    (#[trigger] self.spec_interacted(p2, u2, k2)) == pre.spec_interacted(
                    p2,
                    u2,
                    k2,
                ) by {
                    assert(self.spec_interacted(p2, u2, k2) == m1.spec_interacted(p2, u2, k2));
                    assert(m1.spec_interacted(p2, u2, k2) == m0.spec_interacted(p2, u2, k2));
                }
                assert forall|p2: u64, k2: InteractionType| (#[trigger] self.spec_count(p2, k2))
                    == pre.spec_count(p2, k2) by {
                    assert(self.spec_count(p2, k2) == m1.spec_count(p2, k2));
                    assert(m1.spec_count(p2, k2) == m0.spec_count(p2, k2));
                }
                assert forall|p2: u64, u2: Seq<char>| (#[trigger] self.spec_authorized(p2, u2))
                    == pre.spec_authorized(p2, u2) by {
                    assert(self.spec_authorized(p2, u2) == m1.spec_authorized(p2, u2));
                    assert(m1.spec_authorized(p2, u2) == m0.spec_authorized(p2, u2));
                }
                assert forall|t2: u64| (#[trigger] self.spec_tribe_key(t2)) == pre.spec_tribe_key(
                    t2,
                ) by {
                    assert(self.spec_tribe_key(t2) == m1.spec_tribe_key(t2));
                    assert(m1.spec_tribe_key(t2) == m0.spec_tribe_key(t2));
                }
                assert forall|p2: u64, u2: Seq<char>| (#[trigger] self.spec_decryption_key(
                    p2,
                    u2,
                )) == pre.spec_decryption_key(p2, u2) by {
                    assert(self.spec_decryption_key(p2, u2) == m1.spec_decryption_key(p2, u2));
                    assert(m1.spec_decryption_key(p2, u2) == m0.spec_decryption_key(p2, u2));
                }
                assert forall|pt2: PostType| (#[trigger] self.spec_cooldown(pt2))
                    == pre.spec_cooldown(pt2) by {
                    assert(self.spec_cooldown(pt2) == m1.spec_cooldown(pt2));
                    assert(m1.spec_cooldown(pt2) == m0.spec_cooldown(pt2));
                }
                assert forall|u2: Seq<char>, ro: Seq<char>| (#[trigger] self.spec_has_role(
                    u2,
                    ro,
                )) == pre.spec_has_role(u2, ro) by {
                    assert(self.spec_has_role(u2, ro) == m1.spec_has_role(u2, ro));
                    assert(m1.spec_has_role(u2, ro) == m0.spec_has_role(u2, ro));
                }
            }
            i2 = i2 + 1;
        }
        let total_now = self.posts.len();
        proof {
            assert(base + nb == total_now);
            assert forall|k: int| 0 <= k < posts@.len() implies self.spec_post(
                (base + k) as u64,
            ) == (PostDataV {
                id: (base + k) as u64,
                creator: sender@,
                tribe_id: tribe_id,
                metadata: (#[trigger] posts@[k])@.metadata,
                is_gated: posts@[k]@.is_gated,
                collectible_contract: posts@[k]@.collectible_contract,
                collectible_id: posts@[k]@.collectible_id,
                is_encrypted: false,
                encryption_key_hash: None,
                access_signer: None,
                parent_post_id: 0,
                created_at: now,
                is_deleted: false,
            }) by {
                assert(items[k] == posts@[k]@);
                assert(self.spec_post((base + k) as u64) == (PostDataV {
                    id: (base + k) as u64,
                    creator: sender@,
                    tribe_id: tribe_id,
                    metadata: items[k].metadata,
                    is_gated: items[k].is_gated,
                    collectible_contract: items[k].collectible_contract,
                    collectible_id: items[k].collectible_id,
                    is_encrypted: false,
                    encryption_key_hash: None,
                    access_signer: None,
                    parent_post_id: 0,
                    created_at: now,
                    is_deleted: false,
                }));
            }
            assert forall|pt2: PostType|
                (exists|j: int|
                    0 <= j < posts@.len() && (#[trigger] posts@[j])@.post_type == pt2) implies (
            #[trigger] self.spec_last(sender@, pt2)) == Some(now) by {
                let j = choose|j: int|
                    0 <= j < posts@.len() && (#[trigger] posts@[j])@.post_type == pt2;
                assert(items[j] == posts@[j]@);
                assert(items[j].post_type == pt2);
            }
            assert forall|u2: Seq<char>, pt2: PostType|
                (u2 != sender@ || !(exists|j: int|
                    0 <= j < posts@.len() && (#[trigger] posts@[j])@.post_type == pt2)) implies (
            #[trigger] self.spec_last(u2, pt2)) == pre.spec_last(u2, pt2) by {
                if u2 == sender@ {
                    if exists|j: int| 0 <= j < nb && (#[trigger] items[j]).post_type == pt2 {
                        let j = choose|j: int|
                            0 <= j < nb && (#[trigger] items[j]).post_type == pt2;
                        assert(items[j] == posts@[j]@);
                        assert(posts@[j]@.post_type == pt2);
                        assert(false);
                    }
                }
            }
        }
        Ok(())
    }
}

} // verus!
verus! {

pub open spec fn sel_tribe(p: PostDataV, t: u64) -> bool {
    p.tribe_id == t && !p.is_deleted
}

pub open spec fn sel_user(p: PostDataV, u: Seq<char>) -> bool {
    p.creator == u && !p.is_deleted
}

pub open spec fn sel_tribe_user(p: PostDataV, t: u64, u: Seq<char>) -> bool {
    p.tribe_id == t && p.creator == u && !p.is_deleted
}

pub open spec fn sel_feed(p: PostDataV, tribes: TribeController, u: Seq<char>) -> bool {
    !p.is_deleted && tribes.spec_status(p.tribe_id, u) == MemberStatus::ACTIVE
}

pub open spec fn count_sel_tribe(s: Seq<PostData>, t: u64, upto: int) -> nat
    decreases upto,
{
    if upto <= 0 {
        0
    } else {
        count_sel_tribe(s, t, upto - 1) + (if sel_tribe(s[upto - 1]@, t) {
            1nat
        } else {
            0nat
        })
    }
}

pub open spec fn count_sel_user(s: Seq<PostData>, u: Seq<char>, upto: int) -> nat
    decreases upto,
{
    if upto <= 0 {
        0
    } else {
        count_sel_user(s, u, upto - 1) + (if sel_user(s[upto - 1]@, u) {
            1nat
        } else {
            0nat
        })
    }
}

pub open spec fn count_sel_tribe_user(s: Seq<PostData>, t: u64, u: Seq<char>, upto: int) -> nat
    decreases upto,
{
    if upto <= 0 {
        0
    } else {
        count_sel_tribe_user(s, t, u, upto - 1) + (if sel_tribe_user(s[upto - 1]@, t, u) {
            1nat
        } else {
            0nat
        })
    }
}

pub open spec fn count_sel_feed(
    s: Seq<PostData>,
    tribes: TribeController,
    u: Seq<char>,
    upto: int,
) -> nat
    decreases upto,
{
    if upto <= 0 {
        0
    } else {
        count_sel_feed(s, tribes, u, upto - 1) + (if sel_feed(s[upto - 1]@, tribes, u) {
            1nat
        } else {
            0nat
        })
    }
}

impl PostMinter {
    /// How many of the first `upto` posts are undeleted posts of community `t`.
    pub closed spec fn spec_tribe_rank(&self, t: u64, upto: int) -> nat {
        count_sel_tribe(self.posts@, t, upto)
    }

    /// How many of the first `upto` posts are undeleted posts by `u`.
    pub closed spec fn spec_user_rank(&self, u: Seq<char>, upto: int) -> nat {
        count_sel_user(self.posts@, u, upto)
    }

    /// How many of the first `upto` posts are undeleted posts by `u` in `t`.
    pub closed spec fn spec_tribe_user_rank(&self, t: u64, u: Seq<char>, upto: int) -> nat {
        count_sel_tribe_user(self.posts@, t, u, upto)
    }

    /// How many of the first `upto` posts are undeleted posts of communities
    /// where `u` is ACTIVE.
    pub closed spec fn spec_feed_rank(
        &self,
        tribes: TribeController,
        u: Seq<char>,
        upto: int,
    ) -> nat {
        count_sel_feed(self.posts@, tribes, u, upto)
    }

    /// The undeleted replies of `post_id`, ascending.
    #[allow(non_snake_case)]
    pub fn getPostReplies(&self, post_id: u64) -> (r: PostRepliesResponse)
        ensures
            forall|k: int|
                0 <= k < r.replies@.len() ==> #[trigger] r.replies@[k] < self.spec_post_count()
                    && self.spec_post(r.replies@[k]).parent_post_id == post_id && !self.spec_post(
                    r.replies@[k],
                ).is_deleted,
            forall|id: u64|
                id < self.spec_post_count() && self.spec_post(id).parent_post_id == post_id
                    && !self.spec_post(id).is_deleted ==> r.replies@.contains(id),
            forall|k: int, j: int| 0 <= k < j < r.replies@.len() ==> r.replies@[k] < r.replies@[j],
    {
        let n = self.posts.len();
        let mut out: Vec<u64> = Vec::new();
        let mut i: usize = 0;
        while i < n
            invariant
                i <= n,
                n == self.spec_post_count(),
                forall|k: int|
                    0 <= k < out@.len() ==> #[trigger] out@[k] < self.spec_post_count()
                        && self.spec_post(out@[k]).parent_post_id == post_id && !self.spec_post(
                        out@[k],
                    ).is_deleted,
                forall|id: u64|
                    id < i && self.spec_post(id).parent_post_id == post_id && !self.spec_post(
                        id,
                    ).is_deleted ==> out@.contains(id),
                forall|k: int, j: int| 0 <= k < j < out@.len() ==> out@[k] < out@[j],
                forall|k: int| 0 <= k < out@.len() ==> out@[k] < i,
            decreases n - i,
        {
            let ghost oldout = out@;
            if self.posts[i].parent_post_id == post_id && !self.posts[i].is_deleted {
                out.push(i as u64);
            }
            proof {
                assert forall|id: u64|
                    id < i + 1 && self.spec_post(id).parent_post_id == post_id && !self.spec_post(
                        id,
                    ).is_deleted implies out@.contains(id) by {
                    if id < i {
                        assert(oldout.contains(id));
                        let k = choose|k: int| 0 <= k < oldout.len() && oldout[k] == id;
                        assert(out@[k] == id);
                    } else {
                        assert(out@[out@.len() - 1] == i as u64);
                    }
                }
            }
            i = i + 1;
        }
        PostRepliesResponse { replies: out }
    }

    /// The undeleted posts of community `tribe_id`: the window
    /// [offset, offset + limit) of the ascending match list, plus the total
    /// match count.
    #[allow(non_snake_case)]
    pub fn getPostsByTribe(&self, tribe_id: u64, offset: u64, limit: u64) -> (r: PostsResponse)
        ensures
            r.total as int == self.spec_tribe_rank(tribe_id, self.spec_post_count() as int),
            forall|id: u64|
                id < self.spec_post_count() ==> (r.posts@.contains(id) <==> (sel_tribe(
                    self.spec_post(id),
                    tribe_id,
                ) && offset <= self.spec_tribe_rank(tribe_id, id as int) && self.spec_tribe_rank(
                    tribe_id,
                    id as int,
                ) < offset + limit)),
            forall|k: int, j: int| 0 <= k < j < r.posts@.len() ==> r.posts@[k] < r.posts@[j],
            forall|k: int| 0 <= k < r.posts@.len() ==> #[trigger] r.posts@[k] < self.spec_post_count(),
    {
        let n = self.posts.len();
        let mut out: Vec<u64> = Vec::new();
        let mut total: u64 = 0;
        let mut i: usize = 0;
        while i < n
            invariant
                i <= n,
                n == self.spec_post_count(),
                total as int == self.spec_tribe_rank(tribe_id, i as int),
                total as int <= i,
                forall|id: u64|
                    id < i ==> (out@.contains(id) <==> (sel_tribe(self.spec_post(id), tribe_id)
                        && offset <= self.spec_tribe_rank(tribe_id, id as int)
                        && self.spec_tribe_rank(tribe_id, id as int) < offset + limit)),
                forall|k: int, j: int| 0 <= k < j < out@.len() ==> out@[k] < out@[j],
                forall|k: int| 0 <= k < out@.len() ==> out@[k] < i,
            decreases n - i,
        {
            let ghost oldout = out@;
            let matched = self.posts[i].tribe_id == tribe_id && !self.posts[i].is_deleted;
            if matched {
                if total >= offset && total - offset < limit {
                    out.push(i as u64);
                }
                total = total + 1;
            }
            proof {
                assert forall|id: u64|
                    id < i + 1 implies (out@.contains(id) <==> (sel_tribe(
                    self.spec_post(id),
                    tribe_id,
                ) && offset <= self.spec_tribe_rank(tribe_id, id as int) && self.spec_tribe_rank(
                    tribe_id,
                    id as int,
                ) < offset + limit)) by {
                    if id < i {
                        if oldout.contains(id) {
                            let k = choose|k: int| 0 <= k < oldout.len() && oldout[k] == id;
                            assert(out@[k] == id);
                        }
                        if out@.contains(id) {
                            let k = choose|k: int| 0 <= k < out@.len() && out@[k] == id;
                            if k < oldout.len() {
                                assert(oldout[k] == id);
                            }
                        }
                    } else {
                        if out@.len() > oldout.len() {
                            assert(out@[out@.len() - 1] == i as u64);
                        }
                        if out@.contains(id) {
                            let k = choose|k: int| 0 <= k < out@.len() && out@[k] == id;
                            if k < oldout.len() {
                                assert(oldout[k] == id);
                                assert(false);
                            }
                        }
                    }
                }
            }
            i = i + 1;
        }
        PostsResponse { posts: out, total }
    }

    /// The undeleted posts by `user`: the window of the ascending match list
    /// plus the total match count.
    #[allow(non_snake_case)]
    pub fn getPostsByUser(&self, user: &String, offset: u64, limit: u64) -> (r: PostsResponse)
        ensures
            r.total as int == self.spec_user_rank(user@, self.spec_post_count() as int),
            forall|id: u64|
                id < self.spec_post_count() ==> (r.posts@.contains(id) <==> (sel_user(
                    self.spec_post(id),
                    user@,
                ) && offset <= self.spec_user_rank(user@, id as int) && self.spec_user_rank(
                    user@,
                    id as int,
                ) < offset + limit)),
            forall|k: int, j: int| 0 <= k < j < r.posts@.len() ==> r.posts@[k] < r.posts@[j],
            forall|k: int| 0 <= k < r.posts@.len() ==> #[trigger] r.posts@[k] < self.spec_post_count(),
    {
        let n = self.posts.len();
        let mut out: Vec<u64> = Vec::new();
        let mut total: u64 = 0;
        let mut i: usize = 0;
        while i < n
            invariant
                i <= n,
                n == self.spec_post_count(),
                total as int == self.spec_user_rank(user@, i as int),
                total as int <= i,
                forall|id: u64|
                    id < i ==> (out@.contains(id) <==> (sel_user(self.spec_post(id), user@)
                        && offset <= self.spec_user_rank(user@, id as int) && self.spec_user_rank(
                        user@,
                        id as int,
                    ) < offset + limit)),
                forall|k: int, j: int| 0 <= k < j < out@.len() ==> out@[k] < out@[j],
                forall|k: int| 0 <= k < out@.len() ==> out@[k] < i,
            decreases n - i,
        {
            let ghost oldout = out@;
            let matched = self.posts[i].creator == *user && !self.posts[i].is_deleted;
            if matched {
                if total >= offset && total - offset < limit {
                    out.push(i as u64);
                }
                total = total + 1;
            }
            proof {
                assert forall|id: u64|
                    id < i + 1 implies (out@.contains(id) <==> (sel_user(self.spec_post(id), user@)
                    && offset <= self.spec_user_rank(user@, id as int) && self.spec_user_rank(
                    user@,
                    id as int,
                ) < offset + limit)) by {
                    if id < i {
                        if oldout.contains(id) {
                            let k = choose|k: int| 0 <= k < oldout.len() && oldout[k] == id;
                            assert(out@[k] == id);
                        }
                        if out@.contains(id) {
                            let k = choose|k: int| 0 <= k < out@.len() && out@[k] == id;
                            if k < oldout.len() {
                                assert(oldout[k] == id);
                            }
                        }
                    } else {
                        if out@.len() > oldout.len() {
                            assert(out@[out@.len() - 1] == i as u64);
                        }
                        if out@.contains(id) {
                            let k = choose|k: int| 0 <= k < out@.len() && out@[k] == id;
                            if k < oldout.len() {
                                assert(oldout[k] == id);
                                assert(false);
                            }
                        }
                    }
                }
            }
            i = i + 1;
        }
        PostsResponse { posts: out, total }
    }

    /// The undeleted posts by `user` in community `tribe_id`: the window of
    /// the ascending match list plus the total match count.
    #[allow(non_snake_case)]
    pub fn getPostsByTribeAndUser(&self, tribe_id: u64, user: &String, offset: u64, limit: u64) -> (r:
        PostsResponse)
        ensures
            r.total as int == self.spec_tribe_user_rank(
                tribe_id,
                user@,
                self.spec_post_count() as int,
            ),
            forall|id: u64|
                id < self.spec_post_count() ==> (r.posts@.contains(id) <==> (sel_tribe_user(
                    self.spec_post(id),
                    tribe_id,
                    user@,
                ) && offset <= self.spec_tribe_user_rank(tribe_id, user@, id as int)
                    && self.spec_tribe_user_rank(tribe_id, user@, id as int) < offset + limit)),
            forall|k: int, j: int| 0 <= k < j < r.posts@.len() ==> r.posts@[k] < r.posts@[j],
            forall|k: int| 0 <= k < r.posts@.len() ==> #[trigger] r.posts@[k] < self.spec_post_count(),
    {
        let n = self.posts.len();
        let mut out: Vec<u64> = Vec::new();
        let mut total: u64 = 0;
        let mut i: usize = 0;
        while i < n
            invariant
                i <= n,
                n == self.spec_post_count(),
                total as int == self.spec_tribe_user_rank(tribe_id, user@, i as int),
                total as int <= i,
                forall|id: u64|
                    id < i ==> (out@.contains(id) <==> (sel_tribe_user(
                        self.spec_post(id),
                        tribe_id,
                        user@,
                    ) && offset <= self.spec_tribe_user_rank(tribe_id, user@, id as int)
                        && self.spec_tribe_user_rank(tribe_id, user@, id as int) < offset
                        + limit)),
                forall|k: int, j: int| 0 <= k < j < out@.len() ==> out@[k] < out@[j],
                forall|k: int| 0 <= k < out@.len() ==> out@[k] < i,
            decreases n - i,
        {
            let ghost oldout = out@;
            let matched = self.posts[i].tribe_id == tribe_id && self.posts[i].creator == *user
                && !self.posts[i].is_deleted;
            if matched {
                if total >= offset && total - offset < limit {
                    out.push(i as u64);
                }
                total = total + 1;
            }
            proof {
                assert forall|id: u64|
                    id < i + 1 implies (out@.contains(id) <==> (sel_tribe_user(
                    self.spec_post(id),
                    tribe_id,
                    user@,
                ) && offset <= self.spec_tribe_user_rank(tribe_id, user@, id as int)
                    && self.spec_tribe_user_rank(tribe_id, user@, id as int) < offset
                    + limit)) by {
                    if id < i {
                        if oldout.contains(id) {
                            let k = choose|k: int| 0 <= k < oldout.len() && oldout[k] == id;
                            assert(out@[k] == id);
                        }
                        if out@.contains(id) {
                            let k = choose|k: int| 0 <= k < out@.len() && out@[k] == id;
                            if k < oldout.len() {
                                assert(oldout[k] == id);
                            }
                        }
                    } else {
                        if out@.len() > oldout.len() {
                            assert(out@[out@.len() - 1] == i as u64);
                        }
                        if out@.contains(id) {
                            let k = choose|k: int| 0 <= k < out@.len() && out@[k] == id;
                            if k < oldout.len() {
                                assert(oldout[k] == id);
                                assert(false);
                            }
                        }
                    }
                }
            }
            i = i + 1;
        }
        PostsResponse { posts: out, total }
    }

    /// The undeleted posts of the communities where `user` is ACTIVE: the
    /// window of the ascending match list plus the total match count.
    #[allow(non_snake_case)]
    pub fn getFeedForUser(
        &self,
        tribes: &TribeController,
        user: &String,
        offset: u64,
        limit: u64,
    ) -> (r: PostsResponse)
        requires
            tribes.wf(),
        ensures
            r.total as int == self.spec_feed_rank(*tribes, user@, self.spec_post_count() as int),
            forall|id: u64|
                id < self.spec_post_count() ==> (r.posts@.contains(id) <==> (sel_feed(
                    self.spec_post(id),
                    *tribes,
                    user@,
                ) && offset <= self.spec_feed_rank(*tribes, user@, id as int)
                    && self.spec_feed_rank(*tribes, user@, id as int) < offset + limit)),
            forall|k: int, j: int| 0 <= k < j < r.posts@.len() ==> r.posts@[k] < r.posts@[j],
            forall|k: int| 0 <= k < r.posts@.len() ==> #[trigger] r.posts@[k] < self.spec_post_count(),
    {
        let n = self.posts.len();
        let mut out: Vec<u64> = Vec::new();
        let mut total: u64 = 0;
        let mut i: usize = 0;
        while i < n
            invariant
                i <= n,
                n == self.spec_post_count(),
                total as int == self.spec_feed_rank(*tribes, user@, i as int),
                total as int <= i,
                forall|id: u64|
                    id < i ==> (out@.contains(id) <==> (sel_feed(
                        self.spec_post(id),
                        *tribes,
                        user@,
                    ) && offset <= self.spec_feed_rank(*tribes, user@, id as int)
                        && self.spec_feed_rank(*tribes, user@, id as int) < offset + limit)),
                forall|k: int, j: int| 0 <= k < j < out@.len() ==> out@[k] < out@[j],
                forall|k: int| 0 <= k < out@.len() ==> out@[k] < i,
            decreases n - i,
        {
            let ghost oldout = out@;
            let matched = !self.posts[i].is_deleted && tribes.is_tribe_member(
                self.posts[i].tribe_id,
                user,
            );
            if matched {
                if total >= offset && total - offset < limit {
                    out.push(i as u64);
                }
                total = total + 1;
            }
            proof {
                assert forall|id: u64|
                    id < i + 1 implies (out@.contains(id) <==> (sel_feed(
                    self.spec_post(id),
                    *tribes,
                    user@,
                ) && offset <= self.spec_feed_rank(*tribes, user@, id as int)
                    && self.spec_feed_rank(*tribes, user@, id as int) < offset + limit)) by {
                    if id < i {
                        if oldout.contains(id) {
                            let k = choose|k: int| 0 <= k < oldout.len() && oldout[k] == id;
                            assert(out@[k] == id);
                        }
                        if out@.contains(id) {
                            let k = choose|k: int| 0 <= k < out@.len() && out@[k] == id;
                            if k < oldout.len() {
                                assert(oldout[k] == id);
                            }
                        }
                    } else {
                        if out@.len() > oldout.len() {
                            assert(out@[out@.len() - 1] == i as u64);
                        }
                        if out@.contains(id) {
                            let k = choose|k: int| 0 <= k < out@.len() && out@[k] == id;
                            if k < oldout.len() {
                                assert(oldout[k] == id);
                                assert(false);
                            }
                        }
                    }
                }
            }
            i = i + 1;
        }
        PostsResponse { posts: out, total }
    }
}

} // verus!
