//! Membership directory: per-community configuration (admin, join policy,
//! entitlement requirements, whitelist, lifecycle flags) and the
//! per-(community, principal) membership state machine
//! NONE -> PENDING -> ACTIVE / back to NONE, with BANNED terminal. Communities
//! merge through a four-step request workflow. Entitlement-gated joins consult
//! the entitlement oracle and fail closed.

use vstd::prelude::*;

use sha2::Digest;

use crate::errors::ContractError;
use crate::oracle::EntitlementOracle;
use crate::role_manager::{RoleManager, MODERATOR_ROLE};

verus! {

#[derive(Clone, Copy, Debug, PartialEq, Eq, Structural)]
pub enum NFTType {
    ERC721,
    ERC1155,
}

#[allow(non_camel_case_types)]
#[derive(Clone, Copy, Debug, PartialEq, Eq, Structural)]
pub enum JoinType {
    PUBLIC,
    PRIVATE,
    INVITE_CODE,
    NFT_GATED,
    MULTI_NFT,
    ANY_NFT,
    NFTRequired,
}

#[allow(non_camel_case_types)]
#[derive(Clone, Copy, Debug, PartialEq, Eq, Structural)]
pub enum MemberStatus {
    NONE,
    PENDING,
    ACTIVE,
    BANNED,
}

/// One entitlement requirement: a contract, the kind of token it manages, how
/// much of it the joiner must hold, and optionally which token ids.
pub struct NFTRequirement {
    pub nft_contract: Option<String>,
    pub nft_type: NFTType,
    pub is_mandatory: bool,
    pub min_amount: u64,
    pub token_ids: Vec<u64>,
}

pub ghost struct NFTRequirementV {
    pub nft_contract: Option<Seq<char>>,
    pub nft_type: NFTType,
    pub is_mandatory: bool,
    pub min_amount: u64,
    pub token_ids: Seq<u64>,
}

impl View for NFTRequirement {
    type V = NFTRequirementV;

    open spec fn view(&self) -> NFTRequirementV {
        NFTRequirementV {
            nft_contract: match self.nft_contract {
                Some(c) => Some(c@),
                None => None,
            },
            nft_type: self.nft_type,
            is_mandatory: self.is_mandatory,
            min_amount: self.min_amount,
            token_ids: self.token_ids@,
        }
    }
}

/// An invite code, stored only as its one-way hash, with a use budget and an
/// expiry time.
pub struct InviteCode {
    pub code_hash: Vec<u8>,
    pub max_uses: u64,
    pub used_count: u64,
    pub expiry_time: u64,
}

pub ghost struct InviteCodeV {
    pub code_hash: Seq<u8>,
    pub max_uses: u64,
    pub used_count: u64,
    pub expiry_time: u64,
}

impl View for InviteCode {
    type V = InviteCodeV;

    open spec fn view(&self) -> InviteCodeV {
        InviteCodeV {
            code_hash: self.code_hash@,
            max_uses: self.max_uses,
            used_count: self.used_count,
            expiry_time: self.expiry_time,
        }
    }
}

#[derive(Clone, Copy, Debug, PartialEq, Eq, Structural)]
pub struct MergeRequest {
    pub source_tribe_id: u64,
    pub target_tribe_id: u64,
    pub request_time: u64,
    pub approved: bool,
}

/// A community's configuration and lifecycle flags.
pub struct TribeMeta {
    pub name: String,
    pub metadata: String,
    pub admin: String,
    pub whitelist: Vec<String>,
    pub join_type: JoinType,
    pub entry_fee: u128,
    pub nft_requirements: Vec<NFTRequirement>,
    pub can_merge: bool,
    pub is_active: bool,
}

pub ghost struct TribeMetaV {
    pub name: Seq<char>,
    pub metadata: Seq<char>,
    pub admin: Seq<char>,
    pub whitelist: Seq<Seq<char>>,
    pub join_type: JoinType,
    pub entry_fee: u128,
    pub nft_requirements: Seq<NFTRequirementV>,
    pub can_merge: bool,
    pub is_active: bool,
}

impl View for TribeMeta {
    type V = TribeMetaV;

    open spec fn view(&self) -> TribeMetaV {
        TribeMetaV {
            name: self.name@,
            metadata: self.metadata@,
            admin: self.admin@,
            whitelist: self.whitelist@.map_values(|a: String| a@),
            join_type: self.join_type,
            entry_fee: self.entry_fee,
            nft_requirements: self.nft_requirements@.map_values(|r: NFTRequirement| r@),
            can_merge: self.can_merge,
            is_active: self.is_active,
        }
    }
}

/// One membership record; absence of a record means status NONE. A record
/// whose status is NONE marks a previously rejected request.
pub struct TribeMember {
    pub tribe_id: u64,
    pub member: String,
    pub status: MemberStatus,
}

pub struct TribeConfigView {
    pub join_type: JoinType,
    pub entry_fee: u128,
    pub nft_requirements: Vec<NFTRequirement>,
    pub can_merge: bool,
}

pub struct TribeDetailsView {
    pub name: String,
    pub metadata: String,
    pub admin: String,
    pub whitelist: Vec<String>,
    pub join_type: JoinType,
    pub entry_fee: u128,
    pub nft_requirements: Vec<NFTRequirement>,
    pub member_count: u64,
    pub can_merge: bool,
    pub is_active: bool,
    pub available_invite_codes: Vec<Vec<u8>>,
}

pub struct AdminResponse {
    pub admin: String,
}

pub struct WhitelistResponse {
    pub whitelist: Vec<String>,
}

pub struct BoolResponse {
    pub result: bool,
}

pub struct MemberStatusResponse {
    pub status: MemberStatus,
}

pub struct TribeConfigViewResponse {
    pub config: TribeConfigView,
}

pub struct MemberCountResponse {
    pub count: u64,
}

pub struct UserTribesResponse {
    pub tribe_ids: Vec<u64>,
}

pub struct InviteCodeStatusResponse {
    pub valid: bool,
    pub remaining_uses: u64,
}

pub struct MergeRequestResponse {
    pub request: MergeRequest,
}

/// Query shape consumed from the capability registry.
pub enum RoleManagerQuery {
    HasRole { user: String, role: String },
}

pub struct RoleResponse {
    pub has_role: bool,
}

/// Query shapes consumed from entitlement contracts.
pub enum Erc721Query {
    BalanceOf { owner: String },
    OwnerOf { token_id: u64 },
}

pub enum Erc1155Query {
    BalanceOf { account: String, id: u64 },
}

pub struct BalanceResponse {
    pub balance: u128,
}

pub struct OwnerResponse {
    pub owner: String,
}

/// What a SHA-256 digest of the given bytes holds.
pub uninterp spec fn sha256_of(data: Seq<u8>) -> Seq<u8>;

/// Relies on sha2's SHA-256 implementation: the digest is a pure function of
/// the input bytes and is 32 bytes long.
#[verifier::external_body]
fn sha256(data: &[u8]) -> (r: Vec<u8>)
    ensures
        r@ == sha256_of(data@),
        r@.len() == 32,
{
    sha2::Sha256::digest(data).to_vec()
}

/// Byte-wise equality of two byte vectors.
fn bytes_eq(a: &Vec<u8>, b: &Vec<u8>) -> (r: bool)
    ensures
        r == (a@ == b@),
{
    if a.len() != b.len() {
        proof {
            assert(a@ != b@);
        }
        return false;
    }
    let mut i: usize = 0;
    while i < a.len()
        invariant
            i <= a@.len(),
            a@.len() == b@.len(),
            forall|j: int| 0 <= j < i ==> a@[j] == b@[j],
        decreases a@.len() - i,
    {
        if a[i] != b[i] {
            proof {
                assert(a@ != b@);
            }
            return false;
        }
        i = i + 1;
    }
    proof {
        assert(a@ =~= b@);
    }
    true
}

pub open spec fn rec_matches(m: TribeMember, t: u64, u: Seq<char>) -> bool {
    m.tribe_id == t && m.member@ == u
}

pub open spec fn recs_unique(s: Seq<TribeMember>) -> bool {
    forall|i: int, j: int|
        0 <= i < j < s.len() ==> !(s[i].tribe_id == s[j].tribe_id && s[i].member@ == s[j].member@)
}

pub open spec fn has_rec(s: Seq<TribeMember>, t: u64, u: Seq<char>) -> bool {
    exists|i: int| 0 <= i < s.len() && rec_matches(#[trigger] s[i], t, u)
}

/// The recorded status, NONE when no record exists.
pub open spec fn rec_status(s: Seq<TribeMember>, t: u64, u: Seq<char>) -> MemberStatus {
    if has_rec(s, t, u) {
        s[choose|i: int| 0 <= i < s.len() && rec_matches(#[trigger] s[i], t, u)].status
    } else {
        MemberStatus::NONE
    }
}

pub open spec fn active_contrib(m: TribeMember, t: u64) -> nat {
    if m.tribe_id == t && m.status == MemberStatus::ACTIVE {
        1nat
    } else {
        0nat
    }
}

/// How many records are ACTIVE in community `t`.
pub open spec fn count_active(s: Seq<TribeMember>, t: u64) -> nat
    decreases s.len(),
{
    if s.len() == 0 {
        0
    } else {
        count_active(s.drop_last(), t) + active_contrib(s.last(), t)
    }
}

proof fn lemma_count_push(s: Seq<TribeMember>, m: TribeMember, t: u64)
    ensures
        count_active(s.push(m), t) == count_active(s, t) + active_contrib(m, t),
{
    assert(s.push(m).drop_last() =~= s);
    assert(s.push(m).last() == m);
}

proof fn lemma_count_update(s: Seq<TribeMember>, i: int, m: TribeMember, t: u64)
    requires
        0 <= i < s.len(),
    ensures
        count_active(s.update(i, m), t) + active_contrib(s[i], t) == count_active(s, t)
            + active_contrib(m, t),
    decreases s.len(),
{
    if i == s.len() - 1 {
        assert(s.update(i, m).drop_last() =~= s.drop_last());
        assert(s.update(i, m).last() == m);
    } else {
        assert(s.update(i, m).drop_last() =~= s.drop_last().update(i, m));
        lemma_count_update(s.drop_last(), i, m, t);
        assert(s.update(i, m).last() == s.last());
        assert(s.drop_last()[i] == s[i]);
    }
}

proof fn lemma_count_zero(s: Seq<TribeMember>, t: u64)
    requires
        forall|i: int| 0 <= i < s.len() ==> active_contrib(#[trigger] s[i], t) == 0,
    ensures
        count_active(s, t) == 0,
    decreases s.len(),
{
    if s.len() > 0 {
        assert(forall|i: int|
            0 <= i < s.drop_last().len() ==> active_contrib(#[trigger] s.drop_last()[i], t) == 0);
        lemma_count_zero(s.drop_last(), t);
        assert(active_contrib(s.last(), t) == 0);
    }
}

proof fn lemma_count_le_len(s: Seq<TribeMember>, t: u64)
    ensures
        count_active(s, t) <= s.len(),
    decreases s.len(),
{
    if s.len() > 0 {
        lemma_count_le_len(s.drop_last(), t);
    }
}

/// When a record matching (t, u) sits at index `i` of a duplicate-free record
/// list, the recorded status is that record's status.
proof fn lemma_rec_status_at(s: Seq<TribeMember>, i: int, t: u64, u: Seq<char>)
    requires
        recs_unique(s),
        0 <= i < s.len(),
        rec_matches(s[i], t, u),
    ensures
        has_rec(s, t, u),
        rec_status(s, t, u) == s[i].status,
{
    assert(has_rec(s, t, u));
    let j = choose|j: int| 0 <= j < s.len() && rec_matches(#[trigger] s[j], t, u);
    if j != i {
        if j < i {
            assert(!(s[j].tribe_id == s[i].tribe_id && s[j].member@ == s[i].member@));
        } else {
            assert(!(s[i].tribe_id == s[j].tribe_id && s[i].member@ == s[j].member@));
        }
        assert(false);
    }
}

/// Two duplicate-free record lists that hold the same records away from key
/// (t, u) agree on every other key's presence and status.
proof fn lemma_records_agree(olds: Seq<TribeMember>, news: Seq<TribeMember>, t: u64, u: Seq<char>)
    requires
        recs_unique(olds),
        recs_unique(news),
        forall|j: int|
            0 <= j < olds.len() && !rec_matches(#[trigger] olds[j], t, u) ==> news.contains(
                olds[j],
            ),
        forall|k: int|
            0 <= k < news.len() && !rec_matches(#[trigger] news[k], t, u) ==> olds.contains(
                news[k],
            ),
    ensures
        forall|t2: u64, u2: Seq<char>|
            !(t2 == t && u2 == u) ==> #[trigger] has_rec(news, t2, u2) == has_rec(olds, t2, u2),
        forall|t2: u64, u2: Seq<char>|
            !(t2 == t && u2 == u) ==> #[trigger] rec_status(news, t2, u2) == rec_status(
                olds,
                t2,
                u2,
            ),
{
    assert forall|t2: u64, u2: Seq<char>| !(t2 == t && u2 == u) implies #[trigger] has_rec(
        news,
        t2,
        u2,
    ) == has_rec(olds, t2, u2) && rec_status(news, t2, u2) == rec_status(olds, t2, u2) by {
        if has_rec(olds, t2, u2) {
            let j = choose|j: int| 0 <= j < olds.len() && rec_matches(#[trigger] olds[j], t2, u2);
            assert(!rec_matches(olds[j], t, u));
            assert(news.contains(olds[j]));
            let k = choose|k: int| 0 <= k < news.len() && news[k] == olds[j];
            lemma_rec_status_at(news, k, t2, u2);
            lemma_rec_status_at(olds, j, t2, u2);
        }
        if has_rec(news, t2, u2) {
            let k = choose|k: int| 0 <= k < news.len() && rec_matches(#[trigger] news[k], t2, u2);
            assert(!rec_matches(news[k], t, u));
            assert(olds.contains(news[k]));
            let j = choose|j: int| 0 <= j < olds.len() && olds[j] == news[k];
            lemma_rec_status_at(olds, j, t2, u2);
            lemma_rec_status_at(news, k, t2, u2);
        }
    }
}

fn find_member(members: &Vec<TribeMember>, t: u64, user: &String) -> (r: Option<usize>)
    ensures
        match r {
            Some(i) => i < members@.len() && rec_matches(members@[i as int], t, user@),
            None => !has_rec(members@, t, user@),
        },
{
    let mut i: usize = 0;
    while i < members.len()
        invariant
            i <= members@.len(),
            forall|j: int| 0 <= j < i ==> !rec_matches(#[trigger] members@[j], t, user@),
        decreases members@.len() - i,
    {
        if members[i].tribe_id == t && members[i].member == *user {
            return Some(i);
        }
        i = i + 1;
    }
    None
}

/// Reads the recorded membership status; NONE when no record exists.
fn member_status_of(members: &Vec<TribeMember>, t: u64, user: &String) -> (st: MemberStatus)
    requires
        recs_unique(members@),
    ensures
        st == rec_status(members@, t, user@),
{
    match find_member(members, t, user) {
        Some(i) => {
            proof {
                lemma_rec_status_at(members@, i as int, t, user@);
            }
            members[i].status
        },
        None => MemberStatus::NONE,
    }
}

/// Writes status `st` for key (t, user), creating the record when absent.
/// Reports how every observation moved: the key's status, the other keys'
/// statuses and presence, and each community's ACTIVE count.
fn upsert_status(members: &mut Vec<TribeMember>, t: u64, user: &String, st: MemberStatus)
    requires
        recs_unique(old(members)@),
    ensures
        recs_unique(final(members)@),
        has_rec(final(members)@, t, user@),
        rec_status(final(members)@, t, user@) == st,
        forall|t2: u64, u2: Seq<char>|
            !(t2 == t && u2 == user@) ==> #[trigger] rec_status(final(members)@, t2, u2)
                == rec_status(old(members)@, t2, u2),
        forall|t2: u64, u2: Seq<char>|
            !(t2 == t && u2 == user@) ==> #[trigger] has_rec(final(members)@, t2, u2) == has_rec(
                old(members)@,
                t2,
                u2,
            ),
        forall|t2: u64|
            count_active(final(members)@, t2) as int == count_active(old(members)@, t2) as int + (
            if t2 == t && st == MemberStatus::ACTIVE {
                1int
            } else {
                0int
            }) - (
            if t2 == t && rec_status(old(members)@, t, user@) == MemberStatus::ACTIVE {
                1int
            } else {
                0int
            }),
        final(members)@.len() <= old(members)@.len() + 1,
        forall|k: int|
            0 <= k < final(members)@.len() ==> (#[trigger] final(members)@[k]).tribe_id == t || old(
                members,
            )@.contains(final(members)@[k]),
{
    let ghost olds = members@;
    match find_member(members, t, user) {
        Some(i) => {
            let ghost oldrec = members@[i as int];
            let newrec = TribeMember { tribe_id: t, member: user.clone(), status: st };
            members[i] = newrec;
            proof {
                lemma_rec_status_at(olds, i as int, t, user@);
                assert(members@ == olds.update(i as int, members@[i as int]));
                assert forall|a: int, b: int| 0 <= a < b < members@.len() implies !(
                members@[a].tribe_id == members@[b].tribe_id && members@[a].member@
                    == members@[b].member@) by {
                    assert(rec_matches(olds[a], members@[a].tribe_id, members@[a].member@));
                    assert(rec_matches(olds[b], members@[b].tribe_id, members@[b].member@));
                }
                lemma_rec_status_at(members@, i as int, t, user@);
                assert forall|j: int|
                    0 <= j < olds.len() && !rec_matches(#[trigger] olds[j], t, user@) implies
                    members@.contains(olds[j]) by {
                    assert(members@[j] == olds[j]);
                }
                assert forall|k: int|
                    0 <= k < members@.len() && !rec_matches(
                        #[trigger] members@[k],
                        t,
                        user@,
                    ) implies olds.contains(members@[k]) by {
                    assert(k != i);
                    assert(members@[k] == olds[k]);
                }
                lemma_records_agree(olds, members@, t, user@);
                assert forall|t2: u64|
                    count_active(members@, t2) as int == count_active(olds, t2) as int + (
                    if t2 == t && st == MemberStatus::ACTIVE {
                        1int
                    } else {
                        0int
                    }) - (
                    if t2 == t && rec_status(olds, t, user@) == MemberStatus::ACTIVE {
                        1int
                    } else {
                        0int
                    }) by {
                    lemma_count_update(olds, i as int, members@[i as int], t2);
                }
            }
        },
        None => {
            let newrec = TribeMember { tribe_id: t, member: user.clone(), status: st };
            members.push(newrec);
            proof {
                let n = olds.len() as int;
                assert(members@ == olds.push(members@[n]));
                assert(rec_matches(members@[n], t, user@));
                assert forall|a: int, b: int| 0 <= a < b < members@.len() implies !(
                members@[a].tribe_id == members@[b].tribe_id && members@[a].member@
                    == members@[b].member@) by {
                    if b < n {
                        assert(members@[a] == olds[a] && members@[b] == olds[b]);
                    } else {
                        assert(b == n);
                        assert(members@[a] == olds[a]);
                        if members@[a].tribe_id == t && members@[a].member@ == user@ {
                            assert(rec_matches(olds[a], t, user@));
                            assert(has_rec(olds, t, user@));
                            assert(false);
                        }
                    }
                }
                lemma_rec_status_at(members@, n, t, user@);
                assert forall|j: int|
                    0 <= j < olds.len() && !rec_matches(#[trigger] olds[j], t, user@) implies
                    members@.contains(olds[j]) by {
                    assert(members@[j] == olds[j]);
                }
                assert forall|k: int|
                    0 <= k < members@.len() && !rec_matches(
                        #[trigger] members@[k],
                        t,
                        user@,
                    ) implies olds.contains(members@[k]) by {
                    assert(k != n);
                    assert(members@[k] == olds[k]);
                }
                lemma_records_agree(olds, members@, t, user@);
                assert forall|t2: u64|
                    count_active(members@, t2) as int == count_active(olds, t2) as int + (
                    if t2 == t && st == MemberStatus::ACTIVE {
                        1int
                    } else {
                        0int
                    }) by {
                    lemma_count_push(olds, members@[n], t2);
                }
            }
        },
    }
}

pub open spec fn invite_matches(e: (u64, InviteCode), t: u64, h: Seq<u8>) -> bool {
    e.0 == t && e.1.code_hash@ == h
}

pub open spec fn invites_unique(s: Seq<(u64, InviteCode)>) -> bool {
    forall|i: int, j: int|
        0 <= i < j < s.len() ==> !(s[i].0 == s[j].0 && s[i].1.code_hash@ == s[j].1.code_hash@)
}

pub open spec fn has_invite(s: Seq<(u64, InviteCode)>, t: u64, h: Seq<u8>) -> bool {
    exists|i: int| 0 <= i < s.len() && invite_matches(#[trigger] s[i], t, h)
}

pub open spec fn invite_at(s: Seq<(u64, InviteCode)>, t: u64, h: Seq<u8>) -> InviteCodeV {
    s[choose|i: int| 0 <= i < s.len() && invite_matches(#[trigger] s[i], t, h)].1@
}

proof fn lemma_invite_at(s: Seq<(u64, InviteCode)>, i: int, t: u64, h: Seq<u8>)
    requires
        invites_unique(s),
        0 <= i < s.len(),
        invite_matches(s[i], t, h),
    ensures
        has_invite(s, t, h),
        invite_at(s, t, h) == s[i].1@,
{
    assert(has_invite(s, t, h));
    let j = choose|j: int| 0 <= j < s.len() && invite_matches(#[trigger] s[j], t, h);
    if j != i {
        if j < i {
            assert(!(s[j].0 == s[i].0 && s[j].1.code_hash@ == s[i].1.code_hash@));
        } else {
            assert(!(s[i].0 == s[j].0 && s[i].1.code_hash@ == s[j].1.code_hash@));
        }
        assert(false);
    }
}

fn find_invite(codes: &Vec<(u64, InviteCode)>, t: u64, hash: &Vec<u8>) -> (r: Option<usize>)
    ensures
        match r {
            Some(i) => i < codes@.len() && invite_matches(codes@[i as int], t, hash@),
            None => !has_invite(codes@, t, hash@),
        },
{
    let mut i: usize = 0;
    while i < codes.len()
        invariant
            i <= codes@.len(),
            forall|j: int| 0 <= j < i ==> !invite_matches(#[trigger] codes@[j], t, hash@),
        decreases codes@.len() - i,
    {
        if codes[i].0 == t && bytes_eq(&codes[i].1.code_hash, hash) {
            return Some(i);
        }
        i = i + 1;
    }
    None
}

/// Whether `req` is satisfied for `user` according to the oracle, folding
/// every oracle failure to "not met".
pub open spec fn spec_req_met(o: EntitlementOracle, req: NFTRequirementV, u: Seq<char>) -> bool {
    match req.nft_contract {
        None => false,
        Some(c) => {
            if o.spec_fails(c) {
                false
            } else {
                match req.nft_type {
                    NFTType::ERC721 => o.spec_bal721(c, u) >= req.min_amount as u128 && forall|
                        k: int,
                    |
                        0 <= k < req.token_ids.len() ==> o.spec_owner721(
                            c,
                            #[trigger] req.token_ids[k],
                        ) == Some(u),
                    NFTType::ERC1155 => req.token_ids.len() > 0 && forall|k: int|
                        0 <= k < req.token_ids.len() ==> o.spec_bal1155(
                            c,
                            u,
                            #[trigger] req.token_ids[k],
                        ) >= req.min_amount as u128,
                }
            }
        },
    }
}

/// The aggregation rule: all requirements for the default entitlement
/// policies, only the mandatory ones for MULTI_NFT, any single one for
/// ANY_NFT; an empty list is trivially met.
pub open spec fn spec_requirements_met(
    o: EntitlementOracle,
    reqs: Seq<NFTRequirementV>,
    jt: JoinType,
    u: Seq<char>,
) -> bool {
    if reqs.len() == 0 {
        true
    } else if jt == JoinType::MULTI_NFT {
        forall|k: int|
            0 <= k < reqs.len() && (#[trigger] reqs[k]).is_mandatory ==> spec_req_met(o, reqs[k], u)
    } else if jt == JoinType::ANY_NFT {
        exists|k: int| 0 <= k < reqs.len() && spec_req_met(o, #[trigger] reqs[k], u)
    } else {
        forall|k: int| 0 <= k < reqs.len() ==> spec_req_met(o, #[trigger] reqs[k], u)
    }
}

pub open spec fn spec_is_entitlement_policy(jt: JoinType) -> bool {
    jt == JoinType::NFT_GATED || jt == JoinType::MULTI_NFT || jt == JoinType::ANY_NFT || jt
        == JoinType::NFTRequired
}

fn req_met(o: &EntitlementOracle, req: &NFTRequirement, user: &String) -> (r: bool)
    ensures
        r == spec_req_met(*o, req@, user@),
{
    match &req.nft_contract {
        None => false,
        Some(c) => {
            match req.nft_type {
                NFTType::ERC721 => {
                    match o.erc721_balance_of(c, user) {
                        Err(_) => false,
                        Ok(bal) => {
                            if bal < req.min_amount as u128 {
                                return false;
                            }
                            let mut k: usize = 0;
                            while k < req.token_ids.len()
                                invariant
                                    k <= req.token_ids@.len(),
                                    forall|j: int|
                                        0 <= j < k ==> o.spec_owner721(
                                            c@,
                                            #[trigger] req.token_ids@[j],
                                        ) == Some(user@),
                                decreases req.token_ids@.len() - k,
                            {
                                match o.erc721_owner_of(c, req.token_ids[k]) {
                                    Err(_) => {
                                        return false;
                                    },
                                    Ok(owner) => {
                                        if !(owner == *user) {
                                            return false;
                                        }
                                    },
                                }
                                k = k + 1;
                            }
                            true
                        },
                    }
                },
                NFTType::ERC1155 => {
                    if req.token_ids.len() == 0 {
                        return false;
                    }
                    let mut k: usize = 0;
                    while k < req.token_ids.len()
                        invariant
                            k <= req.token_ids@.len(),
                            k > 0 ==> !o.spec_fails(c@),
                            forall|j: int|
                                0 <= j < k ==> o.spec_bal1155(c@, user@, #[trigger] req.token_ids@[j])
                                    >= req.min_amount as u128,
                        decreases req.token_ids@.len() - k,
                    {
                        match o.erc1155_balance_of(c, user, req.token_ids[k]) {
                            Err(_) => {
                                return false;
                            },
                            Ok(bal) => {
                                if bal < req.min_amount as u128 {
                                    return false;
                                }
                            },
                        }
                        k = k + 1;
                    }
                    true
                },
            }
        },
    }
}

fn requirements_met(
    o: &EntitlementOracle,
    reqs: &Vec<NFTRequirement>,
    jt: JoinType,
    user: &String,
) -> (r: bool)
    ensures
        r == spec_requirements_met(*o, reqs@.map_values(|q: NFTRequirement| q@), jt, user@),
{
    let ghost rv = reqs@.map_values(|q: NFTRequirement| q@);
    if reqs.len() == 0 {
        return true;
    }
    if jt == JoinType::MULTI_NFT {
        let mut k: usize = 0;
        while k < reqs.len()
            invariant
                k <= reqs@.len(),
                forall|j: int|
                    0 <= j < k && (#[trigger] rv[j]).is_mandatory ==> spec_req_met(*o, rv[j], user@),
            decreases reqs@.len() - k,
        {
            proof {
                assert(rv[k as int] == reqs@[k as int]@);
            }
            if reqs[k].is_mandatory && !req_met(o, &reqs[k], user) {
                return false;
            }
            k = k + 1;
        }
        true
    } else if jt == JoinType::ANY_NFT {
        let mut k: usize = 0;
        while k < reqs.len()
            invariant
                k <= reqs@.len(),
                forall|j: int| 0 <= j < k ==> !spec_req_met(*o, #[trigger] rv[j], user@),
            decreases reqs@.len() - k,
        {
            proof {
                assert(rv[k as int] == reqs@[k as int]@);
            }
            if req_met(o, &reqs[k], user) {
                return true;
            }
            k = k + 1;
        }
        false
    } else {
        let mut k: usize = 0;
        while k < reqs.len()
            invariant
                k <= reqs@.len(),
                forall|j: int| 0 <= j < k ==> spec_req_met(*o, #[trigger] rv[j], user@),
            decreases reqs@.len() - k,
        {
            proof {
                assert(rv[k as int] == reqs@[k as int]@);
            }
            if !req_met(o, &reqs[k], user) {
                return false;
            }
            k = k + 1;
        }
        true
    }
}

/// The membership directory's whole state.
pub struct TribeController {
    tribes: Vec<TribeMeta>,
    member_counts: Vec<u64>,
    members: Vec<TribeMember>,
    invite_codes: Vec<(u64, InviteCode)>,
    merge_requests: Vec<Option<MergeRequest>>,
    whitelist: Vec<String>,
}

impl TribeController {
    /// Records are duplicate-free and in range, and every community's member
    /// counter equals the count of its ACTIVE records.
    pub closed spec fn wf(&self) -> bool {
        &&& recs_unique(self.members@)
        &&& self.member_counts@.len() == self.tribes@.len()
        &&& forall|i: int|
            0 <= i < self.members@.len() ==> (#[trigger] self.members@[i]).tribe_id
                < self.tribes@.len()
        &&& forall|t: u64|
            t < self.tribes@.len() ==> #[trigger] self.member_counts@[t as int] == count_active(
                self.members@,
                t,
            )
        &&& invites_unique(self.invite_codes@)
        &&& forall|i: int|
            0 <= i < self.merge_requests@.len() ==> match #[trigger] self.merge_requests@[i] {
                Some(r) => r.source_tribe_id < self.tribes@.len() && r.target_tribe_id
                    < self.tribes@.len(),
                None => true,
            }
    }

    /// How many communities exist; ids run from 0 to this count.
    pub closed spec fn spec_tribe_count(&self) -> nat {
        self.tribes@.len()
    }

    /// Community `t`'s configuration.
    pub closed spec fn spec_tribe(&self, t: u64) -> TribeMetaV {
        self.tribes@[t as int]@
    }

    /// The membership status of `u` in community `t`; NONE by default.
    pub closed spec fn spec_status(&self, t: u64, u: Seq<char>) -> MemberStatus {
        rec_status(self.members@, t, u)
    }

    /// Whether a membership record exists for (t, u); a NONE record marks a
    /// previously rejected request.
    pub closed spec fn spec_has_record(&self, t: u64, u: Seq<char>) -> bool {
        has_rec(self.members@, t, u)
    }

    /// Community `t`'s member counter.
    pub closed spec fn spec_member_count(&self, t: u64) -> u64 {
        self.member_counts@[t as int]
    }

    /// Whether `u` may create communities.
    pub closed spec fn spec_whitelisted(&self, u: Seq<char>) -> bool {
        exists|i: int| 0 <= i < self.whitelist@.len() && (#[trigger] self.whitelist@[i])@ == u
    }

    /// The invite code stored for (t, hash), if any.
    pub closed spec fn spec_invite(&self, t: u64, h: Seq<u8>) -> Option<InviteCodeV> {
        if has_invite(self.invite_codes@, t, h) {
            Some(invite_at(self.invite_codes@, t, h))
        } else {
            None
        }
    }

    /// How many merge requests were ever created; ids run up to this count.
    pub closed spec fn spec_merge_count(&self) -> nat {
        self.merge_requests@.len()
    }

    /// The pending merge request under `id`, if it was neither executed nor
    /// cancelled.
    pub closed spec fn spec_merge(&self, id: u64) -> Option<MergeRequest> {
        if id < self.merge_requests@.len() {
            self.merge_requests@[id as int]
        } else {
            None
        }
    }

    /// The community admin, or a holder of the moderator capability, may
    /// administrate community `t`.
    pub open spec fn spec_is_tribe_admin(&self, roles: RoleManager, t: u64, u: Seq<char>) -> bool {
        self.spec_tribe(t).admin == u || roles.spec_has(u, MODERATOR_ROLE@)
    }

    pub open spec fn tribes_unchanged(pre: Self, post: Self) -> bool {
        &&& post.spec_tribe_count() == pre.spec_tribe_count()
        &&& forall|t: u64|
            t < pre.spec_tribe_count() ==> (#[trigger] post.spec_tribe(t)) == pre.spec_tribe(t)
    }

    pub open spec fn counts_unchanged_except(pre: Self, post: Self, t: u64) -> bool {
        forall|t2: u64|
            t2 < pre.spec_tribe_count() && t2 != t ==> (#[trigger] post.spec_member_count(t2))
                == pre.spec_member_count(t2)
    }

    pub open spec fn statuses_unchanged_except(pre: Self, post: Self, t: u64, u: Seq<char>) -> bool {
        &&& forall|t2: u64, u2: Seq<char>|
            !(t2 == t && u2 == u) ==> (#[trigger] post.spec_status(t2, u2)) == pre.spec_status(
                t2,
                u2,
            )
        &&& forall|t2: u64, u2: Seq<char>|
            !(t2 == t && u2 == u) ==> (#[trigger] post.spec_has_record(t2, u2))
                == pre.spec_has_record(t2, u2)
    }

    pub open spec fn statuses_unchanged(pre: Self, post: Self) -> bool {
        &&& forall|t2: u64, u2: Seq<char>|
            (#[trigger] post.spec_status(t2, u2)) == pre.spec_status(t2, u2)
        &&& forall|t2: u64, u2: Seq<char>|
            (#[trigger] post.spec_has_record(t2, u2)) == pre.spec_has_record(t2, u2)
    }

    pub open spec fn counts_unchanged(pre: Self, post: Self) -> bool {
        forall|t2: u64|
            t2 < pre.spec_tribe_count() ==> (#[trigger] post.spec_member_count(t2))
                == pre.spec_member_count(t2)
    }

    pub open spec fn invites_unchanged(pre: Self, post: Self) -> bool {
        forall|t2: u64, h: Seq<u8>| (#[trigger] post.spec_invite(t2, h)) == pre.spec_invite(t2, h)
    }

    pub open spec fn invites_unchanged_except(pre: Self, post: Self, t: u64, h: Seq<u8>) -> bool {
        forall|t2: u64, h2: Seq<u8>|
            !(t2 == t && h2 == h) ==> (#[trigger] post.spec_invite(t2, h2)) == pre.spec_invite(
                t2,
                h2,
            )
    }

    pub open spec fn merges_unchanged(pre: Self, post: Self) -> bool {
        &&& post.spec_merge_count() == pre.spec_merge_count()
        &&& forall|id: u64| (#[trigger] post.spec_merge(id)) == pre.spec_merge(id)
    }

    pub open spec fn whitelist_unchanged(pre: Self, post: Self) -> bool {
        forall|u: Seq<char>| (#[trigger] post.spec_whitelisted(u)) == pre.spec_whitelisted(u)
    }

    /// A fresh directory with no communities; only the deployer may create
    /// communities.
    pub fn new(deployer: String) -> (r: TribeController)
        ensures
            r.wf(),
            r.spec_tribe_count() == 0,
            r.spec_merge_count() == 0,
            forall|t: u64, u: Seq<char>| #[trigger] r.spec_status(t, u) == MemberStatus::NONE,
            forall|u: Seq<char>| #[trigger] r.spec_whitelisted(u) <==> u == deployer@,
            forall|t: u64, h: Seq<u8>| #[trigger] r.spec_invite(t, h) is None,
    {
        let ghost dv = deployer@;
        let mut whitelist: Vec<String> = Vec::new();
        whitelist.push(deployer);
        let r = TribeController {
            tribes: Vec::new(),
            member_counts: Vec::new(),
            members: Vec::new(),
            invite_codes: Vec::new(),
            merge_requests: Vec::new(),
            whitelist,
        };
        proof {
            assert(r.whitelist@[0]@ == dv);
            assert forall|u: Seq<char>| #[trigger] r.spec_whitelisted(u) <==> u == dv by {
                if u == dv {
                    assert(r.whitelist@[0]@ == u);
                }
            }
            assert forall|t: u64, u: Seq<char>| #[trigger] r.spec_status(t, u)
                == MemberStatus::NONE by {
                assert(!has_rec(r.members@, t, u));
            }
            assert forall|t: u64, h: Seq<u8>| #[trigger] r.spec_invite(t, h) is None by {
                assert(!has_invite(r.invite_codes@, t, h));
            }
        }
        r
    }

    /// Whether `addr` may create communities.
    pub fn is_whitelisted(&self, addr: &String) -> (r: bool)
        ensures
            r == self.spec_whitelisted(addr@),
    {
        let mut i: usize = 0;
        while i < self.whitelist.len()
            invariant
                i <= self.whitelist@.len(),
                forall|j: int| 0 <= j < i ==> (#[trigger] self.whitelist@[j])@ != addr@,
            decreases self.whitelist@.len() - i,
        {
            if self.whitelist[i] == *addr {
                return true;
            }
            i = i + 1;
        }
        false
    }

    fn is_tribe_admin(&self, roles: &RoleManager, t: u64, addr: &String) -> (r: bool)
        requires
            t < self.spec_tribe_count(),
        ensures
            r == self.spec_is_tribe_admin(*roles, t, addr@),
    {
        let n = self.tribes.len();
        proof {
            assert(t < n);
            assert(t as usize as int == t as int);
        }
        if self.tribes[t as usize].admin == *addr {
            proof {
                assert(self.spec_tribe(t).admin == addr@);
            }
            return true;
        }
        let moderator = String::from_str(MODERATOR_ROLE);
        roles.has_role(addr, &moderator)
    }

    /// Public admin check: whether `addr` administrates community `t`.
    #[allow(non_snake_case)]
    pub fn is_tribe_admin_check(&self, roles: &RoleManager, tribe_id: u64, addr: &String) -> (r:
        Result<bool, ContractError>)
        ensures
            r is Ok <==> tribe_id < self.spec_tribe_count(),
            r matches Ok(b) ==> b == self.spec_is_tribe_admin(*roles, tribe_id, addr@),
            r is Err ==> r == Result::<bool, ContractError>::Err(ContractError::NotFound),
    {
        if tribe_id >= self.tribes.len() as u64 {
            return Err(ContractError::NotFound);
        }
        Ok(self.is_tribe_admin(roles, tribe_id, addr))
    }
}

} // verus!

verus! {

/// The bytes a textual invite code hashes to.
pub open spec fn code_hash_of(code: Seq<char>) -> Seq<u8> {
    sha256_of(vstd::utf8::encode_utf8(code))
}

/// Two duplicate-free invite stores that hold the same entries away from key
/// (t, h) agree on every other key.
proof fn lemma_invites_agree(
    olds: Seq<(u64, InviteCode)>,
    news: Seq<(u64, InviteCode)>,
    t: u64,
    h: Seq<u8>,
)
    requires
        invites_unique(olds),
        invites_unique(news),
        forall|j: int|
            0 <= j < olds.len() && !invite_matches(#[trigger] olds[j], t, h) ==> exists|k: int|
                0 <= k < news.len() && #[trigger] news[k] == olds[j],
        forall|k: int|
            0 <= k < news.len() && !invite_matches(#[trigger] news[k], t, h) ==> exists|j: int|
                0 <= j < olds.len() && #[trigger] olds[j] == news[k],
    ensures
        forall|t2: u64, h2: Seq<u8>|
            !(t2 == t && h2 == h) ==> (#[trigger] has_invite(news, t2, h2) == has_invite(
                olds,
                t2,
                h2,
            ) && (has_invite(olds, t2, h2) ==> invite_at(news, t2, h2) == invite_at(
                olds,
                t2,
                h2,
            ))),
{
    assert forall|t2: u64, h2: Seq<u8>| !(t2 == t && h2 == h) implies (#[trigger] has_invite(
        news,
        t2,
        h2,
    ) == has_invite(olds, t2, h2) && (has_invite(olds, t2, h2) ==> invite_at(news, t2, h2)
        == invite_at(olds, t2, h2))) by {
        if has_invite(olds, t2, h2) {
            let j = choose|j: int| 0 <= j < olds.len() && invite_matches(#[trigger] olds[j], t2, h2);
            assert(!invite_matches(olds[j], t, h));
            let k = choose|k: int| 0 <= k < news.len() && #[trigger] news[k] == olds[j];
            lemma_invite_at(news, k, t2, h2);
            lemma_invite_at(olds, j, t2, h2);
        }
        if has_invite(news, t2, h2) {
            let k = choose|k: int| 0 <= k < news.len() && invite_matches(#[trigger] news[k], t2, h2);
            assert(!invite_matches(news[k], t, h));
            let j = choose|j: int| 0 <= j < olds.len() && #[trigger] olds[j] == news[k];
            lemma_invite_at(olds, j, t2, h2);
        }
    }
}

impl TribeController {
    /// Whether `u` could join community `t` right now: the community exists,
    /// is active, has an open (non-private, non-invite) policy, `u` has no
    /// membership record, and every applicable entitlement requirement is met.
    pub open spec fn spec_join_allowed(&self, o: EntitlementOracle, t: u64, u: Seq<char>) -> bool {
        &&& t < self.spec_tribe_count()
        &&& self.spec_status(t, u) == MemberStatus::NONE
        &&& self.spec_tribe(t).is_active
        &&& self.spec_tribe(t).join_type != JoinType::PRIVATE
        &&& self.spec_tribe(t).join_type != JoinType::INVITE_CODE
        &&& (spec_is_entitlement_policy(self.spec_tribe(t).join_type) ==> spec_requirements_met(
            o,
            self.spec_tribe(t).nft_requirements,
            self.spec_tribe(t).join_type,
            u,
        ))
    }

    /// Whether `u` may file a join request for community `t`: private policy
    /// and no prior record (a NONE record marks an earlier rejection).
    pub open spec fn spec_request_allowed(&self, t: u64, u: Seq<char>) -> bool {
        &&& t < self.spec_tribe_count()
        &&& self.spec_tribe(t).join_type == JoinType::PRIVATE
        &&& !self.spec_has_record(t, u)
    }

    /// Whether presenting a code whose hash is `h` at time `now` admits `u`
    /// into community `t`.
    pub open spec fn spec_code_join_allowed(&self, t: u64, u: Seq<char>, h: Seq<u8>, now: u64) -> bool {
        &&& t < self.spec_tribe_count()
        &&& self.spec_status(t, u) == MemberStatus::NONE
        &&& self.spec_tribe(t).is_active
        &&& self.spec_tribe(t).join_type == JoinType::INVITE_CODE
        &&& match self.spec_invite(t, h) {
            Some(ic) => ic.used_count < ic.max_uses && now < ic.expiry_time,
            None => false,
        }
    }

    /// Whether `sender` may approve `member`'s pending request in community
    /// `t`.
    pub open spec fn spec_approve_allowed(
        &self,
        roles: RoleManager,
        t: u64,
        sender: Seq<char>,
        member: Seq<char>,
    ) -> bool {
        &&& t < self.spec_tribe_count()
        &&& self.spec_is_tribe_admin(roles, t, sender)
        &&& self.spec_status(t, member) == MemberStatus::PENDING
    }

    /// An untouched whitelist grants creation rights to the same principals.
    proof fn lemma_same_whitelist(pre: Self, post: Self)
        requires
            post.whitelist@ == pre.whitelist@,
        ensures
            Self::whitelist_unchanged(pre, post),
    {
        assert forall|u: Seq<char>| #[trigger] post.spec_whitelisted(u) == pre.spec_whitelisted(
            u,
        ) by {
            if pre.spec_whitelisted(u) {
                let i = choose|i: int|
                    0 <= i < pre.whitelist@.len() && (#[trigger] pre.whitelist@[i])@ == u;
                assert((post.whitelist@[i])@ == u);
            }
            if post.spec_whitelisted(u) {
                let i = choose|i: int|
                    0 <= i < post.whitelist@.len() && (#[trigger] post.whitelist@[i])@ == u;
                assert((pre.whitelist@[i])@ == u);
            }
        }
    }

    /// An untouched invite store answers every lookup as before.
    proof fn lemma_same_invites(pre: Self, post: Self)
        requires
            post.invite_codes@ == pre.invite_codes@,
            invites_unique(pre.invite_codes@),
        ensures
            Self::invites_unchanged(pre, post),
    {
        assert forall|t2: u64, h: Seq<u8>| #[trigger] post.spec_invite(t2, h) == pre.spec_invite(
            t2,
            h,
        ) by {
            if has_invite(pre.invite_codes@, t2, h) {
                let i = choose|i: int|
                    0 <= i < pre.invite_codes@.len() && invite_matches(
                        #[trigger] pre.invite_codes@[i],
                        t2,
                        h,
                    );
                lemma_invite_at(pre.invite_codes@, i, t2, h);
                lemma_invite_at(post.invite_codes@, i, t2, h);
            }
            if has_invite(post.invite_codes@, t2, h) {
                let i = choose|i: int|
                    0 <= i < post.invite_codes@.len() && invite_matches(
                        #[trigger] post.invite_codes@[i],
                        t2,
                        h,
                    );
                lemma_invite_at(post.invite_codes@, i, t2, h);
                lemma_invite_at(pre.invite_codes@, i, t2, h);
            }
        }
    }

    /// Untouched member records keep every status as before.
    proof fn lemma_same_members(pre: Self, post: Self)
        requires
            post.members@ == pre.members@,
            recs_unique(pre.members@),
        ensures
            Self::statuses_unchanged(pre, post),
    {
        assert forall|t2: u64, u2: Seq<char>|
            ((#[trigger] post.spec_status(t2, u2)) == pre.spec_status(t2, u2)
                && (#[trigger] post.spec_has_record(t2, u2)) == pre.spec_has_record(t2, u2)) by {
            if has_rec(pre.members@, t2, u2) {
                let i = choose|i: int|
                    0 <= i < pre.members@.len() && rec_matches(#[trigger] pre.members@[i], t2, u2);
                lemma_rec_status_at(pre.members@, i, t2, u2);
                lemma_rec_status_at(post.members@, i, t2, u2);
            }
            if has_rec(post.members@, t2, u2) {
                let i = choose|i: int|
                    0 <= i < post.members@.len() && rec_matches(
                        #[trigger] post.members@[i],
                        t2,
                        u2,
                    );
                lemma_rec_status_at(post.members@, i, t2, u2);
                lemma_rec_status_at(pre.members@, i, t2, u2);
            }
        }
    }

    /// Creates a community: the caller must be globally whitelisted, and a
    /// policy that needs entitlements must come with requirements. The creator
    /// is admitted ACTIVE and the member count starts at 1.
    #[allow(non_snake_case)]
    pub fn createTribe(
        &mut self,
        sender: &String,
        name: String,
        metadata: String,
        admins: Vec<String>,
        join_type: JoinType,
        entry_fee: u128,
        nft_requirements: Vec<NFTRequirement>,
    ) -> (r: Result<u64, ContractError>)
        requires
            old(self).wf(),
        ensures
            final(self).wf(),
            r is Ok <==> (old(self).spec_whitelisted(sender@) && (spec_is_entitlement_policy(
                join_type,
            ) ==> nft_requirements@.len() > 0)),
            r is Err ==> *final(self) == *old(self),
            !old(self).spec_whitelisted(sender@) ==> r == Result::<u64, ContractError>::Err(
                ContractError::Unauthorized,
            ),
            old(self).spec_whitelisted(sender@) && spec_is_entitlement_policy(join_type)
                && nft_requirements@.len() == 0 ==> r == Result::<u64, ContractError>::Err(
                ContractError::ValidationError,
            ),
            r matches Ok(id) ==> {
                &&& id == old(self).spec_tribe_count()
                &&& final(self).spec_tribe_count() == old(self).spec_tribe_count() + 1
                &&& final(self).spec_tribe(id) == (TribeMetaV {
                    name: name@,
                    metadata: metadata@,
                    admin: sender@,
                    whitelist: admins@.map_values(|a: String| a@),
                    join_type: join_type,
                    entry_fee: entry_fee,
                    nft_requirements: nft_requirements@.map_values(|q: NFTRequirement| q@),
                    can_merge: true,
                    is_active: true,
                })
                &&& forall|t2: u64|
                    t2 < old(self).spec_tribe_count() ==> #[trigger] final(self).spec_tribe(t2)
                        == old(self).spec_tribe(t2)
                &&& final(self).spec_status(id, sender@) == MemberStatus::ACTIVE
                &&& Self::statuses_unchanged_except(*old(self), *final(self), id, sender@)
                &&& final(self).spec_member_count(id) == 1
                &&& Self::counts_unchanged_except(*old(self), *final(self), id)
                &&& Self::invites_unchanged(*old(self), *final(self))
                &&& Self::merges_unchanged(*old(self), *final(self))
                &&& Self::whitelist_unchanged(*old(self), *final(self))
            },
    {
        if !self.is_whitelisted(sender) {
            return Err(ContractError::Unauthorized);
        }
        let needs_reqs = join_type == JoinType::NFT_GATED || join_type == JoinType::MULTI_NFT
            || join_type == JoinType::ANY_NFT || join_type == JoinType::NFTRequired;
        if needs_reqs && nft_requirements.len() == 0 {
            return Err(ContractError::ValidationError);
        }
        let id = self.tribes.len() as u64;
        let meta = TribeMeta {
            name,
            metadata,
            admin: sender.clone(),
            whitelist: admins,
            join_type,
            entry_fee,
            nft_requirements,
            can_merge: true,
            is_active: true,
        };
        self.tribes.push(meta);
        self.member_counts.push(1);
        proof {
            assert(forall|i: int|
                0 <= i < self.members@.len() ==> active_contrib(#[trigger] self.members@[i], id)
                    == 0);
            lemma_count_zero(self.members@, id);
        }
        upsert_status(&mut self.members, id, sender, MemberStatus::ACTIVE);
        proof {
            assert forall|k: int| 0 <= k < self.members@.len() implies (
            #[trigger] self.members@[k]).tribe_id < self.tribes@.len() by {
                if self.members@[k].tribe_id != id {
                    assert(old(self).members@.contains(self.members@[k]));
                    let j = choose|j: int|
                        0 <= j < old(self).members@.len() && old(self).members@[j]
                            == self.members@[k];
                }
            }
            assert forall|t2: u64| t2 < self.tribes@.len() implies
                #[trigger] self.member_counts@[t2 as int] == count_active(self.members@, t2) by {
                if t2 < old(self).tribes@.len() {
                    assert(old(self).member_counts@[t2 as int] == count_active(
                        old(self).members@,
                        t2,
                    ));
                    assert(t2 != id);
                } else {
                    assert(t2 == id);
                }
            }
            Self::lemma_same_whitelist(*old(self), *self);
            Self::lemma_same_invites(*old(self), *self);
        }
        Ok(id)
    }

    /// Directly joins an open or entitlement-gated community. Entitlement
    /// policies are evaluated against the oracle, failing closed; success
    /// admits the caller ACTIVE and raises the member count by one.
    #[allow(non_snake_case)]
    pub fn joinTribe(&mut self, oracle: &EntitlementOracle, sender: &String, tribe_id: u64) -> (r:
        Result<(), ContractError>)
        requires
            old(self).wf(),
        ensures
            final(self).wf(),
            r is Ok <==> old(self).spec_join_allowed(*oracle, tribe_id, sender@),
            r is Err ==> *final(self) == *old(self),
            tribe_id >= old(self).spec_tribe_count() ==> r == Result::<(), ContractError>::Err(
                ContractError::NotFound,
            ),
            tribe_id < old(self).spec_tribe_count() && (old(self).spec_status(tribe_id, sender@)
                == MemberStatus::ACTIVE || old(self).spec_status(tribe_id, sender@)
                == MemberStatus::PENDING) ==> r == Result::<(), ContractError>::Err(
                ContractError::AlreadyExists,
            ),
            tribe_id < old(self).spec_tribe_count() && old(self).spec_status(tribe_id, sender@)
                == MemberStatus::BANNED ==> r == Result::<(), ContractError>::Err(
                ContractError::Unauthorized,
            ),
            tribe_id < old(self).spec_tribe_count() && old(self).spec_status(tribe_id, sender@)
                == MemberStatus::NONE && !old(self).spec_tribe(tribe_id).is_active ==> r
                == Result::<(), ContractError>::Err(ContractError::InvalidState),
            tribe_id < old(self).spec_tribe_count() && old(self).spec_status(tribe_id, sender@)
                == MemberStatus::NONE && old(self).spec_tribe(tribe_id).is_active && (old(
                self,
            ).spec_tribe(tribe_id).join_type == JoinType::PRIVATE || old(self).spec_tribe(
                tribe_id,
            ).join_type == JoinType::INVITE_CODE) ==> r == Result::<(), ContractError>::Err(
                ContractError::InvalidState,
            ),
            r is Ok ==> {
                &&& final(self).spec_status(tribe_id, sender@) == MemberStatus::ACTIVE
                &&& Self::statuses_unchanged_except(*old(self), *final(self), tribe_id, sender@)
                &&& final(self).spec_member_count(tribe_id) == old(self).spec_member_count(
                    tribe_id,
                ) + 1
                &&& Self::counts_unchanged_except(*old(self), *final(self), tribe_id)
                &&& Self::tribes_unchanged(*old(self), *final(self))
                &&& Self::invites_unchanged(*old(self), *final(self))
                &&& Self::merges_unchanged(*old(self), *final(self))
                &&& Self::whitelist_unchanged(*old(self), *final(self))
            },
    {
        let n = self.tribes.len();
        if tribe_id >= n as u64 {
            return Err(ContractError::NotFound);
        }
        proof {
            assert(tribe_id as usize as int == tribe_id as int);
        }
        let ti = tribe_id as usize;
        let st = member_status_of(&self.members, tribe_id, sender);
        if st == MemberStatus::ACTIVE || st == MemberStatus::PENDING {
            return Err(ContractError::AlreadyExists);
        }
        if st == MemberStatus::BANNED {
            return Err(ContractError::Unauthorized);
        }
        if !self.tribes[ti].is_active {
            return Err(ContractError::InvalidState);
        }
        let jt = self.tribes[ti].join_type;
        if jt == JoinType::PRIVATE || jt == JoinType::INVITE_CODE {
            return Err(ContractError::InvalidState);
        }
        let gated = jt == JoinType::NFT_GATED || jt == JoinType::MULTI_NFT || jt
            == JoinType::ANY_NFT || jt == JoinType::NFTRequired;
        if gated && !requirements_met(oracle, &self.tribes[ti].nft_requirements, jt, sender) {
            return Err(ContractError::Unauthorized);
        }
        self.admit_active(tribe_id, sender);
        Ok(())
    }

    /// Admits (t, user) as ACTIVE and raises the member counter: the shared
    /// tail of every successful admission path.
    fn admit_active(&mut self, tribe_id: u64, user: &String)
        requires
            old(self).wf(),
            tribe_id < old(self).spec_tribe_count(),
            old(self).spec_status(tribe_id, user@) != MemberStatus::ACTIVE,
        ensures
            final(self).wf(),
            final(self).spec_status(tribe_id, user@) == MemberStatus::ACTIVE,
            Self::statuses_unchanged_except(*old(self), *final(self), tribe_id, user@),
            final(self).spec_member_count(tribe_id) == old(self).spec_member_count(tribe_id) + 1,
            Self::counts_unchanged_except(*old(self), *final(self), tribe_id),
            Self::tribes_unchanged(*old(self), *final(self)),
            Self::invites_unchanged(*old(self), *final(self)),
            Self::merges_unchanged(*old(self), *final(self)),
            Self::whitelist_unchanged(*old(self), *final(self)),
    {
        let n = self.member_counts.len();
        proof {
            assert(tribe_id < n);
            assert(tribe_id as usize as int == tribe_id as int);
        }
        let ti = tribe_id as usize;
        upsert_status(&mut self.members, tribe_id, user, MemberStatus::ACTIVE);
        let m = self.members.len();
        let c = self.member_counts[ti];
        proof {
            lemma_count_le_len(self.members@, tribe_id);
            assert(c == count_active(old(self).members@, tribe_id));
            assert(count_active(self.members@, tribe_id) as int == c + 1);
            assert(c + 1 <= m);
        }
        self.member_counts[ti] = c + 1;
        proof {
            self.lemma_wf_after_member_change(*old(self), tribe_id);
            Self::lemma_same_whitelist(*old(self), *self);
            Self::lemma_same_invites(*old(self), *self);
        }
    }

    /// Re-establishes the counter invariant after a member-record change at
    /// community `t` whose counter was adjusted accordingly.
    proof fn lemma_wf_after_member_change(&self, pre: Self, t: u64)
        requires
            recs_unique(self.members@),
            pre.wf(),
            self.tribes@ == pre.tribes@,
            self.invite_codes@ == pre.invite_codes@,
            self.merge_requests@ == pre.merge_requests@,
            self.member_counts@.len() == pre.member_counts@.len(),
            forall|t2: u64|
                t2 < pre.member_counts@.len() && t2 != t ==> #[trigger] self.member_counts@[t2 as int]
                    == pre.member_counts@[t2 as int],
            forall|t2: u64|
                t2 != t ==> count_active(self.members@, t2) == count_active(pre.members@, t2),
            t < pre.tribes@.len(),
            self.member_counts@[t as int] == count_active(self.members@, t),
            forall|k: int|
                0 <= k < self.members@.len() ==> (#[trigger] self.members@[k]).tribe_id == t
                    || pre.members@.contains(self.members@[k]),
        ensures
            self.wf(),
    {
        assert forall|k: int| 0 <= k < self.members@.len() implies (
        #[trigger] self.members@[k]).tribe_id < self.tribes@.len() by {
            if self.members@[k].tribe_id != t {
                let j = choose|j: int|
                    0 <= j < pre.members@.len() && pre.members@[j] == self.members@[k];
            }
        }
        assert forall|t2: u64| t2 < self.tribes@.len() implies #[trigger] self.member_counts@[t2 as int]
            == count_active(self.members@, t2) by {
            if t2 != t {
                assert(pre.member_counts@[t2 as int] == count_active(pre.members@, t2));
            }
        }
    }

    /// Files a join request for a private community; the three re-request
    /// failures are distinct: a pending request, an earlier rejection, a ban.
    #[allow(non_snake_case)]
    pub fn requestToJoinTribe(&mut self, sender: &String, tribe_id: u64) -> (r: Result<
        (),
        ContractError,
    >)
        requires
            old(self).wf(),
        ensures
            final(self).wf(),
            r is Ok <==> old(self).spec_request_allowed(tribe_id, sender@),
            r is Err ==> *final(self) == *old(self),
            tribe_id >= old(self).spec_tribe_count() ==> r == Result::<(), ContractError>::Err(
                ContractError::NotFound,
            ),
            tribe_id < old(self).spec_tribe_count() && old(self).spec_tribe(tribe_id).join_type
                != JoinType::PRIVATE ==> r == Result::<(), ContractError>::Err(
                ContractError::InvalidState,
            ),
            tribe_id < old(self).spec_tribe_count() && old(self).spec_tribe(tribe_id).join_type
                == JoinType::PRIVATE && (old(self).spec_status(tribe_id, sender@)
                == MemberStatus::ACTIVE || old(self).spec_status(tribe_id, sender@)
                == MemberStatus::PENDING) ==> r == Result::<(), ContractError>::Err(
                ContractError::AlreadyExists,
            ),
            tribe_id < old(self).spec_tribe_count() && old(self).spec_tribe(tribe_id).join_type
                == JoinType::PRIVATE && old(self).spec_status(tribe_id, sender@)
                == MemberStatus::BANNED ==> r == Result::<(), ContractError>::Err(
                ContractError::Unauthorized,
            ),
            tribe_id < old(self).spec_tribe_count() && old(self).spec_tribe(tribe_id).join_type
                == JoinType::PRIVATE && old(self).spec_status(tribe_id, sender@)
                == MemberStatus::NONE && old(self).spec_has_record(tribe_id, sender@) ==> r
                == Result::<(), ContractError>::Err(ContractError::InvalidState),
            r is Ok ==> {
                &&& final(self).spec_status(tribe_id, sender@) == MemberStatus::PENDING
                &&& Self::statuses_unchanged_except(*old(self), *final(self), tribe_id, sender@)
                &&& Self::counts_unchanged(*old(self), *final(self))
                &&& Self::tribes_unchanged(*old(self), *final(self))
                &&& Self::invites_unchanged(*old(self), *final(self))
                &&& Self::merges_unchanged(*old(self), *final(self))
                &&& Self::whitelist_unchanged(*old(self), *final(self))
            },
    {
        let n = self.tribes.len();
        if tribe_id >= n as u64 {
            return Err(ContractError::NotFound);
        }
        proof {
            assert(tribe_id as usize as int == tribe_id as int);
        }
        let ti = tribe_id as usize;
        if !(self.tribes[ti].join_type == JoinType::PRIVATE) {
            return Err(ContractError::InvalidState);
        }
        match find_member(&self.members, tribe_id, sender) {
            Some(i) => {
                proof {
                    lemma_rec_status_at(self.members@, i as int, tribe_id, sender@);
                }
                match self.members[i].status {
                    MemberStatus::ACTIVE => Err(ContractError::AlreadyExists),
                    MemberStatus::PENDING => Err(ContractError::AlreadyExists),
                    MemberStatus::BANNED => Err(ContractError::Unauthorized),
                    MemberStatus::NONE => Err(ContractError::InvalidState),
                }
            },
            None => {
                upsert_status(&mut self.members, tribe_id, sender, MemberStatus::PENDING);
                proof {
                    self.lemma_wf_after_member_change(*old(self), tribe_id);
                    Self::lemma_same_whitelist(*old(self), *self);
                    Self::lemma_same_invites(*old(self), *self);
                }
                Ok(())
            },
        }
    }

    /// Admin-gated approval of a pending request; the member becomes ACTIVE
    /// and the member count rises by exactly one.
    #[allow(non_snake_case)]
    pub fn approveMember(
        &mut self,
        roles: &RoleManager,
        sender: &String,
        tribe_id: u64,
        member: &String,
    ) -> (r: Result<(), ContractError>)
        requires
            old(self).wf(),
        ensures
            final(self).wf(),
            r is Ok <==> old(self).spec_approve_allowed(*roles, tribe_id, sender@, member@),
            r is Err ==> *final(self) == *old(self),
            tribe_id >= old(self).spec_tribe_count() ==> r == Result::<(), ContractError>::Err(
                ContractError::NotFound,
            ),
            tribe_id < old(self).spec_tribe_count() && !old(self).spec_is_tribe_admin(
                *roles,
                tribe_id,
                sender@,
            ) ==> r == Result::<(), ContractError>::Err(ContractError::Unauthorized),
            tribe_id < old(self).spec_tribe_count() && old(self).spec_is_tribe_admin(
                *roles,
                tribe_id,
                sender@,
            ) && !old(self).spec_has_record(tribe_id, member@) ==> r == Result::<
                (),
                ContractError,
            >::Err(ContractError::NotFound),
            tribe_id < old(self).spec_tribe_count() && old(self).spec_is_tribe_admin(
                *roles,
                tribe_id,
                sender@,
            ) && old(self).spec_has_record(tribe_id, member@) && old(self).spec_status(
                tribe_id,
                member@,
            ) != MemberStatus::PENDING ==> r == Result::<(), ContractError>::Err(
                ContractError::InvalidState,
            ),
            r is Ok ==> {
                &&& final(self).spec_status(tribe_id, member@) == MemberStatus::ACTIVE
                &&& Self::statuses_unchanged_except(*old(self), *final(self), tribe_id, member@)
                &&& final(self).spec_member_count(tribe_id) == old(self).spec_member_count(
                    tribe_id,
                ) + 1
                &&& Self::counts_unchanged_except(*old(self), *final(self), tribe_id)
                &&& Self::tribes_unchanged(*old(self), *final(self))
                &&& Self::invites_unchanged(*old(self), *final(self))
                &&& Self::merges_unchanged(*old(self), *final(self))
                &&& Self::whitelist_unchanged(*old(self), *final(self))
            },
    {
        let n = self.tribes.len();
        if tribe_id >= n as u64 {
            return Err(ContractError::NotFound);
        }
        if !self.is_tribe_admin(roles, tribe_id, sender) {
            return Err(ContractError::Unauthorized);
        }
        let st = member_status_of(&self.members, tribe_id, member);
        match find_member(&self.members, tribe_id, member) {
            None => Err(ContractError::NotFound),
            Some(_) => {
                if !(st == MemberStatus::PENDING) {
                    return Err(ContractError::InvalidState);
                }
                self.admit_active(tribe_id, member);
                Ok(())
            },
        }
    }

    /// Admin-gated rejection of a pending request; the record falls back to
    /// NONE and marks the earlier rejection.
    #[allow(non_snake_case)]
    pub fn rejectMember(
        &mut self,
        roles: &RoleManager,
        sender: &String,
        tribe_id: u64,
        member: &String,
    ) -> (r: Result<(), ContractError>)
        requires
            old(self).wf(),
        ensures
            final(self).wf(),
            r is Ok <==> old(self).spec_approve_allowed(*roles, tribe_id, sender@, member@),
            r is Err ==> *final(self) == *old(self),
            tribe_id >= old(self).spec_tribe_count() ==> r == Result::<(), ContractError>::Err(
                ContractError::NotFound,
            ),
            tribe_id < old(self).spec_tribe_count() && !old(self).spec_is_tribe_admin(
                *roles,
                tribe_id,
                sender@,
            ) ==> r == Result::<(), ContractError>::Err(ContractError::Unauthorized),
            tribe_id < old(self).spec_tribe_count() && old(self).spec_is_tribe_admin(
                *roles,
                tribe_id,
                sender@,
            ) && !old(self).spec_has_record(tribe_id, member@) ==> r == Result::<
                (),
                ContractError,
            >::Err(ContractError::NotFound),
            tribe_id < old(self).spec_tribe_count() && old(self).spec_is_tribe_admin(
                *roles,
                tribe_id,
                sender@,
            ) && old(self).spec_has_record(tribe_id, member@) && old(self).spec_status(
                tribe_id,
                member@,
            ) != MemberStatus::PENDING ==> r == Result::<(), ContractError>::Err(
                ContractError::InvalidState,
            ),
            r is Ok ==> {
                &&& final(self).spec_status(tribe_id, member@) == MemberStatus::NONE
                &&& final(self).spec_has_record(tribe_id, member@)
                &&& Self::statuses_unchanged_except(*old(self), *final(self), tribe_id, member@)
                &&& Self::counts_unchanged(*old(self), *final(self))
                &&& Self::tribes_unchanged(*old(self), *final(self))
                &&& Self::invites_unchanged(*old(self), *final(self))
                &&& Self::merges_unchanged(*old(self), *final(self))
                &&& Self::whitelist_unchanged(*old(self), *final(self))
            },
    {
        let n = self.tribes.len();
        if tribe_id >= n as u64 {
            return Err(ContractError::NotFound);
        }
        if !self.is_tribe_admin(roles, tribe_id, sender) {
            return Err(ContractError::Unauthorized);
        }
        let st = member_status_of(&self.members, tribe_id, member);
        match find_member(&self.members, tribe_id, member) {
            None => Err(ContractError::NotFound),
            Some(_) => {
                if !(st == MemberStatus::PENDING) {
                    return Err(ContractError::InvalidState);
                }
                upsert_status(&mut self.members, tribe_id, member, MemberStatus::NONE);
                proof {
                    self.lemma_wf_after_member_change(*old(self), tribe_id);
                    Self::lemma_same_whitelist(*old(self), *self);
                    Self::lemma_same_invites(*old(self), *self);
                }
                Ok(())
            },
        }
    }

    /// Admin-gated ban, settable from any prior state except an existing ban
    /// (absence of a record is the default NONE state and bans fine); an
    /// ACTIVE member's departure lowers the member count.
    #[allow(non_snake_case)]
    pub fn banMember(
        &mut self,
        roles: &RoleManager,
        sender: &String,
        tribe_id: u64,
        member: &String,
    ) -> (r: Result<(), ContractError>)
        requires
            old(self).wf(),
        ensures
            final(self).wf(),
            r is Ok <==> (tribe_id < old(self).spec_tribe_count() && old(self).spec_is_tribe_admin(
                *roles,
                tribe_id,
                sender@,
            ) && old(self).spec_status(tribe_id, member@) != MemberStatus::BANNED),
            r is Err ==> *final(self) == *old(self),
            tribe_id >= old(self).spec_tribe_count() ==> r == Result::<(), ContractError>::Err(
                ContractError::NotFound,
            ),
            tribe_id < old(self).spec_tribe_count() && !old(self).spec_is_tribe_admin(
                *roles,
                tribe_id,
                sender@,
            ) ==> r == Result::<(), ContractError>::Err(ContractError::Unauthorized),
            tribe_id < old(self).spec_tribe_count() && old(self).spec_is_tribe_admin(
                *roles,
                tribe_id,
                sender@,
            ) && old(self).spec_status(tribe_id, member@) == MemberStatus::BANNED ==> r
                == Result::<(), ContractError>::Err(ContractError::AlreadyExists),
            r is Ok ==> {
                &&& final(self).spec_status(tribe_id, member@) == MemberStatus::BANNED
                &&& Self::statuses_unchanged_except(*old(self), *final(self), tribe_id, member@)
                &&& final(self).spec_member_count(tribe_id) as int == old(self).spec_member_count(
                    tribe_id,
                ) as int - (
                if old(self).spec_status(tribe_id, member@) == MemberStatus::ACTIVE {
                    1int
                } else {
                    0int
                })
                &&& Self::counts_unchanged_except(*old(self), *final(self), tribe_id)
                &&& Self::tribes_unchanged(*old(self), *final(self))
                &&& Self::invites_unchanged(*old(self), *final(self))
                &&& Self::merges_unchanged(*old(self), *final(self))
                &&& Self::whitelist_unchanged(*old(self), *final(self))
            },
    {
        let n = self.tribes.len();
        if tribe_id >= n as u64 {
            return Err(ContractError::NotFound);
        }
        proof {
            assert(tribe_id as usize as int == tribe_id as int);
        }
        let ti = tribe_id as usize;
        if !self.is_tribe_admin(roles, tribe_id, sender) {
            return Err(ContractError::Unauthorized);
        }
        let st = member_status_of(&self.members, tribe_id, member);
        if st == MemberStatus::BANNED {
            return Err(ContractError::AlreadyExists);
        }
        upsert_status(&mut self.members, tribe_id, member, MemberStatus::BANNED);
        if st == MemberStatus::ACTIVE {
            let c = self.member_counts[ti];
            proof {
                assert(count_active(self.members@, tribe_id) as int == c - 1);
            }
            self.member_counts[ti] = c - 1;
        }
        proof {
            self.lemma_wf_after_member_change(*old(self), tribe_id);
            Self::lemma_same_whitelist(*old(self), *self);
            Self::lemma_same_invites(*old(self), *self);
        }
        Ok(())
    }
}

} // verus!
verus! {

impl TribeController {
    /// Admin-gated: stores (or resets) the invite code for `tribe_id` under
    /// the code's one-way hash, with a fresh use count.
    #[allow(non_snake_case)]
    pub fn createInviteCode(
        &mut self,
        roles: &RoleManager,
        sender: &String,
        tribe_id: u64,
        code: &String,
        max_uses: u64,
        expiry_time: u64,
    ) -> (r: Result<(), ContractError>)
        requires
            old(self).wf(),
        ensures
            final(self).wf(),
            r is Ok <==> (tribe_id < old(self).spec_tribe_count() && old(
                self,
            ).spec_is_tribe_admin(*roles, tribe_id, sender@)),
            r is Err ==> *final(self) == *old(self),
            tribe_id >= old(self).spec_tribe_count() ==> r == Result::<(), ContractError>::Err(
                ContractError::NotFound,
            ),
            tribe_id < old(self).spec_tribe_count() && !old(self).spec_is_tribe_admin(
                *roles,
                tribe_id,
                sender@,
            ) ==> r == Result::<(), ContractError>::Err(ContractError::Unauthorized),
            r is Ok ==> {
                &&& final(self).spec_invite(tribe_id, code_hash_of(code@)) == Some(
                    (InviteCodeV {
                        code_hash: code_hash_of(code@),
                        max_uses: max_uses,
                        used_count: 0,
                        expiry_time: expiry_time,
                    }),
                )
                &&& Self::invites_unchanged_except(
                    *old(self),
                    *final(self),
                    tribe_id,
                    code_hash_of(code@),
                )
                &&& Self::statuses_unchanged(*old(self), *final(self))
                &&& Self::counts_unchanged(*old(self), *final(self))
                &&& Self::tribes_unchanged(*old(self), *final(self))
                &&& Self::merges_unchanged(*old(self), *final(self))
                &&& Self::whitelist_unchanged(*old(self), *final(self))
            },
    {
        let n = self.tribes.len();
        if tribe_id >= n as u64 {
            return Err(ContractError::NotFound);
        }
        if !self.is_tribe_admin(roles, tribe_id, sender) {
            return Err(ContractError::Unauthorized);
        }
        let hash = sha256(code.as_str().as_bytes());
        let ghost h = hash@;
        let ghost olds = self.invite_codes@;
        match find_invite(&self.invite_codes, tribe_id, &hash) {
            Some(i) => {
                self.invite_codes[i] = (
                    tribe_id,
                    InviteCode { code_hash: hash, max_uses, used_count: 0, expiry_time },
                );
                proof {
                    assert(invite_matches(self.invite_codes@[i as int], tribe_id, h));
                    assert forall|a: int, b: int|
                        0 <= a < b < self.invite_codes@.len() implies !(self.invite_codes@[a].0
                        == self.invite_codes@[b].0 && self.invite_codes@[a].1.code_hash@
                        == self.invite_codes@[b].1.code_hash@) by {
                        assert(invite_matches(
                            olds[a],
                            self.invite_codes@[a].0,
                            self.invite_codes@[a].1.code_hash@,
                        ));
                        assert(invite_matches(
                            olds[b],
                            self.invite_codes@[b].0,
                            self.invite_codes@[b].1.code_hash@,
                        ));
                    }
                    lemma_invite_at(self.invite_codes@, i as int, tribe_id, h);
                    assert forall|j: int|
                        0 <= j < olds.len() && !invite_matches(
                            #[trigger] olds[j],
                            tribe_id,
                            h,
                        ) implies exists|k: int|
                        0 <= k < self.invite_codes@.len() && #[trigger] self.invite_codes@[k]
                            == olds[j] by {
                        assert(self.invite_codes@[j] == olds[j]);
                    }
                    assert forall|k: int|
                        0 <= k < self.invite_codes@.len() && !invite_matches(
                            #[trigger] self.invite_codes@[k],
                            tribe_id,
                            h,
                        ) implies exists|j: int|
                        0 <= j < olds.len() && #[trigger] olds[j] == self.invite_codes@[k] by {
                        assert(k != i);
                        assert(olds[k] == self.invite_codes@[k]);
                    }
                    lemma_invites_agree(olds, self.invite_codes@, tribe_id, h);
                    Self::lemma_same_members(*old(self), *self);
                    Self::lemma_same_whitelist(*old(self), *self);
                }
            },
            None => {
                self.invite_codes.push(
                    (tribe_id, InviteCode { code_hash: hash, max_uses, used_count: 0, expiry_time }),
                );
                proof {
                    let nn = olds.len() as int;
                    assert(invite_matches(self.invite_codes@[nn], tribe_id, h));
                    assert forall|a: int, b: int|
                        0 <= a < b < self.invite_codes@.len() implies !(self.invite_codes@[a].0
                        == self.invite_codes@[b].0 && self.invite_codes@[a].1.code_hash@
                        == self.invite_codes@[b].1.code_hash@) by {
                        if b < nn {
                            assert(self.invite_codes@[a] == olds[a]);
                            assert(self.invite_codes@[b] == olds[b]);
                        } else {
                            assert(self.invite_codes@[a] == olds[a]);
                            if invite_matches(olds[a], tribe_id, h) {
                                assert(has_invite(olds, tribe_id, h));
                                assert(false);
                            }
                        }
                    }
                    lemma_invite_at(self.invite_codes@, nn, tribe_id, h);
                    assert forall|j: int|
                        0 <= j < olds.len() && !invite_matches(
                            #[trigger] olds[j],
                            tribe_id,
                            h,
                        ) implies exists|k: int|
                        0 <= k < self.invite_codes@.len() && #[trigger] self.invite_codes@[k]
                            == olds[j] by {
                        assert(self.invite_codes@[j] == olds[j]);
                    }
                    assert forall|k: int|
                        0 <= k < self.invite_codes@.len() && !invite_matches(
                            #[trigger] self.invite_codes@[k],
                            tribe_id,
                            h,
                        ) implies exists|j: int|
                        0 <= j < olds.len() && #[trigger] olds[j] == self.invite_codes@[k] by {
                        assert(k != nn);
                        assert(olds[k] == self.invite_codes@[k]);
                    }
                    lemma_invites_agree(olds, self.invite_codes@, tribe_id, h);
                    Self::lemma_same_members(*old(self), *self);
                    Self::lemma_same_whitelist(*old(self), *self);
                }
            },
        }
        Ok(())
    }

    /// Admin-gated: removes the invite code stored for `tribe_id` under the
    /// code's hash; revoking an unknown code is a no-op success.
    #[allow(non_snake_case)]
    pub fn revokeInviteCode(
        &mut self,
        roles: &RoleManager,
        sender: &String,
        tribe_id: u64,
        code: &String,
    ) -> (r: Result<(), ContractError>)
        requires
            old(self).wf(),
        ensures
            final(self).wf(),
            r is Ok <==> (tribe_id < old(self).spec_tribe_count() && old(
                self,
            ).spec_is_tribe_admin(*roles, tribe_id, sender@)),
            r is Err ==> *final(self) == *old(self),
            tribe_id >= old(self).spec_tribe_count() ==> r == Result::<(), ContractError>::Err(
                ContractError::NotFound,
            ),
            tribe_id < old(self).spec_tribe_count() && !old(self).spec_is_tribe_admin(
                *roles,
                tribe_id,
                sender@,
            ) ==> r == Result::<(), ContractError>::Err(ContractError::Unauthorized),
            r is Ok ==> {
                &&& final(self).spec_invite(tribe_id, code_hash_of(code@)) is None
                &&& Self::invites_unchanged_except(
                    *old(self),
                    *final(self),
                    tribe_id,
                    code_hash_of(code@),
                )
                &&& Self::statuses_unchanged(*old(self), *final(self))
                &&& Self::counts_unchanged(*old(self), *final(self))
                &&& Self::tribes_unchanged(*old(self), *final(self))
                &&& Self::merges_unchanged(*old(self), *final(self))
                &&& Self::whitelist_unchanged(*old(self), *final(self))
            },
    {
        let n = self.tribes.len();
        if tribe_id >= n as u64 {
            return Err(ContractError::NotFound);
        }
        if !self.is_tribe_admin(roles, tribe_id, sender) {
            return Err(ContractError::Unauthorized);
        }
        let hash = sha256(code.as_str().as_bytes());
        let ghost h = hash@;
        let ghost olds = self.invite_codes@;
        match find_invite(&self.invite_codes, tribe_id, &hash) {
            Some(i) => {
                self.invite_codes.remove(i);
                proof {
                    olds.remove_ensures(i as int);
                    assert forall|a: int, b: int|
                        0 <= a < b < self.invite_codes@.len() implies !(self.invite_codes@[a].0
                        == self.invite_codes@[b].0 && self.invite_codes@[a].1.code_hash@
                        == self.invite_codes@[b].1.code_hash@) by {
                        let a0 = if a < i { a } else { a + 1 };
                        let b0 = if b < i { b } else { b + 1 };
                        assert(self.invite_codes@[a] == olds[a0]);
                        assert(self.invite_codes@[b] == olds[b0]);
                    }
                    assert forall|k: int|
                        0 <= k < self.invite_codes@.len() implies !invite_matches(
                        #[trigger] self.invite_codes@[k],
                        tribe_id,
                        h,
                    ) by {
                        let k0 = if k < i { k } else { k + 1 };
                        assert(self.invite_codes@[k] == olds[k0]);
                        if k0 != i {
                            if k0 < i {
                                assert(!(olds[k0].0 == olds[i as int].0 && olds[k0].1.code_hash@
                                    == olds[i as int].1.code_hash@));
                            } else {
                                assert(!(olds[i as int].0 == olds[k0].0
                                    && olds[i as int].1.code_hash@ == olds[k0].1.code_hash@));
                            }
                        }
                    }
                    assert forall|j: int|
                        0 <= j < olds.len() && !invite_matches(
                            #[trigger] olds[j],
                            tribe_id,
                            h,
                        ) implies exists|k: int|
                        0 <= k < self.invite_codes@.len() && #[trigger] self.invite_codes@[k]
                            == olds[j] by {
                        assert(j != i);
                        if j < i {
                            assert(self.invite_codes@[j] == olds[j]);
                        } else {
                            assert(self.invite_codes@[j - 1] == olds[j]);
                        }
                    }
                    assert forall|k: int|
                        0 <= k < self.invite_codes@.len() && !invite_matches(
                            #[trigger] self.invite_codes@[k],
                            tribe_id,
                            h,
                        ) implies exists|j: int|
                        0 <= j < olds.len() && #[trigger] olds[j] == self.invite_codes@[k] by {
                        if k < i {
                            assert(olds[k] == self.invite_codes@[k]);
                        } else {
                            assert(olds[k + 1] == self.invite_codes@[k]);
                        }
                    }
                    lemma_invites_agree(olds, self.invite_codes@, tribe_id, h);
                    Self::lemma_same_members(*old(self), *self);
                    Self::lemma_same_whitelist(*old(self), *self);
                }
            },
            None => {
                proof {
                    Self::lemma_same_members(*old(self), *self);
                    Self::lemma_same_whitelist(*old(self), *self);
                    Self::lemma_same_invites(*old(self), *self);
                }
            },
        }
        Ok(())
    }

    /// Redeems an invite code: the code's hash must be stored for the
    /// community, unexpired and non-exhausted; success admits the caller
    /// ACTIVE, raises the member count, and consumes one use of the code.
    #[allow(non_snake_case)]
    pub fn joinTribeWithCode(
        &mut self,
        sender: &String,
        tribe_id: u64,
        invite_code: &Vec<u8>,
        now: u64,
    ) -> (r: Result<(), ContractError>)
        requires
            old(self).wf(),
        ensures
            final(self).wf(),
            r is Ok <==> old(self).spec_code_join_allowed(
                tribe_id,
                sender@,
                sha256_of(invite_code@),
                now,
            ),
            r is Err ==> *final(self) == *old(self),
            tribe_id >= old(self).spec_tribe_count() ==> r == Result::<(), ContractError>::Err(
                ContractError::NotFound,
            ),
            tribe_id < old(self).spec_tribe_count() && (old(self).spec_status(tribe_id, sender@)
                == MemberStatus::ACTIVE || old(self).spec_status(tribe_id, sender@)
                == MemberStatus::PENDING) ==> r == Result::<(), ContractError>::Err(
                ContractError::AlreadyExists,
            ),
            tribe_id < old(self).spec_tribe_count() && old(self).spec_status(tribe_id, sender@)
                == MemberStatus::BANNED ==> r == Result::<(), ContractError>::Err(
                ContractError::Unauthorized,
            ),
            tribe_id < old(self).spec_tribe_count() && old(self).spec_status(tribe_id, sender@)
                == MemberStatus::NONE && !old(self).spec_tribe(tribe_id).is_active ==> r
                == Result::<(), ContractError>::Err(ContractError::InvalidState),
            tribe_id < old(self).spec_tribe_count() && old(self).spec_status(tribe_id, sender@)
                == MemberStatus::NONE && old(self).spec_tribe(tribe_id).is_active && old(
                self,
            ).spec_tribe(tribe_id).join_type != JoinType::INVITE_CODE ==> r == Result::<
                (),
                ContractError,
            >::Err(ContractError::InvalidState),
            tribe_id < old(self).spec_tribe_count() && old(self).spec_status(tribe_id, sender@)
                == MemberStatus::NONE && old(self).spec_tribe(tribe_id).is_active && old(
                self,
            ).spec_tribe(tribe_id).join_type == JoinType::INVITE_CODE && old(self).spec_invite(
                tribe_id,
                sha256_of(invite_code@),
            ) is None ==> r == Result::<(), ContractError>::Err(ContractError::NotFound),
            r is Ok ==> {
                &&& final(self).spec_status(tribe_id, sender@) == MemberStatus::ACTIVE
                &&& Self::statuses_unchanged_except(*old(self), *final(self), tribe_id, sender@)
                &&& final(self).spec_member_count(tribe_id) == old(self).spec_member_count(
                    tribe_id,
                ) + 1
                &&& Self::counts_unchanged_except(*old(self), *final(self), tribe_id)
                &&& Self::tribes_unchanged(*old(self), *final(self))
                &&& final(self).spec_invite(tribe_id, sha256_of(invite_code@)) == Some(
                    (InviteCodeV {
                        used_count: (old(self).spec_invite(
                            tribe_id,
                            sha256_of(invite_code@),
                        )->Some_0.used_count + 1) as u64,
                        ..old(self).spec_invite(tribe_id, sha256_of(invite_code@))->Some_0
                    }),
                )
                &&& Self::invites_unchanged_except(
                    *old(self),
                    *final(self),
                    tribe_id,
                    sha256_of(invite_code@),
                )
                &&& Self::merges_unchanged(*old(self), *final(self))
                &&& Self::whitelist_unchanged(*old(self), *final(self))
            },
    {
        let n = self.tribes.len();
        if tribe_id >= n as u64 {
            return Err(ContractError::NotFound);
        }
        proof {
            assert(tribe_id as usize as int == tribe_id as int);
        }
        let ti = tribe_id as usize;
        let st = member_status_of(&self.members, tribe_id, sender);
        if st == MemberStatus::ACTIVE || st == MemberStatus::PENDING {
            return Err(ContractError::AlreadyExists);
        }
        if st == MemberStatus::BANNED {
            return Err(ContractError::Unauthorized);
        }
        if !self.tribes[ti].is_active {
            return Err(ContractError::InvalidState);
        }
        if !(self.tribes[ti].join_type == JoinType::INVITE_CODE) {
            return Err(ContractError::InvalidState);
        }
        let hash = sha256(invite_code.as_slice());
        let ghost h = hash@;
        let ghost olds = self.invite_codes@;
        match find_invite(&self.invite_codes, tribe_id, &hash) {
            None => Err(ContractError::NotFound),
            Some(i) => {
                proof {
                    lemma_invite_at(self.invite_codes@, i as int, tribe_id, h);
                }
                let max_uses = self.invite_codes[i].1.max_uses;
                let used = self.invite_codes[i].1.used_count;
                let expiry = self.invite_codes[i].1.expiry_time;
                if !(used < max_uses && now < expiry) {
                    return Err(ContractError::InvalidState);
                }
                self.invite_codes[i] = (
                    tribe_id,
                    InviteCode {
                        code_hash: hash,
                        max_uses,
                        used_count: used + 1,
                        expiry_time: expiry,
                    },
                );
                proof {
                    assert(invite_matches(self.invite_codes@[i as int], tribe_id, h));
                    assert forall|a: int, b: int|
                        0 <= a < b < self.invite_codes@.len() implies !(self.invite_codes@[a].0
                        == self.invite_codes@[b].0 && self.invite_codes@[a].1.code_hash@
                        == self.invite_codes@[b].1.code_hash@) by {
                        assert(invite_matches(
                            olds[a],
                            self.invite_codes@[a].0,
                            self.invite_codes@[a].1.code_hash@,
                        ));
                        assert(invite_matches(
                            olds[b],
                            self.invite_codes@[b].0,
                            self.invite_codes@[b].1.code_hash@,
                        ));
                    }
                    lemma_invite_at(self.invite_codes@, i as int, tribe_id, h);
                    assert forall|j: int|
                        0 <= j < olds.len() && !invite_matches(
                            #[trigger] olds[j],
                            tribe_id,
                            h,
                        ) implies exists|k: int|
                        0 <= k < self.invite_codes@.len() && #[trigger] self.invite_codes@[k]
                            == olds[j] by {
                        assert(self.invite_codes@[j] == olds[j]);
                    }
                    assert forall|k: int|
                        0 <= k < self.invite_codes@.len() && !invite_matches(
                            #[trigger] self.invite_codes@[k],
                            tribe_id,
                            h,
                        ) implies exists|j: int|
                        0 <= j < olds.len() && #[trigger] olds[j] == self.invite_codes@[k] by {
                        assert(k != i);
                        assert(olds[k] == self.invite_codes@[k]);
                    }
                    lemma_invites_agree(olds, self.invite_codes@, tribe_id, h);
                }
                let ghost mid = *self;
                proof {
                    Self::lemma_same_members(*old(self), mid);
                    Self::lemma_same_whitelist(*old(self), mid);
                }
                self.admit_active(tribe_id, sender);
                proof {
                    assert(Self::invites_unchanged(mid, *self));
                    assert forall|t2: u64, u2: Seq<char>|
                        !(t2 == tribe_id && u2 == sender@) implies #[trigger] self.spec_status(
                        t2,
                        u2,
                    ) == old(self).spec_status(t2, u2) && #[trigger] self.spec_has_record(t2, u2)
                        == old(self).spec_has_record(t2, u2) by {
                        assert(mid.spec_status(t2, u2) == old(self).spec_status(t2, u2));
                        assert(mid.spec_has_record(t2, u2) == old(self).spec_has_record(t2, u2));
                        assert(self.spec_status(t2, u2) == mid.spec_status(t2, u2));
                        assert(self.spec_has_record(t2, u2) == mid.spec_has_record(t2, u2));
                    }
                }
                Ok(())
            },
        }
    }

    /// The stored invite code's validity and remaining uses; expiry is judged
    /// at redemption, not here.
    #[allow(non_snake_case)]
    pub fn getInviteCodeStatus(&self, tribe_id: u64, code: &String) -> (r: Result<
        InviteCodeStatusResponse,
        ContractError,
    >)
        requires
            self.wf(),
        ensures
            r is Ok <==> tribe_id < self.spec_tribe_count(),
            r is Err ==> r == Result::<InviteCodeStatusResponse, ContractError>::Err(
                ContractError::NotFound,
            ),
            r matches Ok(resp) ==> match self.spec_invite(tribe_id, code_hash_of(code@)) {
                Some(ic) => resp.valid == (ic.used_count < ic.max_uses) && resp.remaining_uses == (
                if ic.used_count < ic.max_uses {
                    (ic.max_uses - ic.used_count) as u64
                } else {
                    0u64
                }),
                None => resp.valid == false && resp.remaining_uses == 0,
            },
    {
        let n = self.tribes.len();
        if tribe_id >= n as u64 {
            return Err(ContractError::NotFound);
        }
        let hash = sha256(code.as_str().as_bytes());
        match find_invite(&self.invite_codes, tribe_id, &hash) {
            None => Ok(InviteCodeStatusResponse { valid: false, remaining_uses: 0 }),
            Some(i) => {
                proof {
                    lemma_invite_at(self.invite_codes@, i as int, tribe_id, hash@);
                }
                let ic = &self.invite_codes[i].1;
                if ic.used_count < ic.max_uses {
                    Ok(
                        InviteCodeStatusResponse {
                            valid: true,
                            remaining_uses: ic.max_uses - ic.used_count,
                        },
                    )
                } else {
                    Ok(InviteCodeStatusResponse { valid: false, remaining_uses: 0 })
                }
            },
        }
    }
}

} // verus!
verus! {

impl TribeController {
    /// Source-admin-only: opens a merge request against an active,
    /// merge-enabled target community.
    #[allow(non_snake_case)]
    pub fn requestMerge(
        &mut self,
        roles: &RoleManager,
        sender: &String,
        source_tribe_id: u64,
        target_tribe_id: u64,
        now: u64,
    ) -> (r: Result<u64, ContractError>)
        requires
            old(self).wf(),
        ensures
            final(self).wf(),
            r is Ok <==> (source_tribe_id < old(self).spec_tribe_count() && old(
                self,
            ).spec_is_tribe_admin(*roles, source_tribe_id, sender@) && target_tribe_id < old(
                self,
            ).spec_tribe_count() && old(self).spec_tribe(target_tribe_id).is_active && old(
                self,
            ).spec_tribe(target_tribe_id).can_merge),
            r is Err ==> *final(self) == *old(self),
            r matches Ok(id) ==> {
                &&& id == old(self).spec_merge_count()
                &&& final(self).spec_merge_count() == old(self).spec_merge_count() + 1
                &&& final(self).spec_merge(id) == Some(
                    (MergeRequest {
                        source_tribe_id: source_tribe_id,
                        target_tribe_id: target_tribe_id,
                        request_time: now,
                        approved: false,
                    }),
                )
                &&& forall|id2: u64|
                    id2 < old(self).spec_merge_count() ==> (#[trigger] final(self).spec_merge(id2))
                        == old(self).spec_merge(id2)
                &&& Self::tribes_unchanged(*old(self), *final(self))
                &&& Self::statuses_unchanged(*old(self), *final(self))
                &&& Self::counts_unchanged(*old(self), *final(self))
                &&& Self::invites_unchanged(*old(self), *final(self))
                &&& Self::whitelist_unchanged(*old(self), *final(self))
            },
    {
        let n = self.tribes.len();
        if source_tribe_id >= n as u64 {
            return Err(ContractError::NotFound);
        }
        if !self.is_tribe_admin(roles, source_tribe_id, sender) {
            return Err(ContractError::Unauthorized);
        }
        if target_tribe_id >= n as u64 {
            return Err(ContractError::NotFound);
        }
        let ti = target_tribe_id as usize;
        if !self.tribes[ti].is_active {
            return Err(ContractError::InvalidState);
        }
        if !self.tribes[ti].can_merge {
            return Err(ContractError::InvalidState);
        }
        let id = self.merge_requests.len() as u64;
        self.merge_requests.push(
            Some(
                MergeRequest {
                    source_tribe_id,
                    target_tribe_id,
                    request_time: now,
                    approved: false,
                },
            ),
        );
        proof {
            Self::lemma_same_members(*old(self), *self);
            Self::lemma_same_whitelist(*old(self), *self);
            Self::lemma_same_invites(*old(self), *self);
        }
        Ok(id)
    }

    /// Target-admin-only: flips the approved flag of a pending merge request.
    #[allow(non_snake_case)]
    pub fn approveMerge(&mut self, roles: &RoleManager, sender: &String, merge_request_id: u64) -> (r:
        Result<(), ContractError>)
        requires
            old(self).wf(),
        ensures
            final(self).wf(),
            r is Ok <==> (old(self).spec_merge(merge_request_id) matches Some(req) && old(
                self,
            ).spec_is_tribe_admin(*roles, req.target_tribe_id, sender@)),
            r is Err ==> *final(self) == *old(self),
            old(self).spec_merge(merge_request_id) is None ==> r == Result::<
                (),
                ContractError,
            >::Err(ContractError::NotFound),
            r is Ok ==> {
                &&& final(self).spec_merge(merge_request_id) == Some(
                    (MergeRequest {
                        approved: true,
                        ..old(self).spec_merge(merge_request_id)->Some_0
                    }),
                )
                &&& final(self).spec_merge_count() == old(self).spec_merge_count()
                &&& forall|id2: u64|
                    id2 != merge_request_id ==> (#[trigger] final(self).spec_merge(id2)) == old(
                        self,
                    ).spec_merge(id2)
                &&& Self::tribes_unchanged(*old(self), *final(self))
                &&& Self::statuses_unchanged(*old(self), *final(self))
                &&& Self::counts_unchanged(*old(self), *final(self))
                &&& Self::invites_unchanged(*old(self), *final(self))
                &&& Self::whitelist_unchanged(*old(self), *final(self))
            },
    {
        let n = self.merge_requests.len();
        if merge_request_id >= n as u64 {
            return Err(ContractError::NotFound);
        }
        let mi = merge_request_id as usize;
        let req = match self.merge_requests[mi] {
            None => {
                return Err(ContractError::NotFound);
            },
            Some(req) => req,
        };
        if !self.is_tribe_admin(roles, req.target_tribe_id, sender) {
            return Err(ContractError::Unauthorized);
        }
        self.merge_requests[mi] = Some(
            MergeRequest {
                source_tribe_id: req.source_tribe_id,
                target_tribe_id: req.target_tribe_id,
                request_time: req.request_time,
                approved: true,
            },
        );
        proof {
            Self::lemma_same_members(*old(self), *self);
            Self::lemma_same_whitelist(*old(self), *self);
            Self::lemma_same_invites(*old(self), *self);
        }
        Ok(())
    }

    /// Source-admin-only: consummates an approved merge; the source community
    /// is permanently deactivated, the target (re)activated, and the request
    /// record deleted.
    #[allow(non_snake_case)]
    pub fn executeMerge(&mut self, roles: &RoleManager, sender: &String, merge_request_id: u64) -> (r:
        Result<(), ContractError>)
        requires
            old(self).wf(),
        ensures
            final(self).wf(),
            r is Ok <==> (old(self).spec_merge(merge_request_id) matches Some(req) && req.approved
                && old(self).spec_is_tribe_admin(*roles, req.source_tribe_id, sender@)),
            r is Err ==> *final(self) == *old(self),
            old(self).spec_merge(merge_request_id) is None ==> r == Result::<
                (),
                ContractError,
            >::Err(ContractError::NotFound),
            old(self).spec_merge(merge_request_id) matches Some(req) && !req.approved ==> r
                == Result::<(), ContractError>::Err(ContractError::InvalidState),
            r is Ok ==> {
                &&& final(self).spec_merge(merge_request_id) is None
                &&& final(self).spec_merge_count() == old(self).spec_merge_count()
                &&& forall|id2: u64|
                    id2 != merge_request_id ==> (#[trigger] final(self).spec_merge(id2)) == old(
                        self,
                    ).spec_merge(id2)
                &&& final(self).spec_tribe_count() == old(self).spec_tribe_count()
                &&& old(self).spec_merge(merge_request_id)->Some_0.source_tribe_id != old(
                    self,
                ).spec_merge(merge_request_id)->Some_0.target_tribe_id ==> final(self).spec_tribe(
                    old(self).spec_merge(merge_request_id)->Some_0.source_tribe_id,
                ) == (TribeMetaV {
                    is_active: false,
                    ..old(self).spec_tribe(
                        old(self).spec_merge(merge_request_id)->Some_0.source_tribe_id,
                    )
                })
                &&& final(self).spec_tribe(
                    old(self).spec_merge(merge_request_id)->Some_0.target_tribe_id,
                ) == (TribeMetaV {
                    is_active: true,
                    ..old(self).spec_tribe(
                        old(self).spec_merge(merge_request_id)->Some_0.target_tribe_id,
                    )
                })
                &&& forall|t2: u64|
                    t2 < old(self).spec_tribe_count() && t2 != old(self).spec_merge(
                        merge_request_id,
                    )->Some_0.source_tribe_id && t2 != old(self).spec_merge(
                        merge_request_id,
                    )->Some_0.target_tribe_id ==> (#[trigger] final(self).spec_tribe(t2)) == old(
                        self,
                    ).spec_tribe(t2)
                &&& Self::statuses_unchanged(*old(self), *final(self))
                &&& Self::counts_unchanged(*old(self), *final(self))
                &&& Self::invites_unchanged(*old(self), *final(self))
                &&& Self::whitelist_unchanged(*old(self), *final(self))
            },
    {
        let n = self.merge_requests.len();
        if merge_request_id >= n as u64 {
            return Err(ContractError::NotFound);
        }
        let mi = merge_request_id as usize;
        let req = match self.merge_requests[mi] {
            None => {
                return Err(ContractError::NotFound);
            },
            Some(req) => req,
        };
        if !req.approved {
            return Err(ContractError::InvalidState);
        }
        if !self.is_tribe_admin(roles, req.source_tribe_id, sender) {
            return Err(ContractError::Unauthorized);
        }
        let n2 = self.tribes.len();
        proof {
            assert(old(self).merge_requests@[mi as int] == Some(req));
            assert(req.source_tribe_id < n2 && req.target_tribe_id < n2);
        }
        let si = req.source_tribe_id as usize;
        let gi = req.target_tribe_id as usize;
        proof {
            assert(si as int == req.source_tribe_id as int);
            assert(gi as int == req.target_tribe_id as int);
        }
        self.tribes[si].is_active = false;
        self.tribes[gi].is_active = true;
        self.merge_requests[mi] = None;
        proof {
            Self::lemma_same_members(*old(self), *self);
            Self::lemma_same_whitelist(*old(self), *self);
            Self::lemma_same_invites(*old(self), *self);
        }
        Ok(())
    }

    /// Source-admin-only: withdraws a merge request before execution.
    #[allow(non_snake_case)]
    pub fn cancelMerge(&mut self, roles: &RoleManager, sender: &String, merge_request_id: u64) -> (r:
        Result<(), ContractError>)
        requires
            old(self).wf(),
        ensures
            final(self).wf(),
            r is Ok <==> (old(self).spec_merge(merge_request_id) matches Some(req) && old(
                self,
            ).spec_is_tribe_admin(*roles, req.source_tribe_id, sender@)),
            r is Err ==> *final(self) == *old(self),
            old(self).spec_merge(merge_request_id) is None ==> r == Result::<
                (),
                ContractError,
            >::Err(ContractError::NotFound),
            r is Ok ==> {
                &&& final(self).spec_merge(merge_request_id) is None
                &&& final(self).spec_merge_count() == old(self).spec_merge_count()
                &&& forall|id2: u64|
                    id2 != merge_request_id ==> (#[trigger] final(self).spec_merge(id2)) == old(
                        self,
                    ).spec_merge(id2)
                &&& Self::tribes_unchanged(*old(self), *final(self))
                &&& Self::statuses_unchanged(*old(self), *final(self))
                &&& Self::counts_unchanged(*old(self), *final(self))
                &&& Self::invites_unchanged(*old(self), *final(self))
                &&& Self::whitelist_unchanged(*old(self), *final(self))
            },
    {
        let n = self.merge_requests.len();
        if merge_request_id >= n as u64 {
            return Err(ContractError::NotFound);
        }
        let mi = merge_request_id as usize;
        let req = match self.merge_requests[mi] {
            None => {
                return Err(ContractError::NotFound);
            },
            Some(req) => req,
        };
        if !self.is_tribe_admin(roles, req.source_tribe_id, sender) {
            return Err(ContractError::Unauthorized);
        }
        self.merge_requests[mi] = None;
        proof {
            Self::lemma_same_members(*old(self), *self);
            Self::lemma_same_whitelist(*old(self), *self);
            Self::lemma_same_invites(*old(self), *self);
        }
        Ok(())
    }

    /// Admin-gated: replaces a community's metadata string and whitelist.
    #[allow(non_snake_case)]
    pub fn updateTribe(
        &mut self,
        roles: &RoleManager,
        sender: &String,
        tribe_id: u64,
        new_metadata: String,
        updated_whitelist: Vec<String>,
    ) -> (r: Result<(), ContractError>)
        requires
            old(self).wf(),
        ensures
            final(self).wf(),
            r is Ok <==> (tribe_id < old(self).spec_tribe_count() && old(
                self,
            ).spec_is_tribe_admin(*roles, tribe_id, sender@)),
            r is Err ==> *final(self) == *old(self),
            tribe_id >= old(self).spec_tribe_count() ==> r == Result::<(), ContractError>::Err(
                ContractError::NotFound,
            ),
            tribe_id < old(self).spec_tribe_count() && !old(self).spec_is_tribe_admin(
                *roles,
                tribe_id,
                sender@,
            ) ==> r == Result::<(), ContractError>::Err(ContractError::Unauthorized),
            r is Ok ==> {
                &&& final(self).spec_tribe(tribe_id) == (TribeMetaV {
                    metadata: new_metadata@,
                    whitelist: updated_whitelist@.map_values(|a: String| a@),
                    ..old(self).spec_tribe(tribe_id)
                })
                &&& final(self).spec_tribe_count() == old(self).spec_tribe_count()
                &&& forall|t2: u64|
                    t2 < old(self).spec_tribe_count() && t2 != tribe_id ==> (#[trigger] final(self).spec_tribe(t2)) == old(self).spec_tribe(t2)
                &&& Self::statuses_unchanged(*old(self), *final(self))
                &&& Self::counts_unchanged(*old(self), *final(self))
                &&& Self::invites_unchanged(*old(self), *final(self))
                &&& Self::merges_unchanged(*old(self), *final(self))
                &&& Self::whitelist_unchanged(*old(self), *final(self))
            },
    {
        let n = self.tribes.len();
        if tribe_id >= n as u64 {
            return Err(ContractError::NotFound);
        }
        if !self.is_tribe_admin(roles, tribe_id, sender) {
            return Err(ContractError::Unauthorized);
        }
        let ti = tribe_id as usize;
        self.tribes[ti].metadata = new_metadata;
        self.tribes[ti].whitelist = updated_whitelist;
        proof {
            Self::lemma_same_members(*old(self), *self);
            Self::lemma_same_whitelist(*old(self), *self);
            Self::lemma_same_invites(*old(self), *self);
        }
        Ok(())
    }

    /// Admin-gated: replaces a community's join policy, entry fee and
    /// entitlement requirements.
    #[allow(non_snake_case)]
    pub fn updateTribeConfig(
        &mut self,
        roles: &RoleManager,
        sender: &String,
        tribe_id: u64,
        join_type: JoinType,
        entry_fee: u128,
        nft_requirements: Vec<NFTRequirement>,
    ) -> (r: Result<(), ContractError>)
        requires
            old(self).wf(),
        ensures
            final(self).wf(),
            r is Ok <==> (tribe_id < old(self).spec_tribe_count() && old(
                self,
            ).spec_is_tribe_admin(*roles, tribe_id, sender@)),
            r is Err ==> *final(self) == *old(self),
            tribe_id >= old(self).spec_tribe_count() ==> r == Result::<(), ContractError>::Err(
                ContractError::NotFound,
            ),
            tribe_id < old(self).spec_tribe_count() && !old(self).spec_is_tribe_admin(
                *roles,
                tribe_id,
                sender@,
            ) ==> r == Result::<(), ContractError>::Err(ContractError::Unauthorized),
            r is Ok ==> {
                &&& final(self).spec_tribe(tribe_id) == (TribeMetaV {
                    join_type: join_type,
                    entry_fee: entry_fee,
                    nft_requirements: nft_requirements@.map_values(|q: NFTRequirement| q@),
                    ..old(self).spec_tribe(tribe_id)
                })
                &&& final(self).spec_tribe_count() == old(self).spec_tribe_count()
                &&& forall|t2: u64|
                    t2 < old(self).spec_tribe_count() && t2 != tribe_id ==> (#[trigger] final(self).spec_tribe(t2)) == old(self).spec_tribe(t2)
                &&& Self::statuses_unchanged(*old(self), *final(self))
                &&& Self::counts_unchanged(*old(self), *final(self))
                &&& Self::invites_unchanged(*old(self), *final(self))
                &&& Self::merges_unchanged(*old(self), *final(self))
                &&& Self::whitelist_unchanged(*old(self), *final(self))
            },
    {
        let n = self.tribes.len();
        if tribe_id >= n as u64 {
            return Err(ContractError::NotFound);
        }
        if !self.is_tribe_admin(roles, tribe_id, sender) {
            return Err(ContractError::Unauthorized);
        }
        let ti = tribe_id as usize;
        self.tribes[ti].join_type = join_type;
        self.tribes[ti].entry_fee = entry_fee;
        self.tribes[ti].nft_requirements = nft_requirements;
        proof {
            Self::lemma_same_members(*old(self), *self);
            Self::lemma_same_whitelist(*old(self), *self);
            Self::lemma_same_invites(*old(self), *self);
        }
        Ok(())
    }
}

} // verus!
verus! {

/// Field-by-field copy of one requirement; the copy has the same view.
fn copy_requirement(q: &NFTRequirement) -> (c: NFTRequirement)
    ensures
        c@ == q@,
{
    NFTRequirement {
        nft_contract: match &q.nft_contract {
            Some(a) => Some(a.clone()),
            None => None,
        },
        nft_type: q.nft_type,
        is_mandatory: q.is_mandatory,
        min_amount: q.min_amount,
        token_ids: q.token_ids.clone(),
    }
}

/// Copies a requirement list; the copy's views match element for element.
fn copy_requirements(v: &Vec<NFTRequirement>) -> (r: Vec<NFTRequirement>)
    ensures
        r@.map_values(|q: NFTRequirement| q@) == v@.map_values(|q: NFTRequirement| q@),
{
    let mut r: Vec<NFTRequirement> = Vec::new();
    let mut i: usize = 0;
    while i < v.len()
        invariant
            i <= v@.len(),
            r@.len() == i,
            forall|j: int| 0 <= j < i ==> (#[trigger] r@[j])@ == v@[j]@,
        decreases v@.len() - i,
    {
        r.push(copy_requirement(&v[i]));
        i = i + 1;
    }
    proof {
        assert(r@.map_values(|q: NFTRequirement| q@) =~= v@.map_values(|q: NFTRequirement| q@));
    }
    r
}

/// Copies a principal list; the copy's views match element for element.
fn clone_string_vec(v: &Vec<String>) -> (r: Vec<String>)
    ensures
        r@.map_values(|a: String| a@) == v@.map_values(|a: String| a@),
{
    let mut r: Vec<String> = Vec::new();
    let mut i: usize = 0;
    while i < v.len()
        invariant
            i <= v@.len(),
            r@.len() == i,
            forall|j: int| 0 <= j < i ==> (#[trigger] r@[j])@ == v@[j]@,
        decreases v@.len() - i,
    {
        r.push(v[i].clone());
        i = i + 1;
    }
    proof {
        assert(r@.map_values(|a: String| a@) =~= v@.map_values(|a: String| a@));
    }
    r
}

impl TribeController {
    /// The recorded membership status; NONE for unknown members or
    /// communities.
    #[allow(non_snake_case)]
    pub fn getMemberStatus(&self, tribe_id: u64, member: &String) -> (r: MemberStatusResponse)
        requires
            self.wf(),
        ensures
            r.status == self.spec_status(tribe_id, member@),
    {
        MemberStatusResponse { status: member_status_of(&self.members, tribe_id, member) }
    }

    /// Whether `addr` is an ACTIVE member of community `tribe_id`.
    pub fn is_tribe_member(&self, tribe_id: u64, addr: &String) -> (r: bool)
        requires
            self.wf(),
        ensures
            r == (self.spec_status(tribe_id, addr@) == MemberStatus::ACTIVE),
    {
        member_status_of(&self.members, tribe_id, addr) == MemberStatus::ACTIVE
    }

    /// Whether `addr`'s recorded status in community `tribe_id` is `status`.
    pub fn is_tribe_member_with_status(
        &self,
        tribe_id: u64,
        addr: &String,
        status: MemberStatus,
    ) -> (r: bool)
        requires
            self.wf(),
        ensures
            r == (self.spec_status(tribe_id, addr@) == status),
    {
        member_status_of(&self.members, tribe_id, addr) == status
    }

    /// The community's admin principal.
    #[allow(non_snake_case)]
    pub fn getTribeAdmin(&self, tribe_id: u64) -> (r: Result<AdminResponse, ContractError>)
        ensures
            r is Ok <==> tribe_id < self.spec_tribe_count(),
            r matches Ok(resp) ==> resp.admin@ == self.spec_tribe(tribe_id).admin,
            r is Err ==> r == Result::<AdminResponse, ContractError>::Err(ContractError::NotFound),
    {
        let n = self.tribes.len();
        if tribe_id >= n as u64 {
            return Err(ContractError::NotFound);
        }
        Ok(AdminResponse { admin: self.tribes[tribe_id as usize].admin.clone() })
    }

    /// The community's whitelist.
    #[allow(non_snake_case)]
    pub fn getTribeWhitelist(&self, tribe_id: u64) -> (r: Result<WhitelistResponse, ContractError>)
        ensures
            r is Ok <==> tribe_id < self.spec_tribe_count(),
            r matches Ok(resp) ==> resp.whitelist@.map_values(|a: String| a@) == self.spec_tribe(
                tribe_id,
            ).whitelist,
            r is Err ==> r == Result::<WhitelistResponse, ContractError>::Err(
                ContractError::NotFound,
            ),
    {
        let n = self.tribes.len();
        if tribe_id >= n as u64 {
            return Err(ContractError::NotFound);
        }
        Ok(WhitelistResponse { whitelist: clone_string_vec(&self.tribes[tribe_id as usize].whitelist) })
    }

    /// Whether `user` stands on the community's whitelist.
    #[allow(non_snake_case)]
    pub fn isAddressWhitelisted(&self, tribe_id: u64, user: &String) -> (r: Result<
        BoolResponse,
        ContractError,
    >)
        ensures
            r is Ok <==> tribe_id < self.spec_tribe_count(),
            r matches Ok(resp) ==> resp.result == self.spec_tribe(tribe_id).whitelist.contains(
                user@,
            ),
            r is Err ==> r == Result::<BoolResponse, ContractError>::Err(ContractError::NotFound),
    {
        let n = self.tribes.len();
        if tribe_id >= n as u64 {
            return Err(ContractError::NotFound);
        }
        let wl = &self.tribes[tribe_id as usize].whitelist;
        let ghost wv = self.spec_tribe(tribe_id).whitelist;
        let mut i: usize = 0;
        while i < wl.len()
            invariant
                i <= wl@.len(),
                wv == wl@.map_values(|a: String| a@),
                forall|j: int| 0 <= j < i ==> wv[j] != user@,
            decreases wl@.len() - i,
        {
            if wl[i] == *user {
                proof {
                    assert(wv[i as int] == user@);
                }
                return Ok(BoolResponse { result: true });
            }
            i = i + 1;
        }
        proof {
            assert forall|j: int| 0 <= j < wv.len() implies wv[j] != user@ by {}
        }
        Ok(BoolResponse { result: false })
    }

    /// The community's join policy, fee, requirements and merge flag.
    #[allow(non_snake_case)]
    pub fn getTribeConfigView(&self, tribe_id: u64) -> (r: Result<
        TribeConfigViewResponse,
        ContractError,
    >)
        ensures
            r is Ok <==> tribe_id < self.spec_tribe_count(),
            r matches Ok(resp) ==> {
                &&& resp.config.join_type == self.spec_tribe(tribe_id).join_type
                &&& resp.config.entry_fee == self.spec_tribe(tribe_id).entry_fee
                &&& resp.config.nft_requirements@.map_values(|q: NFTRequirement| q@)
                    == self.spec_tribe(tribe_id).nft_requirements
                &&& resp.config.can_merge == self.spec_tribe(tribe_id).can_merge
            },
            r is Err ==> r == Result::<TribeConfigViewResponse, ContractError>::Err(
                ContractError::NotFound,
            ),
    {
        let n = self.tribes.len();
        if tribe_id >= n as u64 {
            return Err(ContractError::NotFound);
        }
        let t = &self.tribes[tribe_id as usize];
        Ok(
            TribeConfigViewResponse {
                config: TribeConfigView {
                    join_type: t.join_type,
                    entry_fee: t.entry_fee,
                    nft_requirements: copy_requirements(&t.nft_requirements),
                    can_merge: t.can_merge,
                },
            },
        )
    }

    /// The community's member counter; 0 for an unknown community.
    #[allow(non_snake_case)]
    pub fn getMemberCount(&self, tribe_id: u64) -> (r: MemberCountResponse)
        requires
            self.wf(),
        ensures
            tribe_id < self.spec_tribe_count() ==> r.count == self.spec_member_count(tribe_id),
            tribe_id >= self.spec_tribe_count() ==> r.count == 0,
    {
        let n = self.member_counts.len();
        if tribe_id >= n as u64 {
            return MemberCountResponse { count: 0 };
        }
        proof {
            assert(self.member_counts@.len() == self.tribes@.len());
        }
        MemberCountResponse { count: self.member_counts[tribe_id as usize] }
    }

    /// The communities in which `user` is ACTIVE, in ascending id order.
    #[allow(non_snake_case)]
    pub fn getUserTribes(&self, user: &String) -> (r: UserTribesResponse)
        requires
            self.wf(),
        ensures
            forall|k: int|
                0 <= k < r.tribe_ids@.len() ==> self.spec_status(#[trigger] r.tribe_ids@[k], user@)
                    == MemberStatus::ACTIVE,
            forall|t: u64|
                t < self.spec_tribe_count() && self.spec_status(t, user@) == MemberStatus::ACTIVE
                    ==> r.tribe_ids@.contains(t),
            forall|k: int, j: int| 0 <= k < j < r.tribe_ids@.len() ==> r.tribe_ids@[k] < r.tribe_ids@[j],
    {
        let n = self.tribes.len();
        let mut ids: Vec<u64> = Vec::new();
        let mut t: usize = 0;
        while t < n
            invariant
                t <= n,
                n == self.spec_tribe_count(),
                self.wf(),
                forall|k: int|
                    0 <= k < ids@.len() ==> self.spec_status(#[trigger] ids@[k], user@)
                        == MemberStatus::ACTIVE,
                forall|t2: u64|
                    t2 < t && self.spec_status(t2, user@) == MemberStatus::ACTIVE ==> ids@.contains(
                        t2,
                    ),
                forall|k: int, j: int| 0 <= k < j < ids@.len() ==> ids@[k] < ids@[j],
                forall|k: int| 0 <= k < ids@.len() ==> ids@[k] < t,
            decreases n - t,
        {
            let ghost olds = ids@;
            let active = self.is_tribe_member(t as u64, user);
            if active {
                ids.push(t as u64);
            }
            proof {
                assert forall|t2: u64|
                    t2 < t + 1 && self.spec_status(t2, user@) == MemberStatus::ACTIVE implies
                    ids@.contains(t2) by {
                    if t2 < t {
                        assert(olds.contains(t2));
                        let k = choose|k: int| 0 <= k < olds.len() && olds[k] == t2;
                        assert(ids@[k] == t2);
                    } else {
                        assert(ids@[ids@.len() - 1] == t as u64);
                    }
                }
            }
            t = t + 1;
        }
        UserTribesResponse { tribe_ids: ids }
    }

    /// The pending merge request stored under `request_id`.
    #[allow(non_snake_case)]
    pub fn getMergeRequest(&self, request_id: u64) -> (r: Result<MergeRequestResponse, ContractError>)
        ensures
            r is Ok <==> self.spec_merge(request_id) is Some,
            r matches Ok(resp) ==> Some(resp.request) == self.spec_merge(request_id),
            r is Err ==> r == Result::<MergeRequestResponse, ContractError>::Err(
                ContractError::NotFound,
            ),
    {
        let n = self.merge_requests.len();
        if request_id >= n as u64 {
            return Err(ContractError::NotFound);
        }
        match self.merge_requests[request_id as usize] {
            None => Err(ContractError::NotFound),
            Some(req) => Ok(MergeRequestResponse { request: req }),
        }
    }

    /// Everything a community view shows: configuration, lifecycle flags and
    /// the member counter. Stored invite codes are never listed.
    #[allow(non_snake_case)]
    pub fn getTribeDetails(&self, tribe_id: u64) -> (r: Result<TribeDetailsView, ContractError>)
        requires
            self.wf(),
        ensures
            r is Ok <==> tribe_id < self.spec_tribe_count(),
            r matches Ok(d) ==> {
                &&& d.name@ == self.spec_tribe(tribe_id).name
                &&& d.metadata@ == self.spec_tribe(tribe_id).metadata
                &&& d.admin@ == self.spec_tribe(tribe_id).admin
                &&& d.whitelist@.map_values(|a: String| a@) == self.spec_tribe(tribe_id).whitelist
                &&& d.join_type == self.spec_tribe(tribe_id).join_type
                &&& d.entry_fee == self.spec_tribe(tribe_id).entry_fee
                &&& d.nft_requirements@.map_values(|q: NFTRequirement| q@) == self.spec_tribe(
                    tribe_id,
                ).nft_requirements
                &&& d.member_count == self.spec_member_count(tribe_id)
                &&& d.can_merge == self.spec_tribe(tribe_id).can_merge
                &&& d.is_active == self.spec_tribe(tribe_id).is_active
                &&& d.available_invite_codes@.len() == 0
            },
            r is Err ==> r == Result::<TribeDetailsView, ContractError>::Err(
                ContractError::NotFound,
            ),
    {
        let n = self.tribes.len();
        if tribe_id >= n as u64 {
            return Err(ContractError::NotFound);
        }
        proof {
            assert(self.member_counts@.len() == self.tribes@.len());
        }
        let t = &self.tribes[tribe_id as usize];
        Ok(
            TribeDetailsView {
                name: t.name.clone(),
                metadata: t.metadata.clone(),
                admin: t.admin.clone(),
                whitelist: clone_string_vec(&t.whitelist),
                join_type: t.join_type,
                entry_fee: t.entry_fee,
                nft_requirements: copy_requirements(&t.nft_requirements),
                member_count: self.member_counts[tribe_id as usize],
                can_merge: t.can_merge,
                is_active: t.is_active,
                available_invite_codes: Vec::new(),
            },
        )
    }

    /// Under the PRIVATE policy a direct join is never allowed, whatever the
    /// caller's records or entitlements are.
    pub proof fn lemma_private_join_refused(s: Self, o: EntitlementOracle, t: u64, u: Seq<char>)
        requires
            t < s.spec_tribe_count(),
            s.spec_tribe(t).join_type == JoinType::PRIVATE,
        ensures
            !s.spec_join_allowed(o, t, u),
    {
    }

    /// A join request that the admin then approves leaves the requester
    /// ACTIVE with the community's member count raised by exactly one, while
    /// a direct join stays refused under the PRIVATE policy throughout.
    pub proof fn lemma_private_request_then_approve(
        s0: Self,
        s1: Self,
        s2: Self,
        o: EntitlementOracle,
        t: u64,
        u: Seq<char>,
    )
        requires
            t < s0.spec_tribe_count(),
            s0.spec_tribe(t).join_type == JoinType::PRIVATE,
            s1.spec_status(t, u) == MemberStatus::PENDING,
            Self::counts_unchanged(s0, s1),
            s2.spec_status(t, u) == MemberStatus::ACTIVE,
            s2.spec_member_count(t) == s1.spec_member_count(t) + 1,
        ensures
            !s0.spec_join_allowed(o, t, u),
            s2.spec_status(t, u) == MemberStatus::ACTIVE,
            s2.spec_member_count(t) == s0.spec_member_count(t) + 1,
    {
    }

    /// A BANNED principal can never reach ACTIVE: a direct join, a code
    /// redemption and an approval are all refused while the ban stands.
    pub proof fn lemma_banned_never_active(
        s: Self,
        roles: RoleManager,
        o: EntitlementOracle,
        t: u64,
        u: Seq<char>,
        h: Seq<u8>,
        now: u64,
        sender: Seq<char>,
    )
        requires
            s.spec_status(t, u) == MemberStatus::BANNED,
        ensures
            !s.spec_join_allowed(o, t, u),
            !s.spec_code_join_allowed(t, u, h, now),
            !s.spec_approve_allowed(roles, t, sender, u),
    {
    }
}

} // verus!
