//! Capability registry: a (principal, capability) grant table with an
//! admin-gated grant/revoke surface, self-service renounce, and an advisory
//! pause flag. Any privileged call by a non-admin fails with zero mutation.

use vstd::prelude::*;

use crate::errors::ContractError;

verus! {

pub const FAN_ROLE: &'static str = "FAN_ROLE";

pub const ORGANIZER_ROLE: &'static str = "ORGANIZER_ROLE";

pub const ARTIST_ROLE: &'static str = "ARTIST_ROLE";

pub const BRAND_ROLE: &'static str = "BRAND_ROLE";

pub const MODERATOR_ROLE: &'static str = "MODERATOR_ROLE";

pub const FAN_ASSIGNER_ROLE: &'static str = "FAN_ASSIGNER_ROLE";

pub const DEFAULT_ADMIN_ROLE: &'static str = "DEFAULT_ADMIN_ROLE";

pub struct RolesResponse {
    pub roles: Vec<String>,
}

pub struct BoolResponse {
    pub result: bool,
}

/// The capability registry's whole state: the grant table and the pause flag.
pub struct RoleManager {
    grants: Vec<(String, String)>,
    paused: bool,
}

impl RoleManager {
    /// At most one grant record per (principal, capability) pair.
    pub closed spec fn wf(&self) -> bool {
        forall|i: int, j: int|
            0 <= i < j < self.grants@.len() ==> !(self.grants@[i].0@ == self.grants@[j].0@
                && self.grants@[i].1@ == self.grants@[j].1@)
    }

    /// Whether `user` holds `role`. Absence of a record means no grant.
    pub closed spec fn spec_has(&self, user: Seq<char>, role: Seq<char>) -> bool {
        exists|i: int|
            0 <= i < self.grants@.len() && self.grants@[i].0@ == user && self.grants@[i].1@
                == role
    }

    pub closed spec fn spec_paused(&self) -> bool {
        self.paused
    }

    pub open spec fn spec_is_admin(&self, user: Seq<char>) -> bool {
        self.spec_has(user, DEFAULT_ADMIN_ROLE@)
    }

    /// A fresh registry: the deployer holds the admin capability and nothing
    /// else is granted.
    pub fn new(deployer: String) -> (r: RoleManager)
        ensures
            r.wf(),
            !r.spec_paused(),
            forall|u: Seq<char>, ro: Seq<char>|
                #[trigger] r.spec_has(u, ro) <==> (u == deployer@ && ro == DEFAULT_ADMIN_ROLE@),
    {
        let ghost dv = deployer@;
        let mut grants: Vec<(String, String)> = Vec::new();
        grants.push((deployer, String::from_str(DEFAULT_ADMIN_ROLE)));
        let rm = RoleManager { grants, paused: false };
        proof {
            assert(rm.grants@.len() == 1);
            assert(rm.grants@[0].0@ == dv && rm.grants@[0].1@ == DEFAULT_ADMIN_ROLE@);
            assert forall|u: Seq<char>, ro: Seq<char>|
                #[trigger] rm.spec_has(u, ro) <==> (u == dv && ro == DEFAULT_ADMIN_ROLE@) by {
                if u == dv && ro == DEFAULT_ADMIN_ROLE@ {
                    assert(rm.grants@[0].0@ == u && rm.grants@[0].1@ == ro);
                }
            }
        }
        rm
    }

    /// Index of the grant record for (user, role), if one exists.
    fn find_grant(&self, user: &String, role: &String) -> (r: Option<usize>)
        ensures
            match r {
                Some(i) => i < self.grants@.len() && self.grants@[i as int].0@ == user@
                    && self.grants@[i as int].1@ == role@,
                None => !self.spec_has(user@, role@),
            },
    {
        let mut i: usize = 0;
        while i < self.grants.len()
            invariant
                i <= self.grants@.len(),
                forall|j: int|
                    0 <= j < i ==> !(self.grants@[j].0@ == user@ && self.grants@[j].1@ == role@),
            decreases self.grants@.len() - i,
        {
            if self.grants[i].0 == *user && self.grants[i].1 == *role {
                return Some(i);
            }
            i = i + 1;
        }
        None
    }

    /// Pure lookup: does `user` hold `role`?
    pub fn has_role(&self, user: &String, role: &String) -> (r: bool)
        ensures
            r == self.spec_has(user@, role@),
    {
        self.find_grant(user, role).is_some()
    }

    /// Records the grant (idempotent). The new table holds exactly the old
    /// grants plus (user, role).
    fn insert_grant(&mut self, user: String, role: String)
        requires
            old(self).wf(),
        ensures
            final(self).wf(),
            final(self).spec_paused() == old(self).spec_paused(),
            forall|u: Seq<char>, ro: Seq<char>|
                #[trigger] final(self).spec_has(u, ro) <==> (old(self).spec_has(u, ro) || (u
                    == user@ && ro == role@)),
    {
        let ghost uv = user@;
        let ghost rv = role@;
        if self.find_grant(&user, &role).is_none() {
            let ghost olds = self.grants@;
            self.grants.push((user, role));
            proof {
                assert(self.grants@ == olds.push((
                    self.grants@[olds.len() as int].0,
                    self.grants@[olds.len() as int].1,
                )));
                assert forall|u: Seq<char>, ro: Seq<char>|
                    #[trigger] self.spec_has(u, ro) <==> (old(self).spec_has(u, ro) || (u == uv
                        && ro == rv)) by {
                    if self.spec_has(u, ro) {
                        let j = choose|j: int|
                            0 <= j < self.grants@.len() && self.grants@[j].0@ == u
                                && self.grants@[j].1@ == ro;
                        if j < olds.len() {
                            assert(olds[j].0@ == u && olds[j].1@ == ro);
                        }
                    }
                    if old(self).spec_has(u, ro) {
                        let j = choose|j: int|
                            0 <= j < olds.len() && olds[j].0@ == u && olds[j].1@ == ro;
                        assert(self.grants@[j].0@ == u && self.grants@[j].1@ == ro);
                    }
                    if u == uv && ro == rv {
                        assert(self.grants@[olds.len() as int].0@ == u
                            && self.grants@[olds.len() as int].1@ == ro);
                    }
                }
            }
        } else {
            proof {
                assert(old(self).spec_has(uv, rv));
            }
        }
    }

    /// Removes the grant if present; removing an absent grant is a no-op.
    fn remove_grant(&mut self, user: &String, role: &String)
        requires
            old(self).wf(),
        ensures
            final(self).wf(),
            final(self).spec_paused() == old(self).spec_paused(),
            forall|u: Seq<char>, ro: Seq<char>|
                #[trigger] final(self).spec_has(u, ro) <==> (old(self).spec_has(u, ro) && !(u
                    == user@ && ro == role@)),
    {
        match self.find_grant(user, role) {
            Some(i) => {
                let ghost olds = self.grants@;
                self.grants.remove(i);
                proof {
                    olds.remove_ensures(i as int);
                    assert forall|u: Seq<char>, ro: Seq<char>|
                        #[trigger] self.spec_has(u, ro) <==> (old(self).spec_has(u, ro) && !(u
                            == user@ && ro == role@)) by {
                        if self.spec_has(u, ro) {
                            let j = choose|j: int|
                                0 <= j < self.grants@.len() && self.grants@[j].0@ == u
                                    && self.grants@[j].1@ == ro;
                            if j < i {
                                assert(olds[j].0@ == u && olds[j].1@ == ro);
                            } else {
                                assert(olds[j + 1].0@ == u && olds[j + 1].1@ == ro);
                            }
                        }
                        if old(self).spec_has(u, ro) && !(u == user@ && ro == role@) {
                            let j = choose|j: int|
                                0 <= j < olds.len() && olds[j].0@ == u && olds[j].1@ == ro;
                            if j < i {
                                assert(self.grants@[j].0@ == u && self.grants@[j].1@ == ro);
                            } else {
                                assert(j != i);
                                assert(self.grants@[j - 1].0@ == u && self.grants@[j - 1].1@
                                    == ro);
                            }
                        }
                    }
                }
            },
            None => {},
        }
    }

    /// Two registries with the same grant table grant the same capabilities.
    proof fn lemma_grants_eq(a: RoleManager, b: RoleManager)
        requires
            a.grants@ == b.grants@,
        ensures
            forall|u: Seq<char>, ro: Seq<char>|
                #[trigger] a.spec_has(u, ro) <==> b.spec_has(u, ro),
    {
        assert forall|u: Seq<char>, ro: Seq<char>|
            #[trigger] a.spec_has(u, ro) <==> b.spec_has(u, ro) by {
            if a.spec_has(u, ro) {
                let j = choose|j: int|
                    0 <= j < a.grants@.len() && a.grants@[j].0@ == u && a.grants@[j].1@ == ro;
                assert(b.grants@[j].0@ == u && b.grants@[j].1@ == ro);
            }
            if b.spec_has(u, ro) {
                let j = choose|j: int|
                    0 <= j < b.grants@.len() && b.grants@[j].0@ == u && b.grants@[j].1@ == ro;
                assert(a.grants@[j].0@ == u && a.grants@[j].1@ == ro);
            }
        }
    }

    /// Admin-gated grant; idempotent on an existing grant.
    #[allow(non_snake_case)]
    pub fn grantRole(&mut self, sender: &String, user: String, role: String) -> (r: Result<
        (),
        ContractError,
    >)
        requires
            old(self).wf(),
        ensures
            final(self).wf(),
            r is Ok <==> old(self).spec_is_admin(sender@),
            r is Err ==> r == Result::<(), ContractError>::Err(ContractError::Unauthorized)
                && *final(self) == *old(self),
            r is Ok ==> final(self).spec_paused() == old(self).spec_paused() && forall|
                u: Seq<char>,
                ro: Seq<char>,
            |
                #[trigger] final(self).spec_has(u, ro) <==> (old(self).spec_has(u, ro) || (u
                    == user@ && ro == role@)),
    {
        let admin = String::from_str(DEFAULT_ADMIN_ROLE);
        if !self.has_role(sender, &admin) {
            return Err(ContractError::Unauthorized);
        }
        self.insert_grant(user, role);
        Ok(())
    }

    /// Admin-gated revoke; always leaves (user, role) ungranted, whatever the
    /// prior state was. Revoking an absent grant is a no-op success.
    #[allow(non_snake_case)]
    pub fn revokeRole(&mut self, sender: &String, user: &String, role: &String) -> (r: Result<
        (),
        ContractError,
    >)
        requires
            old(self).wf(),
        ensures
            final(self).wf(),
            r is Ok <==> old(self).spec_is_admin(sender@),
            r is Err ==> r == Result::<(), ContractError>::Err(ContractError::Unauthorized)
                && *final(self) == *old(self),
            r is Ok ==> !final(self).spec_has(user@, role@),
            r is Ok ==> final(self).spec_paused() == old(self).spec_paused() && forall|
                u: Seq<char>,
                ro: Seq<char>,
            |
                #[trigger] final(self).spec_has(u, ro) <==> (old(self).spec_has(u, ro) && !(u
                    == user@ && ro == role@)),
    {
        let admin = String::from_str(DEFAULT_ADMIN_ROLE);
        if !self.has_role(sender, &admin) {
            return Err(ContractError::Unauthorized);
        }
        self.remove_grant(user, role);
        Ok(())
    }

    /// Any principal may unconditionally drop its own grant; afterwards the
    /// sender no longer holds the capability, whatever the prior state was.
    #[allow(non_snake_case)]
    pub fn renounceRole(&mut self, sender: &String, role: &String)
        requires
            old(self).wf(),
        ensures
            final(self).wf(),
            !final(self).spec_has(sender@, role@),
            final(self).spec_paused() == old(self).spec_paused(),
            forall|u: Seq<char>, ro: Seq<char>|
                #[trigger] final(self).spec_has(u, ro) <==> (old(self).spec_has(u, ro) && !(u
                    == sender@ && ro == role@)),
    {
        self.remove_grant(sender, role);
    }

    /// Admin-gated: grants the fan-assigner capability to `assigner`.
    #[allow(non_snake_case)]
    pub fn authorizeFanAssigner(&mut self, sender: &String, assigner: String) -> (r: Result<
        (),
        ContractError,
    >)
        requires
            old(self).wf(),
        ensures
            final(self).wf(),
            r is Ok <==> old(self).spec_is_admin(sender@),
            r is Err ==> r == Result::<(), ContractError>::Err(ContractError::Unauthorized)
                && *final(self) == *old(self),
            r is Ok ==> final(self).spec_paused() == old(self).spec_paused() && forall|
                u: Seq<char>,
                ro: Seq<char>,
            |
                #[trigger] final(self).spec_has(u, ro) <==> (old(self).spec_has(u, ro) || (u
                    == assigner@ && ro == FAN_ASSIGNER_ROLE@)),
    {
        let admin = String::from_str(DEFAULT_ADMIN_ROLE);
        if !self.has_role(sender, &admin) {
            return Err(ContractError::Unauthorized);
        }
        self.insert_grant(assigner, String::from_str(FAN_ASSIGNER_ROLE));
        Ok(())
    }

    /// Grants the fan capability to `user`; the sender must be the admin or an
    /// authorized fan assigner.
    #[allow(non_snake_case)]
    pub fn assignFanRole(&mut self, sender: &String, user: String) -> (r: Result<
        (),
        ContractError,
    >)
        requires
            old(self).wf(),
        ensures
            final(self).wf(),
            r is Ok <==> (old(self).spec_is_admin(sender@) || old(self).spec_has(
                sender@,
                FAN_ASSIGNER_ROLE@,
            )),
            r is Err ==> r == Result::<(), ContractError>::Err(ContractError::Unauthorized)
                && *final(self) == *old(self),
            r is Ok ==> final(self).spec_paused() == old(self).spec_paused() && forall|
                u: Seq<char>,
                ro: Seq<char>,
            |
                #[trigger] final(self).spec_has(u, ro) <==> (old(self).spec_has(u, ro) || (u
                    == user@ && ro == FAN_ROLE@)),
    {
        let admin = String::from_str(DEFAULT_ADMIN_ROLE);
        let assigner = String::from_str(FAN_ASSIGNER_ROLE);
        if !self.has_role(sender, &admin) && !self.has_role(sender, &assigner) {
            return Err(ContractError::Unauthorized);
        }
        self.insert_grant(user, String::from_str(FAN_ROLE));
        Ok(())
    }

    /// Admin-gated: raises the advisory pause flag.
    pub fn pause(&mut self, sender: &String) -> (r: Result<(), ContractError>)
        requires
            old(self).wf(),
        ensures
            final(self).wf(),
            r is Ok <==> old(self).spec_is_admin(sender@),
            r is Err ==> r == Result::<(), ContractError>::Err(ContractError::Unauthorized)
                && *final(self) == *old(self),
            r is Ok ==> final(self).spec_paused() && forall|u: Seq<char>, ro: Seq<char>|
                #[trigger] final(self).spec_has(u, ro) <==> old(self).spec_has(u, ro),
    {
        let admin = String::from_str(DEFAULT_ADMIN_ROLE);
        if !self.has_role(sender, &admin) {
            return Err(ContractError::Unauthorized);
        }
        self.paused = true;
        proof {
            Self::lemma_grants_eq(*old(self), *self);
        }
        Ok(())
    }

    /// Admin-gated: clears the advisory pause flag.
    pub fn unpause(&mut self, sender: &String) -> (r: Result<(), ContractError>)
        requires
            old(self).wf(),
        ensures
            final(self).wf(),
            r is Ok <==> old(self).spec_is_admin(sender@),
            r is Err ==> r == Result::<(), ContractError>::Err(ContractError::Unauthorized)
                && *final(self) == *old(self),
            r is Ok ==> !final(self).spec_paused() && forall|u: Seq<char>, ro: Seq<char>|
                #[trigger] final(self).spec_has(u, ro) <==> old(self).spec_has(u, ro),
    {
        let admin = String::from_str(DEFAULT_ADMIN_ROLE);
        if !self.has_role(sender, &admin) {
            return Err(ContractError::Unauthorized);
        }
        self.paused = false;
        proof {
            Self::lemma_grants_eq(*old(self), *self);
        }
        Ok(())
    }

    /// Whether the advisory pause flag is raised.
    pub fn is_paused(&self) -> (r: bool)
        ensures
            r == self.spec_paused(),
    {
        self.paused
    }

    /// Whether `user` holds at least one of `roles`.
    pub fn has_any_role(&self, user: &String, roles: &Vec<String>) -> (r: BoolResponse)
        ensures
            r.result <==> exists|k: int|
                0 <= k < roles@.len() && self.spec_has(user@, roles@[k]@),
    {
        let mut k: usize = 0;
        while k < roles.len()
            invariant
                k <= roles@.len(),
                forall|j: int| 0 <= j < k ==> !self.spec_has(user@, roles@[j]@),
            decreases roles@.len() - k,
        {
            if self.has_role(user, &roles[k]) {
                assert(self.spec_has(user@, roles@[k as int]@));
                return BoolResponse { result: true };
            }
            k = k + 1;
        }
        BoolResponse { result: false }
    }

    /// Whether `user` holds every one of `roles`.
    pub fn has_all_roles(&self, user: &String, roles: &Vec<String>) -> (r: BoolResponse)
        ensures
            r.result <==> forall|k: int|
                0 <= k < roles@.len() ==> self.spec_has(user@, #[trigger] roles@[k]@),
    {
        let mut k: usize = 0;
        while k < roles.len()
            invariant
                k <= roles@.len(),
                forall|j: int| 0 <= j < k ==> self.spec_has(user@, #[trigger] roles@[j]@),
            decreases roles@.len() - k,
        {
            if !self.has_role(user, &roles[k]) {
                return BoolResponse { result: false };
            }
            k = k + 1;
        }
        BoolResponse { result: true }
    }

    /// The fixed capability vocabulary, admin capability first.
    pub open spec fn spec_known_roles() -> Seq<Seq<char>> {
        seq![
            DEFAULT_ADMIN_ROLE@,
            FAN_ROLE@,
            ORGANIZER_ROLE@,
            ARTIST_ROLE@,
            BRAND_ROLE@,
            MODERATOR_ROLE@,
            FAN_ASSIGNER_ROLE@,
        ]
    }

    /// The well-known capabilities that `user` currently holds: every listed
    /// role is held, and every held role of the fixed vocabulary is listed.
    pub fn get_user_roles(&self, user: &String) -> (r: RolesResponse)
        ensures
            forall|k: int|
                0 <= k < r.roles@.len() ==> self.spec_has(user@, #[trigger] r.roles@[k]@),
            forall|ro: Seq<char>|
                #[trigger] Self::spec_known_roles().contains(ro) && self.spec_has(user@, ro)
                    ==> exists|k: int| 0 <= k < r.roles@.len() && #[trigger] r.roles@[k]@ == ro,
    {
        let mut known: Vec<String> = Vec::new();
        known.push(String::from_str(DEFAULT_ADMIN_ROLE));
        known.push(String::from_str(FAN_ROLE));
        known.push(String::from_str(ORGANIZER_ROLE));
        known.push(String::from_str(ARTIST_ROLE));
        known.push(String::from_str(BRAND_ROLE));
        known.push(String::from_str(MODERATOR_ROLE));
        known.push(String::from_str(FAN_ASSIGNER_ROLE));
        proof {
            reveal_strlit("DEFAULT_ADMIN_ROLE");
            reveal_strlit("FAN_ROLE");
            reveal_strlit("ORGANIZER_ROLE");
            reveal_strlit("ARTIST_ROLE");
            reveal_strlit("BRAND_ROLE");
            reveal_strlit("MODERATOR_ROLE");
            reveal_strlit("FAN_ASSIGNER_ROLE");
            assert(known@.len() == 7);
            assert(known@[0]@ == DEFAULT_ADMIN_ROLE@);
            assert(known@[1]@ == FAN_ROLE@);
            assert(known@[2]@ == ORGANIZER_ROLE@);
            assert(known@[3]@ == ARTIST_ROLE@);
            assert(known@[4]@ == BRAND_ROLE@);
            assert(known@[5]@ == MODERATOR_ROLE@);
            assert(known@[6]@ == FAN_ASSIGNER_ROLE@);
        }
        let mut held: Vec<String> = Vec::new();
        let mut k: usize = 0;
        while k < known.len()
            invariant
                k <= known@.len(),
                known@.len() == 7,
                forall|j: int|
                    0 <= j < 7 ==> #[trigger] known@[j]@ == Self::spec_known_roles()[j],
                forall|i: int|
                    0 <= i < held@.len() ==> self.spec_has(user@, #[trigger] held@[i]@),
                forall|j: int|
                    0 <= j < k && self.spec_has(user@, #[trigger] known@[j]@) ==> exists|i: int|
                        0 <= i < held@.len() && #[trigger] held@[i]@ == known@[j]@,
            decreases known@.len() - k,
        {
            let ghost held0 = held@;
            let granted = self.has_role(user, &known[k]);
            if granted {
                held.push(known[k].clone());
            }
            proof {
                assert forall|j: int|
                    0 <= j < k + 1 && self.spec_has(user@, #[trigger] known@[j]@) implies exists|
                    i: int,
                |
                    0 <= i < held@.len() && #[trigger] held@[i]@ == known@[j]@ by {
                    if j < k {
                        let i0 = choose|i: int|
                            0 <= i < held0.len() && #[trigger] held0[i]@ == known@[j]@;
                        assert(held@[i0]@ == known@[j]@);
                    } else {
                        assert(held@[held@.len() - 1]@ == known@[k as int]@);
                    }
                }
            }
            k = k + 1;
        }
        let resp = RolesResponse { roles: held };
        proof {
            assert forall|ro: Seq<char>|
                #[trigger] Self::spec_known_roles().contains(ro) && self.spec_has(
                    user@,
                    ro,
                ) implies exists|k2: int|
                0 <= k2 < resp.roles@.len() && #[trigger] resp.roles@[k2]@ == ro by {
                let j = choose|j: int|
                    0 <= j < Self::spec_known_roles().len() && Self::spec_known_roles()[j] == ro;
                assert(known@[j]@ == ro);
                assert(self.spec_has(user@, known@[j]@));
                let i0 = choose|i: int|
                    0 <= i < resp.roles@.len() && #[trigger] resp.roles@[i]@ == known@[j]@;
                assert(resp.roles@[i0]@ == ro);
            }
        }
        resp
    }
}

} // verus!
