//! The staking program's user registry: one derived, owner-keyed record per
//! user, created zeroed with its authority-proof byte.

use vstd::prelude::*;
use crate::derive::derive_user_account;
use crate::derive::user_account_derivation;
use crate::errors::EscrowError;
use crate::ident::Ident;
use crate::ident::ident_eq;

verus! {

/// The mathematical state of one staking user record.
#[verifier::ext_equal]
pub struct UserRecordV {
    pub user: Seq<u8>,
    pub points: u32,
    pub amount_staked: u8,
    pub bump: u8,
}

/// One staking user record: accrued points, the number of staked items, and
/// the proof byte of the record's derived address.
#[derive(Clone, Copy)]
pub struct UserAccount {
    pub user: Ident,
    pub points: u32,
    pub amount_staked: u8,
    pub bump: u8,
}

impl View for UserAccount {
    type V = UserRecordV;

    open spec fn view(&self) -> UserRecordV {
        UserRecordV {
            user: self.user@,
            points: self.points,
            amount_staked: self.amount_staked,
            bump: self.bump,
        }
    }
}

/// Whether a record for `user` exists.
pub open spec fn has_user(us: Seq<UserRecordV>, user: Seq<u8>) -> bool {
    exists|i: int| 0 <= i < us.len() && (#[trigger] us[i]).user == user
}

/// The index of `user`'s record.
pub open spec fn user_idx(us: Seq<UserRecordV>, user: Seq<u8>) -> int {
    choose|i: int| 0 <= i < us.len() && (#[trigger] us[i]).user == user
}

/// `user`'s record (meaningful when it exists).
pub open spec fn user_of(us: Seq<UserRecordV>, user: Seq<u8>) -> UserRecordV {
    us[user_idx(us, user)]
}

/// Users are pairwise distinct.
pub open spec fn unique_users(us: Seq<UserRecordV>) -> bool {
    forall|i: int, j: int|
        0 <= i < j < us.len() ==> (#[trigger] us[i]).user != (#[trigger] us[j]).user
}

/// The registry of staking user records under one program identity.
pub struct StakeRegistry {
    program_id: Ident,
    users: Vec<UserAccount>,
}

impl View for StakeRegistry {
    type V = Seq<UserRecordV>;

    closed spec fn view(&self) -> Seq<UserRecordV> {
        self.users@.map_values(|u: UserAccount| u@)
    }
}

impl StakeRegistry {
    /// An empty registry under `program_id`.
    pub fn new(program_id: Ident) -> (r: StakeRegistry)
        ensures
            r@ == Seq::<UserRecordV>::empty(),
            r.wf(),
            r.spec_program_id() == program_id@,
    {
        let r = StakeRegistry { program_id, users: Vec::new() };
        proof {
            assert(r@ =~= Seq::<UserRecordV>::empty());
        }
        r
    }

    /// The registry's records have pairwise-distinct users.
    pub open spec fn wf(&self) -> bool {
        unique_users(self@)
    }

    /// The program identity under which records are derived.
    pub closed spec fn spec_program_id(&self) -> Seq<u8> {
        self.program_id@
    }

    /// Looks up the record of `user`.
    fn find_user(&self, user: &Ident) -> (r: Option<usize>)
        ensures
            match r {
                Some(i) => i < self@.len() && self@[i as int].user == user@,
                None => !has_user(self@, user@),
            },
    {
        let mut i: usize = 0;
        while i < self.users.len()
            invariant
                i <= self.users.len(),
                self@.len() == self.users@.len(),
                forall|j: int| 0 <= j < i ==> (#[trigger] self@[j]).user != user@,
            decreases self.users.len() - i,
        {
            if ident_eq(&self.users[i].user, user) {
                return Some(i);
            }
            i += 1;
        }
        None
    }

    /// A copy of `user`'s record, if any.
    pub fn get_user(&self, user: &Ident) -> (r: Option<UserAccount>)
        requires
            self.wf(),
        ensures
            match r {
                Some(u) => has_user(self@, user@) && u@ == user_of(self@, user@),
                None => !has_user(self@, user@),
            },
    {
        match self.find_user(user) {
            Some(i) => {
                proof {
                    let j = user_idx(self@, user@);
                    assert(self@[i as int].user == user@);
                    assert(has_user(self@, user@));
                    assert(0 <= j < self@.len() && self@[j].user == user@);
                    if i as int != j {
                        assert(self@[i as int].user != self@[j].user);
                        assert(false);
                    }
                }
                Some(self.users[i])
            },
            None => None,
        }
    }

    /// Creates `user`'s record zeroed, with the proof byte of its derived
    /// address; fails when the record already exists or no proof byte can
    /// be found.
    pub fn initialize_user(&mut self, user: &Ident) -> (r: Result<(), EscrowError>)
        requires
            old(self).wf(),
        ensures
            final(self).wf(),
            if has_user(old(self)@, user@) {
                r == Err::<(), EscrowError>(EscrowError::AlreadyExistsError) && final(self)@
                    == old(self)@
            } else if user_account_derivation(old(self).spec_program_id(), user@) is None {
                r == Err::<(), EscrowError>(EscrowError::DerivationError) && final(self)@ == old(
                    self,
                )@
            } else {
                r == Ok::<(), EscrowError>(()) && final(self)@ == old(self)@.push(
                    UserRecordV {
                        user: user@,
                        points: 0,
                        amount_staked: 0,
                        bump: match user_account_derivation(old(self).spec_program_id(), user@) {
                            Some(d) => d.1,
                            None => 0,
                        },
                    },
                )
            },
            final(self).spec_program_id() == old(self).spec_program_id(),
    {
        let ghost us = self@;
        if self.find_user(user).is_some() {
            return Err(EscrowError::AlreadyExistsError);
        }
        let (_addr, bump) = match derive_user_account(&self.program_id, user) {
            Some(p) => p,
            None => {
                return Err(EscrowError::DerivationError);
            },
        };
        self.users.push(UserAccount { user: *user, points: 0, amount_staked: 0, bump });
        proof {
            let n = us.len() as int;
            assert(self@ =~= us.push(
                UserRecordV { user: user@, points: 0, amount_staked: 0, bump: bump },
            ));
            assert forall|i: int, j: int| 0 <= i < j < self@.len() implies (
            #[trigger] self@[i]).user != (#[trigger] self@[j]).user by {
                if j < n {
                    assert(us[i].user != us[j].user);
                } else {
                    assert(self@[j].user == user@);
                    if us[i].user == user@ {
                        assert(has_user(us, user@));
                        assert(false);
                    }
                }
            }
        }
        Ok(())
    }
}

} // verus!
