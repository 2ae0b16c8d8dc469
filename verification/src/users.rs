//! The users that the cache follows: which row holds a user's balances, and
//! which tokens the user has enabled as collateral.
//!
//! The flags are a bit vector of the `bitvec` crate and the users are filed in
//! a concurrent map of the `dashmap` crate. Both are opaque to the verifier;
//! their contents are given by the two names below and by the contracts of the
//! functions that call them.
use bitvec::order::Lsb0;
use bitvec::vec::BitVec;
use dashmap::DashMap;
use vstd::prelude::*;

verus! {

/// For every token, whether a user has enabled it as collateral.
#[verifier::external_body]
pub struct CollateralFlags {
    bits: BitVec<usize, Lsb0>,
}

/// The flags that a bit vector holds, in order.
pub uninterp spec fn flags_contents(flags: CollateralFlags) -> Seq<bool>;

impl View for CollateralFlags {
    type V = Seq<bool>;

    open spec fn view(&self) -> Seq<bool> {
        flags_contents(*self)
    }
}

impl CollateralFlags {
    /// `BitVec::repeat(false, n)`: `n` flags, none of them set. It panics
    /// above an eighth of the address range.
    #[verifier::external_body]
    pub(crate) fn zeros(n: usize) -> (r: CollateralFlags)
        requires
            n <= usize::MAX / 8,
        ensures
            flags_contents(r) == Seq::new(n as nat, |i: int| false),
    {
        CollateralFlags { bits: BitVec::repeat(false, n) }
    }

    /// `BitVec::len`: the number of flags.
    #[verifier::external_body]
    pub(crate) fn len(&self) -> (r: usize)
        ensures
            r == flags_contents(*self).len(),
    {
        self.bits.len()
    }

    /// Indexing of a `BitVec`: the flag at `idx`. It panics out of range.
    #[verifier::external_body]
    pub(crate) fn get(&self, idx: usize) -> (r: bool)
        requires
            idx < flags_contents(*self).len(),
        ensures
            r == flags_contents(*self)[idx as int],
    {
        self.bits[idx]
    }

    /// `BitSlice::set`: writes the flag at `idx` and keeps the others. It
    /// panics out of range.
    #[verifier::external_body]
    pub(crate) fn set(&mut self, idx: usize, value: bool)
        requires
            idx < flags_contents(*old(self)).len(),
        ensures
            flags_contents(*final(self)) == flags_contents(*old(self)).update(idx as int, value),
    {
        self.bits.set(idx, value);
    }

    /// `BitVec::clone`: the same flags.
    #[verifier::external_body]
    pub(crate) fn duplicate(&self) -> (r: CollateralFlags)
        ensures
            flags_contents(r) == flags_contents(*self),
    {
        CollateralFlags { bits: self.bits.clone() }
    }

    /// `BitSlice::iter` by value, collected: the flags in order.
    #[verifier::external_body]
    pub(crate) fn values(&self) -> (r: Vec<bool>)
        ensures
            r@ == flags_contents(*self),
    {
        self.bits.iter().by_vals().collect()
    }

    /// The flags that a vector of booleans lists.
    pub fn from_values(values: &Vec<bool>) -> (r: CollateralFlags)
        requires
            values@.len() <= usize::MAX / 8,
        ensures
            r@ == values@,
    {
        let mut r: CollateralFlags = CollateralFlags::zeros(values.len());
        let mut i: usize = 0;
        while i < values.len()
            invariant
                i <= values@.len(),
                r@.len() == values@.len(),
                forall|j: int| 0 <= j < i ==> r@[j] == values@[j],
            decreases values@.len() - i,
        {
            r.set(i, values[i]);
            i = i + 1;
        }
        assert(r@ =~= values@);
        r
    }
}

/// What the cache keeps of a user.
pub struct UserSettings {
    pub row_num: usize,
    pub use_as_collateral: CollateralFlags,
}

impl View for UserSettings {
    type V = (usize, Seq<bool>);

    open spec fn view(&self) -> (usize, Seq<bool>) {
        (self.row_num, self.use_as_collateral@)
    }
}

impl UserSettings {
    pub fn new(row_num: usize, use_as_collateral: CollateralFlags) -> (r: UserSettings)
        ensures
            r@ == (row_num, use_as_collateral@),
    {
        UserSettings { row_num, use_as_collateral }
    }

    /// A copy of the settings.
    pub fn duplicate(&self) -> (r: UserSettings)
        ensures
            r@ == self@,
    {
        UserSettings {
            row_num: self.row_num,
            use_as_collateral: self.use_as_collateral.duplicate(),
        }
    }
}

/// The users by the two integers of their address.
pub type UserDetails = DashMap<(u32, u128), UserSettings>;

/// The map type of the `dashmap` crate.
#[verifier::external_type_specification]
#[verifier::external_body]
#[verifier::reject_recursive_types(K)]
#[verifier::reject_recursive_types(V)]
#[verifier::reject_recursive_types(S)]
pub struct ExDashMap<K, V, S>(dashmap::DashMap<K, V, S>);

/// The entries of a map of users.
pub uninterp spec fn users_contents(users: DashMap<(u32, u128), UserSettings>) -> Map<
    (u32, u128),
    (usize, Seq<bool>),
>;

/// The entries of a map that files nobody.
pub open spec fn no_users() -> Map<(u32, u128), (usize, Seq<bool>)> {
    Map::empty()
}

/// `DashMap::new`: a map without entries.
#[verifier::external_body]
pub(crate) fn users_new() -> (r: UserDetails)
    ensures
        users_contents(r) == no_users(),
{
    DashMap::new()
}

/// `DashMap::contains_key`: whether there is an entry for `key`.
#[verifier::external_body]
pub(crate) fn users_contain(users: &UserDetails, key: (u32, u128)) -> (r: bool)
    ensures
        r == users_contents(*users).contains_key(key),
{
    users.contains_key(&key)
}

/// `DashMap::get`: a copy of the entry for `key`, if there is one.
#[verifier::external_body]
pub(crate) fn users_get(users: &UserDetails, key: (u32, u128)) -> (r: Option<UserSettings>)
    ensures
        match r {
            Some(settings) => users_contents(*users).contains_key(key) && settings@
                == users_contents(*users)[key],
            None => !users_contents(*users).contains_key(key),
        },
{
    users.get(&key).map(|entry| entry.value().duplicate())
}

/// `DashMap::insert`: files `settings` under `key`, in the place of an earlier
/// entry.
#[verifier::external_body]
pub(crate) fn users_insert(users: &mut UserDetails, key: (u32, u128), settings: UserSettings)
    ensures
        users_contents(*final(users)) == users_contents(*old(users)).insert(key, settings@),
{
    users.insert(key, settings);
}

/// `DashMap::remove`: drops the entry for `key`, if there is one.
#[verifier::external_body]
pub(crate) fn users_remove(users: &mut UserDetails, key: (u32, u128))
    ensures
        users_contents(*final(users)) == users_contents(*old(users)).remove(key),
{
    users.remove(&key);
}

/// `DashMap::iter`, collected: every entry once, in an order that is left open.
#[verifier::external_body]
pub(crate) fn users_entries(users: &UserDetails) -> (r: Vec<((u32, u128), UserSettings)>)
    ensures
        forall|i: int|
            0 <= i < r@.len() ==> users_contents(*users).contains_key(#[trigger] r@[i].0) && r@[i].1@
                == users_contents(*users)[r@[i].0],
        forall|i: int, j: int| 0 <= i < j < r@.len() ==> #[trigger] r@[i].0 != #[trigger] r@[j].0,
        forall|key: (u32, u128)| #[trigger]
            users_contents(*users).contains_key(key) ==> exists|i: int|
                0 <= i < r@.len() && #[trigger] r@[i].0 == key,
{
    users.iter().map(|entry| (*entry.key(), entry.value().duplicate())).collect()
}

} // verus!
