//! The transactional registry itself: the asset, owner and listing
//! records, the monotonic id counter, and the five operations — create,
//! breed, transfer, sell, buy — each gated by the stake rules.
//!
//! Ids are handed out sequentially and never reused, so the records of
//! the assets in existence are kept densely: the asset with id
//! `first_id() + i` lives at index `i`. The registry's invariant `wf`
//! ties the three record columns together and states stake conservation:
//! every owned asset is backed by exactly one `stake()` reserved against
//! its current owner.

use crate::genome::Kitty;
use crate::genome::cross;
use crate::genome::crossed;
use crate::ledger::Ledger;
use crate::randomness::IdentitySource;
use crate::randomness::blake2_128_of;
use crate::randomness::derive_genome;
use crate::randomness::seed_payload;
use vstd::prelude::*;

verus! {

/// Fixed configuration: the amount reserved against an owner for each
/// asset it holds.
#[derive(Clone, Copy)]
pub struct Config {
    pub stake_amount: u128,
}

/// The typed failures of the five operations.
#[derive(Clone, Copy, PartialEq, Eq, Debug, Structural)]
pub enum Error {
    /// The referenced asset id does not exist.
    InvalidKittyId,
    /// The id counter has reached the largest representable id.
    KittyIdOverflow,
    /// The caller is not the recorded owner of the asset.
    NotOwner,
    /// Breeding was asked for with the same asset as both parents.
    SameKittyId,
    /// Buyer and seller are the same account.
    NoBuySelf,
    /// The listing is absent or explicitly not for sale.
    NotForSale,
    /// The free balance cannot cover a required stake or payment.
    NotEnoughBalance,
    /// The ledger refused the purchase payment.
    TransferFailed,
}

/// One notification per successful operation, for outside observers.
#[derive(Clone, Copy, PartialEq, Eq, Debug)]
pub enum Event {
    /// A new asset was created: owner, id.
    KittyCreated(u64, u32),
    /// A new asset was bred: owner, id, asset.
    KittyBred(u64, u32, Kitty),
    /// Ownership moved: previous owner, new owner, id.
    KittyTransferred(u64, u64, u32),
    /// A listing was set: owner, id, price or not-for-sale.
    KittyInSell(u64, u32, Option<u128>),
}

/// How many entries of `owners` equal `a`: the number of assets the
/// account currently owns.
pub open spec fn count_owned(owners: Seq<u64>, a: u64) -> nat
    decreases owners.len(),
{
    if owners.len() == 0 {
        0
    } else {
        count_owned(owners.drop_last(), a) + if owners.last() == a {
            1nat
        } else {
            0nat
        }
    }
}

/// Appending one owner raises that account's count by one and no other's.
proof fn lemma_count_owned_push(owners: Seq<u64>, x: u64)
    ensures
        forall|a: u64|
            #[trigger] count_owned(owners.push(x), a) == count_owned(owners, a) + if x == a {
                1nat
            } else {
                0nat
            },
{
    assert(owners.push(x).drop_last() =~= owners);
}

/// Rewriting one owner entry moves one unit of count from the old owner
/// to the new one and touches no other account's count.
proof fn lemma_count_owned_update(owners: Seq<u64>, i: int, x: u64)
    requires
        0 <= i < owners.len(),
    ensures
        forall|a: u64|
            #[trigger] count_owned(owners.update(i, x), a) == count_owned(owners, a) + (if x == a {
                1int
            } else {
                0int
            }) - (if owners[i] == a {
                1int
            } else {
                0int
            }),
    decreases owners.len(),
{
    assert forall|a: u64|
        #[trigger] count_owned(owners.update(i, x), a) == count_owned(owners, a) + (if x == a {
            1int
        } else {
            0int
        }) - (if owners[i] == a {
            1int
        } else {
            0int
        }) by {
        if i == owners.len() - 1 {
            assert(owners.update(i, x).drop_last() =~= owners.drop_last());
            assert(owners.update(i, x).last() == x);
            assert(owners.last() == owners[i]);
        } else {
            lemma_count_owned_update(owners.drop_last(), i, x);
            assert(owners.update(i, x).drop_last() =~= owners.drop_last().update(i, x));
            assert(owners.update(i, x).last() == owners.last());
            assert(owners.drop_last()[i] == owners[i]);
            assert(count_owned(owners.drop_last().update(i, x), a) == count_owned(
                owners.drop_last(),
                a,
            ) + (if x == a {
                1int
            } else {
                0int
            }) - (if owners.drop_last()[i] == a {
                1int
            } else {
                0int
            }));
            assert(count_owned(owners.update(i, x), a) == count_owned(
                owners.drop_last().update(i, x),
                a,
            ) + (if owners.last() == a {
                1int
            } else {
                0int
            }));
        }
    }
}

/// Distributing one more unit over a product: owning one more asset
/// costs exactly one more stake.
proof fn lemma_mul_succ(s: int, c: int)
    ensures
        s * (c + 1) == s * c + s,
        s * (c - 1) == s * c - s,
{
    assert(s * (c + 1) == s * c + s) by (nonlinear_arith);
    assert(s * (c - 1) == s * c - s) by (nonlinear_arith);
}

/// A product of non-negatives is at least its one-unit share.
proof fn lemma_mul_at_least_one(s: int, c: int)
    requires
        s >= 0,
        c >= 1,
    ensures
        s * c >= s,
{
    assert(s * c >= s * 1) by (nonlinear_arith)
        requires
            s >= 0,
            c >= 1,
    ;
}

/// An account that stands somewhere in the owner column owns at least
/// one asset.
proof fn lemma_count_owned_member(owners: Seq<u64>, i: int)
    requires
        0 <= i < owners.len(),
    ensures
        count_owned(owners, owners[i]) >= 1,
    decreases owners.len(),
{
    if i < owners.len() - 1 {
        lemma_count_owned_member(owners.drop_last(), i);
    }
}

/// The two balance columns of the ledger read the same in both states,
/// for every account.
pub open spec fn balances_unchanged<R: IdentitySource>(pre: Pallet<R>, post: Pallet<R>) -> bool {
    forall|a: u64|
        #![trigger post.free_of(a)]
        post.free_of(a) == pre.free_of(a) && post.reserved_of(a) == pre.reserved_of(a)
}

/// The registry records, the counter, the ledger and the event log read
/// the same in both states: nothing observable happened. The seed source
/// and its per-call counter may still have moved.
pub open spec fn core_unchanged<R: IdentitySource>(pre: Pallet<R>, post: Pallet<R>) -> bool {
    &&& post.kitty_seq() == pre.kitty_seq()
    &&& post.owner_seq() == pre.owner_seq()
    &&& post.shop_seq() == pre.shop_seq()
    &&& post.next_id() == pre.next_id()
    &&& post.events_seq() == pre.events_seq()
    &&& post.stake() == pre.stake()
    &&& post.ed() == pre.ed()
    &&& balances_unchanged(pre, post)
}

/// One successful creation by `caller`: the asset got the id the counter
/// held, the counter stepped by one, one record was appended to each
/// column with `caller` as owner and no listing, one stake moved from
/// `caller`'s free to its reserved balance, nobody else's balances moved,
/// and exactly one event was emitted — `create` and `breed` each state
/// which kind in their own contracts.
pub open spec fn created_step<R: IdentitySource>(
    pre: Pallet<R>,
    post: Pallet<R>,
    caller: u64,
    id: u32,
) -> bool {
    &&& pre.next_id() < u32::MAX
    &&& pre.free_of(caller) >= pre.stake()
    &&& id == pre.next_id()
    &&& post.next_id() == id + 1
    &&& post.kitty_seq().len() == pre.kitty_seq().len() + 1
    &&& post.kitty_seq().drop_last() == pre.kitty_seq()
    &&& post.owner_seq() == pre.owner_seq().push(caller)
    &&& post.shop_seq() == pre.shop_seq().push(None::<Option<u128>>)
    &&& post.events_seq().len() == pre.events_seq().len() + 1
    &&& post.events_seq().drop_last() == pre.events_seq()
    &&& post.stake() == pre.stake()
    &&& post.ed() == pre.ed()
    &&& post.free_of(caller) == pre.free_of(caller) - pre.stake()
    &&& post.reserved_of(caller) == pre.reserved_of(caller) + pre.stake()
    &&& forall|b: u64|
        #![trigger post.free_of(b)]
        b != caller ==> post.free_of(b) == pre.free_of(b) && post.reserved_of(b)
            == pre.reserved_of(b)
}

/// One successful handover of asset `id` from `who` to `new_owner`: only
/// the owner record changes, one stake moves from `new_owner`'s free to
/// its reserved balance while `who`'s stake is released, and exactly one
/// transfer event is emitted. Handing an asset to oneself moves nothing.
pub open spec fn transfer_step<R: IdentitySource>(
    pre: Pallet<R>,
    post: Pallet<R>,
    who: u64,
    id: u32,
    new_owner: u64,
) -> bool {
    &&& pre.has_kitty(id)
    &&& pre.owner_map()[id] == who
    &&& pre.free_of(new_owner) >= pre.stake()
    &&& post.next_id() == pre.next_id()
    &&& post.kitty_seq() == pre.kitty_seq()
    &&& post.owner_seq() == pre.owner_seq().update(pre.index_of(id), new_owner)
    &&& post.shop_seq() == pre.shop_seq()
    &&& post.events_seq() == pre.events_seq().push(Event::KittyTransferred(who, new_owner, id))
    &&& post.stake() == pre.stake()
    &&& post.ed() == pre.ed()
    &&& new_owner != who ==> {
        &&& post.free_of(new_owner) == pre.free_of(new_owner) - pre.stake()
        &&& post.reserved_of(new_owner) == pre.reserved_of(new_owner) + pre.stake()
        &&& post.free_of(who) == pre.free_of(who) + pre.stake()
        &&& post.reserved_of(who) == pre.reserved_of(who) - pre.stake()
    }
    &&& new_owner == who ==> post.free_of(who) == pre.free_of(who) && post.reserved_of(who)
        == pre.reserved_of(who)
    &&& forall|b: u64|
        #![trigger post.free_of(b)]
        b != who && b != new_owner ==> post.free_of(b) == pre.free_of(b) && post.reserved_of(b)
            == pre.reserved_of(b)
}

/// One successful listing of asset `id` by its owner `who`: only the
/// listing record changes, to the offered price or the not-for-sale
/// mark; balances move not at all, and exactly one listing event is
/// emitted.
pub open spec fn sell_step<R: IdentitySource>(
    pre: Pallet<R>,
    post: Pallet<R>,
    who: u64,
    id: u32,
    price: Option<u128>,
) -> bool {
    &&& pre.has_kitty(id)
    &&& pre.owner_map()[id] == who
    &&& post.next_id() == pre.next_id()
    &&& post.kitty_seq() == pre.kitty_seq()
    &&& post.owner_seq() == pre.owner_seq()
    &&& post.shop_seq() == pre.shop_seq().update(pre.index_of(id), Some(price))
    &&& post.events_seq() == pre.events_seq().push(Event::KittyInSell(who, id, price))
    &&& post.stake() == pre.stake()
    &&& post.ed() == pre.ed()
    &&& balances_unchanged(pre, post)
}

/// Whether the ledger lets the purchase payment itself through: paying
/// `price` on top of the stake leaves the buyer `who` at or above the
/// existential deposit, and the seller can absorb the payment without
/// overflowing or staying below the deposit.
pub open spec fn buy_payment_ok<R: IdentitySource>(
    pre: Pallet<R>,
    who: u64,
    seller: u64,
    price: u128,
) -> bool {
    &&& pre.free_of(who) - pre.stake() - price >= pre.ed()
    &&& pre.free_of(seller) + pre.reserved_of(seller) + price <= u128::MAX
    &&& pre.free_of(seller) + pre.reserved_of(seller) + price >= pre.ed()
}

/// One successful purchase of asset `id` by `who` from its recorded
/// seller: the owner record moves to `who`, the listing is removed, the
/// buyer pays the listed price and takes over the stake — the seller's
/// stake is released, the buyer's reserved — and exactly one transfer
/// event is emitted.
pub open spec fn buy_step<R: IdentitySource>(
    pre: Pallet<R>,
    post: Pallet<R>,
    who: u64,
    id: u32,
) -> bool {
    let seller = pre.owner_map()[id];
    let price = pre.listed_price(id)->Some_0;
    &&& pre.has_kitty(id)
    &&& seller != who
    &&& pre.listed_price(id) is Some
    &&& post.next_id() == pre.next_id()
    &&& post.kitty_seq() == pre.kitty_seq()
    &&& post.owner_seq() == pre.owner_seq().update(pre.index_of(id), who)
    &&& post.shop_seq() == pre.shop_seq().update(pre.index_of(id), None::<Option<u128>>)
    &&& post.events_seq() == pre.events_seq().push(Event::KittyTransferred(seller, who, id))
    &&& post.stake() == pre.stake()
    &&& post.ed() == pre.ed()
    &&& post.free_of(who) == pre.free_of(who) - pre.stake() - price
    &&& post.reserved_of(who) == pre.reserved_of(who) + pre.stake()
    &&& post.free_of(seller) == pre.free_of(seller) + pre.stake() + price
    &&& post.reserved_of(seller) == pre.reserved_of(seller) - pre.stake()
    &&& forall|b: u64|
        #![trigger post.free_of(b)]
        b != who && b != seller ==> post.free_of(b) == pre.free_of(b) && post.reserved_of(b)
            == pre.reserved_of(b)
}

/// A successful creation assigns an id that was not on record before and
/// is on record afterwards, and it moves the counter strictly up.
pub proof fn lemma_created_id_fresh<R: IdentitySource>(
    pre: Pallet<R>,
    post: Pallet<R>,
    caller: u64,
    id: u32,
)
    requires
        pre.wf(),
        created_step(pre, post, caller, id),
    ensures
        !pre.kitty_map().dom().contains(id),
        post.kitty_map().dom().contains(id),
        pre.next_id() < post.next_id(),
{
}

/// Uniqueness of creation: two successful creations never hand out the
/// same id. A creation returns the counter's value and leaves the counter
/// strictly above it, and every operation's contract keeps the counter
/// from moving down, so whenever one creation happens no later than
/// another — the counter between them never having gone back — their ids
/// differ.
pub proof fn lemma_creation_ids_unique<R: IdentitySource>(
    pre1: Pallet<R>,
    post1: Pallet<R>,
    caller1: u64,
    id1: u32,
    pre2: Pallet<R>,
    post2: Pallet<R>,
    caller2: u64,
    id2: u32,
)
    requires
        created_step(pre1, post1, caller1, id1),
        created_step(pre2, post2, caller2, id2),
        post1.next_id() <= pre2.next_id(),
    ensures
        id1 != id2,
{
}

/// Ownership totality: in a well-formed registry, the asset map and the
/// ownership map hold exactly the same ids — every asset on record has
/// exactly one owner, and nothing is owned that is not on record.
pub proof fn lemma_ownership_totality<R: IdentitySource>(p: Pallet<R>)
    requires
        p.wf(),
    ensures
        p.kitty_map().dom() == p.owner_map().dom(),
        forall|id: u32| #[trigger] p.kitty_map().dom().contains(id) <==> p.has_kitty(id),
{
    assert(p.kitty_map().dom() =~= p.owner_map().dom());
}

/// In a well-formed registry the three record columns run in step and
/// the counter is at or ahead of the record length, so id and index
/// arithmetic in the operation contracts stays in range.
pub proof fn lemma_columns_aligned<R: IdentitySource>(p: Pallet<R>)
    requires
        p.wf(),
    ensures
        p.owner_seq().len() == p.kitty_seq().len(),
        p.shop_seq().len() == p.kitty_seq().len(),
        p.kitty_seq().len() <= p.next_id(),
{
}

/// Listings never outlive the record: every listed id is an asset on
/// record in the asset map.
pub proof fn lemma_listings_on_record<R: IdentitySource>(p: Pallet<R>)
    requires
        p.wf(),
    ensures
        p.shop_map().dom().subset_of(p.kitty_map().dom()),
{
    assert forall|id: u32| p.shop_map().dom().contains(id) implies p.kitty_map().dom().contains(
        id,
    ) by {}
}

/// Stake conservation: in a well-formed registry, each account's reserved
/// balance is exactly one stake for each asset it currently owns — no
/// reservation is ever duplicated or lost.
pub proof fn lemma_stake_conservation<R: IdentitySource>(p: Pallet<R>, a: u64)
    requires
        p.wf(),
    ensures
        p.reserved_of(a) == p.stake() * p.owned_count(a),
{
}

/// The registry and everything it owns: the three record columns, the id
/// counter, the ledger, the seed source with its per-call counter, and
/// the events emitted so far.
pub struct Pallet<R: IdentitySource> {
    config: Config,
    ledger: Ledger,
    randomness: R,
    nonce: u64,
    kitties: Vec<Kitty>,
    owners: Vec<u64>,
    shop: Vec<Option<Option<u128>>>,
    next_kitty_id: u32,
    events: Vec<Event>,
}

impl<R: IdentitySource> Pallet<R> {
    /// The stake reserved against an owner for each asset it holds.
    pub closed spec fn stake(&self) -> u128 {
        self.config.stake_amount
    }

    /// The id the next successful creation will be assigned.
    pub closed spec fn next_id(&self) -> u32 {
        self.next_kitty_id
    }

    /// The assets in existence, oldest first; the asset at index `i` has
    /// id `first_id() + i`.
    pub closed spec fn kitty_seq(&self) -> Seq<Kitty> {
        self.kitties@
    }

    /// The owner column, indexed like `kitty_seq()`.
    pub closed spec fn owner_seq(&self) -> Seq<u64> {
        self.owners@
    }

    /// The listing column, indexed like `kitty_seq()`: `None` for never
    /// listed, `Some(None)` for not for sale, `Some(Some(p))` for price `p`.
    pub closed spec fn shop_seq(&self) -> Seq<Option<Option<u128>>> {
        self.shop@
    }

    /// The id of the oldest asset on record.
    pub open spec fn first_id(&self) -> int {
        self.next_id() - self.kitty_seq().len()
    }

    /// Whether an asset with this id exists.
    pub open spec fn has_kitty(&self, id: u32) -> bool {
        self.first_id() <= id < self.next_id()
    }

    /// The record index of an existing id.
    pub open spec fn index_of(&self, id: u32) -> int {
        id - self.first_id()
    }

    /// The free balance the ledger holds for `a`.
    pub closed spec fn free_of(&self, a: u64) -> u128 {
        self.ledger.free_of(a)
    }

    /// The reserved balance the ledger holds for `a`.
    pub closed spec fn reserved_of(&self, a: u64) -> u128 {
        self.ledger.reserved_of(a)
    }

    /// The ledger's existential deposit.
    pub closed spec fn ed(&self) -> u128 {
        self.ledger.ed()
    }

    /// The events emitted so far, oldest first.
    pub closed spec fn events_seq(&self) -> Seq<Event> {
        self.events@
    }

    /// The per-call disambiguator the next genome draw will be bound to.
    pub closed spec fn seed_nonce(&self) -> u64 {
        self.nonce
    }

    /// How many assets `a` currently owns.
    pub open spec fn owned_count(&self, a: u64) -> nat {
        count_owned(self.owner_seq(), a)
    }

    /// The asset map: each existing id to its record.
    pub open spec fn kitty_map(&self) -> Map<u32, Kitty> {
        Map::new(|id: u32| self.has_kitty(id), |id: u32| self.kitty_seq()[self.index_of(id)])
    }

    /// The ownership map: each existing id to its one owner.
    pub open spec fn owner_map(&self) -> Map<u32, u64> {
        Map::new(|id: u32| self.has_kitty(id), |id: u32| self.owner_seq()[self.index_of(id)])
    }

    /// The listing map: each listed id to its price or not-for-sale mark.
    pub open spec fn shop_map(&self) -> Map<u32, Option<u128>> {
        Map::new(
            |id: u32| self.has_kitty(id) && self.shop_seq()[self.index_of(id)] is Some,
            |id: u32| self.shop_seq()[self.index_of(id)]->Some_0,
        )
    }

    /// Well-formedness: the three record columns run in step, the counter
    /// is ahead of them, the ledger is sound, and stake conservation
    /// holds — each account's reserved balance is exactly the stake times
    /// the number of assets it owns.
    pub closed spec fn wf(&self) -> bool {
        &&& self.owner_seq().len() == self.kitty_seq().len()
        &&& self.shop_seq().len() == self.kitty_seq().len()
        &&& self.kitty_seq().len() <= self.next_id()
        &&& self.ledger.wf()
        &&& forall|a: u64|
            #![trigger self.reserved_of(a)]
            self.reserved_of(a) == self.stake() * self.owned_count(a)
    }

    /// A fresh registry over a ledger that holds no reservations yet.
    /// Ids start at zero.
    pub fn new(config: Config, ledger: Ledger, randomness: R) -> (r: Pallet<R>)
        requires
            ledger.wf(),
            forall|a: u64| ledger.reserved_of(a) == 0,
        ensures
            r.wf(),
            r.stake() == config.stake_amount,
            r.next_id() == 0,
            r.kitty_seq() == Seq::<Kitty>::empty(),
            r.owner_seq() == Seq::<u64>::empty(),
            r.shop_seq() == Seq::<Option<Option<u128>>>::empty(),
            r.events_seq() == Seq::<Event>::empty(),
            r.ed() == ledger.ed(),
            forall|a: u64| r.free_of(a) == ledger.free_of(a),
            forall|a: u64| r.reserved_of(a) == 0,
    {
        let p = Pallet {
            config,
            ledger,
            randomness,
            nonce: 0,
            kitties: Vec::new(),
            owners: Vec::new(),
            shop: Vec::new(),
            next_kitty_id: 0,
            events: Vec::new(),
        };
        proof {
            assert(p.kitty_seq() =~= Seq::<Kitty>::empty());
            assert(p.owner_seq() =~= Seq::<u64>::empty());
            assert(p.shop_seq() =~= Seq::<Option<Option<u128>>>::empty());
            assert(p.events_seq() =~= Seq::<Event>::empty());
            assert forall|a: u64| #[trigger] p.reserved_of(a) == p.stake() * p.owned_count(a) by {
                assert(count_owned(p.owner_seq(), a) == 0);
            }
        }
        p
    }

    /// The id the next creation will use; reading it moves nothing.
    pub fn next_kitty_id(&self) -> (r: u32)
        ensures
            r == self.next_id(),
    {
        self.next_kitty_id
    }

    /// Start the id counter at `id`. Only an empty registry can be moved:
    /// existing records are tied to their ids.
    pub fn set_next_kitty_id(&mut self, id: u32)
        requires
            old(self).wf(),
            old(self).kitty_seq().len() == 0,
        ensures
            final(self).wf(),
            final(self).next_id() == id,
            final(self).kitty_seq() == old(self).kitty_seq(),
            final(self).owner_seq() == old(self).owner_seq(),
            final(self).shop_seq() == old(self).shop_seq(),
            final(self).events_seq() == old(self).events_seq(),
            final(self).stake() == old(self).stake(),
            final(self).ed() == old(self).ed(),
            forall|a: u64|
                final(self).free_of(a) == old(self).free_of(a) && final(self).reserved_of(a) == old(self).reserved_of(a),
    {
        self.next_kitty_id = id;
        proof {
            assert forall|a: u64| #[trigger] self.reserved_of(a) == self.stake()
                * self.owned_count(a) by {
                assert(old(self).reserved_of(a) == old(self).stake() * old(self).owned_count(a));
            }
        }
    }

    /// The asset with this id, if it exists.
    pub fn kitties(&self, kitty_id: u32) -> (r: Option<Kitty>)
        requires
            self.wf(),
        ensures
            r == if self.has_kitty(kitty_id) {
                Some(self.kitty_seq()[self.index_of(kitty_id)])
            } else {
                None::<Kitty>
            },
    {
        let first = self.next_kitty_id - (self.kitties.len() as u32);
        if kitty_id >= first && kitty_id < self.next_kitty_id {
            Some(self.kitties[(kitty_id - first) as usize])
        } else {
            None
        }
    }

    /// The owner of this id, if the asset exists.
    pub fn kitty_owner(&self, kitty_id: u32) -> (r: Option<u64>)
        requires
            self.wf(),
        ensures
            r == if self.has_kitty(kitty_id) {
                Some(self.owner_seq()[self.index_of(kitty_id)])
            } else {
                None::<u64>
            },
    {
        let first = self.next_kitty_id - (self.kitties.len() as u32);
        if kitty_id >= first && kitty_id < self.next_kitty_id {
            Some(self.owners[(kitty_id - first) as usize])
        } else {
            None
        }
    }

    /// The price this id is offered at: `None` both when it was never
    /// listed and when it is marked not for sale.
    pub fn kitties_list_for_sales(&self, kitty_id: u32) -> (r: Option<u128>)
        requires
            self.wf(),
        ensures
            r == self.listed_price(kitty_id),
    {
        let first = self.next_kitty_id - (self.kitties.len() as u32);
        if kitty_id >= first && kitty_id < self.next_kitty_id {
            match self.shop[(kitty_id - first) as usize] {
                Some(p) => p,
                None => None,
            }
        } else {
            None
        }
    }

    /// The concrete price of a purchasable listing; `None` when the id
    /// does not exist, was never listed, or is marked not for sale.
    pub open spec fn listed_price(&self, id: u32) -> Option<u128> {
        if self.has_kitty(id) {
            match self.shop_seq()[self.index_of(id)] {
                Some(p) => p,
                None => None,
            }
        } else {
            None
        }
    }

    /// The free balance of `a`, as the ledger reports it.
    pub fn free_balance_of(&self, a: u64) -> (r: u128)
        ensures
            r == self.free_of(a),
    {
        self.ledger.free_balance(a)
    }

    /// The reserved balance of `a`, as the ledger reports it.
    pub fn reserved_balance_of(&self, a: u64) -> (r: u128)
        ensures
            r == self.reserved_of(a),
    {
        self.ledger.reserved_balance(a)
    }

    /// The events emitted so far, oldest first.
    pub fn events(&self) -> (r: &Vec<Event>)
        ensures
            r@ == self.events_seq(),
    {
        &self.events
    }

    /// Look an asset up by id, as a `Result`.
    fn get_kitty(&self, kitty_id: u32) -> (r: Result<Kitty, ()>)
        requires
            self.wf(),
        ensures
            r == if self.has_kitty(kitty_id) {
                Result::<Kitty, ()>::Ok(self.kitty_seq()[self.index_of(kitty_id)])
            } else {
                Result::<Kitty, ()>::Err(())
            },
    {
        match self.kitties(kitty_id) {
            Some(kitty) => Ok(kitty),
            None => Err(()),
        }
    }

    /// Draw a fresh genome for `sender`: an unpredictable seed from the
    /// identity source, bound to the caller and the per-call counter,
    /// then digested. The genome is the digest of some seed together with
    /// the caller and the counter, and the counter steps by one; nothing
    /// else moves.
    fn random_value(&mut self, sender: u64) -> (dna: [u8; 16])
        requires
            old(self).wf(),
        ensures
            final(self).wf(),
            core_unchanged(*old(self), *final(self)),
            exists|s: Seq<u8>|
                s.len() == 16 && dna@ == blake2_128_of(
                    seed_payload(s, sender, old(self).seed_nonce()),
                ),
            final(self).seed_nonce() == if old(self).seed_nonce() == u64::MAX {
                0u64
            } else {
                (old(self).seed_nonce() + 1) as u64
            },
    {
        let seed = self.randomness.fresh_seed();
        let dna = derive_genome(&seed, sender, self.nonce);
        self.nonce = self.nonce.wrapping_add(1);
        proof {
            assert(seed@.len() == 16 && dna@ == blake2_128_of(
                seed_payload(seed@, sender, old(self).seed_nonce()),
            ));
            assert forall|a: u64| #[trigger] self.reserved_of(a) == self.stake()
                * self.owned_count(a) by {
                assert(old(self).reserved_of(a) == old(self).stake() * old(self).owned_count(a));
            }
        }
        dna
    }

    /// Reserve one stake against `sender` and append the new asset with
    /// genome `dna`, giving it the counter's id; emit the bred event kind
    /// when `bred` is set, the created kind otherwise. The id is checked
    /// before the stake moves, so a full counter charges nobody.
    fn new_kitty_with_stake(&mut self, sender: u64, dna: [u8; 16], bred: bool) -> (r: Result<
        u32,
        Error,
    >)
        requires
            old(self).wf(),
        ensures
            final(self).wf(),
            r is Ok <==> old(self).next_id() < u32::MAX && old(self).free_of(sender) >= old(self).stake(),
            match r {
                Ok(id) => created_step(*old(self), *final(self), sender, id) && final(self).kitty_seq().last() == Kitty(dna) && final(self).events_seq() == old(self).events_seq().push(
                    if bred {
                        Event::KittyBred(sender, id, Kitty(dna))
                    } else {
                        Event::KittyCreated(sender, id)
                    },
                ),
                Err(e) => {
                    &&& core_unchanged(*old(self), *final(self))
                    &&& (e == Error::KittyIdOverflow <==> old(self).next_id() == u32::MAX)
                    &&& (e == Error::NotEnoughBalance <==> old(self).next_id() < u32::MAX && old(self).free_of(sender) < old(self).stake())
                },
            },
    {
        if self.next_kitty_id == u32::MAX {
            return Err(Error::KittyIdOverflow);
        }
        match self.ledger.reserve(sender, self.config.stake_amount) {
            Err(_) => {
                return Err(Error::NotEnoughBalance);
            },
            Ok(()) => {},
        }
        let kitty_id = self.next_kitty_id;
        self.kitties.push(Kitty(dna));
        self.owners.push(sender);
        self.shop.push(None);
        self.next_kitty_id = kitty_id + 1;
        let event = if bred {
            Event::KittyBred(sender, kitty_id, Kitty(dna))
        } else {
            Event::KittyCreated(sender, kitty_id)
        };
        self.events.push(event);
        proof {
            assert(self.kitty_seq().drop_last() =~= old(self).kitty_seq());
            assert(self.events_seq().drop_last() =~= old(self).events_seq());
            lemma_count_owned_push(old(self).owner_seq(), sender);
            assert forall|a: u64| #[trigger] self.reserved_of(a) == self.stake()
                * self.owned_count(a) by {
                assert(old(self).reserved_of(a) == old(self).stake() * old(self).owned_count(a));
                if a == sender {
                    lemma_mul_succ(self.stake() as int, old(self).owned_count(a) as int);
                }
            }
        }
        Ok(kitty_id)
    }

    /// Create a new asset for `origin` with a freshly drawn genome: the
    /// digest of an unpredictable seed bound to `origin` and the per-call
    /// counter. Succeeds exactly when the id counter is not exhausted and
    /// `origin`'s free balance covers the stake; then the asset gets the
    /// next id, `origin` becomes its owner, one stake is reserved, and
    /// one created event is emitted.
    pub fn create(&mut self, origin: u64) -> (r: Result<u32, Error>)
        requires
            old(self).wf(),
        ensures
            final(self).wf(),
            final(self).next_id() >= old(self).next_id(),
            r is Ok <==> old(self).next_id() < u32::MAX && old(self).free_of(origin) >= old(self).stake(),
            match r {
                Ok(id) => {
                    &&& created_step(*old(self), *final(self), origin, id)
                    &&& final(self).events_seq() == old(self).events_seq().push(
                        Event::KittyCreated(origin, id),
                    )
                    &&& exists|s: Seq<u8>|
                        s.len() == 16 && final(self).kitty_seq().last().0@ == blake2_128_of(
                            seed_payload(s, origin, old(self).seed_nonce()),
                        )
                },
                Err(e) => {
                    &&& core_unchanged(*old(self), *final(self))
                    &&& (e == Error::KittyIdOverflow <==> old(self).next_id() == u32::MAX)
                    &&& (e == Error::NotEnoughBalance <==> old(self).next_id() < u32::MAX && old(self).free_of(origin) < old(self).stake())
                },
            },
    {
        let dna = self.random_value(origin);
        let ghost mid = *self;
        let r = self.new_kitty_with_stake(origin, dna, false);
        proof {
            if r is Ok {
                let s = choose|s: Seq<u8>|
                    s.len() == 16 && dna@ == blake2_128_of(
                        seed_payload(s, origin, old(self).seed_nonce()),
                    );
                assert(self.kitty_seq().last().0@ == dna@);
                assert(s.len() == 16 && self.kitty_seq().last().0@ == blake2_128_of(
                    seed_payload(s, origin, old(self).seed_nonce()),
                ));
                assert forall|b: u64|
                    #![trigger self.free_of(b)]
                    b != origin implies self.free_of(b) == old(self).free_of(b)
                    && self.reserved_of(b) == old(self).reserved_of(b) by {
                    assert(mid.free_of(b) == old(self).free_of(b));
                }
            }
        }
        r
    }

    /// Breed a new asset for `origin` from two existing parents. The
    /// child's genome is the crossover of the parents' genomes under a
    /// freshly drawn selector — itself the digest of a seed bound to
    /// `origin` and the per-call counter — so each genome bit comes from
    /// exactly one parent. Succeeds exactly when the parents are distinct
    /// existing assets, the id counter is not exhausted, and `origin`'s
    /// free balance covers the stake; ownership of the child goes to
    /// `origin` whoever owns the parents, and one bred event is emitted.
    pub fn breed(&mut self, origin: u64, kitty_id_1: u32, kitty_id_2: u32) -> (r: Result<
        u32,
        Error,
    >)
        requires
            old(self).wf(),
        ensures
            final(self).wf(),
            final(self).next_id() >= old(self).next_id(),
            r is Ok <==> kitty_id_1 != kitty_id_2 && old(self).has_kitty(kitty_id_1) && old(self).has_kitty(kitty_id_2) && old(self).next_id() < u32::MAX && old(self).free_of(origin)
                >= old(self).stake(),
            match r {
                Ok(id) => {
                    &&& created_step(*old(self), *final(self), origin, id)
                    &&& final(self).events_seq() == old(self).events_seq().push(
                        Event::KittyBred(origin, id, final(self).kitty_seq().last()),
                    )
                    &&& exists|sel: Seq<u8>|
                        sel.len() == 16 && final(self).kitty_seq().last().0@ == crossed(
                            old(self).kitty_map()[kitty_id_1].0@,
                            old(self).kitty_map()[kitty_id_2].0@,
                            sel,
                        )
                    &&& exists|s: Seq<u8>|
                        s.len() == 16 && final(self).kitty_seq().last().0@ == crossed(
                            old(self).kitty_map()[kitty_id_1].0@,
                            old(self).kitty_map()[kitty_id_2].0@,
                            blake2_128_of(seed_payload(s, origin, old(self).seed_nonce())),
                        )
                },
                Err(e) => {
                    &&& core_unchanged(*old(self), *final(self))
                    &&& (e == Error::SameKittyId <==> kitty_id_1 == kitty_id_2)
                    &&& (e == Error::InvalidKittyId <==> kitty_id_1 != kitty_id_2 && !(old(self).has_kitty(kitty_id_1) && old(self).has_kitty(kitty_id_2)))
                    &&& (e == Error::KittyIdOverflow <==> kitty_id_1 != kitty_id_2 && old(self).has_kitty(kitty_id_1) && old(self).has_kitty(kitty_id_2) && old(self).next_id() == u32::MAX)
                    &&& (e == Error::NotEnoughBalance <==> kitty_id_1 != kitty_id_2 && old(self).has_kitty(kitty_id_1) && old(self).has_kitty(kitty_id_2) && old(self).next_id() < u32::MAX && old(self).free_of(origin) < old(self).stake())
                },
            },
    {
        if kitty_id_1 == kitty_id_2 {
            return Err(Error::SameKittyId);
        }
        let kitty_1 = match self.get_kitty(kitty_id_1) {
            Ok(kitty) => kitty,
            Err(_) => {
                return Err(Error::InvalidKittyId);
            },
        };
        let kitty_2 = match self.get_kitty(kitty_id_2) {
            Ok(kitty) => kitty,
            Err(_) => {
                return Err(Error::InvalidKittyId);
            },
        };
        let selector = self.random_value(origin);
        let new_dna = cross(&kitty_1.0, &kitty_2.0, &selector);
        let r = self.new_kitty_with_stake(origin, new_dna, true);
        proof {
            if r is Ok {
                assert(old(self).kitty_map()[kitty_id_1] == kitty_1);
                assert(old(self).kitty_map()[kitty_id_2] == kitty_2);
                assert(selector@.len() == 16);
                assert(self.kitty_seq().last().0@ == crossed(
                    old(self).kitty_map()[kitty_id_1].0@,
                    old(self).kitty_map()[kitty_id_2].0@,
                    selector@,
                ));
                let s = choose|s: Seq<u8>|
                    s.len() == 16 && selector@ == blake2_128_of(
                        seed_payload(s, origin, old(self).seed_nonce()),
                    );
                assert(s.len() == 16 && self.kitty_seq().last().0@ == crossed(
                    old(self).kitty_map()[kitty_id_1].0@,
                    old(self).kitty_map()[kitty_id_2].0@,
                    blake2_128_of(seed_payload(s, origin, old(self).seed_nonce())),
                ));
            }
        }
        r
    }

    /// Hand asset `kitty_id` over to `new_owner`. Succeeds exactly when
    /// the asset exists, `origin` is its recorded owner, and `new_owner`'s
    /// free balance covers the stake; the stake is reserved against the
    /// destination before the source's is released, so a failed transfer
    /// never leaves the asset understaked.
    pub fn transfer(&mut self, origin: u64, kitty_id: u32, new_owner: u64) -> (r: Result<
        (),
        Error,
    >)
        requires
            old(self).wf(),
        ensures
            final(self).wf(),
            final(self).next_id() == old(self).next_id(),
            r is Ok <==> old(self).has_kitty(kitty_id) && old(self).owner_map()[kitty_id] == origin
                && old(self).free_of(new_owner) >= old(self).stake(),
            match r {
                Ok(_) => transfer_step(*old(self), *final(self), origin, kitty_id, new_owner),
                Err(e) => {
                    &&& core_unchanged(*old(self), *final(self))
                    &&& (e == Error::InvalidKittyId <==> !old(self).has_kitty(kitty_id))
                    &&& (e == Error::NotOwner <==> old(self).has_kitty(kitty_id) && old(
                        self,
                    ).owner_map()[kitty_id] != origin)
                    &&& (e == Error::NotEnoughBalance <==> old(self).has_kitty(kitty_id) && old(
                        self,
                    ).owner_map()[kitty_id] == origin && old(self).free_of(new_owner) < old(
                        self,
                    ).stake())
                },
            },
    {
        match self.get_kitty(kitty_id) {
            Ok(_) => {},
            Err(_) => {
                return Err(Error::InvalidKittyId);
            },
        }
        let owner_ok = match self.kitty_owner(kitty_id) {
            Some(owner) => owner == origin,
            None => false,
        };
        if !owner_ok {
            return Err(Error::NotOwner);
        }
        let stake_amount = self.config.stake_amount;
        match self.ledger.reserve(new_owner, stake_amount) {
            Err(_) => {
                return Err(Error::NotEnoughBalance);
            },
            Ok(()) => {},
        }
        proof {
            lemma_count_owned_member(old(self).owner_seq(), old(self).index_of(kitty_id));
            lemma_mul_at_least_one(
                old(self).stake() as int,
                old(self).owned_count(origin) as int,
            );
            assert(old(self).owner_map()[kitty_id] == old(self).owner_seq()[old(self).index_of(
                kitty_id,
            )]);
            assert(old(self).reserved_of(origin) == old(self).stake() * old(self).owned_count(
                origin,
            ));
            assert(self.reserved_of(origin) >= stake_amount);
        }
        let moved = self.ledger.unreserve(origin, stake_amount);
        proof {
            assert(moved == stake_amount);
        }
        let first = self.next_kitty_id - (self.kitties.len() as u32);
        let idx = (kitty_id - first) as usize;
        self.owners[idx] = new_owner;
        self.events.push(Event::KittyTransferred(origin, new_owner, kitty_id));
        proof {
            assert(idx as int == old(self).index_of(kitty_id));
            lemma_count_owned_update(old(self).owner_seq(), idx as int, new_owner);
            assert forall|a: u64| #[trigger] self.reserved_of(a) == self.stake()
                * self.owned_count(a) by {
                assert(old(self).reserved_of(a) == old(self).stake() * old(self).owned_count(a));
                if a == origin && a != new_owner {
                    lemma_mul_succ(self.stake() as int, old(self).owned_count(a) as int);
                } else if a == new_owner && a != origin {
                    lemma_mul_succ(self.stake() as int, old(self).owned_count(a) as int);
                }
            }
        }
        Ok(())
    }

    /// Offer asset `kitty_id` at `price`, or mark it not for sale with
    /// `None`, overwriting any earlier listing. Succeeds exactly when
    /// `origin` is the recorded owner; an id with no owner — including an
    /// id that does not exist — is refused as not owned.
    pub fn sell(&mut self, origin: u64, kitty_id: u32, price: Option<u128>) -> (r: Result<
        (),
        Error,
    >)
        requires
            old(self).wf(),
        ensures
            final(self).wf(),
            final(self).next_id() == old(self).next_id(),
            r is Ok <==> old(self).has_kitty(kitty_id) && old(self).owner_map()[kitty_id]
                == origin,
            match r {
                Ok(_) => sell_step(*old(self), *final(self), origin, kitty_id, price),
                Err(e) => {
                    &&& core_unchanged(*old(self), *final(self))
                    &&& e == Error::NotOwner
                },
            },
    {
        let owner_ok = match self.kitty_owner(kitty_id) {
            Some(owner) => owner == origin,
            None => false,
        };
        if !owner_ok {
            return Err(Error::NotOwner);
        }
        let first = self.next_kitty_id - (self.kitties.len() as u32);
        let idx = (kitty_id - first) as usize;
        self.shop[idx] = Some(price);
        self.events.push(Event::KittyInSell(origin, kitty_id, price));
        proof {
            assert(idx as int == old(self).index_of(kitty_id));
            assert forall|a: u64| #[trigger] self.reserved_of(a) == self.stake()
                * self.owned_count(a) by {
                assert(old(self).reserved_of(a) == old(self).stake() * old(self).owned_count(a));
            }
        }
        Ok(())
    }

    /// Buy asset `kitty_id` from its recorded owner at the listed price.
    /// Succeeds exactly when the asset exists, the buyer is not its
    /// owner, it is listed at a concrete price, the buyer's free balance
    /// strictly exceeds price plus stake, and the ledger lets the payment
    /// through; then ownership, listing, stake and payment all move
    /// together. If the ledger refuses the payment after the stake has
    /// already moved, the stake moves are rolled back and nothing
    /// observable changes.
    pub fn buy(&mut self, origin: u64, kitty_id: u32) -> (r: Result<(), Error>)
        requires
            old(self).wf(),
        ensures
            final(self).wf(),
            final(self).next_id() == old(self).next_id(),
            r is Ok <==> old(self).has_kitty(kitty_id) && old(self).owner_map()[kitty_id] != origin
                && old(self).listed_price(kitty_id) is Some && old(self).free_of(origin) > old(
                self,
            ).listed_price(kitty_id)->Some_0 + old(self).stake() && buy_payment_ok(
                *old(self),
                origin,
                old(self).owner_map()[kitty_id],
                old(self).listed_price(kitty_id)->Some_0,
            ),
            match r {
                Ok(_) => buy_step(*old(self), *final(self), origin, kitty_id),
                Err(e) => {
                    let has = old(self).has_kitty(kitty_id);
                    let seller = old(self).owner_map()[kitty_id];
                    let listing = old(self).listed_price(kitty_id);
                    &&& core_unchanged(*old(self), *final(self))
                    &&& (e == Error::InvalidKittyId <==> !has)
                    &&& (e == Error::NoBuySelf <==> has && seller == origin)
                    &&& (e == Error::NotForSale <==> has && seller != origin && listing is None)
                    &&& (e == Error::NotEnoughBalance <==> has && seller != origin
                        && listing is Some && old(self).free_of(origin) <= listing->Some_0 + old(
                        self,
                    ).stake())
                    &&& (e == Error::TransferFailed <==> has && seller != origin
                        && listing is Some && old(self).free_of(origin) > listing->Some_0 + old(
                        self,
                    ).stake() && !buy_payment_ok(*old(self), origin, seller, listing->Some_0))
                },
            },
    {
        let seller = match self.kitty_owner(kitty_id) {
            Some(owner) => owner,
            None => {
                return Err(Error::InvalidKittyId);
            },
        };
        if origin == seller {
            return Err(Error::NoBuySelf);
        }
        let price = match self.kitties_list_for_sales(kitty_id) {
            Some(p) => p,
            None => {
                return Err(Error::NotForSale);
            },
        };
        let buyer_balance = self.ledger.free_balance(origin);
        let stake_amount = self.config.stake_amount;
        if price > u128::MAX - stake_amount {
            return Err(Error::NotEnoughBalance);
        }
        if buyer_balance <= price + stake_amount {
            return Err(Error::NotEnoughBalance);
        }
        match self.ledger.reserve(origin, stake_amount) {
            Err(_) => {
                return Err(Error::NotEnoughBalance);
            },
            Ok(()) => {},
        }
        let ghost after_reserve = *self;
        proof {
            lemma_count_owned_member(old(self).owner_seq(), old(self).index_of(kitty_id));
            lemma_mul_at_least_one(
                old(self).stake() as int,
                old(self).owned_count(seller) as int,
            );
            assert(old(self).owner_map()[kitty_id] == old(self).owner_seq()[old(self).index_of(
                kitty_id,
            )]);
            assert(old(self).reserved_of(seller) == old(self).stake() * old(self).owned_count(
                seller,
            ));
            assert(self.reserved_of(seller) >= stake_amount);
        }
        let moved = self.ledger.unreserve(seller, stake_amount);
        proof {
            assert(moved == stake_amount);
        }
        let ghost after_unreserve = *self;
        match self.ledger.transfer(origin, seller, price) {
            Err(_) => {
                proof {
                    assert(self.reserved_of(origin) == old(self).reserved_of(origin)
                        + stake_amount);
                    assert(self.free_of(seller) == old(self).free_of(seller) + stake_amount);
                }
                let back = self.ledger.unreserve(origin, stake_amount);
                proof {
                    assert(back == stake_amount);
                }
                let ghost after_rollback = *self;
                match self.ledger.reserve(seller, stake_amount) {
                    Ok(()) => {},
                    Err(_) => {
                        proof {
                            assert(after_rollback.free_of(seller) >= stake_amount);
                            assert(false);
                        }
                    },
                }
                proof {
                    assert forall|b: u64|
                        #![trigger self.free_of(b)]
                        self.free_of(b) == old(self).free_of(b) && self.reserved_of(b) == old(
                            self,
                        ).reserved_of(b) by {
                        if b != origin && b != seller {
                            assert(after_reserve.free_of(b) == old(self).free_of(b));
                            assert(after_unreserve.free_of(b) == after_reserve.free_of(b));
                            assert(after_rollback.free_of(b) == after_unreserve.free_of(b));
                            assert(self.free_of(b) == after_rollback.free_of(b));
                            assert(after_reserve.reserved_of(b) == old(self).reserved_of(b));
                            assert(after_unreserve.reserved_of(b) == after_reserve.reserved_of(b));
                            assert(after_rollback.reserved_of(b) == after_unreserve.reserved_of(
                                b,
                            ));
                            assert(self.reserved_of(b) == after_rollback.reserved_of(b));
                        } else if b == origin {
                            assert(after_unreserve.free_of(b) == old(self).free_of(b)
                                - stake_amount);
                            assert(after_rollback.free_of(b) == old(self).free_of(b));
                            assert(self.free_of(b) == after_rollback.free_of(b));
                            assert(after_rollback.reserved_of(b) == old(self).reserved_of(b));
                            assert(self.reserved_of(b) == after_rollback.reserved_of(b));
                        } else {
                            assert(after_rollback.free_of(b) == old(self).free_of(b)
                                + stake_amount);
                            assert(self.free_of(b) == after_rollback.free_of(b) - stake_amount);
                            assert(after_rollback.reserved_of(b) == old(self).reserved_of(b)
                                - stake_amount);
                            assert(self.reserved_of(b) == after_rollback.reserved_of(b)
                                + stake_amount);
                        }
                    }
                    assert forall|a: u64| #[trigger] self.reserved_of(a) == self.stake()
                        * self.owned_count(a) by {
                        assert(old(self).reserved_of(a) == old(self).stake() * old(
                            self,
                        ).owned_count(a));
                        assert(self.reserved_of(a) == old(self).reserved_of(a));
                    }
                }
                return Err(Error::TransferFailed);
            },
            Ok(()) => {},
        }
        let first = self.next_kitty_id - (self.kitties.len() as u32);
        let idx = (kitty_id - first) as usize;
        self.shop[idx] = None;
        self.owners[idx] = origin;
        self.events.push(Event::KittyTransferred(seller, origin, kitty_id));
        proof {
            assert(idx as int == old(self).index_of(kitty_id));
            lemma_count_owned_update(old(self).owner_seq(), idx as int, origin);
            assert forall|b: u64|
                #![trigger self.free_of(b)]
                b != origin && b != seller ==> self.free_of(b) == old(self).free_of(b)
                    && self.reserved_of(b) == old(self).reserved_of(b) by {
                if b != origin && b != seller {
                    assert(after_reserve.free_of(b) == old(self).free_of(b));
                    assert(after_unreserve.free_of(b) == after_reserve.free_of(b));
                }
            }
            assert forall|a: u64| #[trigger] self.reserved_of(a) == self.stake()
                * self.owned_count(a) by {
                assert(old(self).reserved_of(a) == old(self).stake() * old(self).owned_count(a));
                if a == origin {
                    lemma_mul_succ(self.stake() as int, old(self).owned_count(a) as int);
                } else if a == seller {
                    lemma_mul_succ(self.stake() as int, old(self).owned_count(a) as int);
                } else {
                    assert(after_reserve.reserved_of(a) == old(self).reserved_of(a));
                    assert(after_unreserve.reserved_of(a) == after_reserve.reserved_of(a));
                    assert(self.reserved_of(a) == after_unreserve.reserved_of(a));
                }
            }
        }
        Ok(())
    }
}

} // verus!
