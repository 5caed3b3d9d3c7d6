//! The engine's laws: what genesis guarantees, how each operation preserves
//! the state invariant, what a transfer conserves, and why a retired
//! identifier never comes back. The exec operations call these lemmas to
//! discharge their own contracts; they are public because they are part of
//! what the library states.

use vstd::prelude::*;

use crate::addr::{bytes_lt, lemma_bytes_lt_transitive, lemma_bytes_lt_trichotomy};
use crate::contract::{
    StateView, id_live, insert_pos, register_outcome, spec_buy, spec_register, spec_retire,
    spec_transfer,
};
use crate::errors::MyCustomError;
use crate::msg::HandleResponse;
use crate::state::{
    BonsaiView, CoinView, GardenerView, bonsai_index, distinct_ids, gardener_index,
    gardeners_sorted, has_bonsai, has_gardener, lemma_distinct_push, lemma_gardener_index_unique,
    lemma_has_bonsai_push, lemma_has_bonsai_remove, lemma_remove_bonsai_id_gone, spec_grow,
};

verus! {

// ---------------------------------------------------------------------------
// Genesis
// ---------------------------------------------------------------------------

/// Genesis grows exactly `number` bonsais, with pairwise distinct
/// identifiers, all stamped with the given birth height and price; the
/// resulting state, with no gardeners, is well formed.
pub proof fn lemma_genesis_wf(number: u64, birth_date: u64, price: CoinView)
    ensures
        spec_grow(number, birth_date, price).len() == number,
        distinct_ids(spec_grow(number, birth_date, price)),
        forall|i: int| 0 <= i < number ==> (#[trigger] spec_grow(number, birth_date, price)[i])
            == (BonsaiView { id: i as u64, birth_date, price }),
        (StateView { bonsais: spec_grow(number, birth_date, price), gardeners: Seq::empty() }).wf(),
{
    let pool = spec_grow(number, birth_date, price);
    assert forall|i: int, j: int| 0 <= i < j < pool.len() implies pool[i].id != pool[j].id by {
        assert(pool[i].id == i as u64);
        assert(pool[j].id == j as u64);
    }
}

// ---------------------------------------------------------------------------
// The sorted position of a new profile
// ---------------------------------------------------------------------------

/// `insert_pos` is within bounds, every profile before it precedes `addr`,
/// and the profile at it (if any) does not.
pub proof fn lemma_insert_pos_bounds(gs: Seq<GardenerView>, addr: Seq<u8>)
    ensures
        0 <= insert_pos(gs, addr) <= gs.len(),
        forall|j: int| 0 <= j < insert_pos(gs, addr) ==> bytes_lt(#[trigger] gs[j].address, addr),
        insert_pos(gs, addr) < gs.len() ==> !bytes_lt(gs[insert_pos(gs, addr)].address, addr),
    decreases gs.len(),
{
    if gs.len() == 0 {
    } else if bytes_lt(gs[0].address, addr) {
        lemma_insert_pos_bounds(gs.drop_first(), addr);
        assert forall|j: int| 0 <= j < insert_pos(gs, addr) implies
            bytes_lt(#[trigger] gs[j].address, addr) by {
            if j >= 1 {
                assert(gs.drop_first()[j - 1] == gs[j]);
            }
        }
        if insert_pos(gs, addr) < gs.len() {
            assert(gs.drop_first()[insert_pos(gs.drop_first(), addr)] == gs[insert_pos(gs, addr)]);
        }
    }
}

/// A position below which every address precedes `addr`, and at which (if
/// inside the ledger) the address does not, is `insert_pos`.
pub proof fn lemma_insert_pos_is(gs: Seq<GardenerView>, addr: Seq<u8>, i: int)
    requires
        0 <= i <= gs.len(),
        forall|j: int| 0 <= j < i ==> bytes_lt(#[trigger] gs[j].address, addr),
        i < gs.len() ==> !bytes_lt(gs[i].address, addr),
    ensures
        insert_pos(gs, addr) == i,
    decreases gs.len(),
{
    if gs.len() == 0 {
    } else if i == 0 {
    } else {
        assert(bytes_lt(gs[0].address, addr));
        let tail = gs.drop_first();
        assert forall|j: int| 0 <= j < i - 1 implies
            bytes_lt(#[trigger] tail[j].address, addr) by {
            assert(tail[j] == gs[j + 1]);
        }
        if i - 1 < tail.len() {
            assert(tail[i - 1] == gs[i]);
        }
        lemma_insert_pos_is(tail, addr, i - 1);
    }
}

/// If every profile before `pos` precedes `addr`, and the one at `pos` (if
/// any) neither precedes nor equals it, then no profile is keyed by `addr`.
pub proof fn lemma_no_gardener_at_pos(gs: Seq<GardenerView>, addr: Seq<u8>, pos: int)
    requires
        gardeners_sorted(gs),
        0 <= pos <= gs.len(),
        forall|j: int| 0 <= j < pos ==> bytes_lt(#[trigger] gs[j].address, addr),
        pos < gs.len() ==> !bytes_lt(gs[pos].address, addr) && gs[pos].address != addr,
    ensures
        !has_gardener(gs, addr),
{
    assert forall|k: int| 0 <= k < gs.len() implies gs[k].address != addr by {
        if k < pos {
            lemma_bytes_lt_trichotomy(gs[k].address, addr);
        } else if k > pos {
            if gs[k].address == addr {
                assert(bytes_lt(gs[pos].address, gs[k].address));
            }
        }
    }
}

// ---------------------------------------------------------------------------
// Invariant preservation (uniqueness and exclusive ownership)
// ---------------------------------------------------------------------------

/// Registering a fresh identity preserves the state invariant, and the new
/// ledger does contain the identity — so a second registration of the same
/// identity is exactly the case the engine rejects.
pub proof fn lemma_register_wf(s: StateView, sender: Seq<u8>, name: Seq<char>)
    requires
        s.wf(),
        !has_gardener(s.gardeners, sender),
    ensures
        spec_register(s, sender, name).wf(),
        has_gardener(spec_register(s, sender, name).gardeners, sender),
{
    let gs = s.gardeners;
    let pos = insert_pos(gs, sender);
    let g = GardenerView { name, address: sender, bonsais: Seq::<BonsaiView>::empty() };
    let gs1 = gs.insert(pos, g);
    lemma_insert_pos_bounds(gs, sender);

    // The new profile's address strictly follows everything before it and
    // strictly precedes everything after it.
    if pos < gs.len() {
        assert(gs[pos].address != sender);
        lemma_bytes_lt_trichotomy(gs[pos].address, sender);
        assert(bytes_lt(sender, gs[pos].address));
    }
    assert forall|j: int| pos <= j < gs.len() implies bytes_lt(sender, #[trigger] gs[j].address) by {
        if j > pos {
            assert(bytes_lt(gs[pos].address, gs[j].address));
            lemma_bytes_lt_transitive(sender, gs[pos].address, gs[j].address);
        }
    }

    // Index bookkeeping for the inserted ledger.
    assert(gs1.len() == gs.len() + 1);
    assert(gs1[pos] == g);
    assert forall|j: int| 0 <= j < gs1.len() && j != pos implies
        #[trigger] gs1[j] == (if j < pos { gs[j] } else { gs[j - 1] }) by {}

    assert forall|i: int, j: int| 0 <= i < j < gs1.len() implies
        bytes_lt(gs1[i].address, gs1[j].address) by {
        if i == pos {
            assert(gs1[j] == gs[j - 1]);
        } else if j == pos {
            assert(gs1[i] == gs[i]);
        } else {
            let i0 = if i < pos { i } else { i - 1 };
            let j0 = if j < pos { j } else { j - 1 };
            assert(gs1[i] == gs[i0]);
            assert(gs1[j] == gs[j0]);
        }
    }

    assert(gardeners_sorted(gs1));
    assert(has_gardener(gs1, sender)) by {
        assert(gs1[pos].address == sender);
    }

    // The remaining invariant clauses: the new profile owns nothing, and
    // every old profile keeps exactly its old bonsais.
    let s1 = spec_register(s, sender, name);
    assert forall|k: int| 0 <= k < gs1.len() implies distinct_ids(#[trigger] gs1[k].bonsais) by {
        if k != pos {
            let k0 = if k < pos { k } else { k - 1 };
            assert(gs1[k] == gs[k0]);
        }
    }
    assert forall|k: int, id: u64|
        0 <= k < gs1.len() && #[trigger] has_bonsai(gs1[k].bonsais, id) implies
        !has_bonsai(s1.bonsais, id) by {
        if k != pos {
            let k0 = if k < pos { k } else { k - 1 };
            assert(gs1[k] == gs[k0]);
        }
    }
    assert forall|k1: int, k2: int, id: u64|
        #![trigger has_bonsai(gs1[k1].bonsais, id), has_bonsai(gs1[k2].bonsais, id)]
        0 <= k1 < gs1.len() && 0 <= k2 < gs1.len() && k1 != k2
            && has_bonsai(gs1[k1].bonsais, id) implies !has_bonsai(gs1[k2].bonsais, id) by {
        if k1 != pos && k2 != pos {
            let k10 = if k1 < pos { k1 } else { k1 - 1 };
            let k20 = if k2 < pos { k2 } else { k2 - 1 };
            assert(gs1[k1] == gs[k10]);
            assert(gs1[k2] == gs[k20]);
        }
    }
}

/// Acquisition preserves the state invariant: the bonsai's identifier moves
/// from the pool into exactly one profile.
pub proof fn lemma_buy_wf(s: StateView, sender: Seq<u8>, id: u64)
    requires
        s.wf(),
        has_bonsai(s.bonsais, id),
        has_gardener(s.gardeners, sender),
    ensures
        spec_buy(s, sender, id).wf(),
{
    let bi = bonsai_index(s.bonsais, id);
    let b = s.bonsais[bi];
    let gi = gardener_index(s.gardeners, sender);
    let g = s.gardeners[gi];
    let g1 = GardenerView { bonsais: g.bonsais.push(b), ..g };
    let s1 = spec_buy(s, sender, id);
    assert(0 <= bi < s.bonsais.len() && s.bonsais[bi].id == id);
    assert(0 <= gi < s.gardeners.len() && s.gardeners[gi].address == sender);

    // The pool after removal: distinct, and `id` is gone.
    lemma_remove_bonsai_id_gone(s.bonsais, id, bi);

    // No profile owned `id` while it was in the pool.
    assert forall|k: int| 0 <= k < s.gardeners.len() implies
        !has_bonsai(#[trigger] s.gardeners[k].bonsais, id) by {
        if has_bonsai(s.gardeners[k].bonsais, id) {
            assert(!has_bonsai(s.bonsais, id));
        }
    }

    // The buyer's new list: distinct, owning the old identifiers plus `id`.
    lemma_distinct_push(g.bonsais, b);
    assert(s1.gardeners[gi] == g1);
    assert forall|j: int| 0 <= j < s1.gardeners.len() && j != gi implies
        #[trigger] s1.gardeners[j] == s.gardeners[j] by {}

    // Per-profile distinctness.
    assert forall|k: int| 0 <= k < s1.gardeners.len() implies
        distinct_ids(#[trigger] s1.gardeners[k].bonsais) by {}

    // Pool/profile exclusivity.
    assert forall|k: int, x: u64|
        0 <= k < s1.gardeners.len() && #[trigger] has_bonsai(s1.gardeners[k].bonsais, x) implies
        !has_bonsai(s1.bonsais, x) by {
        if k == gi {
            lemma_has_bonsai_push(g.bonsais, b, x);
            if has_bonsai(g.bonsais, x) {
                assert(!has_bonsai(s.bonsais, x));
            }
        } else {
            assert(!has_bonsai(s.bonsais, x));
        }
    }

    // Cross-profile exclusivity.
    assert forall|k1: int, k2: int, x: u64|
        #![trigger has_bonsai(s1.gardeners[k1].bonsais, x), has_bonsai(s1.gardeners[k2].bonsais, x)]
        0 <= k1 < s1.gardeners.len() && 0 <= k2 < s1.gardeners.len() && k1 != k2
            && has_bonsai(s1.gardeners[k1].bonsais, x) implies
        !has_bonsai(s1.gardeners[k2].bonsais, x) by {
        if k1 == gi {
            lemma_has_bonsai_push(g.bonsais, b, x);
            if has_bonsai(s1.gardeners[k2].bonsais, x) {
                if has_bonsai(g.bonsais, x) {
                    assert(has_bonsai(s.gardeners[k1].bonsais, x));
                } else {
                    assert(x == id);
                    assert(!has_bonsai(s.bonsais, id));
                }
            }
        } else if k2 == gi {
            lemma_has_bonsai_push(g.bonsais, b, x);
            if has_bonsai(g.bonsais, x) {
                assert(has_bonsai(s.gardeners[k2].bonsais, x));
            } else if has_bonsai(s1.gardeners[k2].bonsais, x) {
                assert(x == id);
                assert(!has_bonsai(s.bonsais, id));
            }
        }
    }
}

/// Transfer preserves the state invariant: the bonsai's identifier moves
/// from the seller's profile to the recipient's and sits nowhere else. When
/// seller and recipient are the same profile, the bonsai simply stays with
/// it.
pub proof fn lemma_transfer_wf(s: StateView, sender: Seq<u8>, recipient: Seq<u8>, id: u64)
    requires
        s.wf(),
        has_gardener(s.gardeners, sender),
        has_bonsai(s.gardeners[gardener_index(s.gardeners, sender)].bonsais, id),
        has_gardener(s.gardeners, recipient),
    ensures
        spec_transfer(s, sender, recipient, id).wf(),
        gardener_index(
            spec_transfer(s, sender, recipient, id).gardeners,
            recipient,
        ) == gardener_index(s.gardeners, recipient),
{
    let gs = s.gardeners;
    let si = gardener_index(gs, sender);
    let sg = gs[si];
    let bi = bonsai_index(sg.bonsais, id);
    let b = sg.bonsais[bi];
    assert(0 <= si < gs.len() && gs[si].address == sender);
    assert(0 <= bi < sg.bonsais.len() && sg.bonsais[bi].id == id);
    lemma_remove_bonsai_id_gone(sg.bonsais, id, bi);

    let removed = gs.update(si, GardenerView { bonsais: sg.bonsais.remove(bi), ..sg });
    // Addresses are untouched, so sortedness and profile lookups carry over.
    assert forall|k: int| 0 <= k < removed.len() implies
        (#[trigger] removed[k]).address == gs[k].address by {}
    assert(gardeners_sorted(removed));
    let ri0 = gardener_index(gs, recipient);
    assert(0 <= ri0 < gs.len() && gs[ri0].address == recipient);
    lemma_gardener_index_unique(removed, recipient, ri0);
    let ri = gardener_index(removed, recipient);
    assert(ri == ri0);
    let rg = removed[ri];
    let s1 = spec_transfer(s, sender, recipient, id);
    let final_gs = removed.update(ri, GardenerView { bonsais: rg.bonsais.push(b), ..rg });
    assert(s1.gardeners == final_gs);
    assert(s1.bonsais == s.bonsais);

    // What each profile owns afterwards, in terms of what it owned before.
    assert(b.id == id);
    assert forall|k: int| 0 <= k < final_gs.len() implies
        (#[trigger] final_gs[k]).address == gs[k].address by {}
    assert(gardeners_sorted(final_gs));
    lemma_gardener_index_unique(final_gs, recipient, ri);

    // The recipient does not own `id` before the push lands.
    if ri == si {
        assert(rg.bonsais == sg.bonsais.remove(bi));
        assert(!has_bonsai(rg.bonsais, id));
    } else {
        assert(rg == gs[ri]);
        assert(!has_bonsai(gs[ri].bonsais, id)) by {
            assert(has_bonsai(gs[si].bonsais, id));
        }
    }
    lemma_distinct_push(rg.bonsais, b);

    // Per-profile distinctness.
    assert forall|k: int| 0 <= k < final_gs.len() implies
        distinct_ids(#[trigger] final_gs[k].bonsais) by {
        if k == ri {
        } else if k == si {
            assert(final_gs[k].bonsais == sg.bonsais.remove(bi));
        } else {
            assert(final_gs[k] == gs[k]);
        }
    }

    // Whatever a profile owns afterwards, it owned before, except the
    // recipient's new `id`, which the seller owned before.
    assert forall|k: int, x: u64|
        0 <= k < final_gs.len() && #[trigger] has_bonsai(final_gs[k].bonsais, x) implies
        has_bonsai(gs[k].bonsais, x) || (k == ri && x == id) by {
        if k == ri {
            lemma_has_bonsai_push(rg.bonsais, b, x);
            if has_bonsai(rg.bonsais, x) {
                if ri == si {
                    assert(has_bonsai(sg.bonsais, x));
                } else {
                    assert(rg == gs[ri]);
                }
            }
        } else if k == si {
            assert(final_gs[k].bonsais == sg.bonsais.remove(bi));
            assert(has_bonsai(sg.bonsais, x));
        } else {
            assert(final_gs[k] == gs[k]);
        }
    }

    // Pool/profile exclusivity: every identifier owned afterwards was owned
    // by someone before, so it is still not in the pool.
    assert forall|k: int, x: u64|
        0 <= k < final_gs.len() && #[trigger] has_bonsai(final_gs[k].bonsais, x) implies
        !has_bonsai(s1.bonsais, x) by {
        if has_bonsai(gs[k].bonsais, x) {
        } else {
            assert(k == ri && x == id);
            assert(has_bonsai(gs[si].bonsais, id));
        }
    }

    // Cross-profile exclusivity.
    assert forall|k1: int, k2: int, x: u64|
        #![trigger has_bonsai(final_gs[k1].bonsais, x), has_bonsai(final_gs[k2].bonsais, x)]
        0 <= k1 < final_gs.len() && 0 <= k2 < final_gs.len() && k1 != k2
            && has_bonsai(final_gs[k1].bonsais, x) implies
        !has_bonsai(final_gs[k2].bonsais, x) by {
        if has_bonsai(final_gs[k2].bonsais, x) {
            // Trace both sightings back to the old ledger.
            if k1 == ri && x == id && !has_bonsai(gs[k1].bonsais, x) {
                // k2 must also account for x == id.
                if k2 == si {
                    assert(final_gs[k2].bonsais == sg.bonsais.remove(bi));
                    assert(!has_bonsai(sg.bonsais.remove(bi), id));
                } else {
                    assert(has_bonsai(gs[k2].bonsais, id));
                    assert(has_bonsai(gs[si].bonsais, id));
                }
            } else if k2 == ri && x == id && !has_bonsai(gs[k2].bonsais, x) {
                if k1 == si {
                    assert(final_gs[k1].bonsais == sg.bonsais.remove(bi));
                    assert(!has_bonsai(sg.bonsais.remove(bi), id));
                } else {
                    assert(has_bonsai(gs[k1].bonsais, id));
                    assert(has_bonsai(gs[si].bonsais, id));
                }
            } else {
                assert(has_bonsai(gs[k1].bonsais, x));
                assert(has_bonsai(gs[k2].bonsais, x));
            }
        }
    }
}

/// Retirement preserves the state invariant: it only ever removes an
/// identifier from one profile.
pub proof fn lemma_retire_wf(s: StateView, sender: Seq<u8>, id: u64)
    requires
        s.wf(),
    ensures
        spec_retire(s, sender, id).wf(),
{
    let s1 = spec_retire(s, sender, id);
    if has_gardener(s.gardeners, sender) {
        let gi = gardener_index(s.gardeners, sender);
        let g = s.gardeners[gi];
        if has_bonsai(g.bonsais, id) {
            let bi = bonsai_index(g.bonsais, id);
            assert(0 <= gi < s.gardeners.len());
            assert(0 <= bi < g.bonsais.len() && g.bonsais[bi].id == id);
            lemma_remove_bonsai_id_gone(g.bonsais, id, bi);
            let gs1 = s1.gardeners;
            assert forall|k: int| 0 <= k < gs1.len() implies
                (#[trigger] gs1[k]).address == s.gardeners[k].address by {}
            assert(gardeners_sorted(gs1));
            assert forall|k: int| 0 <= k < gs1.len() implies
                distinct_ids(#[trigger] gs1[k].bonsais) by {
                if k != gi {
                    assert(gs1[k] == s.gardeners[k]);
                }
            }
            // Ownership afterwards is a subset of ownership before.
            assert forall|k: int, x: u64|
                0 <= k < gs1.len() && #[trigger] has_bonsai(gs1[k].bonsais, x) implies
                has_bonsai(s.gardeners[k].bonsais, x) by {
                if k != gi {
                    assert(gs1[k] == s.gardeners[k]);
                }
            }
            assert forall|k: int, x: u64|
                0 <= k < gs1.len() && #[trigger] has_bonsai(gs1[k].bonsais, x) implies
                !has_bonsai(s1.bonsais, x) by {
                assert(has_bonsai(s.gardeners[k].bonsais, x));
            }
            assert forall|k1: int, k2: int, x: u64|
                #![trigger has_bonsai(gs1[k1].bonsais, x), has_bonsai(gs1[k2].bonsais, x)]
                0 <= k1 < gs1.len() && 0 <= k2 < gs1.len() && k1 != k2
                    && has_bonsai(gs1[k1].bonsais, x) implies
                !has_bonsai(gs1[k2].bonsais, x) by {
                if has_bonsai(gs1[k2].bonsais, x) {
                    assert(has_bonsai(s.gardeners[k1].bonsais, x));
                    assert(has_bonsai(s.gardeners[k2].bonsais, x));
                }
            }
        }
    }
}

// ---------------------------------------------------------------------------
// Registration is one-shot
// ---------------------------------------------------------------------------

/// Registering the same identity twice always fails the second time with
/// `AlreadyRegistered`, and the failed attempt changes nothing — the
/// profile's name and owned list included.
pub proof fn lemma_register_twice_fails(
    s0: StateView,
    s1: StateView,
    s2: StateView,
    sender: Seq<u8>,
    name1: Seq<char>,
    name2: Seq<char>,
    r1: Result<HandleResponse, MyCustomError>,
    r2: Result<HandleResponse, MyCustomError>,
)
    requires
        s0.wf(),
        !has_gardener(s0.gardeners, sender),
        register_outcome(s0, s1, sender, name1, r1),
        register_outcome(s1, s2, sender, name2, r2),
    ensures
        r1 is Ok,
        r2 matches Err(e) && e == MyCustomError::AlreadyRegistered,
        s2 == s1,
{
    lemma_register_wf(s0, sender, name1);
}

// ---------------------------------------------------------------------------
// Transfer conserves items
// ---------------------------------------------------------------------------

/// How many bonsais all profiles own together.
pub open spec fn owned_total(gs: Seq<GardenerView>) -> nat
    decreases gs.len(),
{
    if gs.len() == 0 {
        0
    } else {
        gs[0].bonsais.len() + owned_total(gs.drop_first())
    }
}

/// How many bonsais exist at all: the pool plus every profile.
pub open spec fn total_items(s: StateView) -> nat {
    s.bonsais.len() + owned_total(s.gardeners)
}

/// Replacing one profile changes the owned total by exactly the difference
/// in that profile's list length.
pub proof fn lemma_owned_total_update(gs: Seq<GardenerView>, i: int, g: GardenerView)
    requires
        0 <= i < gs.len(),
    ensures
        owned_total(gs.update(i, g)) + gs[i].bonsais.len()
            == owned_total(gs) + g.bonsais.len(),
    decreases gs.len(),
{
    let gs1 = gs.update(i, g);
    if i == 0 {
        assert(gs1.drop_first() =~= gs.drop_first());
        assert(gs1[0] == g);
    } else {
        assert(gs1.drop_first() =~= gs.drop_first().update(i - 1, g));
        assert(gs1[0] == gs[0]);
        assert(gs.drop_first()[i - 1] == gs[i]);
        lemma_owned_total_update(gs.drop_first(), i - 1, g);
    }
}

/// A successful transfer moves the bonsai: afterwards it is absent from the
/// seller's profile and present in the recipient's, and the total number of
/// items across the pool and all profiles is unchanged.
pub proof fn lemma_transfer_conservation(s: StateView, sender: Seq<u8>, recipient: Seq<u8>, id: u64)
    requires
        s.wf(),
        has_gardener(s.gardeners, sender),
        has_bonsai(s.gardeners[gardener_index(s.gardeners, sender)].bonsais, id),
        has_gardener(s.gardeners, recipient),
        sender != recipient,
    ensures
        ({
            let s1 = spec_transfer(s, sender, recipient, id);
            &&& !has_bonsai(s1.gardeners[gardener_index(s1.gardeners, sender)].bonsais, id)
            &&& has_bonsai(s1.gardeners[gardener_index(s1.gardeners, recipient)].bonsais, id)
            &&& total_items(s1) == total_items(s)
        }),
{
    let gs = s.gardeners;
    let si = gardener_index(gs, sender);
    let sg = gs[si];
    let bi = bonsai_index(sg.bonsais, id);
    let b = sg.bonsais[bi];
    assert(0 <= si < gs.len() && gs[si].address == sender);
    assert(0 <= bi < sg.bonsais.len() && sg.bonsais[bi].id == id);
    lemma_remove_bonsai_id_gone(sg.bonsais, id, bi);

    let sg1 = GardenerView { bonsais: sg.bonsais.remove(bi), ..sg };
    let removed = gs.update(si, sg1);
    let ri0 = gardener_index(gs, recipient);
    assert(0 <= ri0 < gs.len() && gs[ri0].address == recipient);
    // Distinct identities sit at distinct indices.
    assert(si != ri0);
    assert forall|k: int| 0 <= k < removed.len() implies
        (#[trigger] removed[k]).address == gs[k].address by {}
    assert(gardeners_sorted(removed));
    lemma_gardener_index_unique(removed, recipient, ri0);
    let ri = gardener_index(removed, recipient);
    assert(ri == ri0);
    let rg = removed[ri];
    assert(rg == gs[ri0]);
    let rg1 = GardenerView { bonsais: rg.bonsais.push(b), ..rg };
    let final_gs = removed.update(ri, rg1);
    let s1 = spec_transfer(s, sender, recipient, id);
    assert(s1.gardeners == final_gs);

    // Lookups in the new ledger land on the same indices.
    assert forall|k: int| 0 <= k < final_gs.len() implies
        (#[trigger] final_gs[k]).address == gs[k].address by {}
    assert(gardeners_sorted(final_gs));
    lemma_gardener_index_unique(final_gs, sender, si);
    lemma_gardener_index_unique(final_gs, recipient, ri);

    // The bonsai moved.
    assert(final_gs[si] == sg1);
    assert(!has_bonsai(sg1.bonsais, id));
    assert(final_gs[ri] == rg1);
    lemma_has_bonsai_push(rg.bonsais, b, id);
    assert(has_bonsai(rg1.bonsais, id));

    // Counting: one item left the seller, one joined the recipient.
    lemma_owned_total_update(gs, si, sg1);
    lemma_owned_total_update(removed, ri, rg1);
    assert(sg1.bonsais.len() + 1 == sg.bonsais.len());
    assert(rg1.bonsais.len() == rg.bonsais.len() + 1);
    assert(removed[ri].bonsais.len() == rg.bonsais.len());
    assert(owned_total(final_gs) == owned_total(gs));
    assert(s1.bonsais == s.bonsais);
}

// ---------------------------------------------------------------------------
// Retirement is final
// ---------------------------------------------------------------------------

/// After a successful retirement the identifier is gone from the pool and
/// from every profile.
pub proof fn lemma_retire_finality(s: StateView, sender: Seq<u8>, id: u64)
    requires
        s.wf(),
        has_gardener(s.gardeners, sender),
        has_bonsai(s.gardeners[gardener_index(s.gardeners, sender)].bonsais, id),
    ensures
        !id_live(spec_retire(s, sender, id), id),
{
    let gs = s.gardeners;
    let gi = gardener_index(gs, sender);
    let g = gs[gi];
    let bi = bonsai_index(g.bonsais, id);
    assert(0 <= gi < gs.len() && gs[gi].address == sender);
    assert(0 <= bi < g.bonsais.len() && g.bonsais[bi].id == id);
    lemma_remove_bonsai_id_gone(g.bonsais, id, bi);
    let s1 = spec_retire(s, sender, id);
    // Not in the pool: the owner's profile held it, so the pool did not,
    // and the pool is untouched.
    assert(!has_bonsai(s.bonsais, id));
    // Not in any profile: the owner's list just lost it, and exclusive
    // ownership says nobody else ever had it.
    assert forall|k: int| 0 <= k < s1.gardeners.len() implies
        !has_bonsai(#[trigger] s1.gardeners[k].bonsais, id) by {
        if k == gi {
            assert(s1.gardeners[k].bonsais == g.bonsais.remove(bi));
        } else {
            assert(s1.gardeners[k] == gs[k]);
            assert(has_bonsai(gs[gi].bonsais, id));
        }
    }
}

/// Registration cannot reintroduce a dead identifier: the new profile owns
/// nothing and everything else is untouched.
pub proof fn lemma_register_keeps_dead(s: StateView, sender: Seq<u8>, name: Seq<char>, x: u64)
    requires
        !id_live(s, x),
    ensures
        !id_live(spec_register(s, sender, name), x),
{
    let gs = s.gardeners;
    let pos = insert_pos(gs, sender);
    lemma_insert_pos_bounds(gs, sender);
    let g = GardenerView { name, address: sender, bonsais: Seq::<BonsaiView>::empty() };
    let gs1 = spec_register(s, sender, name).gardeners;
    assert(gs1 == gs.insert(pos, g));
    assert forall|k: int| 0 <= k < gs1.len() implies
        !has_bonsai(#[trigger] gs1[k].bonsais, x) by {
        if k == pos {
            assert(!has_bonsai(g.bonsais, x));
        } else {
            let k0 = if k < pos { k } else { k - 1 };
            assert(gs1[k] == gs[k0]);
            assert(!has_bonsai(gs[k0].bonsais, x));
        }
    }
}

/// Acquisition cannot reintroduce a dead identifier: it only moves a live
/// one out of the pool.
pub proof fn lemma_buy_keeps_dead(s: StateView, sender: Seq<u8>, id: u64, x: u64)
    requires
        has_bonsai(s.bonsais, id),
        has_gardener(s.gardeners, sender),
        !id_live(s, x),
    ensures
        !id_live(spec_buy(s, sender, id), x),
{
    let bi = bonsai_index(s.bonsais, id);
    let b = s.bonsais[bi];
    assert(0 <= bi < s.bonsais.len() && b.id == id);
    assert(x != id);
    let gi = gardener_index(s.gardeners, sender);
    let g = s.gardeners[gi];
    assert(0 <= gi < s.gardeners.len());
    let s1 = spec_buy(s, sender, id);
    lemma_has_bonsai_remove(s.bonsais, bi, x);
    assert(!has_bonsai(s1.bonsais, x));
    assert forall|k: int| 0 <= k < s1.gardeners.len() implies
        !has_bonsai(#[trigger] s1.gardeners[k].bonsais, x) by {
        if k == gi {
            lemma_has_bonsai_push(g.bonsais, b, x);
            assert(!has_bonsai(g.bonsais, x));
        } else {
            assert(s1.gardeners[k] == s.gardeners[k]);
            assert(!has_bonsai(s.gardeners[k].bonsais, x));
        }
    }
}

/// Transfer cannot reintroduce a dead identifier: it only moves a live one
/// between profiles.
pub proof fn lemma_transfer_keeps_dead(
    s: StateView,
    sender: Seq<u8>,
    recipient: Seq<u8>,
    id: u64,
    x: u64,
)
    requires
        has_gardener(s.gardeners, sender),
        has_bonsai(s.gardeners[gardener_index(s.gardeners, sender)].bonsais, id),
        has_gardener(s.gardeners, recipient),
        !id_live(s, x),
    ensures
        !id_live(spec_transfer(s, sender, recipient, id), x),
{
    let gs = s.gardeners;
    let si = gardener_index(gs, sender);
    let sg = gs[si];
    let bi = bonsai_index(sg.bonsais, id);
    let b = sg.bonsais[bi];
    assert(0 <= si < gs.len());
    assert(0 <= bi < sg.bonsais.len() && b.id == id);
    assert(x != id) by {
        assert(has_bonsai(gs[si].bonsais, id));
    }
    let sg1 = GardenerView { bonsais: sg.bonsais.remove(bi), ..sg };
    let removed = gs.update(si, sg1);
    // The recipient keeps its profile, so lookups in the intermediate
    // ledger stay in range.
    let r0 = gardener_index(gs, recipient);
    assert(0 <= r0 < gs.len() && gs[r0].address == recipient);
    assert(removed[r0].address == recipient);
    assert(has_gardener(removed, recipient));
    let ri = gardener_index(removed, recipient);
    assert(0 <= ri < removed.len() && removed[ri].address == recipient);
    let s1 = spec_transfer(s, sender, recipient, id);
    let rg = removed[ri];
    assert forall|k: int| 0 <= k < s1.gardeners.len() implies
        !has_bonsai(#[trigger] s1.gardeners[k].bonsais, x) by {
        if has_bonsai(s1.gardeners[k].bonsais, x) {
            if k == ri {
                lemma_has_bonsai_push(rg.bonsais, b, x);
                assert(has_bonsai(rg.bonsais, x));
                if ri == si {
                    lemma_has_bonsai_remove(sg.bonsais, bi, x);
                    assert(has_bonsai(gs[si].bonsais, x));
                } else {
                    assert(rg == gs[ri]);
                    assert(has_bonsai(gs[ri].bonsais, x));
                }
            } else if k == si {
                assert(s1.gardeners[k].bonsais == sg.bonsais.remove(bi));
                lemma_has_bonsai_remove(sg.bonsais, bi, x);
                assert(has_bonsai(gs[si].bonsais, x));
            } else {
                assert(s1.gardeners[k] == gs[k]);
                assert(has_bonsai(gs[k].bonsais, x));
            }
        }
    }
}

/// Retirement cannot reintroduce a dead identifier: it only removes.
pub proof fn lemma_retire_keeps_dead(s: StateView, sender: Seq<u8>, id: u64, x: u64)
    requires
        !id_live(s, x),
    ensures
        !id_live(spec_retire(s, sender, id), x),
{
    let s1 = spec_retire(s, sender, id);
    if has_gardener(s.gardeners, sender) {
        let gi = gardener_index(s.gardeners, sender);
        let g = s.gardeners[gi];
        if has_bonsai(g.bonsais, id) {
            let bi = bonsai_index(g.bonsais, id);
            assert(0 <= gi < s.gardeners.len());
            assert(0 <= bi < g.bonsais.len());
            assert forall|k: int| 0 <= k < s1.gardeners.len() implies
                !has_bonsai(#[trigger] s1.gardeners[k].bonsais, x) by {
                if k == gi {
                    lemma_has_bonsai_remove(g.bonsais, bi, x);
                    assert(!has_bonsai(g.bonsais, x));
                } else {
                    assert(s1.gardeners[k] == s.gardeners[k]);
                }
            }
        }
    }
}

} // verus!
