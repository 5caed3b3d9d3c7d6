//! The transition engine: genesis, the four state-changing operations, and
//! the read-only views, each a pure function from explicit state and context
//! to new state plus response. Every operation either fully commits or
//! leaves the state exactly as it was.

use vstd::prelude::*;

use crate::addr::{Addr, addr_eq, addr_lt, bytes_lt};
use crate::errors::MyCustomError;
use crate::msg::{
    AllGardenersResponse, Attribute, AttrValueView, AttributeView, BankMsg, BankMsgView, Env,
    EnvView, HandleMsg, HandleMsgView, HandleResponse, HandleResponseView, InitMsg, InitResponse,
    InitResponseView, MessageInfo, MessageInfoView, QueryAnswer, QueryMsg,
};
use crate::state::{
    Bonsai, BonsaiList, BonsaiView, Coin, CoinView, Gardener, GardenerView, bonsai_index,
    distinct_ids, find_bonsai_idx, find_gardener_idx, gardener_index, gardeners_sorted,
    has_bonsai, has_gardener, lemma_bonsai_index_unique, lemma_gardener_index_unique, spec_grow,
};

verus! {

// ---------------------------------------------------------------------------
// The contract state and its invariant
// ---------------------------------------------------------------------------

/// The two persistent collections: the pool of unsold bonsais and the ledger
/// of registered gardeners, the latter kept in ascending address order.
#[derive(Debug, PartialEq)]
pub struct ContractState {
    pub bonsais: BonsaiList,
    pub gardeners: Vec<Gardener>,
}

#[verifier::ext_equal]
pub ghost struct StateView {
    pub bonsais: Seq<BonsaiView>,
    pub gardeners: Seq<GardenerView>,
}

impl View for ContractState {
    type V = StateView;

    open spec fn view(&self) -> StateView {
        StateView { bonsais: self.bonsais@, gardeners: self.gardeners.deep_view() }
    }
}

impl StateView {
    /// The state invariant: pool identifiers are distinct, the ledger is
    /// strictly sorted by address (so identities are unique), each profile
    /// owns no identifier twice, and an identifier never sits in the pool
    /// and a profile, nor in two profiles, at once.
    pub open spec fn wf(self) -> bool {
        &&& distinct_ids(self.bonsais)
        &&& gardeners_sorted(self.gardeners)
        &&& forall|k: int|
            0 <= k < self.gardeners.len() ==> distinct_ids(#[trigger] self.gardeners[k].bonsais)
        &&& forall|k: int, id: u64|
            0 <= k < self.gardeners.len()
                && #[trigger] has_bonsai(self.gardeners[k].bonsais, id)
                ==> !has_bonsai(self.bonsais, id)
        &&& forall|k1: int, k2: int, id: u64|
            #![trigger has_bonsai(self.gardeners[k1].bonsais, id),
                has_bonsai(self.gardeners[k2].bonsais, id)]
            0 <= k1 < self.gardeners.len() && 0 <= k2 < self.gardeners.len() && k1 != k2
                && has_bonsai(self.gardeners[k1].bonsais, id)
                ==> !has_bonsai(self.gardeners[k2].bonsais, id)
    }
}

impl ContractState {
    /// Decides the state invariant at run time, for a dispatcher that has
    /// loaded a state from storage it does not trust.
    pub fn check_well_formed(&self) -> (r: bool)
        ensures
            r == self@.wf(),
    {
        let ghost sv = self@;
        if !crate::state::check_distinct_ids(&self.bonsais.bonsais) {
            return false;
        }
        if !crate::state::check_gardeners_sorted(&self.gardeners) {
            return false;
        }
        let n = self.gardeners.len();
        // Each profile: distinct identifiers, none of them still in the pool.
        let mut k: usize = 0;
        while k < n
            invariant
                k <= n,
                sv == self@,
                n == self.gardeners.len(),
                sv.gardeners.len() == n,
                forall|p: int|
                    0 <= p < k ==> distinct_ids(#[trigger] sv.gardeners[p].bonsais),
                forall|p: int, x: u64|
                    0 <= p < k && #[trigger] has_bonsai(sv.gardeners[p].bonsais, x)
                        ==> !has_bonsai(sv.bonsais, x),
            decreases n - k,
        {
            proof {
                assert(sv.gardeners[k as int] == self.gardeners@[k as int].deep_view());
                assert(sv.gardeners[k as int].bonsais
                    == self.gardeners@[k as int].bonsais.deep_view());
                assert(sv.bonsais == self.bonsais.bonsais.deep_view());
            }
            if !crate::state::check_distinct_ids(&self.gardeners[k].bonsais) {
                proof {
                    assert(!distinct_ids(sv.gardeners[k as int].bonsais));
                    assert(!sv.wf());
                }
                return false;
            }
            if !crate::state::check_disjoint(&self.gardeners[k].bonsais, &self.bonsais.bonsais) {
                proof {
                    assert(!(forall|x: u64|
                        has_bonsai(sv.gardeners[k as int].bonsais, x)
                            ==> !has_bonsai(sv.bonsais, x)));
                    let x = choose|x: u64|
                        has_bonsai(sv.gardeners[k as int].bonsais, x)
                            && has_bonsai(sv.bonsais, x);
                    assert(has_bonsai(sv.gardeners[k as int].bonsais, x));
                    assert(!sv.wf());
                }
                return false;
            }
            k = k + 1;
        }
        // Each pair of profiles: no identifier owned twice.
        let mut k1: usize = 0;
        while k1 < n
            invariant
                k1 <= n,
                sv == self@,
                n == self.gardeners.len(),
                sv.gardeners.len() == n,
                forall|p: int, q: int, x: u64|
                    #![trigger has_bonsai(sv.gardeners[p].bonsais, x),
                        has_bonsai(sv.gardeners[q].bonsais, x)]
                    0 <= p < q < n && p < k1 && has_bonsai(sv.gardeners[p].bonsais, x)
                        ==> !has_bonsai(sv.gardeners[q].bonsais, x),
            decreases n - k1,
        {
            let mut k2: usize = k1 + 1;
            while k2 < n
                invariant
                    k1 < k2 <= n,
                    sv == self@,
                    n == self.gardeners.len(),
                    sv.gardeners.len() == n,
                    forall|q: int, x: u64|
                        #![trigger has_bonsai(sv.gardeners[q].bonsais, x)]
                        k1 < q < k2 && has_bonsai(sv.gardeners[k1 as int].bonsais, x)
                            ==> !has_bonsai(sv.gardeners[q].bonsais, x),
                decreases n - k2,
            {
                proof {
                    assert(sv.gardeners[k1 as int] == self.gardeners@[k1 as int].deep_view());
                    assert(sv.gardeners[k2 as int] == self.gardeners@[k2 as int].deep_view());
                    assert(sv.gardeners[k1 as int].bonsais
                        == self.gardeners@[k1 as int].bonsais.deep_view());
                    assert(sv.gardeners[k2 as int].bonsais
                        == self.gardeners@[k2 as int].bonsais.deep_view());
                }
                if !crate::state::check_disjoint(
                    &self.gardeners[k1].bonsais,
                    &self.gardeners[k2].bonsais,
                ) {
                    proof {
                        assert(!(forall|x: u64|
                            has_bonsai(sv.gardeners[k1 as int].bonsais, x)
                                ==> !has_bonsai(sv.gardeners[k2 as int].bonsais, x)));
                        let x = choose|x: u64|
                            has_bonsai(sv.gardeners[k1 as int].bonsais, x)
                                && has_bonsai(sv.gardeners[k2 as int].bonsais, x);
                        assert(has_bonsai(sv.gardeners[k1 as int].bonsais, x));
                        assert(has_bonsai(sv.gardeners[k2 as int].bonsais, x));
                        assert(!sv.wf());
                    }
                    return false;
                }
                k2 = k2 + 1;
            }
            k1 = k1 + 1;
        }
        proof {
            // Ordered pairs cover unordered ones by symmetry.
            assert forall|p: int, q: int, x: u64|
                #![trigger has_bonsai(sv.gardeners[p].bonsais, x),
                    has_bonsai(sv.gardeners[q].bonsais, x)]
                0 <= p < sv.gardeners.len() && 0 <= q < sv.gardeners.len() && p != q
                    && has_bonsai(sv.gardeners[p].bonsais, x) implies
                !has_bonsai(sv.gardeners[q].bonsais, x) by {
                if q < p && has_bonsai(sv.gardeners[q].bonsais, x) {
                    assert(!has_bonsai(sv.gardeners[p].bonsais, x));
                }
            }
            assert(sv.wf());
        }
        true
    }
}

/// An identifier is live when it is still in the pool or owned by some
/// gardener; retiring an item is exactly what makes it stop being live.
pub open spec fn id_live(s: StateView, id: u64) -> bool {
    ||| has_bonsai(s.bonsais, id)
    ||| exists|k: int| 0 <= k < s.gardeners.len() && has_bonsai(#[trigger] s.gardeners[k].bonsais, id)
}

// ---------------------------------------------------------------------------
// Funds requirements
// ---------------------------------------------------------------------------

/// The acquire funds requirement: the first coin sent with the message
/// covers the price, in the price's own denomination. A denomination
/// mismatch fails the requirement;
/// it is never read as a zero balance.
pub open spec fn buy_funds_ok(sent: Seq<CoinView>, price: CoinView) -> bool {
    &&& sent.len() > 0
    &&& sent[0].denom == price.denom
    &&& sent[0].amount >= price.amount
}

/// The transfer funds requirement: a reported balance covers the price, in the price's
/// own denomination.
pub open spec fn balance_covers(balance: CoinView, price: CoinView) -> bool {
    &&& balance.denom == price.denom
    &&& balance.amount >= price.amount
}

// ---------------------------------------------------------------------------
// Spec-level transitions
// ---------------------------------------------------------------------------

/// Where a new profile keyed by `addr` lands in the sorted ledger: after
/// every profile whose address precedes `addr`.
pub open spec fn insert_pos(gs: Seq<GardenerView>, addr: Seq<u8>) -> int
    decreases gs.len(),
{
    if gs.len() == 0 {
        0
    } else if bytes_lt(gs[0].address, addr) {
        1 + insert_pos(gs.drop_first(), addr)
    } else {
        0
    }
}

/// Registration: a fresh profile with no bonsais, inserted at its sorted
/// position.
pub open spec fn spec_register(s: StateView, sender: Seq<u8>, name: Seq<char>) -> StateView {
    StateView {
        bonsais: s.bonsais,
        gardeners: s.gardeners.insert(
            insert_pos(s.gardeners, sender),
            GardenerView { name, address: sender, bonsais: Seq::empty() },
        ),
    }
}

/// Acquisition: the bonsai leaves the pool and is appended to the buyer's
/// profile.
pub open spec fn spec_buy(s: StateView, sender: Seq<u8>, id: u64) -> StateView {
    let bi = bonsai_index(s.bonsais, id);
    let b = s.bonsais[bi];
    let gi = gardener_index(s.gardeners, sender);
    let g = s.gardeners[gi];
    StateView {
        bonsais: s.bonsais.remove(bi),
        gardeners: s.gardeners.update(
            gi,
            GardenerView { bonsais: g.bonsais.push(b), ..g },
        ),
    }
}

/// Transfer: the bonsai leaves the seller's profile, then is appended to the
/// recipient's. The removal happens first, so a transfer to oneself keeps
/// the bonsai rather than duplicating or destroying it.
pub open spec fn spec_transfer(s: StateView, sender: Seq<u8>, recipient: Seq<u8>, id: u64) -> StateView {
    let si = gardener_index(s.gardeners, sender);
    let sg = s.gardeners[si];
    let b = sg.bonsais[bonsai_index(sg.bonsais, id)];
    let removed = s.gardeners.update(
        si,
        GardenerView { bonsais: sg.bonsais.remove(bonsai_index(sg.bonsais, id)), ..sg },
    );
    let ri = gardener_index(removed, recipient);
    let rg = removed[ri];
    StateView {
        bonsais: s.bonsais,
        gardeners: removed.update(ri, GardenerView { bonsais: rg.bonsais.push(b), ..rg }),
    }
}

/// Retirement: if the caller has a profile that owns the bonsai, it is
/// removed for good; otherwise nothing changes. Either way the operation
/// succeeds.
pub open spec fn spec_retire(s: StateView, sender: Seq<u8>, id: u64) -> StateView {
    if has_gardener(s.gardeners, sender) {
        let gi = gardener_index(s.gardeners, sender);
        let g = s.gardeners[gi];
        if has_bonsai(g.bonsais, id) {
            StateView {
                bonsais: s.bonsais,
                gardeners: s.gardeners.update(
                    gi,
                    GardenerView {
                        bonsais: g.bonsais.remove(bonsai_index(g.bonsais, id)),
                        ..g
                    },
                ),
            }
        } else {
            s
        }
    } else {
        s
    }
}

// ---------------------------------------------------------------------------
// Spec-level responses
// ---------------------------------------------------------------------------

pub open spec fn init_response() -> InitResponseView {
    InitResponseView {
        messages: Seq::empty(),
        attributes: seq![
            AttributeView { key: "action"@, value: AttrValueView::Text("grown_bonsais"@) },
        ],
    }
}

pub open spec fn register_response(sender: Seq<u8>) -> HandleResponseView {
    HandleResponseView {
        messages: Seq::empty(),
        attributes: seq![
            AttributeView { key: "action"@, value: AttrValueView::Text("become_gardener"@) },
            AttributeView { key: "gardener_addr"@, value: AttrValueView::Address(sender) },
        ],
        data: None,
    }
}

pub open spec fn buy_response(sender: Seq<u8>, contract: Seq<u8>, price: CoinView) -> HandleResponseView {
    HandleResponseView {
        messages: seq![
            BankMsgView::Send {
                from_address: sender,
                to_address: contract,
                amount: seq![price],
            },
        ],
        attributes: seq![
            AttributeView { key: "action"@, value: AttrValueView::Text("buy_bonsai"@) },
            AttributeView { key: "buyer"@, value: AttrValueView::Address(sender) },
            AttributeView { key: "amount"@, value: AttrValueView::Number(price.amount) },
        ],
        data: None,
    }
}

pub open spec fn sell_response(sender: Seq<u8>, recipient: Seq<u8>) -> HandleResponseView {
    HandleResponseView {
        messages: Seq::empty(),
        attributes: seq![
            AttributeView { key: "action"@, value: AttrValueView::Text("sell_bonsai"@) },
            AttributeView { key: "from"@, value: AttrValueView::Address(sender) },
            AttributeView { key: "to"@, value: AttrValueView::Address(recipient) },
        ],
        data: None,
    }
}

pub open spec fn cut_response(sender: Seq<u8>, id: u64) -> HandleResponseView {
    HandleResponseView {
        messages: Seq::empty(),
        attributes: seq![
            AttributeView { key: "action"@, value: AttrValueView::Text("cut_bonsai"@) },
            AttributeView { key: "owner"@, value: AttrValueView::Address(sender) },
            AttributeView { key: "bonsai_id"@, value: AttrValueView::Number(id as u128) },
        ],
        data: None,
    }
}

// ---------------------------------------------------------------------------
// Operation outcomes: one predicate per operation, saying exactly which
// result and which new state every input leads to.
// ---------------------------------------------------------------------------

/// Registration fails, changing nothing, exactly when the identity already
/// has a profile; otherwise the new profile is inserted at its sorted
/// position and the event log names the new gardener.
pub open spec fn register_outcome(
    s0: StateView,
    s1: StateView,
    sender: Seq<u8>,
    name: Seq<char>,
    r: Result<HandleResponse, MyCustomError>,
) -> bool {
    if has_gardener(s0.gardeners, sender) {
        &&& r matches Err(e) && e == MyCustomError::AlreadyRegistered
        &&& s1 == s0
    } else {
        &&& r matches Ok(resp) && resp@ == register_response(sender)
        &&& s1 == spec_register(s0, sender, name)
    }
}

/// Acquisition checks, in order: the bonsai is in the pool, the sent funds
/// cover its price, the caller is registered. Any failure leaves the state
/// untouched; success moves the bonsai and issues the settlement
/// instruction.
pub open spec fn buy_outcome(
    s0: StateView,
    s1: StateView,
    env: EnvView,
    info: MessageInfoView,
    id: u64,
    r: Result<HandleResponse, MyCustomError>,
) -> bool {
    if !has_bonsai(s0.bonsais, id) {
        &&& r matches Err(e) && e == MyCustomError::NotFound
        &&& s1 == s0
    } else {
        let price = s0.bonsais[bonsai_index(s0.bonsais, id)].price;
        if !buy_funds_ok(info.sent_funds, price) {
            &&& r matches Err(e) && e == MyCustomError::InsufficientFunds
            &&& s1 == s0
        } else if !has_gardener(s0.gardeners, info.sender) {
            &&& r matches Err(e) && e == MyCustomError::NotFound
            &&& s1 == s0
        } else {
            &&& r matches Ok(resp) && resp@ == buy_response(info.sender, env.contract_address, price)
            &&& s1 == spec_buy(s0, info.sender, id)
        }
    }
}

/// Transfer checks, in order: the caller owns the bonsai, the recipient's
/// reported balance covers its price, the recipient is registered. Any
/// failure leaves the state untouched; success moves the bonsai between the
/// two profiles. The balance test authorizes only: no settlement
/// instruction is issued.
pub open spec fn transfer_outcome(
    s0: StateView,
    s1: StateView,
    sender: Seq<u8>,
    recipient: Seq<u8>,
    id: u64,
    balance: Option<CoinView>,
    r: Result<HandleResponse, MyCustomError>,
) -> bool {
    if !has_gardener(s0.gardeners, sender) {
        &&& r matches Err(e) && e == MyCustomError::NotFound
        &&& s1 == s0
    } else {
        let sg = s0.gardeners[gardener_index(s0.gardeners, sender)];
        if !has_bonsai(sg.bonsais, id) {
            &&& r matches Err(e) && e == MyCustomError::NotFound
            &&& s1 == s0
        } else {
            let price = sg.bonsais[bonsai_index(sg.bonsais, id)].price;
            if !(balance matches Some(b) && balance_covers(b, price)) {
                &&& r matches Err(e) && e == MyCustomError::InsufficientFunds
                &&& s1 == s0
            } else if !has_gardener(s0.gardeners, recipient) {
                &&& r matches Err(e) && e == MyCustomError::NotFound
                &&& s1 == s0
            } else {
                &&& r matches Ok(resp) && resp@ == sell_response(sender, recipient)
                &&& s1 == spec_transfer(s0, sender, recipient, id)
            }
        }
    }
}

/// Retirement always succeeds and always emits its event; it removes the
/// bonsai exactly when the caller's profile owns it, and otherwise is a
/// no-op.
pub open spec fn retire_outcome(
    s0: StateView,
    s1: StateView,
    sender: Seq<u8>,
    id: u64,
    r: Result<HandleResponse, MyCustomError>,
) -> bool {
    &&& r matches Ok(resp) && resp@ == cut_response(sender, id)
    &&& s1 == spec_retire(s0, sender, id)
}

// ---------------------------------------------------------------------------
// Genesis
// ---------------------------------------------------------------------------

/// Grow the initial pool: `msg.number` bonsais at `msg.price`, stamped with
/// the current block height. There are no gardeners yet. A count too large
/// for the pool to be laid out in memory is rejected as `InvalidInput`; the
/// identifier space itself (one `u64` per bonsai, counted from zero) can
/// never overflow.
pub fn init(env: &Env, _info: &MessageInfo, msg: InitMsg) -> (r: Result<
    (ContractState, InitResponse),
    MyCustomError,
>)
    ensures
        msg.number > usize::MAX ==> (r matches Err(e) && e == MyCustomError::InvalidInput),
        msg.number <= usize::MAX ==> (r matches Ok(p) && {
            &&& p.0@ == (StateView {
                bonsais: spec_grow(msg.number, env@.block_height, msg@.price),
                gardeners: Seq::empty(),
            })
            &&& p.0@.wf()
            &&& p.1@ == init_response()
        }),
{
    if msg.number > usize::MAX as u64 {
        return Err(MyCustomError::InvalidInput);
    }
    let bonsai_list = BonsaiList::grow_bonsais(msg.number, env.block_height, msg.price);
    let state = ContractState { bonsais: bonsai_list, gardeners: Vec::new() };
    let attributes = vec![Attribute::text("action", "grown_bonsais")];
    let resp = InitResponse { messages: Vec::new(), attributes };
    proof {
        assert(state.gardeners.deep_view() =~= Seq::<GardenerView>::empty());
        crate::laws::lemma_genesis_wf(msg.number, env@.block_height, msg@.price);
        assert(resp.messages.deep_view() =~= Seq::<BankMsgView>::empty());
        assert(resp.attributes.deep_view() =~= init_response().attributes);
        assert(resp@ == init_response());
    }
    Ok((state, resp))
}

// ---------------------------------------------------------------------------
// Registration
// ---------------------------------------------------------------------------

/// The caller becomes a gardener, unless a profile already exists for the
/// caller's address.
pub fn handle_become_gardener(
    state: &mut ContractState,
    info: &MessageInfo,
    name: String,
) -> (r: Result<HandleResponse, MyCustomError>)
    requires
        old(state)@.wf(),
    ensures
        final(state)@.wf(),
        register_outcome(old(state)@, final(state)@, info@.sender, name@, r),
{
    let ghost s0 = state@;
    let n = state.gardeners.len();
    let mut pos: usize = 0;
    while pos < n && addr_lt(&state.gardeners[pos].address, &info.sender)
        invariant
            pos <= n,
            state == old(state),
            s0 == state@,
            n == state.gardeners.len(),
            s0.gardeners.len() == n,
            forall|j: int| 0 <= j < pos ==> bytes_lt(#[trigger] s0.gardeners[j].address, info@.sender),
        decreases n - pos,
    {
        proof {
            assert(s0.gardeners[pos as int] == state.gardeners@[pos as int].deep_view());
        }
        pos = pos + 1;
    }
    // `pos` is now the sorted position of the sender's address.
    proof {
        if pos < n {
            assert(s0.gardeners[pos as int] == state.gardeners@[pos as int].deep_view());
        }
        crate::laws::lemma_insert_pos_is(s0.gardeners, info@.sender, pos as int);
    }
    if pos < n && addr_eq(&state.gardeners[pos].address, &info.sender) {
        proof {
            lemma_gardener_index_unique(s0.gardeners, info@.sender, pos as int);
        }
        return Err(MyCustomError::AlreadyRegistered);
    }
    proof {
        crate::laws::lemma_no_gardener_at_pos(s0.gardeners, info@.sender, pos as int);
        crate::laws::lemma_register_wf(s0, info@.sender, name@);
    }
    let gardener = Gardener::new(name, info.sender.clone(), Vec::new());
    let ghost gv = gardener@;
    state.gardeners.insert(pos, gardener);
    proof {
        assert(gv.bonsais =~= Seq::<BonsaiView>::empty());
        assert(state.gardeners.deep_view() =~= s0.gardeners.insert(pos as int, gv)) by {
            assert forall|j: int| 0 <= j < state.gardeners.deep_view().len() implies
                #[trigger] state.gardeners.deep_view()[j]
                    == s0.gardeners.insert(pos as int, gv)[j] by {
                if j < pos {
                    assert(state.gardeners@[j] == old(state).gardeners@[j]);
                } else if j == pos {
                } else {
                    assert(state.gardeners@[j] == old(state).gardeners@[j - 1]);
                }
            }
        }
        assert(state@ == spec_register(s0, info@.sender, name@));
    }
    let attributes = vec![
        Attribute::text("action", "become_gardener"),
        Attribute::address("gardener_addr", info.sender.clone()),
    ];
    let resp = HandleResponse { messages: Vec::new(), attributes, data: None };
    proof {
        assert(resp.messages.deep_view() =~= Seq::<BankMsgView>::empty());
        assert(resp.attributes.deep_view() =~= register_response(info@.sender).attributes);
        assert(resp@ == register_response(info@.sender));
    }
    Ok(resp)
}

// ---------------------------------------------------------------------------
// Acquisition
// ---------------------------------------------------------------------------

/// The caller buys an unsold bonsai from the pool with the funds sent along
/// with the message. Success moves the bonsai into the caller's profile and
/// issues the settlement instruction; any failure leaves both collections
/// untouched.
pub fn handle_buy_bonsai(
    state: &mut ContractState,
    env: &Env,
    info: &MessageInfo,
    id: u64,
) -> (r: Result<HandleResponse, MyCustomError>)
    requires
        old(state)@.wf(),
    ensures
        final(state)@.wf(),
        buy_outcome(old(state)@, final(state)@, env@, info@, id, r),
{
    let ghost s0 = state@;
    let bi = match find_bonsai_idx(&state.bonsais.bonsais, id) {
        Some(i) => i,
        None => {
            return Err(MyCustomError::NotFound);
        },
    };
    proof {
        lemma_bonsai_index_unique(s0.bonsais, id, bi as int);
    }
    let ghost price = s0.bonsais[bi as int].price;

    // Funds: the first coin sent must cover the price, in the price's
    // own denomination.
    if info.sent_funds.len() == 0 {
        return Err(MyCustomError::InsufficientFunds);
    }
    proof {
        assert(info@.sent_funds[0] == info.sent_funds@[0].deep_view());
        assert(s0.bonsais[bi as int] == state.bonsais.bonsais@[bi as int].deep_view());
    }
    if !(info.sent_funds[0].denom == state.bonsais.bonsais[bi].price.denom
        && info.sent_funds[0].amount >= state.bonsais.bonsais[bi].price.amount) {
        return Err(MyCustomError::InsufficientFunds);
    }
    assert(buy_funds_ok(info@.sent_funds, price));

    // The caller must already be a gardener.
    let gi = match find_gardener_idx(&state.gardeners, &info.sender) {
        Some(i) => i,
        None => {
            return Err(MyCustomError::NotFound);
        },
    };
    proof {
        lemma_gardener_index_unique(s0.gardeners, info@.sender, gi as int);
        crate::laws::lemma_buy_wf(s0, info@.sender, id);
    }

    // Commit: the bonsai leaves the pool and joins the buyer's profile.
    let bonsai = state.bonsais.bonsais.remove(bi);
    let amount = bonsai.price.amount;
    let price_copy = bonsai.price.clone();
    proof {
        assert(state.bonsais.bonsais.deep_view() =~= s0.bonsais.remove(bi as int)) by {
            assert forall|j: int| 0 <= j < state.bonsais.bonsais@.len() implies
                #[trigger] state.bonsais.bonsais.deep_view()[j]
                    == s0.bonsais.remove(bi as int)[j] by {
                if j < bi {
                    assert(state.bonsais.bonsais@[j] == old(state).bonsais.bonsais@[j]);
                    assert(s0.bonsais[j] == old(state).bonsais.bonsais@[j].deep_view());
                } else {
                    assert(state.bonsais.bonsais@[j] == old(state).bonsais.bonsais@[j + 1]);
                    assert(s0.bonsais[j + 1] == old(state).bonsais.bonsais@[j + 1].deep_view());
                }
            }
        }
        assert(bonsai@ == s0.bonsais[bi as int]);
    }
    let ghost gv = s0.gardeners[gi as int];
    let mut g = state.gardeners.remove(gi);
    proof {
        assert(g@ == gv);
    }
    g.bonsais.push(bonsai);
    proof {
        assert(g@.bonsais =~= gv.bonsais.push(s0.bonsais[bi as int])) by {
            assert forall|j: int| 0 <= j < g.bonsais@.len() implies
                #[trigger] g.bonsais.deep_view()[j]
                    == gv.bonsais.push(s0.bonsais[bi as int])[j] by {
                if j < g.bonsais@.len() - 1 {
                    assert(gv.bonsais[j] == g.bonsais@[j].deep_view());
                }
            }
        }
    }
    let ghost g1 = g@;
    state.gardeners.insert(gi, g);
    proof {
        assert(state.gardeners.deep_view() =~= s0.gardeners.update(gi as int, g1)) by {
            assert forall|j: int| 0 <= j < state.gardeners@.len() implies
                #[trigger] state.gardeners.deep_view()[j]
                    == s0.gardeners.update(gi as int, g1)[j] by {
                if j < gi {
                    assert(state.gardeners@[j] == old(state).gardeners@[j]);
                    assert(s0.gardeners[j] == old(state).gardeners@[j].deep_view());
                } else if j > gi {
                    assert(state.gardeners@[j] == old(state).gardeners@[j]);
                    assert(s0.gardeners[j] == old(state).gardeners@[j].deep_view());
                }
            }
        }
        assert(state@ =~= spec_buy(s0, info@.sender, id));
    }

    // The settlement instruction and the event log.
    let from_addr = info.sender.clone();
    let to_addr = env.contract_address.clone();
    let amount_vec = vec![price_copy];
    proof {
        assert(amount_vec.deep_view() =~= seq![price]);
    }
    let messages = vec![
        BankMsg::Send { from_address: from_addr, to_address: to_addr, amount: amount_vec },
    ];
    let attributes = vec![
        Attribute::text("action", "buy_bonsai"),
        Attribute::address("buyer", info.sender.clone()),
        Attribute::number("amount", amount),
    ];
    let resp = HandleResponse { messages, attributes, data: None };
    proof {
        assert(resp.messages.deep_view() =~= buy_response(
            info@.sender,
            env@.contract_address,
            price,
        ).messages);
        assert(resp.attributes.deep_view() =~= buy_response(
            info@.sender,
            env@.contract_address,
            price,
        ).attributes);
        assert(resp@ =~= buy_response(info@.sender, env@.contract_address, price));
    }
    Ok(resp)
}

// ---------------------------------------------------------------------------
// Transfer
// ---------------------------------------------------------------------------

/// The caller sells one of its bonsais to `buyer`, conditioned on the buyer's
/// reported balance (the solvency oracle's answer, handed in by the
/// dispatcher). The check is authorization only: no settlement instruction
/// is issued. The recipient must already be registered; a transfer to an
/// unknown profile fails rather than creating one.
pub fn handle_sell_bonsai(
    state: &mut ContractState,
    info: &MessageInfo,
    buyer: Addr,
    id: u64,
    buyer_balance: Option<Coin>,
) -> (r: Result<HandleResponse, MyCustomError>)
    requires
        old(state)@.wf(),
    ensures
        final(state)@.wf(),
        transfer_outcome(
            old(state)@,
            final(state)@,
            info@.sender,
            buyer@,
            id,
            buyer_balance.deep_view(),
            r,
        ),
{
    let ghost s0 = state@;
    // The caller must have a profile that owns the bonsai.
    let gi = match find_gardener_idx(&state.gardeners, &info.sender) {
        Some(i) => i,
        None => {
            return Err(MyCustomError::NotFound);
        },
    };
    proof {
        lemma_gardener_index_unique(s0.gardeners, info@.sender, gi as int);
        assert(s0.gardeners[gi as int] == state.gardeners@[gi as int].deep_view());
    }
    let bi = match find_bonsai_idx(&state.gardeners[gi].bonsais, id) {
        Some(i) => i,
        None => {
            return Err(MyCustomError::NotFound);
        },
    };
    proof {
        lemma_bonsai_index_unique(s0.gardeners[gi as int].bonsais, id, bi as int);
        assert(s0.gardeners[gi as int].bonsais[bi as int]
            == state.gardeners@[gi as int].bonsais@[bi as int].deep_view());
    }
    let ghost price = s0.gardeners[gi as int].bonsais[bi as int].price;

    // Solvency: the reported balance must cover the price, in the
    // price's own denomination.
    let covered = match &buyer_balance {
        Some(bal) => bal.denom == state.gardeners[gi].bonsais[bi].price.denom
            && bal.amount >= state.gardeners[gi].bonsais[bi].price.amount,
        None => false,
    };
    if !covered {
        return Err(MyCustomError::InsufficientFunds);
    }

    // The recipient must already be registered.
    let rgi = match find_gardener_idx(&state.gardeners, &buyer) {
        Some(i) => i,
        None => {
            return Err(MyCustomError::NotFound);
        },
    };
    proof {
        lemma_gardener_index_unique(s0.gardeners, buyer@, rgi as int);
        crate::laws::lemma_transfer_wf(s0, info@.sender, buyer@, id);
    }

    // Commit: take the bonsai out of the seller's profile...
    let ghost sgv = s0.gardeners[gi as int];
    let mut sg = state.gardeners.remove(gi);
    proof {
        assert(sg@ == sgv);
    }
    let bonsai = sg.bonsais.remove(bi);
    proof {
        assert(bonsai@ == sgv.bonsais[bi as int]);
        assert(sg@.bonsais =~= sgv.bonsais.remove(bi as int)) by {
            assert forall|j: int| 0 <= j < sg.bonsais@.len() implies
                #[trigger] sg.bonsais.deep_view()[j] == sgv.bonsais.remove(bi as int)[j] by {
                if j < bi {
                    assert(sg.bonsais.deep_view()[j] == sg.bonsais@[j].deep_view());
                } else {
                    assert(sg.bonsais.deep_view()[j] == sg.bonsais@[j].deep_view());
                }
            }
        }
    }
    let ghost sgv1 = sg@;
    state.gardeners.insert(gi, sg);
    let ghost removed = s0.gardeners.update(gi as int, sgv1);
    proof {
        assert(state.gardeners.deep_view() =~= removed) by {
            assert forall|j: int| 0 <= j < state.gardeners@.len() implies
                #[trigger] state.gardeners.deep_view()[j] == removed[j] by {
                if j != gi {
                    assert(state.gardeners@[j] == old(state).gardeners@[j]);
                    assert(s0.gardeners[j] == old(state).gardeners@[j].deep_view());
                }
            }
        }
        // The recipient sits at the same index in the intermediate ledger.
        assert(removed[rgi as int].address == buyer@);
    }
    // ...and hand it to the recipient.
    let ghost mid_raw = state.gardeners@;
    let mut rg = state.gardeners.remove(rgi);
    proof {
        assert(rg@ == removed[rgi as int]);
    }
    let ghost rgv = rg@;
    rg.bonsais.push(bonsai);
    proof {
        assert(rg@.bonsais =~= rgv.bonsais.push(sgv.bonsais[bi as int])) by {
            assert forall|j: int| 0 <= j < rg.bonsais@.len() implies
                #[trigger] rg.bonsais.deep_view()[j]
                    == rgv.bonsais.push(sgv.bonsais[bi as int])[j] by {
                assert(rg.bonsais.deep_view()[j] == rg.bonsais@[j].deep_view());
            }
        }
    }
    let ghost rgv1 = rg@;
    state.gardeners.insert(rgi, rg);
    proof {
        assert(state.gardeners.deep_view() =~= removed.update(rgi as int, rgv1)) by {
            assert forall|j: int| 0 <= j < state.gardeners@.len() implies
                #[trigger] state.gardeners.deep_view()[j]
                    == removed.update(rgi as int, rgv1)[j] by {
                if j != rgi {
                    assert(state.gardeners@[j] == mid_raw[j]);
                    assert(removed[j] == mid_raw[j].deep_view());
                }
            }
        }
        // The executable steps match the spec-level transfer step for step.
        assert(gardener_index(removed, buyer@) == rgi as int) by {
            assert forall|k: int| 0 <= k < removed.len() implies
                (#[trigger] removed[k]).address == s0.gardeners[k].address by {}
            assert(gardeners_sorted(removed));
            lemma_gardener_index_unique(removed, buyer@, rgi as int);
        }
        assert(state@ =~= spec_transfer(s0, info@.sender, buyer@, id));
    }

    // The event log.
    let attributes = vec![
        Attribute::text("action", "sell_bonsai"),
        Attribute::address("from", info.sender.clone()),
        Attribute::address("to", buyer),
    ];
    let resp = HandleResponse { messages: Vec::new(), attributes, data: None };
    proof {
        assert(resp.messages.deep_view() =~= Seq::<BankMsgView>::empty());
        assert(resp.attributes.deep_view() =~= sell_response(info@.sender, buyer@).attributes);
        assert(resp@ =~= sell_response(info@.sender, buyer@));
    }
    Ok(resp)
}

// ---------------------------------------------------------------------------
// Retirement
// ---------------------------------------------------------------------------

/// Removes the bonsai with `bonsai_id` from the profile keyed by `address`,
/// if that profile exists and owns it; otherwise leaves the state untouched.
fn remove_bonsai(state: &mut ContractState, address: &Addr, bonsai_id: u64)
    requires
        old(state)@.wf(),
    ensures
        final(state)@.wf(),
        final(state)@ == spec_retire(old(state)@, address@, bonsai_id),
{
    let ghost s0 = state@;
    proof {
        crate::laws::lemma_retire_wf(s0, address@, bonsai_id);
    }
    let gi = match find_gardener_idx(&state.gardeners, address) {
        Some(i) => i,
        None => {
            return ;
        },
    };
    proof {
        lemma_gardener_index_unique(s0.gardeners, address@, gi as int);
        assert(s0.gardeners[gi as int] == state.gardeners@[gi as int].deep_view());
    }
    let ghost gv = s0.gardeners[gi as int];
    let mut g = state.gardeners.remove(gi);
    proof {
        assert(g@ == gv);
    }
    let bi = match find_bonsai_idx(&g.bonsais, bonsai_id) {
        Some(i) => i,
        None => {
            // The profile owns no such bonsai: put it back unchanged.
            state.gardeners.insert(gi, g);
            proof {
                assert(state.gardeners.deep_view() =~= s0.gardeners) by {
                    assert forall|j: int| 0 <= j < state.gardeners@.len() implies
                        #[trigger] state.gardeners.deep_view()[j] == s0.gardeners[j] by {
                        if j != gi {
                            assert(state.gardeners@[j] == old(state).gardeners@[j]);
                            assert(s0.gardeners[j] == old(state).gardeners@[j].deep_view());
                        }
                    }
                }
                assert(state@ =~= s0);
            }
            return ;
        },
    };
    proof {
        lemma_bonsai_index_unique(gv.bonsais, bonsai_id, bi as int);
    }
    let _removed = g.bonsais.remove(bi);
    proof {
        assert(g@.bonsais =~= gv.bonsais.remove(bi as int)) by {
            assert forall|j: int| 0 <= j < g.bonsais@.len() implies
                #[trigger] g.bonsais.deep_view()[j] == gv.bonsais.remove(bi as int)[j] by {
                assert(g.bonsais.deep_view()[j] == g.bonsais@[j].deep_view());
            }
        }
    }
    let ghost gv1 = g@;
    state.gardeners.insert(gi, g);
    proof {
        assert(state.gardeners.deep_view() =~= s0.gardeners.update(gi as int, gv1)) by {
            assert forall|j: int| 0 <= j < state.gardeners@.len() implies
                #[trigger] state.gardeners.deep_view()[j]
                    == s0.gardeners.update(gi as int, gv1)[j] by {
                if j != gi {
                    assert(state.gardeners@[j] == old(state).gardeners@[j]);
                    assert(s0.gardeners[j] == old(state).gardeners@[j].deep_view());
                }
            }
        }
        assert(state@ =~= spec_retire(s0, address@, bonsai_id));
    }
}

/// The caller destroys one of its bonsais: the item is removed for good and
/// never returns to the pool. The operation succeeds, and its event is
/// emitted, whether or not anything was actually removed.
pub fn handle_cut_bonsai(
    state: &mut ContractState,
    info: &MessageInfo,
    id: u64,
) -> (r: Result<HandleResponse, MyCustomError>)
    requires
        old(state)@.wf(),
    ensures
        final(state)@.wf(),
        retire_outcome(old(state)@, final(state)@, info@.sender, id, r),
{
    remove_bonsai(state, &info.sender, id);
    let attributes = vec![
        Attribute::text("action", "cut_bonsai"),
        Attribute::address("owner", info.sender.clone()),
        Attribute::number("bonsai_id", id as u128),
    ];
    let resp = HandleResponse { messages: Vec::new(), attributes, data: None };
    proof {
        assert(resp.messages.deep_view() =~= Seq::<BankMsgView>::empty());
        assert(resp.attributes.deep_view() =~= cut_response(info@.sender, id).attributes);
        assert(resp@ =~= cut_response(info@.sender, id));
    }
    Ok(resp)
}

// ---------------------------------------------------------------------------
// Dispatch
// ---------------------------------------------------------------------------

/// Routes one operation to its handler. For a transfer, `buyer_balance` is
/// the solvency oracle's report for the recipient, which the dispatcher
/// queries before calling in; the other operations ignore it.
pub fn handle(
    state: &mut ContractState,
    env: &Env,
    info: &MessageInfo,
    msg: HandleMsg,
    buyer_balance: Option<Coin>,
) -> (r: Result<HandleResponse, MyCustomError>)
    requires
        old(state)@.wf(),
    ensures
        final(state)@.wf(),
        match msg@ {
            HandleMsgView::BecomeGardener { name } => register_outcome(
                old(state)@,
                final(state)@,
                info@.sender,
                name,
                r,
            ),
            HandleMsgView::BuyBonsai { b_id } => buy_outcome(
                old(state)@,
                final(state)@,
                env@,
                info@,
                b_id,
                r,
            ),
            HandleMsgView::SellBonsai { recipient, b_id } => transfer_outcome(
                old(state)@,
                final(state)@,
                info@.sender,
                recipient,
                b_id,
                buyer_balance.deep_view(),
                r,
            ),
            HandleMsgView::CutBonsai { b_id } => retire_outcome(
                old(state)@,
                final(state)@,
                info@.sender,
                b_id,
                r,
            ),
        },
{
    match msg {
        HandleMsg::BecomeGardener { name } => handle_become_gardener(state, info, name),
        HandleMsg::BuyBonsai { b_id } => handle_buy_bonsai(state, env, info, b_id),
        HandleMsg::SellBonsai { recipient, b_id } => handle_sell_bonsai(
            state,
            info,
            recipient,
            b_id,
            buyer_balance,
        ),
        HandleMsg::CutBonsai { b_id } => handle_cut_bonsai(state, info, b_id),
    }
}

// ---------------------------------------------------------------------------
// The read-only views
// ---------------------------------------------------------------------------

/// The full pool, in its own order.
pub fn query_bonsais(state: &ContractState) -> (r: BonsaiList)
    ensures
        r@ == state@.bonsais,
{
    state.bonsais.clone()
}

/// One profile, or nothing: at the view layer an unknown identity is an
/// empty answer, not an error.
pub fn query_gardener(state: &ContractState, sender: &Addr) -> (r: Option<Gardener>)
    requires
        state@.wf(),
    ensures
        match r {
            Some(g) => has_gardener(state@.gardeners, sender@)
                && g@ == state@.gardeners[gardener_index(state@.gardeners, sender@)],
            None => !has_gardener(state@.gardeners, sender@),
        },
{
    match find_gardener_idx(&state.gardeners, sender) {
        Some(i) => {
            proof {
                lemma_gardener_index_unique(state@.gardeners, sender@, i as int);
                assert(state@.gardeners[i as int] == state.gardeners@[i as int].deep_view());
            }
            Some(state.gardeners[i].clone())
        },
        None => None,
    }
}

/// Every profile, in ascending identity order — the order the ledger itself
/// is kept in.
pub fn query_all_gardeners(state: &ContractState) -> (r: AllGardenersResponse)
    ensures
        r@ == state@.gardeners,
{
    AllGardenersResponse { gardeners: crate::state::clone_gardener_vec(&state.gardeners) }
}

/// Routes one query to its view.
pub fn query(state: &ContractState, msg: QueryMsg) -> (r: QueryAnswer)
    requires
        state@.wf(),
    ensures
        msg matches QueryMsg::GetBonsais {} ==> (r matches QueryAnswer::Bonsais(b)
            && b@ == state@.bonsais),
        msg matches QueryMsg::GetGardener { sender } ==> (r matches QueryAnswer::Gardener(og)
            && (match og {
                Some(g) => has_gardener(state@.gardeners, sender@)
                    && g@ == state@.gardeners[gardener_index(state@.gardeners, sender@)],
                None => !has_gardener(state@.gardeners, sender@),
            })),
        msg matches QueryMsg::GetGardeners {} ==> (r matches QueryAnswer::AllGardeners(a)
            && a@ == state@.gardeners),
{
    match msg {
        QueryMsg::GetBonsais {} => QueryAnswer::Bonsais(query_bonsais(state)),
        QueryMsg::GetGardener { sender } => QueryAnswer::Gardener(
            query_gardener(state, &sender),
        ),
        QueryMsg::GetGardeners {} => QueryAnswer::AllGardeners(query_all_gardeners(state)),
    }
}

} // verus!
