//! The data model: money, bonsais, the item pool grown at genesis, and
//! gardener profiles, together with the spec-level views and well-formedness
//! conditions that the transition engine's contracts are written over.

use vstd::prelude::*;

use crate::addr::{Addr, bytes_lt};

verus! {

// ---------------------------------------------------------------------------
// Money
// ---------------------------------------------------------------------------

/// An amount of one currency. Two amounts compare only when their
/// denominations match; a mismatch is a failed funds check, never a zero
/// comparison.
#[derive(Debug, PartialEq)]
pub struct Coin {
    pub amount: u128,
    pub denom: String,
}

#[verifier::ext_equal]
pub ghost struct CoinView {
    pub amount: u128,
    pub denom: Seq<char>,
}

impl View for Coin {
    type V = CoinView;

    open spec fn view(&self) -> CoinView {
        CoinView { amount: self.amount, denom: self.denom@ }
    }
}

impl DeepView for Coin {
    type V = CoinView;

    open spec fn deep_view(&self) -> CoinView {
        self@
    }
}

impl Coin {
    pub fn new(amount: u128, denom: String) -> (r: Coin)
        ensures
            r@ == (CoinView { amount, denom: denom@ }),
    {
        Coin { amount, denom }
    }
}

impl Clone for Coin {
    fn clone(&self) -> (r: Self)
        ensures
            r@ == self@,
    {
        Coin { amount: self.amount, denom: self.denom.clone() }
    }
}

// ---------------------------------------------------------------------------
// Bonsais and the pool
// ---------------------------------------------------------------------------

/// A single bonsai: a uniquely identified item with the block height it was
/// grown at and its price.
#[derive(Debug, PartialEq)]
pub struct Bonsai {
    pub id: u64,
    /// Block height at which the bonsai was grown.
    pub birth_date: u64,
    pub price: Coin,
}

#[verifier::ext_equal]
pub ghost struct BonsaiView {
    pub id: u64,
    pub birth_date: u64,
    pub price: CoinView,
}

impl View for Bonsai {
    type V = BonsaiView;

    open spec fn view(&self) -> BonsaiView {
        BonsaiView { id: self.id, birth_date: self.birth_date, price: self.price@ }
    }
}

impl DeepView for Bonsai {
    type V = BonsaiView;

    open spec fn deep_view(&self) -> BonsaiView {
        self@
    }
}

impl Bonsai {
    pub fn new(id: u64, birth_date: u64, price: Coin) -> (r: Bonsai)
        ensures
            r@ == (BonsaiView { id, birth_date, price: price@ }),
    {
        Bonsai { id, birth_date, price }
    }
}

impl Clone for Bonsai {
    fn clone(&self) -> (r: Self)
        ensures
            r@ == self@,
    {
        Bonsai { id: self.id, birth_date: self.birth_date, price: self.price.clone() }
    }
}

/// True when some bonsai in `bs` carries `id`.
pub open spec fn has_bonsai(bs: Seq<BonsaiView>, id: u64) -> bool {
    exists|i: int| 0 <= i < bs.len() && bs[i].id == id
}

/// The index of the bonsai carrying `id`; meaningful under `has_bonsai` and,
/// under `distinct_ids`, the only such index.
pub open spec fn bonsai_index(bs: Seq<BonsaiView>, id: u64) -> int {
    choose|i: int| 0 <= i < bs.len() && bs[i].id == id
}

/// No two bonsais in `bs` share an identifier.
pub open spec fn distinct_ids(bs: Seq<BonsaiView>) -> bool {
    forall|i: int, j: int| 0 <= i < j < bs.len() ==> bs[i].id != bs[j].id
}

/// Under `distinct_ids`, any index holding `id` is `bonsai_index`.
pub proof fn lemma_bonsai_index_unique(bs: Seq<BonsaiView>, id: u64, i: int)
    requires
        distinct_ids(bs),
        0 <= i < bs.len(),
        bs[i].id == id,
    ensures
        has_bonsai(bs, id),
        bonsai_index(bs, id) == i,
{
    assert(has_bonsai(bs, id));
    let j = bonsai_index(bs, id);
    if i != j {
        assert(bs[i].id != bs[j].id);
    }
}

/// Removing the only bonsai that carries `id` leaves no bonsai with `id`.
pub proof fn lemma_remove_bonsai_id_gone(bs: Seq<BonsaiView>, id: u64, i: int)
    requires
        distinct_ids(bs),
        0 <= i < bs.len(),
        bs[i].id == id,
    ensures
        !has_bonsai(bs.remove(i), id),
        distinct_ids(bs.remove(i)),
        forall|x: u64| has_bonsai(bs.remove(i), x) ==> has_bonsai(bs, x),
{
    let r = bs.remove(i);
    assert forall|k: int| 0 <= k < r.len() implies r[k].id != id by {
        if k < i {
            assert(r[k] == bs[k]);
        } else {
            assert(r[k] == bs[k + 1]);
        }
    }
    assert forall|p: int, q: int| 0 <= p < q < r.len() implies r[p].id != r[q].id by {
        let p0 = if p < i { p } else { p + 1 };
        let q0 = if q < i { q } else { q + 1 };
        assert(r[p] == bs[p0]);
        assert(r[q] == bs[q0]);
    }
    assert forall|x: u64| has_bonsai(r, x) implies has_bonsai(bs, x) by {
        let k = choose|k: int| 0 <= k < r.len() && r[k].id == x;
        let k0 = if k < i { k } else { k + 1 };
        assert(bs[k0].id == x);
    }
}

/// Whatever is present after removing one bonsai was present before.
pub proof fn lemma_has_bonsai_remove(bs: Seq<BonsaiView>, i: int, x: u64)
    requires
        0 <= i < bs.len(),
    ensures
        has_bonsai(bs.remove(i), x) ==> has_bonsai(bs, x),
{
    let r = bs.remove(i);
    if has_bonsai(r, x) {
        let k = choose|k: int| 0 <= k < r.len() && r[k].id == x;
        let k0 = if k < i { k } else { k + 1 };
        assert(r[k] == bs[k0]);
        assert(bs[k0].id == x);
    }
}

/// Appending a bonsai adds exactly its identifier to the set present.
pub proof fn lemma_has_bonsai_push(bs: Seq<BonsaiView>, b: BonsaiView, x: u64)
    ensures
        has_bonsai(bs.push(b), x) == (has_bonsai(bs, x) || b.id == x),
{
    let p = bs.push(b);
    if has_bonsai(p, x) {
        let k = choose|k: int| 0 <= k < p.len() && p[k].id == x;
        if k < bs.len() {
            assert(bs[k].id == x);
        } else {
            assert(p[k] == b);
        }
    }
    if has_bonsai(bs, x) {
        let k = choose|k: int| 0 <= k < bs.len() && bs[k].id == x;
        assert(p[k].id == x);
    }
    if b.id == x {
        assert(p[bs.len() as int].id == x);
    }
}

/// Appending a bonsai whose identifier is fresh keeps identifiers distinct.
pub proof fn lemma_distinct_push(bs: Seq<BonsaiView>, b: BonsaiView)
    requires
        distinct_ids(bs),
        !has_bonsai(bs, b.id),
    ensures
        distinct_ids(bs.push(b)),
{
    let p = bs.push(b);
    assert forall|i: int, j: int| 0 <= i < j < p.len() implies p[i].id != p[j].id by {
        if j < bs.len() {
            assert(p[i] == bs[i]);
            assert(p[j] == bs[j]);
        } else {
            assert(p[j] == b);
            assert(p[i] == bs[i]);
            assert(bs[i].id == p[i].id);
        }
    }
}

/// Finds the index of the first bonsai with `id`.
pub fn find_bonsai_idx(bs: &Vec<Bonsai>, id: u64) -> (r: Option<usize>)
    ensures
        match r {
            Some(i) => 0 <= i < bs.deep_view().len() && bs.deep_view()[i as int].id == id
                && (forall|j: int| 0 <= j < i ==> bs.deep_view()[j].id != id),
            None => !has_bonsai(bs.deep_view(), id),
        },
{
    let ghost dv = bs.deep_view();
    let mut i: usize = 0;
    while i < bs.len()
        invariant
            i <= bs.len(),
            dv == bs.deep_view(),
            dv.len() == bs.len(),
            forall|j: int| 0 <= j < i ==> dv[j].id != id,
        decreases bs.len() - i,
    {
        if bs[i].id == id {
            assert(dv[i as int].id == id);
            return Some(i);
        }
        assert(dv[i as int].id != id);
        i = i + 1;
    }
    None
}

/// Decides whether some bonsai in `bs` carries `id`.
pub fn contains_bonsai(bs: &Vec<Bonsai>, id: u64) -> (r: bool)
    ensures
        r == has_bonsai(bs.deep_view(), id),
{
    match find_bonsai_idx(bs, id) {
        Some(i) => {
            proof {
                assert(has_bonsai(bs.deep_view(), id));
            }
            true
        },
        None => false,
    }
}

/// Decides `distinct_ids` for a bonsai vector.
pub fn check_distinct_ids(bs: &Vec<Bonsai>) -> (r: bool)
    ensures
        r == distinct_ids(bs.deep_view()),
{
    let ghost dv = bs.deep_view();
    let mut i: usize = 0;
    while i < bs.len()
        invariant
            i <= bs.len(),
            dv == bs.deep_view(),
            dv.len() == bs.len(),
            forall|p: int, q: int| 0 <= p < q < i ==> dv[p].id != dv[q].id,
        decreases bs.len() - i,
    {
        let mut j: usize = 0;
        while j < i
            invariant
                j <= i < bs.len(),
                dv == bs.deep_view(),
                dv.len() == bs.len(),
                forall|p: int| 0 <= p < j ==> dv[p].id != dv[i as int].id,
            decreases i - j,
        {
            if bs[j].id == bs[i].id {
                proof {
                    assert(dv[j as int].id == dv[i as int].id);
                    assert(!distinct_ids(dv));
                }
                return false;
            }
            proof {
                assert(dv[j as int].id != dv[i as int].id);
            }
            j = j + 1;
        }
        i = i + 1;
    }
    true
}

/// Decides whether no identifier owned in `a` also occurs in `b`.
pub fn check_disjoint(a: &Vec<Bonsai>, b: &Vec<Bonsai>) -> (r: bool)
    ensures
        r == (forall|x: u64| has_bonsai(a.deep_view(), x) ==> !has_bonsai(b.deep_view(), x)),
{
    let ghost av = a.deep_view();
    let ghost bv = b.deep_view();
    let mut i: usize = 0;
    while i < a.len()
        invariant
            i <= a.len(),
            av == a.deep_view(),
            bv == b.deep_view(),
            av.len() == a.len(),
            forall|p: int| 0 <= p < i ==> !has_bonsai(bv, (#[trigger] av[p]).id),
        decreases a.len() - i,
    {
        if contains_bonsai(b, a[i].id) {
            proof {
                assert(has_bonsai(bv, av[i as int].id));
                assert(has_bonsai(av, av[i as int].id));
            }
            return false;
        }
        proof {
            assert(!has_bonsai(bv, av[i as int].id));
        }
        i = i + 1;
    }
    proof {
        assert forall|x: u64| has_bonsai(av, x) implies !has_bonsai(bv, x) by {
            let k = choose|k: int| 0 <= k < av.len() && av[k].id == x;
            assert(!has_bonsai(bv, av[k].id));
        }
    }
    true
}

/// The pool of unsold bonsais, in the order they were grown.
#[derive(Debug, PartialEq)]
pub struct BonsaiList {
    pub bonsais: Vec<Bonsai>,
}

impl View for BonsaiList {
    type V = Seq<BonsaiView>;

    open spec fn view(&self) -> Seq<BonsaiView> {
        self.bonsais.deep_view()
    }
}

/// The pool that genesis grows: `number` bonsais with identifiers `0` up to
/// `number - 1`, all stamped with the same birth height and price.
pub open spec fn spec_grow(number: u64, birth_date: u64, price: CoinView) -> Seq<BonsaiView> {
    Seq::new(
        number as nat,
        |i: int| BonsaiView { id: i as u64, birth_date, price },
    )
}

impl BonsaiList {
    /// Grow `number` bonsais with distinct identifiers, one price and one
    /// birth height.
    pub fn grow_bonsais(number: u64, birth_date: u64, price: Coin) -> (r: BonsaiList)
        requires
            number <= usize::MAX,
        ensures
            r@ == spec_grow(number, birth_date, price@),
    {
        let mut bonsais: Vec<Bonsai> = Vec::new();
        let mut i: u64 = 0;
        while i < number
            invariant
                i <= number,
                bonsais@.len() == i,
                bonsais.deep_view() =~= spec_grow(i, birth_date, price@),
            decreases number - i,
        {
            let ghost pdv = bonsais.deep_view();
            bonsais.push(Bonsai::new(i, birth_date, price.clone()));
            assert forall|j: int| 0 <= j < i implies
                #[trigger] bonsais.deep_view()[j]
                    == spec_grow((i + 1) as u64, birth_date, price@)[j] by {
                assert(pdv[j] == spec_grow(i, birth_date, price@)[j]);
            }
            assert(bonsais.deep_view() =~= spec_grow((i + 1) as u64, birth_date, price@));
            i = i + 1;
        }
        BonsaiList { bonsais }
    }
}

impl Clone for BonsaiList {
    fn clone(&self) -> (r: Self)
        ensures
            r@ == self@,
    {
        BonsaiList { bonsais: clone_bonsai_vec(&self.bonsais) }
    }
}

/// Element-wise copy of a bonsai vector, preserving the view.
pub fn clone_bonsai_vec(bs: &Vec<Bonsai>) -> (r: Vec<Bonsai>)
    ensures
        r.deep_view() == bs.deep_view(),
{
    let mut copy: Vec<Bonsai> = Vec::new();
    let mut i: usize = 0;
    while i < bs.len()
        invariant
            i <= bs.len(),
            copy@.len() == i,
            copy.deep_view() =~= bs.deep_view().subrange(0, i as int),
        decreases bs.len() - i,
    {
        copy.push(bs[i].clone());
        assert(copy.deep_view() =~= bs.deep_view().subrange(0, i + 1 as int));
        i = i + 1;
    }
    assert(copy.deep_view() =~= bs.deep_view());
    copy
}

// ---------------------------------------------------------------------------
// Gardeners
// ---------------------------------------------------------------------------

/// A registered participant: a display name, the identity the profile is
/// keyed by, and the bonsais the participant owns.
#[derive(Debug, PartialEq)]
pub struct Gardener {
    pub name: String,
    pub address: Addr,
    pub bonsais: Vec<Bonsai>,
}

#[verifier::ext_equal]
pub ghost struct GardenerView {
    pub name: Seq<char>,
    pub address: Seq<u8>,
    pub bonsais: Seq<BonsaiView>,
}

impl View for Gardener {
    type V = GardenerView;

    open spec fn view(&self) -> GardenerView {
        GardenerView {
            name: self.name@,
            address: self.address@,
            bonsais: self.bonsais.deep_view(),
        }
    }
}

impl DeepView for Gardener {
    type V = GardenerView;

    open spec fn deep_view(&self) -> GardenerView {
        self@
    }
}

impl Gardener {
    pub fn new(name: String, address: Addr, bonsais: Vec<Bonsai>) -> (r: Gardener)
        ensures
            r@ == (GardenerView {
                name: name@,
                address: address@,
                bonsais: bonsais.deep_view(),
            }),
    {
        Gardener { name, address, bonsais }
    }
}

impl Clone for Gardener {
    fn clone(&self) -> (r: Self)
        ensures
            r@ == self@,
    {
        Gardener {
            name: self.name.clone(),
            address: self.address.clone(),
            bonsais: clone_bonsai_vec(&self.bonsais),
        }
    }
}

/// True when a profile keyed by `addr` is in the ledger.
pub open spec fn has_gardener(gs: Seq<GardenerView>, addr: Seq<u8>) -> bool {
    exists|i: int| 0 <= i < gs.len() && gs[i].address == addr
}

/// The index of the profile keyed by `addr`; meaningful under
/// `has_gardener` and, under `gardeners_sorted`, the only such index.
pub open spec fn gardener_index(gs: Seq<GardenerView>, addr: Seq<u8>) -> int {
    choose|i: int| 0 <= i < gs.len() && gs[i].address == addr
}

/// The ledger is kept in strictly ascending address order, so no identity
/// appears twice.
pub open spec fn gardeners_sorted(gs: Seq<GardenerView>) -> bool {
    forall|i: int, j: int|
        0 <= i < j < gs.len() ==> bytes_lt(gs[i].address, gs[j].address)
}

/// Under sortedness, any index keyed by `addr` is `gardener_index`.
pub proof fn lemma_gardener_index_unique(gs: Seq<GardenerView>, addr: Seq<u8>, i: int)
    requires
        gardeners_sorted(gs),
        0 <= i < gs.len(),
        gs[i].address == addr,
    ensures
        has_gardener(gs, addr),
        gardener_index(gs, addr) == i,
{
    assert(has_gardener(gs, addr));
    let j = gardener_index(gs, addr);
    if i != j {
        if i < j {
            crate::addr::lemma_bytes_lt_trichotomy(gs[i].address, gs[j].address);
        } else {
            crate::addr::lemma_bytes_lt_trichotomy(gs[j].address, gs[i].address);
        }
    }
}

/// A chain of adjacent orderings composes, by transitivity.
proof fn lemma_address_chain(gs: Seq<GardenerView>, i: int, j: int)
    requires
        forall|k: int| 0 <= k < gs.len() - 1 ==> bytes_lt(
            (#[trigger] gs[k]).address,
            gs[k + 1].address,
        ),
        0 <= i < j < gs.len(),
    ensures
        bytes_lt(gs[i].address, gs[j].address),
    decreases j - i,
{
    if j == i + 1 {
    } else {
        lemma_address_chain(gs, i, j - 1);
        crate::addr::lemma_bytes_lt_transitive(gs[i].address, gs[j - 1].address, gs[j].address);
    }
}

/// A ledger whose every adjacent pair is ordered is sorted.
pub proof fn lemma_adjacent_sorted(gs: Seq<GardenerView>)
    requires
        forall|k: int| 0 <= k < gs.len() - 1 ==> bytes_lt(
            (#[trigger] gs[k]).address,
            gs[k + 1].address,
        ),
    ensures
        gardeners_sorted(gs),
{
    assert forall|i: int, j: int| 0 <= i < j < gs.len() implies
        bytes_lt(gs[i].address, gs[j].address) by {
        lemma_address_chain(gs, i, j);
    }
}

/// Decides `gardeners_sorted` for a gardener vector.
pub fn check_gardeners_sorted(gs: &Vec<Gardener>) -> (r: bool)
    ensures
        r == gardeners_sorted(gs.deep_view()),
{
    let ghost dv = gs.deep_view();
    if gs.len() == 0 {
        return true;
    }
    let mut i: usize = 0;
    while i < gs.len() - 1
        invariant
            gs.len() > 0,
            i <= gs.len() - 1,
            dv == gs.deep_view(),
            dv.len() == gs.len(),
            forall|k: int| 0 <= k < i ==> bytes_lt((#[trigger] dv[k]).address, dv[k + 1].address),
        decreases gs.len() - i,
    {
        proof {
            assert(dv[i as int] == gs@[i as int].deep_view());
            assert(dv[i + 1] == gs@[i + 1].deep_view());
        }
        if !crate::addr::addr_lt(&gs[i].address, &gs[i + 1].address) {
            proof {
                assert(!bytes_lt(dv[i as int].address, dv[i + 1].address));
                assert(!gardeners_sorted(dv));
            }
            return false;
        }
        i = i + 1;
    }
    proof {
        lemma_adjacent_sorted(dv);
    }
    true
}

/// Finds the index of the first profile keyed by `addr`.
pub fn find_gardener_idx(gs: &Vec<Gardener>, addr: &Addr) -> (r: Option<usize>)
    ensures
        match r {
            Some(i) => 0 <= i < gs.deep_view().len() && gs.deep_view()[i as int].address == addr@
                && (forall|j: int| 0 <= j < i ==> gs.deep_view()[j].address != addr@),
            None => !has_gardener(gs.deep_view(), addr@),
        },
{
    let ghost dv = gs.deep_view();
    let mut i: usize = 0;
    while i < gs.len()
        invariant
            i <= gs.len(),
            dv == gs.deep_view(),
            dv.len() == gs.len(),
            forall|j: int| 0 <= j < i ==> dv[j].address != addr@,
        decreases gs.len() - i,
    {
        if crate::addr::addr_eq(&gs[i].address, addr) {
            assert(dv[i as int].address == addr@);
            return Some(i);
        }
        assert(dv[i as int].address != addr@);
        i = i + 1;
    }
    None
}

/// Element-wise copy of a gardener vector, preserving the view.
pub fn clone_gardener_vec(gs: &Vec<Gardener>) -> (r: Vec<Gardener>)
    ensures
        r.deep_view() == gs.deep_view(),
{
    let mut copy: Vec<Gardener> = Vec::new();
    let mut i: usize = 0;
    while i < gs.len()
        invariant
            i <= gs.len(),
            copy@.len() == i,
            copy.deep_view() =~= gs.deep_view().subrange(0, i as int),
        decreases gs.len() - i,
    {
        copy.push(gs[i].clone());
        assert(copy.deep_view() =~= gs.deep_view().subrange(0, i + 1 as int));
        i = i + 1;
    }
    assert(copy.deep_view() =~= gs.deep_view());
    copy
}

} // verus!
