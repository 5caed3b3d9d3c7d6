//! Message payloads, call context, and the structured responses the engine
//! emits. Encoding these into and out of wire envelopes is an external
//! concern; here they are plain values with spec-level views.

use vstd::prelude::*;

use crate::addr::Addr;
use crate::state::{BonsaiList, Coin, CoinView, Gardener, GardenerView};

verus! {

// ---------------------------------------------------------------------------
// Call context
// ---------------------------------------------------------------------------

/// Block metadata and the contract's own account, supplied by the host
/// dispatcher with every call.
#[derive(Debug, PartialEq)]
pub struct Env {
    pub block_height: u64,
    pub contract_address: Addr,
}

#[verifier::ext_equal]
pub ghost struct EnvView {
    pub block_height: u64,
    pub contract_address: Seq<u8>,
}

impl View for Env {
    type V = EnvView;

    open spec fn view(&self) -> EnvView {
        EnvView {
            block_height: self.block_height,
            contract_address: self.contract_address@,
        }
    }
}

/// The authenticated caller and the funds sent along with the message.
#[derive(Debug, PartialEq)]
pub struct MessageInfo {
    pub sender: Addr,
    pub sent_funds: Vec<Coin>,
}

#[verifier::ext_equal]
pub ghost struct MessageInfoView {
    pub sender: Seq<u8>,
    pub sent_funds: Seq<CoinView>,
}

impl View for MessageInfo {
    type V = MessageInfoView;

    open spec fn view(&self) -> MessageInfoView {
        MessageInfoView { sender: self.sender@, sent_funds: self.sent_funds.deep_view() }
    }
}

// ---------------------------------------------------------------------------
// Operation payloads
// ---------------------------------------------------------------------------

/// Genesis parameters: how many bonsais to grow and at what unit price.
#[derive(Debug, PartialEq)]
pub struct InitMsg {
    pub price: Coin,
    pub number: u64,
}

#[verifier::ext_equal]
pub ghost struct InitMsgView {
    pub price: CoinView,
    pub number: u64,
}

impl View for InitMsg {
    type V = InitMsgView;

    open spec fn view(&self) -> InitMsgView {
        InitMsgView { price: self.price@, number: self.number }
    }
}

/// The four state-changing operations.
#[derive(Debug, PartialEq)]
pub enum HandleMsg {
    BecomeGardener { name: String },
    BuyBonsai { b_id: u64 },
    SellBonsai { recipient: Addr, b_id: u64 },
    CutBonsai { b_id: u64 },
}

#[verifier::ext_equal]
pub ghost enum HandleMsgView {
    BecomeGardener { name: Seq<char> },
    BuyBonsai { b_id: u64 },
    SellBonsai { recipient: Seq<u8>, b_id: u64 },
    CutBonsai { b_id: u64 },
}

impl View for HandleMsg {
    type V = HandleMsgView;

    open spec fn view(&self) -> HandleMsgView {
        match self {
            HandleMsg::BecomeGardener { name } => HandleMsgView::BecomeGardener { name: name@ },
            HandleMsg::BuyBonsai { b_id } => HandleMsgView::BuyBonsai { b_id: *b_id },
            HandleMsg::SellBonsai { recipient, b_id } => HandleMsgView::SellBonsai {
                recipient: recipient@,
                b_id: *b_id,
            },
            HandleMsg::CutBonsai { b_id } => HandleMsgView::CutBonsai { b_id: *b_id },
        }
    }
}

/// The read-only views over the state.
#[derive(Debug, PartialEq)]
pub enum QueryMsg {
    GetBonsais {},
    GetGardener { sender: Addr },
    GetGardeners {},
}

// ---------------------------------------------------------------------------
// Events and settlement instructions
// ---------------------------------------------------------------------------

/// The value of one event attribute: a piece of text, a number, or an
/// address.
#[derive(Debug, PartialEq)]
pub enum AttrValue {
    Text(String),
    Number(u128),
    Address(Addr),
}

#[verifier::ext_equal]
pub ghost enum AttrValueView {
    Text(Seq<char>),
    Number(u128),
    Address(Seq<u8>),
}

impl View for AttrValue {
    type V = AttrValueView;

    open spec fn view(&self) -> AttrValueView {
        match self {
            AttrValue::Text(s) => AttrValueView::Text(s@),
            AttrValue::Number(n) => AttrValueView::Number(*n),
            AttrValue::Address(a) => AttrValueView::Address(a@),
        }
    }
}

impl DeepView for AttrValue {
    type V = AttrValueView;

    open spec fn deep_view(&self) -> AttrValueView {
        self@
    }
}

/// One key/value entry of an operation's event log.
#[derive(Debug, PartialEq)]
pub struct Attribute {
    pub key: String,
    pub value: AttrValue,
}

#[verifier::ext_equal]
pub ghost struct AttributeView {
    pub key: Seq<char>,
    pub value: AttrValueView,
}

impl View for Attribute {
    type V = AttributeView;

    open spec fn view(&self) -> AttributeView {
        AttributeView { key: self.key@, value: self.value@ }
    }
}

impl DeepView for Attribute {
    type V = AttributeView;

    open spec fn deep_view(&self) -> AttributeView {
        self@
    }
}

impl Attribute {
    /// A text-valued attribute.
    pub fn text(key: &str, value: &str) -> (r: Attribute)
        ensures
            r@ == (AttributeView { key: key@, value: AttrValueView::Text(value@) }),
    {
        Attribute { key: key.to_owned(), value: AttrValue::Text(value.to_owned()) }
    }

    /// A numeric attribute.
    pub fn number(key: &str, value: u128) -> (r: Attribute)
        ensures
            r@ == (AttributeView { key: key@, value: AttrValueView::Number(value) }),
    {
        Attribute { key: key.to_owned(), value: AttrValue::Number(value) }
    }

    /// An address-valued attribute.
    pub fn address(key: &str, value: Addr) -> (r: Attribute)
        ensures
            r@ == (AttributeView { key: key@, value: AttrValueView::Address(value@) }),
    {
        Attribute { key: key.to_owned(), value: AttrValue::Address(value) }
    }
}

/// A settlement instruction: move `amount` from one account to another. The
/// actual fund movement is executed by the host ledger, not by this engine.
#[derive(Debug, PartialEq)]
pub enum BankMsg {
    Send { from_address: Addr, to_address: Addr, amount: Vec<Coin> },
}

#[verifier::ext_equal]
pub ghost enum BankMsgView {
    Send { from_address: Seq<u8>, to_address: Seq<u8>, amount: Seq<CoinView> },
}

impl View for BankMsg {
    type V = BankMsgView;

    open spec fn view(&self) -> BankMsgView {
        match self {
            BankMsg::Send { from_address, to_address, amount } => BankMsgView::Send {
                from_address: from_address@,
                to_address: to_address@,
                amount: amount.deep_view(),
            },
        }
    }
}

impl DeepView for BankMsg {
    type V = BankMsgView;

    open spec fn deep_view(&self) -> BankMsgView {
        self@
    }
}

// ---------------------------------------------------------------------------
// Responses
// ---------------------------------------------------------------------------

/// What genesis reports back: settlement instructions (none) and an event
/// log.
#[derive(Debug, PartialEq)]
pub struct InitResponse {
    pub messages: Vec<BankMsg>,
    pub attributes: Vec<Attribute>,
}

#[verifier::ext_equal]
pub ghost struct InitResponseView {
    pub messages: Seq<BankMsgView>,
    pub attributes: Seq<AttributeView>,
}

impl View for InitResponse {
    type V = InitResponseView;

    open spec fn view(&self) -> InitResponseView {
        InitResponseView {
            messages: self.messages.deep_view(),
            attributes: self.attributes.deep_view(),
        }
    }
}

impl Default for InitResponse {
    fn default() -> (r: Self)
        ensures
            r@ == (InitResponseView { messages: Seq::empty(), attributes: Seq::empty() }),
    {
        let r = InitResponse { messages: Vec::new(), attributes: Vec::new() };
        proof {
            assert(r.messages.deep_view() =~= Seq::<BankMsgView>::empty());
            assert(r.attributes.deep_view() =~= Seq::<AttributeView>::empty());
        }
        r
    }
}

/// What a state-changing operation reports back: settlement instructions, an
/// event log, and an optional opaque payload (always absent here).
#[derive(Debug, PartialEq)]
pub struct HandleResponse {
    pub messages: Vec<BankMsg>,
    pub attributes: Vec<Attribute>,
    pub data: Option<Vec<u8>>,
}

#[verifier::ext_equal]
pub ghost struct HandleResponseView {
    pub messages: Seq<BankMsgView>,
    pub attributes: Seq<AttributeView>,
    pub data: Option<Seq<u8>>,
}

impl View for HandleResponse {
    type V = HandleResponseView;

    open spec fn view(&self) -> HandleResponseView {
        HandleResponseView {
            messages: self.messages.deep_view(),
            attributes: self.attributes.deep_view(),
            data: match &self.data {
                Some(d) => Some(d@),
                None => None,
            },
        }
    }
}

impl Default for HandleResponse {
    fn default() -> (r: Self)
        ensures
            r@ == (HandleResponseView {
                messages: Seq::empty(),
                attributes: Seq::empty(),
                data: None,
            }),
    {
        let r = HandleResponse { messages: Vec::new(), attributes: Vec::new(), data: None };
        proof {
            assert(r.messages.deep_view() =~= Seq::<BankMsgView>::empty());
            assert(r.attributes.deep_view() =~= Seq::<AttributeView>::empty());
        }
        r
    }
}

/// All registered profiles, in ascending identity order.
#[derive(Debug, PartialEq)]
pub struct AllGardenersResponse {
    pub gardeners: Vec<Gardener>,
}

impl View for AllGardenersResponse {
    type V = Seq<GardenerView>;

    open spec fn view(&self) -> Seq<GardenerView> {
        self.gardeners.deep_view()
    }
}

/// The answer to a query, one variant per query kind. Encoding it into a
/// wire payload is the dispatcher's concern.
#[derive(Debug, PartialEq)]
pub enum QueryAnswer {
    Bonsais(BonsaiList),
    Gardener(Option<Gardener>),
    AllGardeners(AllGardenersResponse),
}

} // verus!
