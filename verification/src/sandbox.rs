//! The host side of the strategy sandbox: what each call of a guest does to
//! the broker and what it is answered. A guest reaches the broker through
//! these calls alone, and only while its tick runs.
use vstd::prelude::*;
use vstd::slice::slice_subrange;
use crate::broker::{held, offered, Broker, BrokerView};
use crate::order::{Order, OrderDirection, OrderType, OrderView};
use crate::strategy::{lemma_placing_is_allowed, only_placed};

verus! {

/// A call of the guest into the host. Places in the guest's memory are given
/// as the guest gives them; amounts are in millionths.
#[derive(Debug, Clone, Copy, PartialEq, Eq, Structural)]
pub enum HostCall {
    PlaceMarketOrder { asset_ptr: i32, asset_len: i32, direction: i32, size: i64 },
    PlaceLimitOrder { asset_ptr: i32, asset_len: i32, direction: i32, size: i64, price: i64 },
    PlaceStopOrder { asset_ptr: i32, asset_len: i32, direction: i32, size: i64, stop: i64 },
    GetCash,
    GetPosition { asset_ptr: i32, asset_len: i32 },
    Log { ptr: i32, len: i32 },
    Abort,
}

/// What the host answers.
#[derive(Debug, Clone)]
pub enum HostReply {
    /// The call returns nothing.
    Nothing,
    /// The call returns an amount.
    Amount(i64),
    /// The call returns nothing and the host logs a text.
    Message(String),
}

/// The mathematical content of a reply.
pub enum ReplyView {
    Nothing,
    Amount(i64),
    Message(Seq<char>),
}

impl View for HostReply {
    type V = ReplyView;

    open spec fn view(&self) -> ReplyView {
        match self {
            HostReply::Nothing => ReplyView::Nothing,
            HostReply::Amount(a) => ReplyView::Amount(*a),
            HostReply::Message(text) => ReplyView::Message(text@),
        }
    }
}

/// The side that a guest's code stands for: 0 buys, 1 sells, nothing else
/// means anything.
pub open spec fn direction_of(code: i32) -> Option<OrderDirection> {
    if code == 0 {
        Some(OrderDirection::Buy)
    } else if code == 1 {
        Some(OrderDirection::Sell)
    } else {
        None
    }
}

/// Whether `len` bytes from `ptr` on lie inside a memory of `size` bytes.
pub open spec fn in_bounds(ptr: i32, len: i32, size: int) -> bool {
    0 <= ptr && 0 <= len && ptr + len <= size
}

/// The text that `String::from_utf8_lossy` reads from bytes.
pub uninterp spec fn lossy_text(bytes: Seq<u8>) -> Seq<char>;

/// `String::from_utf8_lossy`, its result made a `String` of its own. The
/// contract only names the result: the same bytes always read the same.
#[verifier::external_body]
fn read_lossy(bytes: &[u8]) -> (r: String)
    ensures
        r@ == lossy_text(bytes@),
{
    String::from_utf8_lossy(bytes).into_owned()
}

/// The text at a place of the guest's memory; nothing where the place does
/// not lie inside it.
pub open spec fn text_at(memory: Seq<u8>, ptr: i32, len: i32) -> Option<Seq<char>> {
    if in_bounds(ptr, len, memory.len() as int) {
        Some(lossy_text(memory.subrange(ptr as int, ptr + len)))
    } else {
        None
    }
}

/// The order that a call places, where its place in memory and its side
/// mean something.
pub open spec fn order_of(memory: Seq<u8>, call: HostCall) -> Option<OrderView> {
    match call {
        HostCall::PlaceMarketOrder { asset_ptr, asset_len, direction, size } => match (
            text_at(memory, asset_ptr, asset_len),
            direction_of(direction),
        ) {
            (Some(asset), Some(side)) => Some(
                OrderView {
                    asset,
                    direction: side,
                    size,
                    order_type: OrderType::Market,
                    valid_until: None,
                },
            ),
            _ => None,
        },
        HostCall::PlaceLimitOrder { asset_ptr, asset_len, direction, size, price } => match (
            text_at(memory, asset_ptr, asset_len),
            direction_of(direction),
        ) {
            (Some(asset), Some(side)) => Some(
                OrderView {
                    asset,
                    direction: side,
                    size,
                    order_type: OrderType::Limit(price),
                    valid_until: None,
                },
            ),
            _ => None,
        },
        HostCall::PlaceStopOrder { asset_ptr, asset_len, direction, size, stop } => match (
            text_at(memory, asset_ptr, asset_len),
            direction_of(direction),
        ) {
            (Some(asset), Some(side)) => Some(
                OrderView {
                    asset,
                    direction: side,
                    size,
                    order_type: OrderType::Stop(stop),
                    valid_until: None,
                },
            ),
            _ => None,
        },
        _ => None,
    }
}

/// The broker after a call: a call that places an order offers it to the
/// broker; a call whose place in memory or whose side means nothing is
/// dropped; no other call changes anything.
pub open spec fn served_state(b: BrokerView, memory: Seq<u8>, call: HostCall) -> BrokerView {
    match order_of(memory, call) {
        Some(o) => offered(b, o),
        None => b,
    }
}

/// What a call is answered: the cash, the quantity held of a symbol, which
/// is zero for a symbol that is not held or cannot be read, the text to
/// log, or nothing.
pub open spec fn served_reply(b: BrokerView, memory: Seq<u8>, call: HostCall) -> ReplyView {
    match call {
        HostCall::GetCash => ReplyView::Amount(b.cash),
        HostCall::GetPosition { asset_ptr, asset_len } => match text_at(
            memory,
            asset_ptr,
            asset_len,
        ) {
            Some(asset) => ReplyView::Amount(held(b.portfolio, asset) as i64),
            None => ReplyView::Amount(0),
        },
        HostCall::Log { ptr, len } => match text_at(memory, ptr, len) {
            Some(text) => ReplyView::Message(text),
            None => ReplyView::Nothing,
        },
        _ => ReplyView::Nothing,
    }
}

/// The side that a guest's code stands for.
pub fn decode_direction(code: i32) -> (r: Option<OrderDirection>)
    ensures
        r == direction_of(code),
{
    if code == 0 {
        Some(OrderDirection::Buy)
    } else if code == 1 {
        Some(OrderDirection::Sell)
    } else {
        None
    }
}

/// Reads the text at a place of the guest's memory.
pub fn read_string_from_memory(memory: &[u8], ptr: i32, len: i32) -> (r: Option<String>)
    ensures
        match r {
            Some(text) => text_at(memory@, ptr, len) == Some(text@),
            None => text_at(memory@, ptr, len).is_none(),
        },
{
    if ptr < 0 || len < 0 {
        return None;
    }
    let start: usize = ptr as usize;
    let count: usize = len as usize;
    if start > memory.len() || count > memory.len() - start {
        return None;
    }
    Some(read_lossy(slice_subrange(memory, start, start + count)))
}

/// Builds the order of a call that places one.
fn build_order(memory: &[u8], asset_ptr: i32, asset_len: i32, direction: i32, size: i64, kind: OrderType) -> (r:
    Option<Order>)
    ensures
        match r {
            Some(order) => text_at(memory@, asset_ptr, asset_len) == Some(order@.asset)
                && direction_of(direction) == Some(order@.direction) && order@.size == size
                && order@.order_type == kind && order@.valid_until.is_none(),
            None => text_at(memory@, asset_ptr, asset_len).is_none() || direction_of(
                direction,
            ).is_none(),
        },
{
    let asset: String = match read_string_from_memory(memory, asset_ptr, asset_len) {
        Some(text) => text,
        None => { return None; },
    };
    let side: OrderDirection = match decode_direction(direction) {
        Some(d) => d,
        None => { return None; },
    };
    Some(Order { asset, direction: side, size, order_type: kind, valid_until: None })
}

/// Offers an order to the broker.
fn offer(broker: &mut Broker, order: Option<Order>)
    requires
        old(broker).wf(),
    ensures
        final(broker).wf(),
        final(broker)@ == (match order {
            Some(o) => offered(old(broker)@, o@),
            None => old(broker)@,
        }),
        only_placed(old(broker)@, final(broker)@),
{
    proof {
        assert(old(broker)@.orders.take(old(broker)@.orders.len() as int) =~= old(broker)@.orders);
    }
    match order {
        Some(o) => {
            let accepted: bool = broker.place_order(o);
            proof {
                if accepted {
                    assert(broker@.orders.drop_last() =~= old(broker)@.orders);
                    lemma_placing_is_allowed(old(broker)@, broker@);
                }
            }
        },
        None => {},
    }
}

/// Serves one call of the guest: the broker moves and the guest is answered
/// as `served_state` and `served_reply` say. Whatever the call, the broker
/// differs afterwards by orders placed and by nothing else.
pub fn serve(broker: &mut Broker, memory: &[u8], call: HostCall) -> (reply: HostReply)
    requires
        old(broker).wf(),
    ensures
        final(broker).wf(),
        final(broker)@ == served_state(old(broker)@, memory@, call),
        reply@ == served_reply(old(broker)@, memory@, call),
        only_placed(old(broker)@, final(broker)@),
{
    proof {
        assert(old(broker)@.orders.take(old(broker)@.orders.len() as int) =~= old(broker)@.orders);
    }
    match call {
        HostCall::PlaceMarketOrder { asset_ptr, asset_len, direction, size } => {
            let order: Option<Order> = build_order(
                memory,
                asset_ptr,
                asset_len,
                direction,
                size,
                OrderType::Market,
            );
            offer(broker, order);
            HostReply::Nothing
        },
        HostCall::PlaceLimitOrder { asset_ptr, asset_len, direction, size, price } => {
            let order: Option<Order> = build_order(
                memory,
                asset_ptr,
                asset_len,
                direction,
                size,
                OrderType::Limit(price),
            );
            offer(broker, order);
            HostReply::Nothing
        },
        HostCall::PlaceStopOrder { asset_ptr, asset_len, direction, size, stop } => {
            let order: Option<Order> = build_order(
                memory,
                asset_ptr,
                asset_len,
                direction,
                size,
                OrderType::Stop(stop),
            );
            offer(broker, order);
            HostReply::Nothing
        },
        HostCall::GetCash => HostReply::Amount(broker.cash()),
        HostCall::GetPosition { asset_ptr, asset_len } => {
            match read_string_from_memory(memory, asset_ptr, asset_len) {
                Some(asset) => HostReply::Amount(broker.position_quantity(&asset)),
                None => HostReply::Amount(0),
            }
        },
        HostCall::Log { ptr, len } => {
            match read_string_from_memory(memory, ptr, len) {
                Some(text) => HostReply::Message(text),
                None => HostReply::Nothing,
            }
        },
        HostCall::Abort => HostReply::Nothing,
    }
}

} // verus!
