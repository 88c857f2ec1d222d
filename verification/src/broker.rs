//! The simulated broker: a cash account, holdings and a book of pending
//! orders, executed against the opening price of each tick.
use vstd::prelude::*;
use crate::data::OHLCVData;
use crate::fee::{charge, fee_on, FeeType};
use crate::fixed::{add_fixed, adjust, adjusted, fits, mul_fixed, product, sub_fixed, weighted_mean};
use crate::order::{expired, triggers, Order, OrderDirection, OrderView};
use crate::position::Position;
use crate::slippage::{draw_pool, pool_of, within, POOL_SIZE};

verus! {

/// Running totals kept for reporting.
#[derive(Debug, Clone, Copy, PartialEq, Eq, Structural)]
pub struct BrokerAnalytics {
    pub added_funds: i64,
    pub total_placed_orders: u64,
    pub total_exec_orders: u64,
    pub total_fees: i64,
    pub total_slippage: i64,
}

impl BrokerAnalytics {
    pub fn new() -> (r: BrokerAnalytics)
        ensures
            r.added_funds == 0,
            r.total_placed_orders == 0,
            r.total_exec_orders == 0,
            r.total_fees == 0,
            r.total_slippage == 0,
    {
        BrokerAnalytics {
            added_funds: 0,
            total_placed_orders: 0,
            total_exec_orders: 0,
            total_fees: 0,
            total_slippage: 0,
        }
    }
}

/// Why an order could not be executed.
#[derive(Debug, Clone, Copy, PartialEq, Eq, Structural)]
pub enum ExecutionError {
    /// A buy costs more than the cash at hand.
    InsufficientCash,
    /// A sell names a symbol that is not held.
    NoPosition,
    /// A sell asks for more than is held.
    InsufficientQuantity,
    /// An amount of the execution cannot be stored.
    OutOfRange,
}

impl ExecutionError {
    /// The error in words.
    pub fn message(&self) -> (r: &'static str)
        ensures
            r@ == match *self {
                ExecutionError::InsufficientCash => "Not enough cash"@,
                ExecutionError::NoPosition => "Position not found in portfolio"@,
                ExecutionError::InsufficientQuantity => "Not enough quantity to sell"@,
                ExecutionError::OutOfRange => "Amount out of range"@,
            },
    {
        match self {
            ExecutionError::InsufficientCash => "Not enough cash",
            ExecutionError::NoPosition => "Position not found in portfolio",
            ExecutionError::InsufficientQuantity => "Not enough quantity to sell",
            ExecutionError::OutOfRange => "Amount out of range",
        }
    }
}

/// One symbol of the portfolio with what is held of it.
#[derive(Debug, Clone)]
pub struct Holding {
    pub asset: String,
    pub position: Position,
}

/// The mathematical content of a holding.
pub struct HoldingView {
    pub asset: Seq<char>,
    pub position: Position,
}

impl View for Holding {
    type V = HoldingView;

    open spec fn view(&self) -> HoldingView {
        HoldingView { asset: self.asset@, position: self.position }
    }
}

/// A completed execution, as reported to whoever keeps the trade ledger.
#[derive(Debug, Clone)]
pub struct Fill {
    pub direction: OrderDirection,
    pub asset: String,
    /// The tick at which the order executed.
    pub time: i64,
    /// The execution price, slippage included.
    pub price: i64,
    pub size: i64,
    pub fees: i64,
    /// The execution price less the opening price.
    pub slippage: i64,
}

/// The mathematical content of a fill.
pub struct FillView {
    pub direction: OrderDirection,
    pub asset: Seq<char>,
    pub time: i64,
    pub price: i64,
    pub size: i64,
    pub fees: i64,
    pub slippage: i64,
}

impl View for Fill {
    type V = FillView;

    open spec fn view(&self) -> FillView {
        FillView {
            direction: self.direction,
            asset: self.asset@,
            time: self.time,
            price: self.price,
            size: self.size,
            fees: self.fees,
            slippage: self.slippage,
        }
    }
}

/// The amounts of one execution, all storable.
pub struct Quote {
    /// The opening price moved by the slippage drawn.
    pub price: i64,
    /// The execution price less the opening price.
    pub slippage: i64,
    /// The slippage on the whole size.
    pub slippage_cost: i64,
    /// Size times execution price.
    pub gross: i64,
    /// The fee on the gross amount.
    pub fee: i64,
}

/// The broker's state as mathematics.
pub struct BrokerView {
    pub cash: i64,
    pub fee_type: Option<FeeType>,
    pub slippage_range: (i64, i64),
    /// The holdings; no symbol occurs twice.
    pub portfolio: Seq<HoldingView>,
    /// The pending orders, oldest first.
    pub orders: Seq<OrderView>,
    /// The slippage fractions drawn in advance.
    pub pool: Seq<i64>,
    /// The place in the pool of the next draw.
    pub cursor: int,
    pub analytics: BrokerAnalytics,
}

pub struct Broker {
    cash: i64,
    fee_type: Option<FeeType>,
    slippage_range: (i64, i64),
    portfolio: Vec<Holding>,
    orders: Vec<Order>,
    slippage_values: Vec<i64>,
    slippage_index: usize,
    analytics: BrokerAnalytics,
}

/// The contents of a list of orders.
pub open spec fn order_views(orders: Seq<Order>) -> Seq<OrderView> {
    orders.map_values(|o: Order| o@)
}

/// The contents of a list of holdings.
pub open spec fn holding_views(holdings: Seq<Holding>) -> Seq<HoldingView> {
    holdings.map_values(|h: Holding| h@)
}

/// The contents of a list of fills.
pub open spec fn fill_views(fills: Seq<Fill>) -> Seq<FillView> {
    fills.map_values(|f: Fill| f@)
}

/// Where a symbol stands in a portfolio, if it is held.
pub open spec fn index_of(portfolio: Seq<HoldingView>, asset: Seq<char>) -> Option<int> {
    if exists|i: int| 0 <= i < portfolio.len() && portfolio[i].asset == asset {
        Some(choose|i: int| 0 <= i < portfolio.len() && portfolio[i].asset == asset)
    } else {
        None
    }
}

/// The quantity held of a symbol; zero where it is not held.
pub open spec fn held(portfolio: Seq<HoldingView>, asset: Seq<char>) -> int {
    match index_of(portfolio, asset) {
        Some(i) => portfolio[i].position.quantity as int,
        None => 0,
    }
}

/// No symbol occurs twice.
pub open spec fn distinct_assets(portfolio: Seq<HoldingView>) -> bool {
    forall|i: int, j: int|
        0 <= i < j < portfolio.len() ==> portfolio[i].asset != portfolio[j].asset
}

/// The state is one that the broker's operations produce.
pub open spec fn well_formed(b: BrokerView) -> bool {
    &&& distinct_assets(b.portfolio)
    &&& forall|i: int| 0 <= i < b.portfolio.len() ==> (#[trigger] b.portfolio[i]).position.quantity > 0
    &&& forall|i: int| 0 <= i < b.orders.len() ==> (#[trigger] b.orders[i]).size > 0
    &&& 0 <= b.cursor
    &&& b.pool.len() > 0 ==> b.cursor < b.pool.len()
    &&& b.pool.len() == 0 ==> b.cursor == 0
    &&& within(b.pool, b.slippage_range.0, b.slippage_range.1)
}

/// In a portfolio without repeats, a symbol found at a place is held there.
pub proof fn lemma_index_of_unique(portfolio: Seq<HoldingView>, asset: Seq<char>, i: int)
    requires
        distinct_assets(portfolio),
        0 <= i < portfolio.len(),
        portfolio[i].asset == asset,
    ensures
        index_of(portfolio, asset) == Some(i),
{
    let j: int = choose|j: int| 0 <= j < portfolio.len() && portfolio[j].asset == asset;
    if j < i {
        assert(portfolio[j].asset != portfolio[i].asset);
    }
    if i < j {
        assert(portfolio[i].asset != portfolio[j].asset);
    }
}

/// The price at which the next execution takes place: the opening price
/// moved by the pool's next fraction, or unmoved where the pool is empty.
pub open spec fn slipped_price(b: BrokerView, open: i64) -> int {
    if b.pool.len() == 0 {
        open as int
    } else {
        adjusted(open as int, b.pool[b.cursor] as int)
    }
}

/// The place in the pool after one draw: the pool is used round-robin.
pub open spec fn advanced_cursor(b: BrokerView) -> int {
    if b.pool.len() == 0 {
        b.cursor
    } else if b.cursor + 1 == b.pool.len() {
        0
    } else {
        b.cursor + 1
    }
}

/// The amounts of the next execution of `size` at the opening price, where
/// all of them can be stored.
pub open spec fn quote_of(b: BrokerView, size: i64, open: i64) -> Option<Quote> {
    let price: int = slipped_price(b, open);
    let slippage: int = price - open;
    let slippage_cost: int = product(slippage, size as int);
    let gross: int = product(size as int, price);
    let fee: int = fee_on(b.fee_type, gross);
    if fits(price) && fits(slippage) && fits(slippage_cost) && fits(gross) && fits(fee) {
        Some(
            Quote {
                price: price as i64,
                slippage: slippage as i64,
                slippage_cost: slippage_cost as i64,
                gross: gross as i64,
                fee: fee as i64,
            },
        )
    } else {
        None
    }
}

/// The totals after an execution with the quoted amounts.
pub open spec fn charged(a: BrokerAnalytics, q: Quote) -> BrokerAnalytics {
    BrokerAnalytics {
        total_exec_orders: (a.total_exec_orders + 1) as u64,
        total_fees: (a.total_fees + q.fee) as i64,
        total_slippage: (a.total_slippage + q.slippage_cost) as i64,
        ..a
    }
}

/// Whether the totals can take one more execution with the quoted amounts.
pub open spec fn chargeable(a: BrokerAnalytics, q: Quote) -> bool {
    &&& a.total_exec_orders < u64::MAX
    &&& fits(a.total_fees + q.fee)
    &&& fits(a.total_slippage + q.slippage_cost)
}

/// The portfolio after buying `size` of `asset` at `price`: a new holding, or
/// an old one enlarged, its average price the cost-weighted mean.
pub open spec fn bought(portfolio: Seq<HoldingView>, asset: Seq<char>, size: i64, price: i64) -> Seq<
    HoldingView,
> {
    match index_of(portfolio, asset) {
        Some(i) => portfolio.update(
            i,
            HoldingView {
                asset,
                position: Position {
                    quantity: (portfolio[i].position.quantity + size) as i64,
                    average_price: weighted_mean(
                        portfolio[i].position.average_price as int,
                        portfolio[i].position.quantity as int,
                        price as int,
                        size as int,
                    ) as i64,
                },
            },
        ),
        None => portfolio.push(
            HoldingView { asset, position: Position { quantity: size, average_price: price } },
        ),
    }
}

/// The portfolio after selling `size` of the holding at place `i`: the
/// holding shrinks and keeps its average price, and goes when nothing is
/// left of it.
pub open spec fn sold(portfolio: Seq<HoldingView>, i: int, size: i64) -> Seq<HoldingView> {
    if portfolio[i].position.quantity == size {
        portfolio.remove(i)
    } else {
        portfolio.update(
            i,
            HoldingView {
                asset: portfolio[i].asset,
                position: Position {
                    quantity: (portfolio[i].position.quantity - size) as i64,
                    average_price: portfolio[i].position.average_price,
                },
            },
        )
    }
}

/// What executing an order at the opening price does to the broker: the
/// state after it, or the reason why nothing changes.
pub open spec fn outcome(b: BrokerView, o: OrderView, open: i64) -> Result<
    BrokerView,
    ExecutionError,
> {
    match o.direction {
        OrderDirection::Buy => match quote_of(b, o.size, open) {
            None => Err(ExecutionError::OutOfRange),
            Some(q) => if b.cash < q.gross + q.fee {
                Err(ExecutionError::InsufficientCash)
            } else if !fits(b.cash - q.gross - q.fee) || !chargeable(b.analytics, q) || !fits(
                held(b.portfolio, o.asset) + o.size,
            ) {
                Err(ExecutionError::OutOfRange)
            } else {
                Ok(
                    BrokerView {
                        cash: (b.cash - q.gross - q.fee) as i64,
                        portfolio: bought(b.portfolio, o.asset, o.size, q.price),
                        cursor: advanced_cursor(b),
                        analytics: charged(b.analytics, q),
                        ..b
                    },
                )
            },
        },
        OrderDirection::Sell => match index_of(b.portfolio, o.asset) {
            None => Err(ExecutionError::NoPosition),
            Some(i) => if b.portfolio[i].position.quantity < o.size {
                Err(ExecutionError::InsufficientQuantity)
            } else {
                match quote_of(b, o.size, open) {
                    None => Err(ExecutionError::OutOfRange),
                    Some(q) => if !fits(b.cash + q.gross - q.fee) || !chargeable(b.analytics, q) {
                        Err(ExecutionError::OutOfRange)
                    } else {
                        Ok(
                            BrokerView {
                                cash: (b.cash + q.gross - q.fee) as i64,
                                portfolio: sold(b.portfolio, i, o.size),
                                cursor: advanced_cursor(b),
                                analytics: charged(b.analytics, q),
                                ..b
                            },
                        )
                    },
                }
            },
        },
    }
}

/// The report of an execution that `outcome` lets succeed at `now`.
pub open spec fn fill_of(b: BrokerView, o: OrderView, now: i64, open: i64) -> FillView {
    let q: Quote = quote_of(b, o.size, open).unwrap();
    FillView {
        direction: o.direction,
        asset: o.asset,
        time: now,
        price: q.price,
        size: o.size,
        fees: q.fee,
        slippage: q.slippage,
    }
}

/// The broker after an order was offered to it: the order joins the book and
/// is counted, unless its size is not positive or the count is at its limit.
pub open spec fn offered(b: BrokerView, o: OrderView) -> BrokerView {
    if o.size > 0 && b.analytics.total_placed_orders < u64::MAX {
        BrokerView {
            orders: b.orders.push(o),
            analytics: BrokerAnalytics {
                total_placed_orders: (b.analytics.total_placed_orders + 1) as u64,
                ..b.analytics
            },
            ..b
        }
    } else {
        b
    }
}

/// A broker with no cash, no fees, no slippage, nothing held, nothing
/// pending and nothing counted.
pub open spec fn fresh() -> BrokerView {
    BrokerView {
        cash: 0,
        fee_type: None,
        slippage_range: (0, 0),
        portfolio: Seq::empty(),
        orders: Seq::empty(),
        pool: Seq::empty(),
        cursor: 0,
        analytics: BrokerAnalytics {
            added_funds: 0,
            total_placed_orders: 0,
            total_exec_orders: 0,
            total_fees: 0,
            total_slippage: 0,
        },
    }
}

impl View for Broker {
    type V = BrokerView;

    closed spec fn view(&self) -> BrokerView {
        BrokerView {
            cash: self.cash,
            fee_type: self.fee_type,
            slippage_range: self.slippage_range,
            portfolio: holding_views(self.portfolio@),
            orders: order_views(self.orders@),
            pool: self.slippage_values@,
            cursor: self.slippage_index as int,
            analytics: self.analytics,
        }
    }
}

impl Broker {
    /// The invariant that every operation keeps.
    pub open spec fn wf(&self) -> bool {
        well_formed(self@)
    }

    /// A broker with no cash, no fees, no slippage, nothing held and nothing
    /// pending.
    pub fn new() -> (r: Broker)
        ensures
            r.wf(),
            r@ == fresh(),
    {
        let r: Broker = Broker {
            cash: 0,
            fee_type: None,
            slippage_range: (0, 0),
            portfolio: Vec::new(),
            orders: Vec::new(),
            slippage_values: Vec::new(),
            slippage_index: 0,
            analytics: BrokerAnalytics::new(),
        };
        proof {
            assert(r@.portfolio =~= Seq::<HoldingView>::empty());
            assert(r@.orders =~= Seq::<OrderView>::empty());
            assert(r@.pool =~= Seq::<i64>::empty());
        }
        r
    }

    pub fn cash(&self) -> (r: i64)
        ensures
            r == self@.cash,
    {
        self.cash
    }

    pub fn fee_type(&self) -> (r: Option<FeeType>)
        ensures
            r == self@.fee_type,
    {
        self.fee_type
    }

    pub fn slippage_range(&self) -> (r: (i64, i64))
        ensures
            r == self@.slippage_range,
    {
        self.slippage_range
    }

    pub fn analytics(&self) -> (r: BrokerAnalytics)
        ensures
            r == self@.analytics,
    {
        self.analytics
    }

    /// The pending orders, oldest first.
    pub fn orders(&self) -> (r: &Vec<Order>)
        ensures
            order_views(r@) == self@.orders,
    {
        &self.orders
    }

    /// The holdings.
    pub fn portfolio(&self) -> (r: &Vec<Holding>)
        ensures
            holding_views(r@) == self@.portfolio,
    {
        &self.portfolio
    }

    /// Sets the cash at hand and counts it among the funds added. Refuses,
    /// changing nothing, where the funds added could no longer be stored.
    pub fn set_cash(&mut self, cash: i64) -> (accepted: bool)
        ensures
            accepted == fits(old(self)@.analytics.added_funds + cash),
            !accepted ==> final(self)@ == old(self)@,
            accepted ==> final(self)@ == (BrokerView {
                cash,
                analytics: BrokerAnalytics {
                    added_funds: (old(self)@.analytics.added_funds + cash) as i64,
                    ..old(self)@.analytics
                },
                ..old(self)@
            }),
    {
        match add_fixed(self.analytics.added_funds, cash) {
            Some(total) => {
                self.analytics.added_funds = total;
                self.cash = cash;
                true
            },
            None => false,
        }
    }

    /// Sets the fee schedule.
    pub fn set_fees(&mut self, fee_type: FeeType)
        ensures
            final(self)@ == (BrokerView { fee_type: Some(fee_type), ..old(self)@ }),
    {
        self.fee_type = Some(fee_type);
    }

    /// Appends an order to the book and counts it. Refuses, changing
    /// nothing, an order whose size is not positive, and any order once the
    /// count is at its limit.
    pub fn place_order(&mut self, order: Order) -> (accepted: bool)
        ensures
            accepted == (order.size > 0 && old(self)@.analytics.total_placed_orders < u64::MAX),
            final(self)@ == offered(old(self)@, order@),
            old(self).wf() ==> final(self).wf(),
    {
        if order.size <= 0 || self.analytics.total_placed_orders == u64::MAX {
            return false;
        }
        self.analytics.total_placed_orders = self.analytics.total_placed_orders + 1;
        self.orders.push(order);
        proof {
            assert(order_views(self.orders@) =~= order_views(old(self).orders@).push(order@));
        }
        true
    }

    /// The fee that the schedule charges on an amount; `None` where it
    /// cannot be stored.
    pub fn calculate_fees(&self, amount: i64) -> (r: Option<i64>)
        ensures
            r == crate::fixed::stored(fee_on(self@.fee_type, amount as int)),
    {
        charge(&self.fee_type, amount)
    }

    /// The quantity held of a symbol; zero where it is not held.
    pub fn position_quantity(&self, asset: &String) -> (r: i64)
        requires
            self.wf(),
        ensures
            r == held(self@.portfolio, asset@),
    {
        match self.find_holding(asset) {
            Some(i) => self.portfolio[i].position.quantity,
            None => 0,
        }
    }

    /// The holding of a symbol, if there is one.
    pub fn position(&self, asset: &String) -> (r: Option<Position>)
        requires
            self.wf(),
        ensures
            r == match index_of(self@.portfolio, asset@) {
                Some(i) => Some(self@.portfolio[i].position),
                None => None,
            },
    {
        match self.find_holding(asset) {
            Some(i) => Some(self.portfolio[i].position),
            None => None,
        }
    }

    /// Where a symbol stands in the portfolio, if it is held.
    fn find_holding(&self, asset: &String) -> (r: Option<usize>)
        requires
            self.wf(),
        ensures
            r == match index_of(self@.portfolio, asset@) {
                Some(i) => Some(i as usize),
                None => None,
            },
            r matches Some(i) ==> i < self.portfolio.len() && self.portfolio[i as int].asset@
                == asset@,
    {
        let mut k: usize = 0;
        while k < self.portfolio.len()
            invariant
                self.wf(),
                k <= self.portfolio.len(),
                forall|j: int| 0 <= j < k ==> self.portfolio[j].asset@ != asset@,
            decreases self.portfolio.len() - k,
        {
            if self.portfolio[k].asset == *asset {
                proof {
                    assert(self@.portfolio[k as int].asset == asset@);
                    lemma_index_of_unique(self@.portfolio, asset@, k as int);
                }
                return Some(k);
            }
            k += 1;
        }
        proof {
            assert forall|j: int| 0 <= j < self@.portfolio.len() implies self@.portfolio[j].asset
                != asset@ by {
                assert(self@.portfolio[j].asset == self.portfolio[j].asset@);
            }
        }
        None
    }

    /// The price of the next execution at the opening price `market_price`,
    /// slippage applied; `None` where it cannot be stored. The draw is not
    /// used up.
    pub fn apply_slippage(&self, market_price: i64) -> (r: Option<i64>)
        requires
            self.wf(),
        ensures
            r == crate::fixed::stored(slipped_price(self@, market_price)),
    {
        if self.slippage_values.len() == 0 {
            return Some(market_price);
        }
        adjust(market_price, self.slippage_values[self.slippage_index])
    }

    /// The amounts of the next execution of `size` at the opening price.
    fn quote(&self, size: i64, open: i64) -> (r: Option<Quote>)
        requires
            self.wf(),
        ensures
            r == quote_of(self@, size, open),
    {
        let price: i64 = match self.apply_slippage(open) {
            Some(p) => p,
            None => { return None; },
        };
        let slippage: i64 = match sub_fixed(price, open) {
            Some(d) => d,
            None => { return None; },
        };
        let slippage_cost: i64 = match mul_fixed(slippage, size) {
            Some(c) => c,
            None => { return None; },
        };
        let gross: i64 = match mul_fixed(size, price) {
            Some(g) => g,
            None => { return None; },
        };
        let fee: i64 = match self.calculate_fees(gross) {
            Some(f) => f,
            None => { return None; },
        };
        Some(Quote { price, slippage, slippage_cost, gross, fee })
    }

    /// The totals after one more execution with the quoted amounts; `None`
    /// where they cannot take it.
    fn charge_totals(&self, q: &Quote) -> (r: Option<BrokerAnalytics>)
        ensures
            r == if chargeable(self@.analytics, *q) {
                Some(charged(self@.analytics, *q))
            } else {
                None
            },
    {
        if self.analytics.total_exec_orders == u64::MAX {
            return None;
        }
        let total_fees: i64 = match add_fixed(self.analytics.total_fees, q.fee) {
            Some(t) => t,
            None => { return None; },
        };
        let total_slippage: i64 = match add_fixed(self.analytics.total_slippage, q.slippage_cost) {
            Some(t) => t,
            None => { return None; },
        };
        Some(
            BrokerAnalytics {
                added_funds: self.analytics.added_funds,
                total_placed_orders: self.analytics.total_placed_orders,
                total_exec_orders: self.analytics.total_exec_orders + 1,
                total_fees,
                total_slippage,
            },
        )
    }

    /// Uses up one draw of the pool.
    fn advance_cursor(&mut self)
        requires
            old(self).wf(),
        ensures
            final(self)@ == (BrokerView { cursor: advanced_cursor(old(self)@), ..old(self)@ }),
            final(self).wf(),
    {
        if self.slippage_values.len() > 0 {
            if self.slippage_index + 1 == self.slippage_values.len() {
                self.slippage_index = 0;
            } else {
                self.slippage_index = self.slippage_index + 1;
            }
        }
    }

    /// Executes one order at the opening price `market_price` of the tick
    /// `now`. On success the cash, the holding, the totals and the pool's
    /// cursor move as `outcome` says and the execution is reported; on
    /// failure nothing changes.
    pub fn execute_order(&mut self, order: &Order, now: i64, market_price: i64) -> (r: Result<
        Fill,
        ExecutionError,
    >)
        requires
            old(self).wf(),
            order.size > 0,
        ensures
            final(self).wf(),
            match r {
                Ok(fill) => outcome(old(self)@, order@, market_price) == Ok::<
                    BrokerView,
                    ExecutionError,
                >(final(self)@) && fill@ == fill_of(old(self)@, order@, now, market_price),
                Err(e) => outcome(old(self)@, order@, market_price) == Err::<
                    BrokerView,
                    ExecutionError,
                >(e) && final(self)@ == old(self)@,
            },
    {
        match order.direction {
            OrderDirection::Buy => self.execute_buy(order, now, market_price),
            OrderDirection::Sell => self.execute_sell(order, now, market_price),
        }
    }

    fn execute_buy(&mut self, order: &Order, now: i64, market_price: i64) -> (r: Result<
        Fill,
        ExecutionError,
    >)
        requires
            old(self).wf(),
            order.size > 0,
            order.direction == OrderDirection::Buy,
        ensures
            final(self).wf(),
            match r {
                Ok(fill) => outcome(old(self)@, order@, market_price) == Ok::<
                    BrokerView,
                    ExecutionError,
                >(final(self)@) && fill@ == fill_of(old(self)@, order@, now, market_price),
                Err(e) => outcome(old(self)@, order@, market_price) == Err::<
                    BrokerView,
                    ExecutionError,
                >(e) && final(self)@ == old(self)@,
            },
    {
        let q: Quote = match self.quote(order.size, market_price) {
            Some(q) => q,
            None => { return Err(ExecutionError::OutOfRange); },
        };
        let spent: i128 = q.gross as i128 + q.fee as i128;
        if (self.cash as i128) < spent {
            return Err(ExecutionError::InsufficientCash);
        }
        let cash: i64 = match crate::fixed::narrow(self.cash as i128 - spent) {
            Some(c) => c,
            None => { return Err(ExecutionError::OutOfRange); },
        };
        let totals: BrokerAnalytics = match self.charge_totals(&q) {
            Some(t) => t,
            None => { return Err(ExecutionError::OutOfRange); },
        };
        let found: Option<usize> = self.find_holding(&order.asset);
        let ghost before: Seq<HoldingView> = self@.portfolio;
        match found {
            Some(i) => {
                let mut position: Position = self.portfolio[i].position;
                if add_fixed(position.quantity, order.size).is_none() {
                    return Err(ExecutionError::OutOfRange);
                }
                position.update(order.size, q.price);
                self.portfolio[i].position = position;
                proof {
                    assert(self.portfolio@[i as int].asset@ == order.asset@);
                    assert(holding_views(self.portfolio@) =~= bought(
                        before,
                        order.asset@,
                        order.size,
                        q.price,
                    ));
                }
            },
            None => {
                let holding: Holding = Holding {
                    asset: order.asset.clone(),
                    position: Position::new(order.size, q.price),
                };
                self.portfolio.push(holding);
                proof {
                    assert(holding_views(self.portfolio@) =~= bought(
                        before,
                        order.asset@,
                        order.size,
                        q.price,
                    ));
                }
            },
        }
        self.cash = cash;
        self.analytics = totals;
        proof {
            lemma_bought_well_formed(before, order.asset@, order.size, q.price);
        }
        self.advance_cursor();
        Ok(
            Fill {
                direction: order.direction,
                asset: order.asset.clone(),
                time: now,
                price: q.price,
                size: order.size,
                fees: q.fee,
                slippage: q.slippage,
            },
        )
    }

    fn execute_sell(&mut self, order: &Order, now: i64, market_price: i64) -> (r: Result<
        Fill,
        ExecutionError,
    >)
        requires
            old(self).wf(),
            order.size > 0,
            order.direction == OrderDirection::Sell,
        ensures
            final(self).wf(),
            match r {
                Ok(fill) => outcome(old(self)@, order@, market_price) == Ok::<
                    BrokerView,
                    ExecutionError,
                >(final(self)@) && fill@ == fill_of(old(self)@, order@, now, market_price),
                Err(e) => outcome(old(self)@, order@, market_price) == Err::<
                    BrokerView,
                    ExecutionError,
                >(e) && final(self)@ == old(self)@,
            },
    {
        let i: usize = match self.find_holding(&order.asset) {
            Some(i) => i,
            None => { return Err(ExecutionError::NoPosition); },
        };
        let mut position: Position = self.portfolio[i].position;
        if position.quantity < order.size {
            return Err(ExecutionError::InsufficientQuantity);
        }
        let q: Quote = match self.quote(order.size, market_price) {
            Some(q) => q,
            None => { return Err(ExecutionError::OutOfRange); },
        };
        let cash: i64 = match crate::fixed::narrow(
            self.cash as i128 + q.gross as i128 - q.fee as i128,
        ) {
            Some(c) => c,
            None => { return Err(ExecutionError::OutOfRange); },
        };
        let totals: BrokerAnalytics = match self.charge_totals(&q) {
            Some(t) => t,
            None => { return Err(ExecutionError::OutOfRange); },
        };
        match position.remove(order.size) {
            Ok(()) => {},
            Err(_) => { return Err(ExecutionError::InsufficientQuantity); },
        }
        let ghost before: Seq<HoldingView> = self@.portfolio;
        if position.quantity == 0 {
            self.portfolio.remove(i);
        } else {
            self.portfolio[i].position = position;
        }
        proof {
            assert(holding_views(self.portfolio@) =~= sold(before, i as int, order.size));
            lemma_sold_well_formed(before, i as int, order.size);
        }
        self.cash = cash;
        self.analytics = totals;
        self.advance_cursor();
        Ok(
            Fill {
                direction: order.direction,
                asset: order.asset.clone(),
                time: now,
                price: q.price,
                size: order.size,
                fees: q.fee,
                slippage: q.slippage,
            },
        )
    }
}

/// Buying keeps a portfolio free of repeats and of empty holdings.
pub proof fn lemma_bought_well_formed(
    portfolio: Seq<HoldingView>,
    asset: Seq<char>,
    size: i64,
    price: i64,
)
    requires
        distinct_assets(portfolio),
        forall|i: int| 0 <= i < portfolio.len() ==> (#[trigger] portfolio[i]).position.quantity > 0,
        size > 0,
        fits(held(portfolio, asset) + size),
    ensures
        distinct_assets(bought(portfolio, asset, size, price)),
        forall|i: int|
            0 <= i < bought(portfolio, asset, size, price).len() ==> (#[trigger] bought(
                portfolio,
                asset,
                size,
                price,
            )[i]).position.quantity > 0,
{
    let after: Seq<HoldingView> = bought(portfolio, asset, size, price);
    match index_of(portfolio, asset) {
        Some(k) => {
            assert forall|i: int, j: int| 0 <= i < j < after.len() implies after[i].asset
                != after[j].asset by {
                assert(portfolio[i].asset != portfolio[j].asset);
            }
        },
        None => {
            assert forall|i: int, j: int| 0 <= i < j < after.len() implies after[i].asset
                != after[j].asset by {
                if j < portfolio.len() {
                    assert(portfolio[i].asset != portfolio[j].asset);
                } else {
                    assert(portfolio[i].asset != asset);
                }
            }
        },
    }
}

/// Selling keeps a portfolio free of repeats and of empty holdings.
pub proof fn lemma_sold_well_formed(portfolio: Seq<HoldingView>, k: int, size: i64)
    requires
        distinct_assets(portfolio),
        forall|i: int| 0 <= i < portfolio.len() ==> (#[trigger] portfolio[i]).position.quantity > 0,
        0 <= k < portfolio.len(),
        0 < size <= portfolio[k].position.quantity,
    ensures
        distinct_assets(sold(portfolio, k, size)),
        forall|i: int|
            0 <= i < sold(portfolio, k, size).len() ==> (#[trigger] sold(
                portfolio,
                k,
                size,
            )[i]).position.quantity > 0,
{
    let after: Seq<HoldingView> = sold(portfolio, k, size);
    if portfolio[k].position.quantity == size {
        assert forall|i: int, j: int| 0 <= i < j < after.len() implies after[i].asset
            != after[j].asset by {
            let a: int = if i < k { i } else { i + 1 };
            let b: int = if j < k { j } else { j + 1 };
            assert(portfolio[a].asset != portfolio[b].asset);
        }
        assert forall|i: int| 0 <= i < after.len() implies (#[trigger] after[i]).position.quantity
            > 0 by {
            let a: int = if i < k { i } else { i + 1 };
            assert(portfolio[a].position.quantity > 0);
        }
    } else {
        assert forall|i: int, j: int| 0 <= i < j < after.len() implies after[i].asset
            != after[j].asset by {
            assert(portfolio[i].asset != portfolio[j].asset);
        }
    }
}

/// The broker and the reports after the orders from place `i` on were
/// examined at the tick `now`, oldest first: an expired order is dropped; an
/// order that fires and can be executed is executed, reported and removed;
/// every other order stays where it is.
pub open spec fn walk(b: BrokerView, i: int, fills: Seq<FillView>, now: i64, open: i64) -> (
    BrokerView,
    Seq<FillView>,
)
    decreases b.orders.len() - i,
    when 0 <= i
{
    if i >= b.orders.len() {
        (b, fills)
    } else {
        let o: OrderView = b.orders[i];
        if expired(o.valid_until, now) {
            walk(BrokerView { orders: b.orders.remove(i), ..b }, i, fills, now, open)
        } else if !triggers(o.order_type, o.direction, open) {
            walk(b, i + 1, fills, now, open)
        } else {
            match outcome(b, o, open) {
                Ok(next) => walk(
                    BrokerView { orders: b.orders.remove(i), ..next },
                    i,
                    fills.push(fill_of(b, o, now, open)),
                    now,
                    open,
                ),
                Err(_) => walk(b, i + 1, fills, now, open),
            }
        }
    }
}

/// The broker and the reports after a whole tick.
pub open spec fn handled(b: BrokerView, now: i64, open: i64) -> (BrokerView, Seq<FillView>) {
    walk(b, 0, Seq::empty(), now, open)
}

/// The worth of holdings at a closing price: the sum of quantity times
/// price.
pub open spec fn holdings_value(portfolio: Seq<HoldingView>, close: i64) -> int
    decreases portfolio.len(),
{
    if portfolio.len() == 0 {
        0
    } else {
        holdings_value(portfolio.drop_last(), close) + product(
            portfolio.last().position.quantity as int,
            close as int,
        )
    }
}

/// Whether the worth of every single holding can be stored.
pub open spec fn valuable(portfolio: Seq<HoldingView>, close: i64) -> bool {
    forall|i: int|
        0 <= i < portfolio.len() ==> fits(
            product((#[trigger] portfolio[i]).position.quantity as int, close as int),
        )
}

/// The worth of holdings at a closing price as the broker reports it: absent
/// where the worth of a holding, or the sum, cannot be stored.
pub open spec fn portfolio_worth(portfolio: Seq<HoldingView>, close: i64) -> Option<i64> {
    if valuable(portfolio, close) {
        crate::fixed::stored(holdings_value(portfolio, close))
    } else {
        None
    }
}

impl Broker {
    /// Executes the order at place `i` of the book at the opening price. On
    /// success the order leaves the book and the execution is reported; on
    /// failure nothing changes and the order stays for the next tick.
    pub fn try_execute_and_remove(&mut self, i: usize, now: i64, price: i64) -> (r: Option<Fill>)
        requires
            old(self).wf(),
            i < old(self)@.orders.len(),
        ensures
            final(self).wf(),
            match r {
                Some(fill) => {
                    &&& outcome(old(self)@, old(self)@.orders[i as int], price) matches Ok(next)
                    &&& final(self)@ == (BrokerView {
                        orders: old(self)@.orders.remove(i as int),
                        ..next
                    })
                    &&& fill@ == fill_of(old(self)@, old(self)@.orders[i as int], now, price)
                },
                None => outcome(old(self)@, old(self)@.orders[i as int], price).is_err()
                    && final(self)@ == old(self)@,
            },
    {
        let order: Order = self.orders[i].duplicate();
        proof {
            assert(old(self)@.orders[i as int] == self.orders@[i as int]@);
        }
        match self.execute_order(&order, now, price) {
            Ok(fill) => {
                let ghost mid: Seq<Order> = self.orders@;
                self.orders.remove(i);
                proof {
                    assert(order_views(self.orders@) =~= order_views(mid).remove(i as int));
                }
                Some(fill)
            },
            Err(_) => None,
        }
    }

    /// Examines the book at the tick `current_time` against the opening
    /// price of `current_price`, oldest order first, and reports the
    /// executions in the order in which they took place.
    pub fn handle_unfulfilled_orders(&mut self, current_time: i64, current_price: &OHLCVData) -> (fills:
        Vec<Fill>)
        requires
            old(self).wf(),
        ensures
            final(self).wf(),
            (final(self)@, fill_views(fills@)) == handled(
                old(self)@,
                current_time,
                current_price.open,
            ),
    {
        let mut fills: Vec<Fill> = Vec::new();
        let mut i: usize = 0;
        let ghost start: BrokerView = self@;
        proof {
            assert(fill_views(fills@) =~= Seq::<FillView>::empty());
        }
        while i < self.orders.len()
            invariant
                self.wf(),
                i <= self.orders.len(),
                walk(self@, i as int, fill_views(fills@), current_time, current_price.open)
                    == handled(start, current_time, current_price.open),
            decreases self.orders.len() - i,
        {
            let ghost here: BrokerView = self@;
            let ghost reported: Seq<FillView> = fill_views(fills@);
            proof {
                assert(here.orders[i as int] == self.orders@[i as int]@);
            }
            if self.orders[i].is_expired(current_time) {
                self.orders.remove(i);
                proof {
                    assert(self@.orders =~= here.orders.remove(i as int));
                    assert(self@ == (BrokerView { orders: here.orders.remove(i as int), ..here }));
                }
            } else if !self.orders[i].is_triggered(current_price.open) {
                i += 1;
            } else {
                match self.try_execute_and_remove(i, current_time, current_price.open) {
                    Some(fill) => {
                        fills.push(fill);
                        proof {
                            assert(fill_views(fills@) =~= reported.push(fill@));
                        }
                    },
                    None => {
                        i += 1;
                    },
                }
            }
        }
        fills
    }

    /// The worth of the holdings at the closing price of `data`; `None`
    /// where the worth of a holding, or the sum, cannot be stored.
    pub fn portfolio_value(&self, data: &OHLCVData) -> (r: Option<i64>)
        ensures
            r == portfolio_worth(self@.portfolio, data.close),
    {
        let mut total: i128 = 0;
        let mut k: usize = 0;
        while k < self.portfolio.len()
            invariant
                k <= self.portfolio.len(),
                total == holdings_value(self@.portfolio.take(k as int), data.close),
                -(k as int) * 0x8000_0000_0000_0000 <= total <= (k as int) * 0x8000_0000_0000_0000,
                valuable(self@.portfolio.take(k as int), data.close),
            decreases self.portfolio.len() - k,
        {
            let ghost prefix: Seq<HoldingView> = self@.portfolio.take(k as int + 1);
            proof {
                assert(prefix.drop_last() =~= self@.portfolio.take(k as int));
                assert(prefix.last() == self@.portfolio[k as int]);
                assert(self@.portfolio[k as int] == self.portfolio@[k as int]@);
            }
            match mul_fixed(self.portfolio[k].position.quantity, data.close) {
                Some(worth) => {
                    total = total + worth as i128;
                },
                None => {
                    return None;
                },
            }
            proof {
                assert forall|i: int| 0 <= i < prefix.len() implies fits(
                    product((#[trigger] prefix[i]).position.quantity as int, data.close as int),
                ) by {
                    if i < k {
                        assert(prefix[i] == self@.portfolio.take(k as int)[i]);
                    }
                }
            }
            k += 1;
        }
        proof {
            assert(self@.portfolio.take(k as int) =~= self@.portfolio);
        }
        crate::fixed::narrow(total)
    }

    /// Sets the slippage bounds and installs the fractions that executions
    /// will draw, one after the other and then from the start again. Refuses,
    /// changing nothing, bounds that are out of order and a pool that leaves
    /// them.
    pub fn install_slippage(&mut self, min_slippage: i64, max_slippage: i64, pool: Vec<i64>) -> (accepted:
        bool)
        requires
            old(self).wf(),
        ensures
            final(self).wf(),
            accepted == (min_slippage <= max_slippage && within(pool@, min_slippage, max_slippage)),
            !accepted ==> final(self)@ == old(self)@,
            accepted ==> final(self)@ == (BrokerView {
                slippage_range: (min_slippage, max_slippage),
                pool: pool@,
                cursor: 0,
                ..old(self)@
            }),
    {
        if min_slippage > max_slippage {
            return false;
        }
        let mut k: usize = 0;
        while k < pool.len()
            invariant
                self.wf(),
                self@ == old(self)@,
                k <= pool.len(),
                within(pool@.take(k as int), min_slippage, max_slippage),
            decreases pool.len() - k,
        {
            if pool[k] < min_slippage || pool[k] > max_slippage {
                return false;
            }
            proof {
                assert forall|i: int| 0 <= i < k + 1 implies min_slippage <= #[trigger] pool@.take(
                    k as int + 1,
                )[i] <= max_slippage by {
                    if i < k {
                        assert(pool@.take(k as int)[i] == pool@[i]);
                    }
                }
            }
            k += 1;
        }
        proof {
            assert(pool@.take(k as int) =~= pool@);
        }
        self.slippage_range = (min_slippage, max_slippage);
        self.slippage_values = pool;
        self.slippage_index = 0;
        true
    }

    /// Sets the slippage bounds and installs the pool of fractions that the
    /// bounds and the seed give, from which executions will draw, one after
    /// the other and then from the start again. Refuses, changing nothing,
    /// bounds that are out of order.
    pub fn set_slippage(&mut self, min_slippage: i64, max_slippage: i64, seed: u64) -> (accepted:
        bool)
        requires
            old(self).wf(),
        ensures
            final(self).wf(),
            accepted == (min_slippage <= max_slippage),
            !accepted ==> final(self)@ == old(self)@,
            accepted ==> final(self)@ == (BrokerView {
                slippage_range: (min_slippage, max_slippage),
                pool: pool_of(seed, min_slippage, max_slippage, POOL_SIZE as nat),
                cursor: 0,
                ..old(self)@
            }),
            accepted ==> within(final(self)@.pool, min_slippage, max_slippage),
    {
        if min_slippage > max_slippage {
            return false;
        }
        let pool: Vec<i64> = draw_pool(seed, min_slippage, max_slippage, POOL_SIZE);
        self.install_slippage(min_slippage, max_slippage, pool)
    }

    /// The slippage fractions drawn in advance.
    pub fn slippage_pool(&self) -> (r: &Vec<i64>)
        ensures
            r@ == self@.pool,
    {
        &self.slippage_values
    }

    /// Puts a holding into the portfolio, in place of the one that the
    /// symbol had, if it had one. Refuses, changing nothing, a holding of
    /// nothing or less.
    pub fn insert_position(&mut self, asset: String, position: Position) -> (accepted: bool)
        requires
            old(self).wf(),
        ensures
            final(self).wf(),
            accepted == (position.quantity > 0),
            !accepted ==> final(self)@ == old(self)@,
            accepted ==> final(self)@ == (BrokerView {
                portfolio: match index_of(old(self)@.portfolio, asset@) {
                    Some(i) => old(self)@.portfolio.update(
                        i,
                        HoldingView { asset: asset@, position },
                    ),
                    None => old(self)@.portfolio.push(HoldingView { asset: asset@, position }),
                },
                ..old(self)@
            }),
            accepted ==> held(final(self)@.portfolio, asset@) == position.quantity,
    {
        if position.quantity <= 0 {
            return false;
        }
        let ghost before: Seq<HoldingView> = self@.portfolio;
        match self.find_holding(&asset) {
            Some(i) => {
                self.portfolio[i].position = position;
                proof {
                    assert(self@.portfolio =~= before.update(
                        i as int,
                        HoldingView { asset: asset@, position },
                    ));
                    assert forall|a: int, b: int|
                        0 <= a < b < self@.portfolio.len() implies self@.portfolio[a].asset
                        != self@.portfolio[b].asset by {
                        assert(before[a].asset != before[b].asset);
                    }
                    lemma_index_of_unique(self@.portfolio, asset@, i as int);
                }
            },
            None => {
                self.portfolio.push(Holding { asset, position });
                proof {
                    assert(self@.portfolio =~= before.push(HoldingView { asset: asset@, position }));
                    assert forall|a: int, b: int|
                        0 <= a < b < self@.portfolio.len() implies self@.portfolio[a].asset
                        != self@.portfolio[b].asset by {
                        if b < before.len() {
                            assert(before[a].asset != before[b].asset);
                        } else {
                            assert(before[a].asset != asset@);
                        }
                    }
                    lemma_index_of_unique(self@.portfolio, asset@, before.len() as int);
                }
            },
        }
        true
    }
}

} // verus!
