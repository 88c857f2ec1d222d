//! What a simulation request may hold, and how its outcome is reported.
use vstd::prelude::*;
use vstd::string::*;
use crate::broker::{fresh, Broker, BrokerAnalytics, BrokerView};
use crate::engine::EngineError;
use crate::fee::{acceptable, FeeType};
use crate::slippage::{pool_of, POOL_SIZE};

verus! {

/// The body of a reply: the result of a run, or one message.
#[derive(Debug, Clone)]
pub enum Response<T> {
    Success(T),
    Error(&'static str),
}

/// Why a request produced no result.
#[derive(Debug, Clone, Copy, PartialEq, Eq, Structural)]
pub enum RequestError {
    /// A date is not of the form `YYYY-MM-DD HH:MM:SS`.
    InvalidDate,
    /// The strategy module is not base64.
    InvalidModule,
    /// The strategy module could not be loaded.
    StrategyLoadFailure,
    /// The tick is not a number followed by `s` or `ns`.
    InvalidTick,
    /// A flat fee is negative or a fraction lies outside zero to one.
    InvalidFees,
    /// The slippage bounds are out of order.
    InvalidSlippage,
    /// The prices could not be had.
    DataFetchFailure,
    /// The run itself failed.
    Engine(EngineError),
}

/// The status that goes with the outcome of a request: 200 for a result, 400
/// for a request that is malformed, 500 for a failure behind it.
pub open spec fn status_of(outcome: Option<RequestError>) -> u16 {
    match outcome {
        None => 200,
        Some(RequestError::DataFetchFailure) => 500,
        Some(RequestError::Engine(_)) => 500,
        Some(_) => 400,
    }
}

/// An error in words.
pub open spec fn message_of(e: RequestError) -> Seq<char> {
    match e {
        RequestError::InvalidDate => "Invalid date format"@,
        RequestError::InvalidModule => "Invalid base64 encoded WASM"@,
        RequestError::StrategyLoadFailure => "Failed to load WASM strategy"@,
        RequestError::InvalidTick => "Cannot parse tick duration"@,
        RequestError::InvalidFees => "Invalid fee schedule"@,
        RequestError::InvalidSlippage => "Invalid slippage bounds"@,
        RequestError::DataFetchFailure => "Failed to fetch OHLCV data"@,
        RequestError::Engine(EngineError::DataFeedEmpty) => "Error: Data feed is empty."@,
        RequestError::Engine(EngineError::InvalidTick) => "Error: Tick must be positive."@,
        RequestError::Engine(EngineError::OutOfRange) => "Error: Amount out of range."@,
    }
}

impl RequestError {
    /// The status that goes with the error.
    pub fn status(&self) -> (r: u16)
        ensures
            r == status_of(Some(*self)),
            r == 400 || r == 500,
    {
        match self {
            RequestError::DataFetchFailure => 500,
            RequestError::Engine(_) => 500,
            _ => 400,
        }
    }

    /// The error in words.
    pub fn message(&self) -> (r: &'static str)
        ensures
            r@ == message_of(*self),
    {
        match self {
            RequestError::InvalidDate => "Invalid date format",
            RequestError::InvalidModule => "Invalid base64 encoded WASM",
            RequestError::StrategyLoadFailure => "Failed to load WASM strategy",
            RequestError::InvalidTick => "Cannot parse tick duration",
            RequestError::InvalidFees => "Invalid fee schedule",
            RequestError::InvalidSlippage => "Invalid slippage bounds",
            RequestError::DataFetchFailure => "Failed to fetch OHLCV data",
            RequestError::Engine(e) => e.message(),
        }
    }
}

/// The status and the body of the reply to a request.
pub fn respond<T>(outcome: Result<T, RequestError>) -> (r: (u16, Response<T>))
    ensures
        match outcome {
            Ok(result) => r.0 == 200 && r.1 == Response::Success(result),
            Err(e) => r.0 == status_of(Some(e)) && (r.1 matches Response::Error(text) && text@
                == message_of(e)),
        },
{
    match outcome {
        Ok(result) => (200, Response::Success(result)),
        Err(e) => (e.status(), Response::Error(e.message())),
    }
}

/// The seconds since the epoch that `NaiveDateTime::parse_from_str` reads
/// from a text in the form `%Y-%m-%d %H:%M:%S`, taken as a time of day in
/// UTC; nothing where it reads none.
pub uninterp spec fn parsed_date(text: Seq<char>) -> Option<i64>;

/// `NaiveDateTime::parse_from_str` with the format `%Y-%m-%d %H:%M:%S`, the
/// date and time it reads turned into seconds since the epoch by
/// `and_utc().timestamp()`. The contract only names the result: the same
/// text always reads the same.
#[verifier::external_body]
fn read_date(text: &str) -> (r: Option<i64>)
    ensures
        r == parsed_date(text@),
{
    match chrono::NaiveDateTime::parse_from_str(text, "%Y-%m-%d %H:%M:%S") {
        Ok(moment) => Some(moment.and_utc().timestamp()),
        Err(_) => None,
    }
}

/// The time range that two dates read give: both must have been read.
pub fn time_range_of(start: Option<i64>, end: Option<i64>) -> (r: Result<(i64, i64), RequestError>)
    ensures
        r == match (start, end) {
            (Some(a), Some(b)) => Ok::<(i64, i64), RequestError>((a, b)),
            _ => Err::<(i64, i64), RequestError>(RequestError::InvalidDate),
        },
{
    match (start, end) {
        (Some(a), Some(b)) => Ok((a, b)),
        _ => Err(RequestError::InvalidDate),
    }
}

/// Reads the first and the last instant of a run from two dates of the form
/// `YYYY-MM-DD HH:MM:SS`.
pub fn parse_time_range(start_date: &str, end_date: &str) -> (r: Result<(i64, i64), RequestError>)
    ensures
        r == match (parsed_date(start_date@), parsed_date(end_date@)) {
            (Some(a), Some(b)) => Ok::<(i64, i64), RequestError>((a, b)),
            _ => Err::<(i64, i64), RequestError>(RequestError::InvalidDate),
        },
{
    time_range_of(read_date(start_date), read_date(end_date))
}

#[verifier::external_type_specification]
#[verifier::external_body]
pub struct ExDecodeError(base64::DecodeError);

/// The bytes that the standard base64 alphabet with padding decodes a text
/// to; nothing where the text is not such base64.
pub uninterp spec fn base64_decoded(text: Seq<char>) -> Option<Seq<u8>>;

/// `Engine::decode` of `base64::engine::general_purpose::STANDARD`. The
/// contract only names the result: the same text always decodes the same.
#[verifier::external_body]
fn decode_standard(text: &str) -> (r: Result<Vec<u8>, base64::DecodeError>)
    ensures
        match r {
            Ok(bytes) => base64_decoded(text@) == Some(bytes@),
            Err(_) => base64_decoded(text@).is_none(),
        },
{
    base64::Engine::decode(&base64::engine::general_purpose::STANDARD, text)
}

/// The strategy module that a decoding gives.
pub fn module_of(decoded: Result<Vec<u8>, base64::DecodeError>) -> (r: Result<
    Vec<u8>,
    RequestError,
>)
    ensures
        match decoded {
            Ok(bytes) => r == Ok::<Vec<u8>, RequestError>(bytes),
            Err(_) => r == Err::<Vec<u8>, RequestError>(RequestError::InvalidModule),
        },
{
    match decoded {
        Ok(bytes) => Ok(bytes),
        Err(_) => Err(RequestError::InvalidModule),
    }
}

/// Decodes the strategy module of a request.
pub fn decode_module(text: &str) -> (r: Result<Vec<u8>, RequestError>)
    ensures
        match r {
            Ok(bytes) => base64_decoded(text@) == Some(bytes@),
            Err(e) => e == RequestError::InvalidModule && base64_decoded(text@).is_none(),
        },
{
    module_of(decode_standard(text))
}

/// A tick as a request states it.
#[derive(Debug, Clone, Copy, PartialEq, Eq, Structural)]
pub struct Tick {
    pub seconds: i64,
    pub nanoseconds: u32,
}

/// The value of a decimal digit.
pub open spec fn digit_of(c: char) -> Option<int> {
    match c {
        '0' => Some(0int),
        '1' => Some(1int),
        '2' => Some(2int),
        '3' => Some(3int),
        '4' => Some(4int),
        '5' => Some(5int),
        '6' => Some(6int),
        '7' => Some(7int),
        '8' => Some(8int),
        '9' => Some(9int),
        _ => None,
    }
}

/// The number that a text of decimal digits, and of nothing else, writes;
/// nothing for any other text, the empty one among them.
pub open spec fn number_of(text: Seq<char>) -> Option<int>
    decreases text.len(),
{
    if text.len() == 0 {
        None
    } else {
        match digit_of(text.last()) {
            None => None,
            Some(d) => if text.len() == 1 {
                Some(d)
            } else {
                match number_of(text.drop_last()) {
                    None => None,
                    Some(v) => Some(v * 10 + d),
                }
            },
        }
    }
}

/// The tick that a text states: a decimal number followed by `s`, for
/// seconds, or by `ns`, for nanoseconds, of which there are less than a
/// second's worth.
pub open spec fn tick_of(text: Seq<char>) -> Option<Tick> {
    let n: int = text.len() as int;
    if n >= 2 && text[n - 2] == 'n' && text[n - 1] == 's' {
        match number_of(text.take(n - 2)) {
            Some(v) => if v < 1_000_000_000 {
                Some(Tick { seconds: 0, nanoseconds: v as u32 })
            } else {
                None
            },
            None => None,
        }
    } else if n >= 1 && text[n - 1] == 's' {
        match number_of(text.take(n - 1)) {
            Some(v) => if v <= i64::MAX {
                Some(Tick { seconds: v as i64, nanoseconds: 0 })
            } else {
                None
            },
            None => None,
        }
    } else {
        None
    }
}

/// A number written in digits is not negative.
pub proof fn lemma_number_not_negative(text: Seq<char>)
    ensures
        number_of(text) matches Some(v) ==> v >= 0,
    decreases text.len(),
{
    if text.len() > 1 {
        lemma_number_not_negative(text.drop_last());
    }
}

/// The value of a decimal digit.
fn digit(c: char) -> (r: Option<i64>)
    ensures
        match r {
            Some(d) => digit_of(c) == Some(d as int) && 0 <= d <= 9,
            None => digit_of(c).is_none(),
        },
{
    match c {
        '0' => Some(0),
        '1' => Some(1),
        '2' => Some(2),
        '3' => Some(3),
        '4' => Some(4),
        '5' => Some(5),
        '6' => Some(6),
        '7' => Some(7),
        '8' => Some(8),
        '9' => Some(9),
        _ => None,
    }
}

/// Reads the decimal number that the first `end` characters of a text
/// write, where it is no more than `limit`.
pub fn decimal(text: &str, end: usize, limit: i64) -> (r: Option<i64>)
    requires
        end <= text@.len(),
        0 <= limit,
    ensures
        match r {
            Some(v) => number_of(text@.take(end as int)) == Some(v as int) && 0 <= v <= limit,
            None => match number_of(text@.take(end as int)) {
                Some(v) => v > limit,
                None => true,
            },
        },
{
    if end == 0 {
        return None;
    }
    let mut value: i64 = 0;
    let mut exceeded: bool = false;
    let mut k: usize = 0;
    while k < end
        invariant
            k <= end <= text@.len(),
            0 <= limit,
            0 <= value <= limit,
            k > 0 ==> (number_of(text@.take(k as int)) matches Some(v) && (if exceeded {
                v > limit
            } else {
                v == value
            })),
            k == 0 ==> value == 0 && !exceeded,
        decreases end - k,
    {
        let c: char = text.get_char(k);
        let ghost longer: Seq<char> = text@.take(k as int + 1);
        proof {
            assert(longer.drop_last() =~= text@.take(k as int));
            assert(longer.last() == c);
        }
        match digit(c) {
            None => {
                proof {
                    lemma_number_needs_digits(text@.take(end as int), k as int);
                }
                return None;
            },
            Some(d) => {
                if !exceeded {
                    let wide: i128 = value as i128 * 10 + d as i128;
                    if wide > limit as i128 {
                        exceeded = true;
                    } else {
                        value = wide as i64;
                    }
                } else {
                    proof {
                        lemma_number_not_negative(text@.take(k as int));
                    }
                }
            },
        }
        k += 1;
    }
    if exceeded {
        None
    } else {
        Some(value)
    }
}

/// A text with a character that is no digit writes no number.
pub proof fn lemma_number_needs_digits(text: Seq<char>, k: int)
    requires
        0 <= k < text.len(),
        digit_of(text[k]).is_none(),
    ensures
        number_of(text).is_none(),
    decreases text.len(),
{
    if k < text.len() - 1 {
        lemma_number_needs_digits(text.drop_last(), k);
    }
}

/// Reads a tick: a decimal number followed by `s` or by `ns`.
pub fn parse_tick(text: &str) -> (r: Result<Tick, RequestError>)
    ensures
        r == match tick_of(text@) {
            Some(t) => Ok::<Tick, RequestError>(t),
            None => Err::<Tick, RequestError>(RequestError::InvalidTick),
        },
{
    let n: usize = text.unicode_len();
    if n >= 2 && text.get_char(n - 2) == 'n' && text.get_char(n - 1) == 's' {
        match decimal(text, n - 2, 999_999_999) {
            Some(v) => Ok(Tick { seconds: 0, nanoseconds: v as u32 }),
            None => Err(RequestError::InvalidTick),
        }
    } else if n >= 1 && text.get_char(n - 1) == 's' {
        match decimal(text, n - 1, i64::MAX) {
            Some(v) => Ok(Tick { seconds: v, nanoseconds: 0 }),
            None => Err(RequestError::InvalidTick),
        }
    } else {
        Err(RequestError::InvalidTick)
    }
}

/// The seconds between two ticks that a tick gives an engine, which counts
/// in whole seconds: a tick of less than a second would not advance it.
pub open spec fn engine_tick_of(tick: Tick) -> Option<i64> {
    if tick.seconds > 0 {
        Some(tick.seconds)
    } else {
        None
    }
}

/// The seconds between two ticks that a tick gives an engine; a tick that
/// would not advance it is refused.
pub fn engine_tick(tick: &Tick) -> (r: Result<i64, RequestError>)
    ensures
        r == match engine_tick_of(*tick) {
            Some(seconds) => Ok::<i64, RequestError>(seconds),
            None => Err::<i64, RequestError>(RequestError::InvalidTick),
        },
{
    if tick.seconds > 0 {
        Ok(tick.seconds)
    } else {
        Err(RequestError::InvalidTick)
    }
}

/// Sets up the broker of a request: the cash, the fee schedule where one is
/// given and acceptable, and the slippage where bounds are given and in
/// order, its pool drawn from the seed.
pub fn configure_broker(
    cash: i64,
    fees: Option<FeeType>,
    slippage: Option<(i64, i64)>,
    seed: u64,
) -> (r: Result<Broker, RequestError>)
    ensures
        match r {
            Ok(broker) => {
                &&& broker.wf()
                &&& fees matches Some(schedule) ==> acceptable(schedule)
                &&& slippage matches Some(bounds) ==> bounds.0 <= bounds.1
                &&& broker@ == (BrokerView {
                    cash,
                    fee_type: fees,
                    slippage_range: match slippage {
                        Some(bounds) => bounds,
                        None => (0i64, 0i64),
                    },
                    pool: match slippage {
                        Some(bounds) => pool_of(seed, bounds.0, bounds.1, POOL_SIZE as nat),
                        None => Seq::empty(),
                    },
                    analytics: BrokerAnalytics { added_funds: cash, ..fresh().analytics },
                    ..fresh()
                })
            },
            Err(e) => e == (match fees {
                Some(schedule) if !acceptable(schedule) => RequestError::InvalidFees,
                _ => RequestError::InvalidSlippage,
            }) && ((fees matches Some(schedule) && !acceptable(schedule)) || (
            slippage matches Some(bounds) && bounds.0 > bounds.1)),
        },
{
    let mut broker: Broker = Broker::new();
    let taken: bool = broker.set_cash(cash);
    assert(taken);
    match fees {
        Some(schedule) => {
            if !schedule.is_acceptable() {
                return Err(RequestError::InvalidFees);
            }
            broker.set_fees(schedule);
        },
        None => {},
    }
    match slippage {
        Some(bounds) => {
            if !broker.set_slippage(bounds.0, bounds.1, seed) {
                return Err(RequestError::InvalidSlippage);
            }
        },
        None => {},
    }
    Ok(broker)
}

} // verus!
