//! The REST surface's data shapes: the wire error taxonomy and the
//! transfer objects, together with the verified mappings from the domain
//! types.
//!
//! The HTTP transport itself lives with the embedding application; what
//! is verified here is what the wire carries.

use vstd::prelude::*;
use vstd::utf8::encode_utf8;
use crate::codec::{money_to_string, spec_money_bytes};
use crate::money::{COST_MAX_RAW};
use crate::orders::{Order, OrderDirection, OrderStatus, Position, TradeError, position_wf};
use crate::strategy::ManagerError;

verus! {

/// The wire-level error taxonomy.
#[derive(Clone, Debug, PartialEq)]
pub enum ApiError {
    Unauthorized(String),
    Forbidden(String),
    NotFound(String),
    BadRequest(String),
    Internal(String),
}

impl ApiError {
    /// The HTTP status each wire error maps to.
    pub fn status_code(&self) -> (r: u16)
        ensures
            r == (match *self {
                ApiError::Unauthorized(_) => 401u16,
                ApiError::Forbidden(_) => 403u16,
                ApiError::NotFound(_) => 404u16,
                ApiError::BadRequest(_) => 400u16,
                ApiError::Internal(_) => 500u16,
            }),
    {
        match self {
            ApiError::Unauthorized(_) => 401,
            ApiError::Forbidden(_) => 403,
            ApiError::NotFound(_) => 404,
            ApiError::BadRequest(_) => 400,
            ApiError::Internal(_) => 500,
        }
    }

    /// Map a trade error onto the wire taxonomy: a missing account or
    /// order is `NotFound`; insufficient funds and a non-positive volume
    /// are client errors (`BadRequest`); the rest stays internal.
    pub fn from_trade_error(e: TradeError) -> (r: ApiError)
        ensures
            (e matches TradeError::AccountNotFound(_)) ==> r is NotFound,
            (e matches TradeError::OrderNotFound(_)) ==> r is NotFound,
            (e matches TradeError::InsufficientFunds { .. }) ==> r is BadRequest,
            (e matches TradeError::InvalidOrderVolume) ==> r is BadRequest,
            (e matches TradeError::InvalidOrderStatus) ==> r is Internal,
            (e matches TradeError::BrokerIntegrationError(_)) ==> r is Internal,
            (e matches TradeError::InternalError(_)) ==> r is Internal,
    {
        match e {
            TradeError::AccountNotFound(msg) => ApiError::NotFound(msg),
            TradeError::OrderNotFound(msg) => ApiError::NotFound(msg),
            TradeError::InsufficientFunds { .. } => ApiError::BadRequest(
                "insufficient funds".to_owned(),
            ),
            TradeError::InvalidOrderVolume => ApiError::BadRequest(
                "volume must be greater than zero".to_owned(),
            ),
            TradeError::InvalidOrderStatus => ApiError::Internal(
                "invalid order status".to_owned(),
            ),
            TradeError::BrokerIntegrationError(msg) => ApiError::Internal(msg),
            TradeError::InternalError(msg) => ApiError::Internal(msg),
        }
    }

    /// Map a supervisor error onto the wire taxonomy.
    pub fn from_manager_error(e: ManagerError) -> (r: ApiError)
        ensures
            (e matches ManagerError::NotFound(_)) ==> r is NotFound,
            !(e matches ManagerError::NotFound(_)) ==> r is Internal,
    {
        match e {
            ManagerError::NotFound(msg) => ApiError::NotFound(msg),
            ManagerError::Store(_) => ApiError::Internal("store error".to_owned()),
            ManagerError::Engine(_) => ApiError::Internal("engine error".to_owned()),
            ManagerError::AlreadyRunning(msg) => ApiError::Internal(msg),
        }
    }
}

/// Position detail sent to the front end.
#[derive(Clone, Debug)]
pub struct PositionResponse {
    pub symbol: String,
    pub volume: String,
    pub average_price: String,
}

impl PositionResponse {
    /// Render one position, volumes and prices as decimal strings.
    pub fn from_position(p: &Position) -> (r: PositionResponse)
        requires
            position_wf(*p),
        ensures
            r.symbol == p.symbol,
            encode_utf8(r.volume@) == spec_money_bytes(p.volume@),
            encode_utf8(r.average_price@) == spec_money_bytes(p.average_price@),
    {
        PositionResponse {
            symbol: p.symbol.clone(),
            volume: money_to_string(p.volume),
            average_price: money_to_string(p.average_price),
        }
    }
}

/// Account snapshot sent to the front end.
#[derive(Clone, Debug)]
pub struct AccountSnapshotResponse {
    pub account_id: String,
    pub available_balance: String,
    pub frozen_balance: String,
    pub total_equity: String,
    pub positions: Vec<PositionResponse>,
}

/// Order detail sent to the front end.
#[derive(Clone, Debug)]
pub struct OrderResponse {
    pub id: String,
    pub account_id: String,
    pub symbol: String,
    pub direction: String,
    pub price: Option<String>,
    pub volume: String,
    pub filled_volume: String,
    pub status: String,
    pub created_at: i64,
}

impl OrderResponse {
    /// Render one order for the wire.
    pub fn from_order(o: &Order) -> (r: OrderResponse)
        requires
            -100 * (COST_MAX_RAW as int) <= o.volume@ <= 100 * (COST_MAX_RAW as int),
            -100 * (COST_MAX_RAW as int) <= o.filled_volume@ <= 100 * (COST_MAX_RAW as int),
            o.price matches Some(p) ==> -100 * (COST_MAX_RAW as int) <= p@ <= 100 * (
            COST_MAX_RAW as int),
        ensures
            r.id == o.id.0,
            r.account_id == o.account_id.0,
            r.symbol == o.symbol,
            r.direction@ == (match o.direction {
                OrderDirection::Buy => "Buy"@,
                OrderDirection::Sell => "Sell"@,
            }),
            (match (o.price, r.price) {
                (Some(p), Some(ps)) => encode_utf8(ps@) == spec_money_bytes(p@),
                (None, None) => true,
                _ => false,
            }),
            encode_utf8(r.volume@) == spec_money_bytes(o.volume@),
            encode_utf8(r.filled_volume@) == spec_money_bytes(o.filled_volume@),
            r.status@ == (match o.status {
                OrderStatus::Pending => "Pending"@,
                OrderStatus::Submitted => "Submitted"@,
                OrderStatus::PartialFilled => "PartialFilled"@,
                OrderStatus::Filled => "Filled"@,
                OrderStatus::Canceled => "Canceled"@,
                OrderStatus::Rejected => "Rejected"@,
            }),
            r.created_at == o.created_at,
    {
        OrderResponse {
            id: o.id.0.clone(),
            account_id: o.account_id.0.clone(),
            symbol: o.symbol.clone(),
            direction: match o.direction {
                OrderDirection::Buy => "Buy".to_owned(),
                OrderDirection::Sell => "Sell".to_owned(),
            },
            price: match o.price {
                Some(p) => Some(money_to_string(p)),
                None => None,
            },
            volume: money_to_string(o.volume),
            filled_volume: money_to_string(o.filled_volume),
            status: match o.status {
                OrderStatus::Pending => "Pending".to_owned(),
                OrderStatus::Submitted => "Submitted".to_owned(),
                OrderStatus::PartialFilled => "PartialFilled".to_owned(),
                OrderStatus::Filled => "Filled".to_owned(),
                OrderStatus::Canceled => "Canceled".to_owned(),
                OrderStatus::Rejected => "Rejected".to_owned(),
            },
            created_at: o.created_at,
        }
    }
}

/// Stock metadata sent to the front end.
#[derive(Clone, Debug)]
pub struct StockMetadataResponse {
    pub symbol: String,
    pub name: String,
    pub exchange: String,
    pub currency: String,
    pub sector: Option<String>,
}

/// Candle sent to the front end.
#[derive(Clone, Debug)]
pub struct CandleResponse {
    pub time: String,
    pub open: String,
    pub high: String,
    pub low: String,
    pub close: String,
    pub volume: String,
    pub is_final: bool,
}

/// Strategy instance sent to the front end.
#[derive(Clone, Debug)]
pub struct StrategyResponse {
    pub id: String,
    pub symbol: String,
    pub account_id: String,
    pub timeframe: String,
    pub engine_type: String,
    pub status: String,
    pub created_at: String,
}

/// Request body to start a strategy.
#[derive(Clone, Debug)]
pub struct StartStrategyRequest {
    pub symbol: String,
    pub account_id: String,
    pub timeframe: String,
    pub engine_type: String,
    pub source_base64: String,
}

/// Request body to save a strategy's source.
#[derive(Clone, Debug)]
pub struct SaveStrategySourceRequest {
    pub source_base64: String,
}

/// Uniform success wrapper.
#[derive(Clone, Debug)]
pub struct ApiResponse<T> {
    pub success: bool,
    pub data: Option<T>,
    pub error: Option<String>,
}

impl<T> ApiResponse<T> {
    /// A successful response carrying `data`.
    pub fn ok(data: T) -> (r: ApiResponse<T>)
        ensures
            r.success,
            r.data == Some(data),
            r.error is None,
    {
        ApiResponse { success: true, data: Some(data), error: None }
    }
}

/// Uniform failure wrapper.
#[derive(Clone, Debug)]
pub struct ApiErrorResponse {
    pub success: bool,
    pub error: String,
}

impl ApiErrorResponse {
    /// A failure response carrying `msg`.
    pub fn from_msg(msg: String) -> (r: ApiErrorResponse)
        ensures
            !r.success,
            r.error == msg,
    {
        ApiErrorResponse { success: false, error: msg }
    }
}

/// Login request body.
#[derive(Clone, Debug)]
pub struct LoginRequest {
    pub username: String,
    pub password: String,
}

/// Password-change request body.
#[derive(Clone, Debug)]
pub struct ChangePasswordRequest {
    pub old_password: String,
    pub new_password: String,
}

/// Administrator request to create a user.
#[derive(Clone, Debug)]
pub struct CreateUserRequest {
    pub id: String,
    pub name: String,
    pub password: String,
    pub role: String,
}

/// User profile sent to the front end.
#[derive(Clone, Debug)]
pub struct UserResponse {
    pub id: String,
    pub name: String,
    pub role: String,
    pub created_at: String,
}

/// A bearer token and its validity.
#[derive(Clone, Debug)]
pub struct LoginResponse {
    pub token: String,
    pub expires_in: u64,
}

/// Claims carried inside a bearer token.
#[derive(Clone, Debug)]
pub struct Claims {
    pub sub: String,
    pub role: String,
    pub exp: usize,
}

/// Query string of the order listing.
#[derive(Clone, Debug)]
pub struct GetOrdersQuery {
    pub account_id: String,
    pub limit: Option<usize>,
    pub offset: Option<usize>,
}

/// Request body to place an order.
#[derive(Clone, Debug)]
pub struct PlaceOrderRequest {
    pub account_id: String,
    pub symbol: String,
    pub volume: String,
    pub price: Option<String>,
    pub direction: String,
}

/// Request body to update user settings.
#[derive(Clone, Debug)]
pub struct UpdateSettingsRequest {
    pub telegram_chat_id: Option<String>,
}

/// Query string of the symbol search.
#[derive(Clone, Debug)]
pub struct SearchQuery {
    pub q: String,
}

/// Query string of the candle listing.
#[derive(Clone, Debug)]
pub struct CandlesQuery {
    pub timeframe: String,
    pub limit: Option<usize>,
}

/// Query string of the strategy listing.
#[derive(Clone, Debug)]
pub struct ListStrategiesQuery {
    pub status: Option<String>,
}

/// Request body to edit a watchlist.
#[derive(Clone, Debug)]
pub struct WatchlistRequest {
    pub symbol: String,
}

} // verus!
