pub mod bars;
pub mod binance;
pub mod twelvedata;
pub mod yahoo;
pub mod websocket;
pub mod hybrid;
pub mod isyatirim;
