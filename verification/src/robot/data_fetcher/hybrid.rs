use vstd::prelude::*;

verus! {

/// Where bars are fetched from.
#[derive(Debug, Clone, Copy, PartialEq, Eq, Structural)]
pub enum FetchMode {
    /// History over REST only (backtests).
    RestOnly,
    /// The live WebSocket stream only (fast scalping).
    WebSocketOnly,
    /// History over REST, the live stream when REST gives nothing (the default).
    Hybrid,
}

/// A bar source.
#[derive(Debug, Clone, Copy, PartialEq, Eq, Structural)]
pub enum FetchSource {
    Rest,
    WebSocket,
}

/// The source asked first: the stream for `WebSocketOnly`, REST otherwise.
pub fn first_source(mode: FetchMode) -> (r: FetchSource)
    ensures
        r == (if mode == FetchMode::WebSocketOnly { FetchSource::WebSocket } else { FetchSource::Rest }),
{
    match mode {
        FetchMode::WebSocketOnly => FetchSource::WebSocket,
        _ => FetchSource::Rest,
    }
}

/// The source asked after REST answered (`rest_has_bars`: it returned bars): in
/// hybrid mode an error or no bars falls back to the stream; otherwise the REST
/// answer stands.
pub fn after_rest(mode: FetchMode, rest_has_bars: bool) -> (r: Option<FetchSource>)
    ensures
        r == (if mode == FetchMode::Hybrid && !rest_has_bars { Some(FetchSource::WebSocket) } else { None::<FetchSource> }),
{
    if mode == FetchMode::Hybrid && !rest_has_bars {
        Some(FetchSource::WebSocket)
    } else {
        None
    }
}

} // verus!
