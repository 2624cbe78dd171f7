use memos_trading_core::robot::backtester::time_grid::union_time_grid;
use memos_trading_core::robot::backtester::xs_momentum::{align_closes, align_ohlc};
use memos_trading_core::types::Candle;

fn bar(ts: i64, close: i64, sym: &str) -> Candle {
    Candle {
        timestamp: ts,
        open: close,
        high: close,
        low: close,
        close,
        volume: 0,
        symbol: sym.to_string(),
        interval: "1h".to_string(),
    }
}

#[test]
fn union_grid_lists_every_time_once_in_order() {
    let series = vec![
        vec![bar(30, 1, "A"), bar(10, 2, "A"), bar(30, 3, "A")],
        vec![bar(20, 4, "B"), bar(40, 5, "B")],
        vec![],
    ];
    assert_eq!(union_time_grid(&series), vec![10, 20, 30, 40]);
}

#[test]
fn closes_align_with_gaps_and_last_bar_wins() {
    let series = vec![
        vec![bar(30, 1, "A"), bar(10, 2, "A"), bar(30, 3, "A")],
        vec![bar(20, 4, "B"), bar(40, 5, "B")],
    ];
    let m = align_closes(&series);
    assert_eq!(
        m,
        vec![
            vec![Some(2), None],
            vec![None, Some(4)],
            vec![Some(3), None],
            vec![None, Some(5)],
        ]
    );
}

#[test]
fn ohlc_rows_share_the_close_grid() {
    let series = vec![vec![bar(5, 7, "A")], vec![bar(5, 8, "B"), bar(6, 9, "B")]];
    let m = align_ohlc(&series);
    assert_eq!(m.len(), 2);
    assert_eq!(m[0][0].as_ref().map(|c| c.close), Some(7));
    assert_eq!(m[0][1].as_ref().map(|c| c.symbol.clone()), Some("B".to_string()));
    assert!(m[1][0].is_none());
    assert_eq!(m[1][1].as_ref().map(|c| c.timestamp), Some(6));
}

#[test]
fn no_series_no_rows() {
    let series: Vec<Vec<Candle>> = vec![];
    assert!(align_closes(&series).is_empty());
}
