use stock_analyzer::analysis::parse_result;
use stock_analyzer::chart::chart_spec;
use stock_analyzer::dates::Date;
use stock_analyzer::decimal::Decimal;
use stock_analyzer::errors::PipeError;
use stock_analyzer::export::{emit_export, parse_export};
use stock_analyzer::history::HistoryStore;
use stock_analyzer::payload::parse_payload;
use stock_analyzer::pipeline::{start_run, step, PipeAction, PipeEvent, Pipeline, Stage};
use stock_analyzer::series::PricePoint;

fn d(y: u32, m: u32, day: u32) -> Date {
    Date { year: y, month: m, day }
}

fn pos(mant: u64, scale: u32) -> Decimal {
    Decimal { neg: false, mant, scale }
}

fn analysis_for(price: Decimal) -> stock_analyzer::analysis::AnalysisResult {
    stock_analyzer::analysis::from_fields(Some(price), Some(b"UP".to_vec()), Some(b"BUY".to_vec()))
}

fn today() -> Date {
    d(2024, 6, 1)
}

#[test]
fn payload_output_sorted_and_unique() {
    let body = br#"{"Meta Data": {"2. Symbol": "IBM"},
        "Time Series (Daily)": {
            "2024-01-03": {"1. open": "99.0", "4. close": "102.25"},
            "2024-01-01": {"4. close": "100.5"},
            "2024-01-02": {"4. close": "101.0"}
        }}"#
        .to_vec();
    let series = parse_payload(&body).unwrap();
    assert_eq!(series.len(), 3);
    assert_eq!(series[0].date, d(2024, 1, 1));
    assert_eq!(series[1].date, d(2024, 1, 2));
    assert_eq!(series[2].date, d(2024, 1, 3));
    for w in series.windows(2) {
        assert!(
            (w[0].date.year, w[0].date.month, w[0].date.day)
                < (w[1].date.year, w[1].date.month, w[1].date.day)
        );
    }
}

#[test]
fn payload_duplicate_date_keeps_last() {
    let body = br#"{"Time Series (Daily)": {
            "2024-01-01": {"4. close": "100.5"},
            "2024-01-01": {"4. close": "200.5"}
        }}"#
        .to_vec();
    let series = parse_payload(&body).unwrap();
    assert_eq!(series.len(), 1);
    assert_eq!(series[0].close, pos(2005, 1));
}

#[test]
fn export_round_trip_reproduces_series() {
    let series = vec![
        PricePoint { date: d(2024, 1, 1), close: pos(1005, 1) },
        PricePoint { date: d(2024, 1, 2), close: pos(101, 0) },
        PricePoint { date: d(2024, 2, 29), close: pos(990025, 4) },
    ];
    let bytes = emit_export(&series);
    let back = parse_export(&bytes).unwrap();
    assert_eq!(back, series);
}

#[test]
fn export_round_trip_empty_series() {
    let series: Vec<PricePoint> = Vec::new();
    let bytes = emit_export(&series);
    assert_eq!(bytes, b"[]".to_vec());
    let back = parse_export(&bytes).unwrap();
    assert!(back.is_empty());
}

#[test]
fn exported_file_is_valid_json() {
    let series = vec![
        PricePoint { date: d(2024, 1, 1), close: pos(1005, 1) },
        PricePoint { date: d(2024, 1, 2), close: pos(101, 0) },
    ];
    let bytes = emit_export(&series);
    let v: serde_json::Value = serde_json::from_slice(&bytes).unwrap();
    let arr = v.as_array().unwrap();
    assert_eq!(arr.len(), 2);
    assert_eq!(arr[0][0].as_str().unwrap(), "2024-01-01");
    assert_eq!(arr[0][1].as_f64().unwrap(), 100.5);
    assert_eq!(arr[1][1].as_f64().unwrap(), 101.0);
}

#[test]
fn missing_series_key_aborts_without_export() {
    let body = br#"{"Meta Data": {}}"#.to_vec();
    assert_eq!(parse_payload(&body).unwrap_err(), PipeError::MissingSeries);

    // Through the orchestrator: the run fails and no export write is
    // ever requested.
    let mut p = start_run(b"IBM".to_vec());
    let mut store = HistoryStore::new();
    let act = step(&mut p, &mut store, today(), PipeEvent::QuoteReceived { body });
    assert!(matches!(act, PipeAction::Report { err: PipeError::MissingSeries }));
    assert_eq!(p.stage, Stage::Failed);
    assert!(store.rows.is_empty());
}

#[test]
fn malformed_entry_dropped_without_abort() {
    let body = br#"{"Time Series (Daily)": {
            "2024-01-01": {"4. close": "100.5"},
            "2024-01-02": {"4. close": "bad"}
        }}"#
        .to_vec();
    let series = parse_payload(&body).unwrap();
    assert_eq!(series.len(), 1);
    assert_eq!(series[0].date, d(2024, 1, 1));
    assert_eq!(series[0].close, pos(1005, 1));
}

#[test]
fn predictor_failure_appends_nothing_and_reads_nothing() {
    let mut p = Pipeline {
        stage: Stage::AwaitPredictor,
        err: None,
        symbol: b"IBM".to_vec(),
        series: vec![PricePoint { date: d(2024, 1, 1), close: pos(1005, 1) }],
        analysis: None,
        chart_ok: false,
    };
    let mut store = HistoryStore::new();
    let act = step(&mut p, &mut store, today(), PipeEvent::PredictorExited { success: false });
    assert!(matches!(act, PipeAction::Report { err: PipeError::PredictorFailed }));
    assert_eq!(p.stage, Stage::Failed);
    assert_eq!(p.err, Some(PipeError::PredictorFailed));
    assert!(store.rows.is_empty());
}

#[test]
fn predictor_success_reads_result() {
    let mut p = Pipeline {
        stage: Stage::AwaitPredictor,
        err: None,
        symbol: b"IBM".to_vec(),
        series: Vec::new(),
        analysis: None,
        chart_ok: false,
    };
    let mut store = HistoryStore::new();
    let act = step(&mut p, &mut store, today(), PipeEvent::PredictorExited { success: true });
    assert!(matches!(act, PipeAction::ReadResult));
    assert_eq!(p.stage, Stage::AwaitResultRead);
}

#[test]
fn result_with_only_price_defaults_other_fields() {
    let body = br#"{"predicted_price": 142.3}"#.to_vec();
    let a = parse_result(&body).unwrap();
    assert_eq!(a.trend, b"N/A".to_vec());
    assert_eq!(a.predicted, pos(1423, 1));
    assert_eq!(a.recommendation, b"N/A".to_vec());
}

#[test]
fn result_with_all_fields() {
    let body = br#"{"predicted_price": 99.25, "trend": "Upward", "recommendation": "Buy", "extra": {"nested": [1, 2]}}"#.to_vec();
    let a = parse_result(&body).unwrap();
    assert_eq!(a.trend, b"Upward".to_vec());
    assert_eq!(a.predicted, pos(9925, 2));
    assert_eq!(a.recommendation, b"Buy".to_vec());
}

#[test]
fn result_with_wrongly_typed_fields_defaults() {
    let body = br#"{"predicted_price": "142.3", "trend": 7, "recommendation": null}"#.to_vec();
    let a = parse_result(&body).unwrap();
    // A string price is not numeric, a numeric trend is not a string.
    assert_eq!(a.predicted, pos(0, 1));
    assert_eq!(a.trend, b"N/A".to_vec());
    assert_eq!(a.recommendation, b"N/A".to_vec());
}

#[test]
fn unreadable_result_is_fatal() {
    assert_eq!(parse_result(&b"null".to_vec()).unwrap_err(), PipeError::ResultUnreadable);
    assert_eq!(parse_result(&b"".to_vec()).unwrap_err(), PipeError::ResultUnreadable);
    assert_eq!(parse_result(&b"{broken".to_vec()).unwrap_err(), PipeError::ResultUnreadable);
}

#[test]
fn recent_returns_descending_identities() {
    let mut store = HistoryStore::new();
    for _ in 0..5 {
        let a = analysis_for(pos(1423, 1));
        store.append(&b"IBM".to_vec(), today(), &a);
    }
    let recent = store.recent(3);
    let ids: Vec<u64> = recent.iter().map(|r| r.id).collect();
    assert_eq!(ids, vec![5, 4, 3]);
}

#[test]
fn recent_with_short_history() {
    let mut store = HistoryStore::new();
    let a = analysis_for(pos(10, 0));
    store.append(&b"A".to_vec(), today(), &a);
    let recent = store.recent(10);
    assert_eq!(recent.len(), 1);
    assert_eq!(recent[0].id, 1);
    assert_eq!(recent[0].symbol, b"A".to_vec());
    assert_eq!(recent[0].trend, b"UP".to_vec());
}

#[test]
fn single_point_chart_pads_degenerate_axis() {
    let series = vec![PricePoint { date: d(2024, 1, 1), close: pos(1005, 1) }];
    let c = chart_spec(&series, &pos(1423, 1), &b"ibm".to_vec()).unwrap();
    // 100.5 in millionths, padded one unit down and up.
    assert_eq!(c.y_lo_e6, 100_500_000 - 1_000_000);
    assert_eq!(c.y_hi_e6, 100_500_000 + 1_000_000);
    assert!(c.y_lo_e6 < c.y_hi_e6);
    assert_eq!(c.x_first, d(2024, 1, 1));
    assert_eq!(c.x_last, d(2024, 1, 1));
    assert_eq!(c.caption, b"Stock Prices: IBM".to_vec());
}

#[test]
fn chart_bounds_span_the_closes() {
    let series = vec![
        PricePoint { date: d(2024, 1, 1), close: pos(1005, 1) },
        PricePoint { date: d(2024, 1, 2), close: pos(99, 0) },
        PricePoint { date: d(2024, 1, 3), close: pos(10275, 2) },
    ];
    let c = chart_spec(&series, &pos(1423, 1), &b"ibm".to_vec()).unwrap();
    assert_eq!(c.y_lo_e6, 99_000_000);
    assert_eq!(c.y_hi_e6, 102_750_000);
    assert_eq!(c.pred_e6, 142_300_000);
    assert_eq!(c.note_label, b"Predicted: 142.30".to_vec());
    assert_eq!(c.pred_label, b"Predicted Price: 142.30".to_vec());
    assert_eq!(c.close_label, b"Close Price".to_vec());
}

#[test]
fn empty_series_has_no_chart() {
    let series: Vec<PricePoint> = Vec::new();
    assert!(chart_spec(&series, &pos(0, 1), &b"ibm".to_vec()).is_none());
}

#[test]
fn full_run_through_the_orchestrator() {
    let mut p = start_run(b"ibm".to_vec());
    let mut store = HistoryStore::new();
    let body = br#"{"Time Series (Daily)": {"2024-01-01": {"4. close": "100.5"}}}"#.to_vec();
    let act = step(&mut p, &mut store, today(), PipeEvent::QuoteReceived { body });
    let bytes = match act {
        PipeAction::WriteExport { bytes } => bytes,
        _ => panic!("expected an export write"),
    };
    assert_eq!(parse_export(&bytes).unwrap(), p.series);
    let act = step(&mut p, &mut store, today(), PipeEvent::ExportWritten { ok: true });
    assert!(matches!(act, PipeAction::RunPredictor));
    let act = step(&mut p, &mut store, today(), PipeEvent::PredictorExited { success: true });
    assert!(matches!(act, PipeAction::ReadResult));
    let result = br#"{"predicted_price": 142.3, "trend": "Up", "recommendation": "Buy"}"#.to_vec();
    let act = step(&mut p, &mut store, today(), PipeEvent::ResultRead { bytes: Some(result) });
    assert!(matches!(act, PipeAction::AppendRecord));
    let act = step(&mut p, &mut store, today(), PipeEvent::StoreAppended { ok: true });
    assert!(matches!(act, PipeAction::RenderChart { chart: Some(_) }));
    assert_eq!(store.rows.len(), 1);
    assert_eq!(store.rows[0].id, 1);
    assert_eq!(store.rows[0].symbol, b"ibm".to_vec());
    assert_eq!(store.rows[0].trend, b"Up".to_vec());
    let act = step(&mut p, &mut store, today(), PipeEvent::ChartRendered { ok: true });
    assert!(matches!(act, PipeAction::Finish));
    assert_eq!(p.stage, Stage::Done);
    assert!(p.chart_ok);
}

#[test]
fn failed_export_write_is_fatal_io() {
    let mut p = Pipeline {
        stage: Stage::AwaitExportWrite,
        err: None,
        symbol: b"IBM".to_vec(),
        series: Vec::new(),
        analysis: None,
        chart_ok: false,
    };
    let mut store = HistoryStore::new();
    let act = step(&mut p, &mut store, today(), PipeEvent::ExportWritten { ok: false });
    assert!(matches!(act, PipeAction::Report { err: PipeError::Io }));
    assert_eq!(p.err, Some(PipeError::Io));
}

#[test]
fn failed_store_write_skips_chart() {
    let mut p = Pipeline {
        stage: Stage::AwaitStore,
        err: None,
        symbol: b"IBM".to_vec(),
        series: vec![PricePoint { date: d(2024, 1, 1), close: pos(1005, 1) }],
        analysis: Some(analysis_for(pos(1423, 1))),
        chart_ok: false,
    };
    let mut store = HistoryStore::new();
    let act = step(&mut p, &mut store, today(), PipeEvent::StoreAppended { ok: false });
    assert!(matches!(act, PipeAction::Report { err: PipeError::StoreWrite }));
    assert_eq!(p.stage, Stage::Failed);
    assert!(store.rows.is_empty());
}

#[test]
fn missing_result_file_is_fatal() {
    let mut p = Pipeline {
        stage: Stage::AwaitResultRead,
        err: None,
        symbol: b"IBM".to_vec(),
        series: Vec::new(),
        analysis: None,
        chart_ok: false,
    };
    let mut store = HistoryStore::new();
    let act = step(&mut p, &mut store, today(), PipeEvent::ResultRead { bytes: None });
    assert!(matches!(act, PipeAction::Report { err: PipeError::ResultUnreadable }));
    assert_eq!(p.stage, Stage::Failed);
}
