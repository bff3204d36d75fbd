//! The pipeline orchestrator: a state machine from event to next state
//! and action. The caller performs the outside work of each action —
//! the fetch, the file writes, the predictor process, the database row,
//! the drawing — and feeds the outcome back as the next event. Every
//! fatal condition aborts the run and asks only for a report; the
//! export is requested only after the payload parsed, the result file
//! is read only after the predictor exited successfully, and a history
//! row is recorded exactly when a result was read.

use vstd::prelude::*;
use crate::analysis::{na_label, parse_result, spec_parse_result, zero_price, AnalysisResult};
use crate::chart::{chart_matches, chart_spec, ChartSpec};
use crate::dates::Date;
use crate::decimal::dec_wf;
use crate::errors::PipeError;
use crate::export::{emit_export, spec_emit_export};
use crate::history::{rec_like, HistoryRecord, HistoryStore};
use crate::payload::{parse_payload, spec_parse_payload};
use crate::series::{build_inv, series_wf, PricePoint};

verus! {

#[derive(Clone, Copy, PartialEq, Eq, Structural, Debug)]
pub enum Stage {
    AwaitFetch,
    AwaitExportWrite,
    AwaitPredictor,
    AwaitResultRead,
    AwaitStore,
    AwaitChart,
    Done,
    Failed,
}

pub struct Pipeline {
    pub stage: Stage,
    /// The fatal error, exactly when the run failed.
    pub err: Option<PipeError>,
    pub symbol: Vec<u8>,
    pub series: Vec<PricePoint>,
    pub analysis: Option<AnalysisResult>,
    /// Whether the chart step succeeded, once the run is done.
    pub chart_ok: bool,
}

pub enum PipeEvent {
    /// The quote request answered with this body.
    QuoteReceived { body: Vec<u8> },
    /// The quote request failed in transport.
    FetchFailed,
    /// The export file write finished.
    ExportWritten { ok: bool },
    /// The predictor process exited; `success` is a zero exit status.
    PredictorExited { success: bool },
    /// The result file was read, or could not be.
    ResultRead { bytes: Option<Vec<u8>> },
    /// The history row insert finished.
    StoreAppended { ok: bool },
    /// The chart render finished.
    ChartRendered { ok: bool },
}

pub enum PipeAction {
    /// Write these bytes to the export file, replacing it.
    WriteExport { bytes: Vec<u8> },
    /// Run the external predictor and await its exit.
    RunPredictor,
    /// Read the predictor's result file.
    ReadResult,
    /// Insert one history row from the pipeline's analysis.
    AppendRecord,
    /// Draw the chart; `None` means the series was empty and there is
    /// nothing to draw.
    RenderChart { chart: Option<ChartSpec> },
    /// Report this fatal error and end the run.
    Report { err: PipeError },
    /// The run is complete.
    Finish,
    /// The event did not belong to the current stage.
    Ignore,
}

impl Pipeline {
    pub open spec fn wf(self) -> bool {
        &&& series_wf(self.series@)
        &&& (self.analysis matches Some(a) ==> dec_wf(a.predicted))
        &&& (self.stage == Stage::Failed ==> self.err is Some)
        &&& (self.stage == Stage::AwaitStore ==> self.analysis is Some)
        &&& (self.stage == Stage::AwaitChart ==> self.analysis is Some)
    }
}

/// Begins a run for one ticker symbol; the first action is the quote
/// fetch, which the caller performs.
pub fn start_run(symbol: Vec<u8>) -> (p: Pipeline)
    ensures
        p.wf(),
        p.stage == Stage::AwaitFetch,
        p.symbol@ == symbol@,
        p.series@.len() == 0,
        p.analysis is None,
        p.err is None,
{
    Pipeline {
        stage: Stage::AwaitFetch,
        err: None,
        symbol,
        series: Vec::new(),
        analysis: None,
        chart_ok: false,
    }
}

/// Advances the pipeline by one event. The contract pins each stage's
/// transitions; in particular a non-zero predictor exit fails the run
/// with `PredictorFailed`, appends nothing, and never asks for the
/// result file, and the history store changes only on a successful
/// store event after a result was read.
#[verifier::rlimit(100)]
pub fn step(p: &mut Pipeline, store: &mut HistoryStore, today: Date, ev: PipeEvent) -> (act:
    PipeAction)
    requires
        old(p).wf(),
        old(store).wf(),
        old(store).rows@.len() + 1 <= u64::MAX,
    ensures
        final(p).wf(),
        final(store).wf(),
        final(p).symbol@ == old(p).symbol@,
        // The store changes only when a row for the read result is
        // confirmed; then exactly one row is appended.
        (*final(store) == *old(store)) || (old(p).stage == Stage::AwaitStore && (ev matches
        PipeEvent::StoreAppended { ok: true }) && final(store).rows@.len() == old(store).rows@.len() + 1),
        // Quote arrival: the payload bytes decide. If they parse, the
        // run moves on holding exactly the series the payload's raw
        // entries build, and the export is requested with its canonical
        // bytes; otherwise the run fails with the missing-series error.
        ev matches PipeEvent::QuoteReceived { body } ==> old(p).stage == Stage::AwaitFetch
            ==> match spec_parse_payload(body@) {
            Some(es) => {
                &&& final(p).stage == Stage::AwaitExportWrite
                &&& build_inv(es, es.len() as int, final(p).series@)
                &&& (act matches PipeAction::WriteExport { bytes } && bytes@ == spec_emit_export(
                    final(p).series@,
                ))
            },
            None => {
                &&& final(p).stage == Stage::Failed
                &&& final(p).err == Some(PipeError::MissingSeries)
                &&& act == (PipeAction::Report { err: PipeError::MissingSeries })
            },
        },
        (old(p).stage == Stage::AwaitFetch && (ev matches PipeEvent::FetchFailed)) ==> (final(p).stage == Stage::Failed && final(p).err == Some(PipeError::Io)),
        // Export write outcome.
        (old(p).stage == Stage::AwaitExportWrite && (ev matches PipeEvent::ExportWritten {
            ok: true,
        })) ==> (final(p).stage == Stage::AwaitPredictor && act == PipeAction::RunPredictor),
        (old(p).stage == Stage::AwaitExportWrite && (ev matches PipeEvent::ExportWritten {
            ok: false,
        })) ==> (final(p).stage == Stage::Failed && final(p).err == Some(PipeError::Io) && act == (
        PipeAction::Report { err: PipeError::Io })),
        // Predictor exit: a zero status moves on to the result file; a
        // non-zero status fails the run, appends nothing and never asks
        // for the result file.
        (old(p).stage == Stage::AwaitPredictor && (ev matches PipeEvent::PredictorExited {
            success: true,
        })) ==> (final(p).stage == Stage::AwaitResultRead && act == PipeAction::ReadResult),
        (old(p).stage == Stage::AwaitPredictor && (ev matches PipeEvent::PredictorExited {
            success: false,
        })) ==> (final(p).stage == Stage::Failed && final(p).err == Some(PipeError::PredictorFailed)
            && act == (PipeAction::Report { err: PipeError::PredictorFailed }) && *final(store) == *old(store)),
        // Result read: the result bytes decide. A readable result
        // yields exactly the decoded, per-field-defaulted analysis and
        // asks for the row; a missing or unreadable file is fatal.
        ev matches PipeEvent::ResultRead { bytes } ==> old(p).stage == Stage::AwaitResultRead
            ==> match bytes {
            Some(b) => match spec_parse_result(b@) {
                Some((pr, tr, rc)) => {
                    &&& final(p).stage == Stage::AwaitStore
                    &&& (final(p).analysis matches Some(a) && a.predicted == (match pr {
                        Some(d) => d,
                        None => zero_price(),
                    }) && a.trend@ == (match tr {
                        Some(t) => t,
                        None => na_label(),
                    }) && a.recommendation@ == (match rc {
                        Some(t) => t,
                        None => na_label(),
                    }))
                    &&& act == PipeAction::AppendRecord
                },
                None => {
                    &&& final(p).stage == Stage::Failed
                    &&& final(p).err == Some(PipeError::ResultUnreadable)
                    &&& act == (PipeAction::Report { err: PipeError::ResultUnreadable })
                },
            },
            None => {
                &&& final(p).stage == Stage::Failed
                &&& final(p).err == Some(PipeError::ResultUnreadable)
                &&& act == (PipeAction::Report { err: PipeError::ResultUnreadable })
            },
        },
        // Store outcome: a successful insert appends exactly one row —
        // the run's symbol, date and decoded analysis under the next
        // identity — and asks for the chart of the run's series, which
        // exists exactly when the series is non-empty.
        (old(p).stage == Stage::AwaitStore && (ev matches PipeEvent::StoreAppended { ok: true }))
            ==> ({
            let a = old(p).analysis->Some_0;
            &&& final(p).stage == Stage::AwaitChart
            &&& final(store).rows@.len() == old(store).rows@.len() + 1
            &&& rec_like(
                final(store).rows@.last(),
                (HistoryRecord {
                    id: (old(store).rows@.len() + 1) as u64,
                    symbol: old(p).symbol,
                    date: today,
                    trend: a.trend,
                    predicted: a.predicted,
                    recommendation: a.recommendation,
                }),
            )
            &&& (act matches PipeAction::RenderChart { chart } && (chart is Some <==> old(
                p,
            ).series@.len() > 0) && (chart matches Some(c) ==> chart_matches(
                c,
                old(p).series@,
                a.predicted,
                old(p).symbol@,
            )))
        }),
        (old(p).stage == Stage::AwaitStore && (ev matches PipeEvent::StoreAppended { ok: false }))
            ==> (final(p).stage == Stage::Failed && final(p).err == Some(PipeError::StoreWrite)
            && act == (PipeAction::Report { err: PipeError::StoreWrite }) && *final(store) == *old(store)),
        // Chart outcome: the run completes either way; a chart failure
        // does not unwind the stored row.
        (old(p).stage == Stage::AwaitChart && (ev matches PipeEvent::ChartRendered { ok: true }))
            ==> (final(p).stage == Stage::Done && final(p).chart_ok && act == PipeAction::Finish
            && *final(store) == *old(store)),
        (old(p).stage == Stage::AwaitChart && (ev matches PipeEvent::ChartRendered { ok: false }))
            ==> (final(p).stage == Stage::Done && !final(p).chart_ok && act == PipeAction::Finish
            && *final(store) == *old(store)),
{
    match ev {
        PipeEvent::QuoteReceived { body } => {
            if !matches!(p.stage, Stage::AwaitFetch) {
                return PipeAction::Ignore;
            }
            match parse_payload(&body) {
                Ok(s) => {
                    p.series = s;
                    p.stage = Stage::AwaitExportWrite;
                    let bytes = emit_export(&p.series);
                    PipeAction::WriteExport { bytes }
                },
                Err(e) => {
                    p.stage = Stage::Failed;
                    p.err = Some(e);
                    PipeAction::Report { err: e }
                },
            }
        },
        PipeEvent::FetchFailed => {
            if !matches!(p.stage, Stage::AwaitFetch) {
                return PipeAction::Ignore;
            }
            p.stage = Stage::Failed;
            p.err = Some(PipeError::Io);
            PipeAction::Report { err: PipeError::Io }
        },
        PipeEvent::ExportWritten { ok } => {
            if !matches!(p.stage, Stage::AwaitExportWrite) {
                return PipeAction::Ignore;
            }
            if ok {
                p.stage = Stage::AwaitPredictor;
                PipeAction::RunPredictor
            } else {
                p.stage = Stage::Failed;
                p.err = Some(PipeError::Io);
                PipeAction::Report { err: PipeError::Io }
            }
        },
        PipeEvent::PredictorExited { success } => {
            if !matches!(p.stage, Stage::AwaitPredictor) {
                return PipeAction::Ignore;
            }
            if success {
                p.stage = Stage::AwaitResultRead;
                PipeAction::ReadResult
            } else {
                p.stage = Stage::Failed;
                p.err = Some(PipeError::PredictorFailed);
                PipeAction::Report { err: PipeError::PredictorFailed }
            }
        },
        PipeEvent::ResultRead { bytes } => {
            if !matches!(p.stage, Stage::AwaitResultRead) {
                return PipeAction::Ignore;
            }
            match bytes {
                Some(b) => {
                    match parse_result(&b) {
                        Ok(a) => {
                            p.analysis = Some(a);
                            p.stage = Stage::AwaitStore;
                            PipeAction::AppendRecord
                        },
                        Err(e) => {
                            p.stage = Stage::Failed;
                            p.err = Some(e);
                            PipeAction::Report { err: e }
                        },
                    }
                },
                None => {
                    p.stage = Stage::Failed;
                    p.err = Some(PipeError::ResultUnreadable);
                    PipeAction::Report { err: PipeError::ResultUnreadable }
                },
            }
        },
        PipeEvent::StoreAppended { ok } => {
            if !matches!(p.stage, Stage::AwaitStore) {
                return PipeAction::Ignore;
            }
            if ok {
                match &p.analysis {
                    Some(a) => {
                        store.append(&p.symbol, today, a);
                        p.stage = Stage::AwaitChart;
                        let chart = chart_spec(&p.series, &a.predicted, &p.symbol);
                        PipeAction::RenderChart { chart }
                    },
                    None => {
                        proof {
                            assert(false);
                        }
                        PipeAction::Ignore
                    },
                }
            } else {
                p.stage = Stage::Failed;
                p.err = Some(PipeError::StoreWrite);
                PipeAction::Report { err: PipeError::StoreWrite }
            }
        },
        PipeEvent::ChartRendered { ok } => {
            if !matches!(p.stage, Stage::AwaitChart) {
                return PipeAction::Ignore;
            }
            p.stage = Stage::Done;
            p.chart_ok = ok;
            PipeAction::Finish
        },
    }
}

} // verus!
