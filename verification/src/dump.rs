//! What a dump of the models writes in one round: a row for each queue, and
//! what closes the round. The text of a row is not made here.

use vstd::prelude::*;
use crate::model::eth::EthtoolModel;
use crate::model::eth::queues_of;
use crate::model::eth::SingleQueueModel;
use crate::model::net::NetModel;

verus! {

/// The form in which rows are written.
#[derive(Clone, Copy, Debug, PartialEq, Eq, Structural)]
pub enum OutputFormat {
    Raw,
    Csv,
    Tsv,
    KeyVal,
    Json,
    OpenMetrics,
}

/// The options of a dump that decide how rows are written.
#[derive(Clone, Copy, Debug, PartialEq, Eq, Structural)]
pub struct GeneralOpt {
    pub output_format: Option<OutputFormat>,
    pub repeat_title: Option<usize>,
    pub disable_title: bool,
    pub raw: bool,
}

/// What a round of a dump came to.
#[derive(Clone, Copy, Debug, PartialEq, Eq, Structural)]
pub enum IterExecResult {
    /// Rows were written.
    Success,
    /// There was no row to write, and nothing was written.
    Skip,
}

/// What is written behind the rows of a round.
#[derive(Clone, Copy, Debug, PartialEq, Eq, Structural)]
pub enum Closing {
    /// Nothing.
    Nothing,
    /// A line break.
    Newline,
    /// The rows themselves, gathered into one JSON array, behind a comma
    /// where the round is not the first.
    JsonArray { comma: bool },
}

/// The fields of a queue's rates that a dump can show.
#[derive(Clone, Copy, Debug, PartialEq, Eq, Structural)]
pub enum EthtoolField {
    Interface,
    QueueId,
    RxBytesPerSec,
    TxBytesPerSec,
    RxCountPerSec,
    TxCountPerSec,
    TxMissedTx,
    TxUnmaskInterrupt,
}

/// The fields of a queue's rates without names that a dump can show.
#[derive(Clone, Copy, Debug, PartialEq, Eq, Structural)]
pub enum NetField {
    RxBytesPerSec,
    TxBytesPerSec,
    RxCountPerSec,
    TxCountPerSec,
    TxMissedTx,
    TxUnmaskInterrupt,
}

/// What closes a round written in `format`: rows in JSON are held back and
/// written as one array, after a comma where `comma_flag` says that a round
/// was written before; OpenMetrics takes nothing; any other form, and none,
/// takes a line break.
pub open spec fn closing_of(format: Option<OutputFormat>, comma_flag: bool) -> Closing {
    match format {
        Some(OutputFormat::Json) => Closing::JsonArray { comma: comma_flag },
        Some(OutputFormat::OpenMetrics) => Closing::Nothing,
        _ => Closing::Newline,
    }
}

/// What a round comes to: it is skipped where there is no row.
pub open spec fn result_of(rows: nat) -> IterExecResult {
    if rows == 0 {
        IterExecResult::Skip
    } else {
        IterExecResult::Success
    }
}

/// Tells what closes a round.
pub fn closing(format: Option<OutputFormat>, comma_flag: bool) -> (r: Closing)
    ensures
        r == closing_of(format, comma_flag),
{
    match format {
        Some(OutputFormat::Json) => Closing::JsonArray { comma: comma_flag },
        Some(OutputFormat::OpenMetrics) => Closing::Nothing,
        _ => Closing::Newline,
    }
}

/// One round of a dump: the queues to write a row for, in order, what the
/// round comes to, and what closes it.
pub struct Round<'a, Q> {
    pub rows: Vec<&'a Q>,
    pub result: IterExecResult,
    pub closing: Closing,
}

/// The dump of the rates of the queues, with the names that say what they
/// belong to.
#[derive(Clone, Debug, PartialEq, Eq)]
pub struct Ethtool {
    pub opts: GeneralOpt,
    pub fields: Vec<EthtoolField>,
}

impl Ethtool {
    /// A dump of the given fields under the given options.
    pub fn new(opts: &GeneralOpt, fields: Vec<EthtoolField>) -> (r: Self)
        ensures
            r.opts == *opts,
            r.fields == fields,
    {
        Ethtool { opts: *opts, fields }
    }

    /// Plans one round: a row for each queue of each NIC of the model, NIC
    /// after NIC in the order of their names.
    pub fn dump_model<'a>(&self, model: &'a EthtoolModel, comma_flag: bool) -> (r: Round<
        'a,
        SingleQueueModel,
    >)
        ensures
            r.rows@.len() == queues_of(model.nic.values()).len(),
            forall|i: int|
                0 <= i < r.rows@.len() ==> *(#[trigger] r.rows@[i]) == queues_of(
                    model.nic.values(),
                )[i],
            r.result == result_of(r.rows@.len()),
            r.closing == closing_of(self.opts.output_format, comma_flag),
    {
        let rows = model.queues();
        let result = if rows.len() == 0 {
            IterExecResult::Skip
        } else {
            IterExecResult::Success
        };
        Round { rows, result, closing: closing(self.opts.output_format, comma_flag) }
    }
}

/// The dump of the rates of the queues by interface alone.
#[derive(Clone, Debug, PartialEq, Eq)]
pub struct Net {
    pub opts: GeneralOpt,
    pub fields: Vec<NetField>,
}

impl Net {
    /// A dump of the given fields under the given options.
    pub fn new(opts: &GeneralOpt, fields: Vec<NetField>) -> (r: Self)
        ensures
            r.opts == *opts,
            r.fields == fields,
    {
        Net { opts: *opts, fields }
    }

    /// Plans one round: a row for each queue of each NIC of the model, NIC
    /// after NIC in the order of their names.
    pub fn dump_model<'a>(&self, model: &'a NetModel, comma_flag: bool) -> (r: Round<
        'a,
        crate::model::net::SingleQueueModel,
    >)
        ensures
            r.rows@.len() == crate::model::net::queues_of(model.nic.nics.values()).len(),
            forall|i: int|
                0 <= i < r.rows@.len() ==> *(#[trigger] r.rows@[i]) == crate::model::net::queues_of(
                    model.nic.nics.values(),
                )[i],
            r.result == result_of(r.rows@.len()),
            r.closing == closing_of(self.opts.output_format, comma_flag),
    {
        let rows = model.queues();
        let result = if rows.len() == 0 {
            IterExecResult::Skip
        } else {
            IterExecResult::Success
        };
        Round { rows, result, closing: closing(self.opts.output_format, comma_flag) }
    }
}

} // verus!
