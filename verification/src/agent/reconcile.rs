//! The course of bringing the server up to date about a record: its events first, then its log,
//! then the record goes if nothing needs it any more.
use crate::text;
use super::control::acknowledge_event;
use super::control::acknowledge_log;
use super::control::acknowledged_offset;
use super::control::greater;
use super::control::next_upload;
use super::control::pending_event;
use super::control::plan_upload;
use super::control::reports;
use super::control::Upload;
use super::spool::RecordView;
use super::spool::SpoolRecord;
use crate::protocol::EventRequest;
use vstd::prelude::*;

verus! {

/// What a reconciliation waits for.
#[derive(Debug, PartialEq, Eq)]
pub enum Stage<T> {
    /// The server is told the pending event.
    Reporting,
    /// The length of the local log is looked up.
    Measuring,
    /// A part of the log is sent.
    Sending(Upload),
    /// The record goes, or stays.
    Ended(bool),
    /// The record and the log contradict each other.
    Stopped(T),
}

/// A record that the server is brought up to date about.
#[derive(Debug, PartialEq, Eq)]
pub struct Reconciliation {
    pub record: SpoolRecord,
    pub stage: Stage<String>,
}

/// What a reconciliation holds.
pub struct ReconciliationView {
    pub record: RecordView,
    pub stage: Stage<Seq<char>>,
}

/// The number of the event that is told next.
pub open spec fn told_sequence(record: RecordView) -> u64 {
    if record.acknowledged_sequence == 0 && record.sequence > 1 {
        1
    } else {
        record.sequence
    }
}

impl ReconciliationView {
    /// The reconciliation at its end: the record goes when nothing needs it.
    pub open spec fn ended(self) -> ReconciliationView {
        ReconciliationView { stage: Stage::Ended(self.record.disposable()), ..self }
    }

    /// Where it leads that the server took the event, with the record as it stands on disk now, or
    /// did not.
    pub open spec fn reported(self, latest: Option<RecordView>) -> ReconciliationView {
        ReconciliationView {
            record: match latest {
                Some(latest) => RecordView {
                    acknowledged_sequence: greater(latest.acknowledged_sequence, told_sequence(self.record)),
                    ..latest
                },
                None => self.record,
            },
            stage: Stage::Measuring,
        }
    }

    /// Where the length of the local log leads.
    pub open spec fn measured(self, stored: u64) -> ReconciliationView {
        if self.record.log_offset > stored {
            ReconciliationView {
                stage: Stage::Stopped("acknowledged log offset exceeds local spool length"@),
                ..self
            }
        } else {
            match next_upload(self.record, stored) {
                Some(upload) => ReconciliationView { stage: Stage::Sending(upload), ..self },
                None => self.ended(),
            }
        }
    }

    /// Where it leads that the server took a part of the log, with the record as it stands on disk
    /// now and the offset that the server names, or did not.
    pub open spec fn sent(self, upload: Upload, latest: Option<RecordView>, header: Option<Seq<char>>) -> ReconciliationView {
        match latest {
            Some(latest) => ReconciliationView {
                record: RecordView {
                    log_offset: greater(latest.log_offset, acknowledged_offset(header, upload.offset)),
                    log_complete_acknowledged: latest.log_complete_acknowledged || upload.complete,
                    ..latest
                },
                ..self
            }.ended(),
            None => self.ended(),
        }
    }
}

/// Where the reconciliation of a record begins.
pub open spec fn begun(record: RecordView) -> ReconciliationView {
    ReconciliationView {
        record,
        stage: if record.acknowledged_sequence < record.sequence {
            Stage::Reporting
        } else {
            Stage::Measuring
        },
    }
}

/// What a record on disk holds, where it was read.
pub open spec fn record_view(record: Option<SpoolRecord>) -> Option<RecordView> {
    match record {
        Some(record) => Some(record@),
        None => None,
    }
}

impl Reconciliation {
    /// What the reconciliation holds.
    pub open spec fn view(&self) -> ReconciliationView {
        ReconciliationView {
            record: self.record@,
            stage: match self.stage {
                Stage::Reporting => Stage::Reporting,
                Stage::Measuring => Stage::Measuring,
                Stage::Sending(upload) => Stage::Sending(upload),
                Stage::Ended(retire) => Stage::Ended(retire),
                Stage::Stopped(error) => Stage::Stopped(error@),
            },
        }
    }

    /// Begins to bring the server up to date about a record.
    pub fn begin(record: SpoolRecord) -> (r: Reconciliation)
        ensures
            r@ == begun(record@),
    {
        let stage: Stage<String> = if record.acknowledged_sequence < record.sequence {
            Stage::Reporting
        } else {
            Stage::Measuring
        };
        Reconciliation { record, stage }
    }

    /// The event that is told while the reconciliation reports.
    pub fn event(&self, instance: &str) -> (r: Option<EventRequest>)
        ensures
            match r {
                None => self.record.acknowledged_sequence >= self.record.sequence,
                Some(event) => self.record.acknowledged_sequence < self.record.sequence && reports(
                    event,
                    self.record@,
                    instance@,
                ) && event.event_sequence == told_sequence(self.record@),
            },
    {
        pending_event(&self.record, instance)
    }

    fn end(self) -> (r: Reconciliation)
        ensures
            r@ == self@.ended(),
    {
        let retire: bool = self.record.ready_for_cleanup();
        Reconciliation { record: self.record, stage: Stage::Ended(retire) }
    }

    /// Goes on after the event was told.
    pub fn reported(self, latest: Option<SpoolRecord>) -> (r: Reconciliation)
        ensures
            r@ == self@.reported(record_view(latest)),
    {
        let sequence: u64 = if self.record.acknowledged_sequence == 0 && self.record.sequence > 1 {
            1
        } else {
            self.record.sequence
        };
        match latest {
            Some(latest) => {
                let mut record: SpoolRecord = latest;
                acknowledge_event(&mut record, sequence);
                Reconciliation { record, stage: Stage::Measuring }
            },
            None => Reconciliation { record: self.record, stage: Stage::Measuring },
        }
    }

    /// Goes on once the length of the local log is known.
    pub fn measured(self, stored: u64) -> (r: Reconciliation)
        ensures
            r@ == self@.measured(stored),
    {
        match plan_upload(&self.record, stored) {
            Err(error) => Reconciliation { record: self.record, stage: Stage::Stopped(error) },
            Ok(Some(upload)) => Reconciliation { record: self.record, stage: Stage::Sending(upload) },
            Ok(None) => self.end(),
        }
    }

    /// Goes on after a part of the log was sent.
    pub fn sent(self, upload: Upload, latest: Option<SpoolRecord>, header: Option<&str>) -> (r: Reconciliation)
        ensures
            r@ == self@.sent(
                upload,
                record_view(latest),
                match header {
                    Some(value) => Some(value@),
                    None => None,
                },
            ),
    {
        match latest {
            Some(latest) => {
                let mut record: SpoolRecord = latest;
                acknowledge_log(&mut record, header, upload);
                Reconciliation { record, stage: self.stage }.end()
            },
            None => self.end(),
        }
    }
}

/// A record goes only when the server has taken its last event and its whole log, whatever came of
/// the reconciliation before.
pub proof fn law_records_go_last(job: ReconciliationView)
    requires
        job.ended().stage == Stage::<Seq<char>>::Ended(true),
    ensures
        job.record.state.terminal(),
        job.record.acknowledged_sequence >= job.record.sequence,
        job.record.log_complete_acknowledged,
        !job.record.protected(),
{
}

/// What the server has acknowledged is never forgotten: neither the number of the last event nor the
/// offset of the log falls below what the record on disk says.
pub proof fn law_acknowledgements_never_fall(
    job: ReconciliationView,
    upload: Upload,
    latest: RecordView,
    header: Option<Seq<char>>,
)
    ensures
        job.reported(Some(latest)).record.acknowledged_sequence >= latest.acknowledged_sequence,
        job.sent(upload, Some(latest), header).record.log_offset >= latest.log_offset,
        latest.log_complete_acknowledged ==> job.sent(
            upload,
            Some(latest),
            header,
        ).record.log_complete_acknowledged,
        latest.cancel_requested ==> job.reported(Some(latest)).record.cancel_requested && job.sent(
            upload,
            Some(latest),
            header,
        ).record.cancel_requested,
{
}

/// An ended attempt without output is told to the server in one round: its event, then an empty log
/// that is complete; then its record goes.
pub proof fn law_empty_logs_complete(record: RecordView)
    requires
        record.state.terminal(),
        record.log_offset == 0,
        !record.log_complete_acknowledged,
        !record.protected(),
        record.acknowledged_sequence < record.sequence,
        told_sequence(record) == record.sequence,
    ensures
        ({
            let told = begun(record).reported(Some(record));
            let upload = Upload { offset: 0, length: 0, complete: true };
            &&& begun(record).stage is Reporting
            &&& told.measured(0).stage == Stage::<Seq<char>>::Sending(upload)
            &&& told.measured(0).sent(upload, Some(told.record), Some("0"@)).stage == Stage::<Seq<char>>::Ended(true)
        }),
{
}

/// A round tells what is not acknowledged before it looks at the log, keeps what the server acknowledged, and
/// ends once the log was looked at: with a piece sent where there is one.
pub proof fn law_rounds_go_on_in_order(record: RecordView, latest: RecordView, stored: u64, upload: Upload, header: Option<Seq<char>>)
    ensures
        begun(record).record == record,
        begun(record).stage == Stage::<Seq<char>>::Reporting <==> record.sequence > record.acknowledged_sequence,
        begun(record).stage == Stage::<Seq<char>>::Measuring <==> record.sequence <= record.acknowledged_sequence,
        ({
            let job = begun(record).reported(Some(latest));
            let told = if record.acknowledged_sequence == 0 && record.sequence > 1 { 1 } else { record.sequence };
            &&& job.stage == Stage::<Seq<char>>::Measuring
            &&& job.record.acknowledged_sequence >= told
            &&& job.record.acknowledged_sequence == told || job.record.acknowledged_sequence == latest.acknowledged_sequence
            &&& job.record.state == latest.state && job.record.sequence == latest.sequence && job.record.log_offset
                == latest.log_offset && job.record.publication == latest.publication
        }),
        ({
            let job = (ReconciliationView { record, stage: Stage::Measuring }).measured(stored);
            &&& job.record == record
            &&& record.log_offset > stored ==> job.stage is Stopped
            &&& record.log_offset < stored ==> job.stage is Sending && job.stage->Sending_0.offset == record.log_offset
            &&& job.stage is Sending ==> Some(job.stage->Sending_0) == next_upload(record, stored)
            &&& job.stage is Ended ==> record.log_offset == stored && job.stage->Ended_0 == record.disposable()
        }),
        ({
            let job = (ReconciliationView { record, stage: Stage::Sending(upload) }).sent(upload, Some(latest), header);
            &&& job.stage is Ended
            &&& job.stage->Ended_0 <==> job.record.disposable()
            &&& job.record.log_complete_acknowledged <==> latest.log_complete_acknowledged || upload.complete
            &&& header is Some && text::unsigned_number(header->0) is Some ==> job.record.log_offset >= text::unsigned_number(
                header->0,
            )->0
            &&& job.record.state == latest.state && job.record.acknowledged_sequence == latest.acknowledged_sequence
                && job.record.sequence == latest.sequence
        }),
{
}

} // verus!
