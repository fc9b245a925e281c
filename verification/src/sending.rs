//! A send, step by step: what is checked before it starts, how it waits for a
//! slot, and what the user interface is told.

use vstd::prelude::*;

use crate::error::{LanBeamError, Result};
use crate::settings::{
    bytes_per_sec, clamp_max_concurrent, clamped_concurrent, rate_limit_bytes_per_sec, Settings,
};
use crate::state::{effective_cap, ConcurrencyGate, SlotGuard};

verus! {

/// What the user interface is told of a send.
#[derive(Debug)]
pub enum SendNotice {
    /// It waits for a slot.
    Queued { session_id: String },
    /// The code to compare with the other device.
    SasCode { session_id: String, sas: String, device_id: String },
    Started { session_id: String, total_size: u64, file_count: usize },
    Done { session_id: String },
    Failed { session_id: String, error: String, code: String },
}

/// Where a send is.
#[derive(Debug, Clone, Copy, PartialEq, Eq, Structural)]
pub enum SendStep {
    /// It asks for a slot for the first time.
    Acquire,
    /// It waits for a slot.
    Queue,
    /// It has a slot and dials the peer.
    Dial,
    /// It is connected and streams.
    Stream,
    Ended,
}

/// A send.
#[derive(Debug)]
pub struct SendJob {
    pub session_id: String,
    pub device_id: String,
    pub total_size: u64,
    pub file_count: usize,
    /// How many transfers may run at once.
    pub limit: u32,
    /// The cap in bytes per second.
    pub rate_limit: Option<u64>,
    pub step: SendStep,
}

/// The sum of the sizes.
pub open spec fn sum_of(sizes: Seq<u64>) -> nat
    decreases sizes.len(),
{
    if sizes.len() == 0 {
        0
    } else {
        sum_of(sizes.drop_last()) + sizes.last() as nat
    }
}

proof fn lemma_sum_prefix(sizes: Seq<u64>, n: int)
    requires
        0 <= n <= sizes.len(),
    ensures
        sum_of(sizes.subrange(0, n)) <= sum_of(sizes),
    decreases sizes.len(),
{
    if n == sizes.len() {
        assert(sizes.subrange(0, n) =~= sizes);
    } else {
        lemma_sum_prefix(sizes.drop_last(), n);
        assert(sizes.drop_last().subrange(0, n) =~= sizes.subrange(0, n));
    }
}

fn add_up(sizes: &Vec<u64>) -> (n: u64)
    requires
        sum_of(sizes@) <= u64::MAX,
    ensures
        n == sum_of(sizes@),
{
    let mut n: u64 = 0;
    for i in 0..sizes.len()
        invariant
            sum_of(sizes@) <= u64::MAX,
            n == sum_of(sizes@.subrange(0, i as int)),
    {
        proof {
            lemma_sum_prefix(sizes@, i + 1);
            assert(sizes@.subrange(0, i + 1).drop_last() =~= sizes@.subrange(0, i as int));
        }
        n = n + sizes[i];
    }
    proof {
        assert(sizes@.subrange(0, sizes@.len() as int) =~= sizes@);
    }
    n
}

/// Whether `n` says that the send `id` failed with `e`.
pub open spec fn reports_failure(n: SendNotice, id: Seq<char>, e: LanBeamError) -> bool {
    n matches SendNotice::Failed { session_id, error, code } && session_id@ == id && error@
        == e.text() && code@ == e.code()
}

fn failure_notice(id: &String, e: &LanBeamError) -> (n: SendNotice)
    ensures
        reports_failure(n, id@, *e),
{
    SendNotice::Failed {
        session_id: id.clone(),
        error: e.to_string(),
        code: e.ui_code().to_owned(),
    }
}

/// What comes of the first attempt to get a slot.
#[derive(Debug)]
pub enum FirstTurn {
    Go(SlotGuard),
    Queued(SendNotice),
}

/// What comes of a turn in the queue.
#[derive(Debug)]
pub enum QueueTurn {
    /// The send was cancelled.
    Cancelled(SendNotice),
    /// It got a slot.
    Go(SlotGuard),
    /// It goes on waiting.
    Wait,
}

impl SendJob {
    /// Everything but the step is as in `other`.
    pub open spec fn same_job(self, other: SendJob) -> bool {
        self == (SendJob { step: self.step, ..other })
    }

    /// Prepares a send of files of the given sizes. Settings that cannot be
    /// read stand for one transfer at a time without a cap.
    pub fn begin(
        session_id: String,
        device_id: String,
        sizes: &Vec<u64>,
        settings: Option<&Settings>,
    ) -> (r: Result<SendJob>)
        requires
            sum_of(sizes@) <= u64::MAX,
        ensures
            match r {
                Ok(j) => {
                    &&& sizes@.len() > 0
                    &&& j.session_id@ == session_id@
                    &&& j.device_id@ == device_id@
                    &&& j.total_size == sum_of(sizes@)
                    &&& j.file_count == sizes@.len()
                    &&& j.step is Acquire
                    &&& match settings {
                        Some(s) => j.limit == clamped_concurrent(s.max_concurrent) && match j.rate_limit {
                            Some(n) => bytes_per_sec(s.rate_limit@) == Some(n as nat),
                            None => bytes_per_sec(s.rate_limit@) is None,
                        },
                        None => j.limit == 1 && j.rate_limit is None,
                    }
                },
                Err(LanBeamError::Protocol(m)) => sizes@.len() == 0 && m@ == "no files to send"@,
                Err(_) => false,
            },
    {
        if sizes.len() == 0 {
            return Err(LanBeamError::Protocol("no files to send".to_owned()));
        }
        let total_size: u64 = add_up(sizes);
        let (limit, rate_limit) = match settings {
            Some(s) => (
                clamp_max_concurrent(s.max_concurrent),
                rate_limit_bytes_per_sec(s.rate_limit.as_str()),
            ),
            None => (clamp_max_concurrent(0), None),
        };
        Ok(
            SendJob {
                session_id,
                device_id,
                total_size,
                file_count: sizes.len(),
                limit,
                rate_limit,
                step: SendStep::Acquire,
            },
        )
    }

    /// Asks for a slot. Without one the send queues, and says so.
    pub fn try_start(&mut self, gate: &mut ConcurrencyGate) -> (r: FirstTurn)
        requires
            old(self).step is Acquire,
        ensures
            final(self).same_job(*old(self)),
            if old(gate).active < effective_cap(old(self).limit) {
                &&& r matches FirstTurn::Go(_)
                &&& final(self).step is Dial
                &&& final(gate).active == old(gate).active + 1
            } else {
                &&& r matches FirstTurn::Queued(n) && (n matches SendNotice::Queued { session_id }
                    && session_id@ == old(self).session_id@)
                &&& final(self).step is Queue
                &&& final(gate).active == old(gate).active
            },
    {
        match gate.try_acquire(self.limit) {
            Some(g) => {
                self.step = SendStep::Dial;
                FirstTurn::Go(g)
            },
            None => {
                self.step = SendStep::Queue;
                FirstTurn::Queued(SendNotice::Queued { session_id: self.session_id.clone() })
            },
        }
    }

    /// One turn in the queue: a cancel wins over a free slot, before anything
    /// is dialed.
    pub fn queue_turn(&mut self, gate: &mut ConcurrencyGate, cancelled: bool) -> (r: QueueTurn)
        requires
            old(self).step is Queue,
        ensures
            final(self).same_job(*old(self)),
            if cancelled {
                &&& r matches QueueTurn::Cancelled(n) && reports_failure(
                    n,
                    old(self).session_id@,
                    LanBeamError::Cancelled,
                )
                &&& final(self).step is Ended
                &&& final(gate).active == old(gate).active
            } else if old(gate).active < effective_cap(old(self).limit) {
                &&& r matches QueueTurn::Go(_)
                &&& final(self).step is Dial
                &&& final(gate).active == old(gate).active + 1
            } else {
                &&& r matches QueueTurn::Wait
                &&& final(self).step is Queue
                &&& final(gate).active == old(gate).active
            },
    {
        if cancelled {
            self.step = SendStep::Ended;
            return QueueTurn::Cancelled(failure_notice(&self.session_id, &LanBeamError::Cancelled));
        }
        match gate.try_acquire(self.limit) {
            Some(g) => {
                self.step = SendStep::Dial;
                QueueTurn::Go(g)
            },
            None => QueueTurn::Wait,
        }
    }

    /// The outcome of dialing: the code to compare and the start of the
    /// transfer, or a failure that is always told.
    pub fn dialed(&mut self, r: std::result::Result<String, &LanBeamError>) -> (n: Vec<SendNotice>)
        requires
            old(self).step is Dial,
        ensures
            final(self).same_job(*old(self)),
            match r {
                Ok(sas) => {
                    &&& final(self).step is Stream
                    &&& n@.len() == 2
                    &&& n@[0] matches SendNotice::SasCode { session_id, sas: shown, device_id }
                        && session_id@ == old(self).session_id@ && shown@ == sas@ && device_id@
                        == old(self).device_id@
                    &&& n@[1] matches SendNotice::Started { session_id, total_size, file_count }
                        && session_id@ == old(self).session_id@ && total_size
                        == old(self).total_size && file_count == old(self).file_count
                },
                Err(e) => {
                    &&& final(self).step is Ended
                    &&& n@.len() == 1
                    &&& reports_failure(n@[0], old(self).session_id@, *e)
                },
            },
    {
        let mut n: Vec<SendNotice> = Vec::new();
        match r {
            Ok(sas) => {
                self.step = SendStep::Stream;
                n.push(
                    SendNotice::SasCode {
                        session_id: self.session_id.clone(),
                        sas,
                        device_id: self.device_id.clone(),
                    },
                );
                n.push(
                    SendNotice::Started {
                        session_id: self.session_id.clone(),
                        total_size: self.total_size,
                        file_count: self.file_count,
                    },
                );
            },
            Err(e) => {
                self.step = SendStep::Ended;
                n.push(failure_notice(&self.session_id, e));
            },
        }
        n
    }

    /// The end of the transfer, which is always told.
    pub fn finished(&mut self, r: std::result::Result<(), &LanBeamError>) -> (n: SendNotice)
        requires
            old(self).step is Stream,
        ensures
            final(self).same_job(*old(self)),
            final(self).step is Ended,
            match r {
                Ok(()) => n matches SendNotice::Done { session_id } && session_id@
                    == old(self).session_id@,
                Err(e) => reports_failure(n, old(self).session_id@, *e),
            },
    {
        self.step = SendStep::Ended;
        match r {
            Ok(()) => SendNotice::Done { session_id: self.session_id.clone() },
            Err(e) => failure_notice(&self.session_id, e),
        }
    }
}

} // verus!
