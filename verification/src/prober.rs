//! The version prober, modelled as a probing round. The caller asks
//! the round for the next mirror to probe and reports every outcome;
//! the round enforces the concurrency bound, classifies each outcome,
//! and yields one result and one progress event per mirror.

use vstd::prelude::*;
use crate::events::{message_of, ProgressEvent};
use crate::mirror::{Mirror, VersionedMirror};
use crate::text::{decimal_of, first_line, parse_usize, parsed_usize_of, split_lines};

verus! {

/// What one probe observed: no connection, an unreadable response
/// body, or the body text.
pub enum ProbeOutcome {
    ConnectFailed,
    ReadFailed,
    Body(String),
}

/// The update number an outcome carries: the first line of a
/// non-empty body, read as a non-negative integer; every failure
/// carries none.
pub open spec fn outcome_update_number(o: ProbeOutcome) -> Option<usize> {
    match o {
        ProbeOutcome::Body(b) => if b@.len() == 0 {
            None
        } else {
            parsed_usize_of(split_lines(b@)[0])
        },
        _ => None,
    }
}

/// The message a probe outcome produces for the mirror at `url`.
pub open spec fn probe_message_of(url: Seq<char>, o: ProbeOutcome) -> Seq<char> {
    match o {
        ProbeOutcome::ConnectFailed => "FAILED TO CONNECT: "@ + url,
        ProbeOutcome::ReadFailed => "FAILED TO READ STATE: "@ + url,
        ProbeOutcome::Body(b) => if b@.len() == 0 {
            "EMPTY MIRROR STATE: "@ + url
        } else {
            match parsed_usize_of(split_lines(b@)[0]) {
                Some(v) => "FETCHED MIRROR VERSION "@ + decimal_of(v as nat) + ": "@ + url,
                None => "FAILED TO READ MIRROR UPDATE NUMBER: "@ + url,
            }
        },
    }
}

/// Classifies one probe outcome: the versioned mirror it records and
/// the progress event it emits. Every outcome yields exactly one of
/// each; failures are recorded with an absent update number, never
/// dropped.
pub fn classify_probe(mirror: Mirror, outcome: &ProbeOutcome) -> (r: (
    VersionedMirror,
    ProgressEvent,
))
    ensures
        r.0.mirror == mirror,
        r.0.update_number == outcome_update_number(*outcome),
        message_of(r.1) == probe_message_of(mirror.url.text@, *outcome),
{
    let url = mirror.url.text.clone();
    match outcome {
        ProbeOutcome::ConnectFailed => (
            VersionedMirror { mirror, update_number: None },
            ProgressEvent::FailedConnect { url },
        ),
        ProbeOutcome::ReadFailed => (
            VersionedMirror { mirror, update_number: None },
            ProgressEvent::FailedRead { url },
        ),
        ProbeOutcome::Body(b) => {
            if b.as_str().is_empty() {
                (
                    VersionedMirror { mirror, update_number: None },
                    ProgressEvent::EmptyState { url },
                )
            } else {
                let head = first_line(b.as_str());
                match parse_usize(head) {
                    Some(v) => (
                        VersionedMirror { mirror, update_number: Some(v) },
                        ProgressEvent::FetchedVersion { version: v, url },
                    ),
                    None => (
                        VersionedMirror { mirror, update_number: None },
                        ProgressEvent::FailedUpdateNumber { url },
                    ),
                }
            }
        },
    }
}

/// One probing round over a fixed mirror set under a concurrency
/// bound. Mirrors are handed out in input order; results are recorded
/// in completion order, which the round does not constrain.
pub struct ProbeRound {
    pending: Vec<Mirror>,
    launched: usize,
    limit: usize,
    results: Vec<VersionedMirror>,
    events_sent: usize,
    all: Ghost<Seq<Mirror>>,
}

impl ProbeRound {
    /// The full mirror set of the round.
    pub closed spec fn mirror_seq(self) -> Seq<Mirror> {
        self.all@
    }

    /// The concurrency bound of the round.
    pub closed spec fn concurrency_limit(self) -> nat {
        self.limit as nat
    }

    /// How many probes have been launched so far.
    pub closed spec fn launched_count(self) -> nat {
        self.launched as nat
    }

    /// The recorded results, in completion order.
    pub closed spec fn result_seq(self) -> Seq<VersionedMirror> {
        self.results@
    }

    /// How many progress events the round has produced.
    pub closed spec fn event_count(self) -> nat {
        self.events_sent as nat
    }

    /// How many probes are in flight now.
    pub open spec fn in_flight(self) -> nat {
        (self.launched_count() - self.result_seq().len()) as nat
    }

    /// The round's invariant. In particular, the probes in flight
    /// never exceed the concurrency bound, and every completion has
    /// produced exactly one progress event.
    pub open spec fn inv(self) -> bool {
        &&& 1 <= self.concurrency_limit()
        &&& self.result_seq().len() <= self.launched_count() <= self.mirror_seq().len()
        &&& self.mirror_seq().len() <= usize::MAX
        &&& self.in_flight() <= self.concurrency_limit()
        &&& self.event_count() == self.result_seq().len()
        &&& self.pending_seq() == self.mirror_seq().skip(self.launched_count() as int)
    }

    /// The mirrors not yet handed out, in input order.
    pub closed spec fn pending_seq(self) -> Seq<Mirror> {
        self.pending@
    }

    /// Starts a round over `mirrors` with concurrency bound `limit`.
    pub fn new(mirrors: Vec<Mirror>, limit: usize) -> (r: ProbeRound)
        requires
            1 <= limit,
        ensures
            r.inv(),
            r.mirror_seq() == mirrors@,
            r.concurrency_limit() == limit as nat,
            r.launched_count() == 0,
            r.result_seq() == Seq::<VersionedMirror>::empty(),
            r.event_count() == 0,
    {
        let ghost all = mirrors@;
        let total = mirrors.len();
        proof {
            assert(all.len() == total);
        }
        let r = ProbeRound {
            pending: mirrors,
            launched: 0,
            limit,
            results: Vec::new(),
            events_sent: 0,
            all: Ghost(all),
        };
        proof {
            assert(r.pending_seq() =~= r.mirror_seq().skip(0));
        }
        r
    }

    /// True when another probe may be launched now: mirrors remain
    /// and the concurrency bound leaves room.
    pub fn can_launch(&self) -> (r: bool)
        requires
            self.inv(),
        ensures
            r == (self.launched_count() < self.mirror_seq().len() && self.in_flight()
                < self.concurrency_limit()),
    {
        self.pending.len() > 0 && self.launched - self.results.len() < self.limit
    }

    /// Hands out the next mirror to probe. The round admits the
    /// launch only while fewer than `limit` probes are in flight, so
    /// no more than the bound is ever in flight at once.
    pub fn launch(&mut self) -> (m: Mirror)
        requires
            old(self).inv(),
            old(self).launched_count() < old(self).mirror_seq().len(),
            old(self).in_flight() < old(self).concurrency_limit(),
        ensures
            final(self).inv(),
            final(self).mirror_seq() == old(self).mirror_seq(),
            final(self).concurrency_limit() == old(self).concurrency_limit(),
            final(self).launched_count() == old(self).launched_count() + 1,
            final(self).result_seq() == old(self).result_seq(),
            final(self).event_count() == old(self).event_count(),
            final(self).in_flight() == old(self).in_flight() + 1,
            final(self).in_flight() <= final(self).concurrency_limit(),
            m == old(self).mirror_seq()[old(self).launched_count() as int],
    {
        proof {
            assert(old(self).pending_seq().len() == old(self).mirror_seq().len() - old(
                self,
            ).launched_count());
            assert(old(self).pending_seq()[0] == old(self).mirror_seq()[old(
                self,
            ).launched_count() as int]);
        }
        let m = self.pending.remove(0);
        self.launched = self.launched + 1;
        proof {
            assert(self.pending_seq() =~= self.mirror_seq().skip(self.launched_count() as int));
        }
        m
    }

    /// Records one completed probe: classifies the outcome, appends
    /// the result, and produces exactly one progress event.
    pub fn complete(&mut self, mirror: Mirror, outcome: &ProbeOutcome) -> (ev: ProgressEvent)
        requires
            old(self).inv(),
            old(self).in_flight() > 0,
        ensures
            final(self).inv(),
            final(self).mirror_seq() == old(self).mirror_seq(),
            final(self).concurrency_limit() == old(self).concurrency_limit(),
            final(self).launched_count() == old(self).launched_count(),
            final(self).event_count() == old(self).event_count() + 1,
            final(self).in_flight() == old(self).in_flight() - 1,
            final(self).result_seq().len() == old(self).result_seq().len() + 1,
            final(self).result_seq().drop_last() == old(self).result_seq(),
            final(self).result_seq().last().mirror == mirror,
            final(self).result_seq().last().update_number == outcome_update_number(*outcome),
            message_of(ev) == probe_message_of(mirror.url.text@, *outcome),
    {
        let (vm, ev) = classify_probe(mirror, outcome);
        self.results.push(vm);
        self.events_sent = self.events_sent + 1;
        proof {
            assert(self.result_seq().drop_last() =~= old(self).result_seq());
        }
        ev
    }

    /// True when every probe was launched and every launch completed.
    pub fn is_done(&self) -> (r: bool)
        requires
            self.inv(),
        ensures
            r == (self.launched_count() == self.mirror_seq().len() && self.in_flight() == 0),
    {
        self.pending.len() == 0 && self.results.len() == self.launched
    }

    /// Hands back the results of a finished round, one per input
    /// mirror, in completion order.
    pub fn into_results(self) -> (r: Vec<VersionedMirror>)
        requires
            self.inv(),
            self.launched_count() == self.mirror_seq().len(),
            self.in_flight() == 0,
        ensures
            r@ == self.result_seq(),
            r@.len() == self.mirror_seq().len(),
    {
        self.results
    }
}

/// Law: however a round is driven, no more probes than its
/// concurrency bound are ever in flight at once.
pub proof fn lemma_in_flight_bounded(r: ProbeRound)
    requires
        r.inv(),
    ensures
        r.in_flight() <= r.concurrency_limit(),
{
}

/// Law: a finished round has produced exactly one progress event and
/// exactly one result per input mirror.
pub proof fn lemma_one_event_per_mirror(r: ProbeRound)
    requires
        r.inv(),
        r.launched_count() == r.mirror_seq().len(),
        r.in_flight() == 0,
    ensures
        r.event_count() == r.mirror_seq().len(),
        r.result_seq().len() == r.mirror_seq().len(),
{
}

} // verus!
