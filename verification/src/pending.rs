//! Replies waiting to be picked up, and the decoding of what the base sends.
//!
//! Every request carries a message number; the base answers with a report that
//! repeats it. The reader stores each answer in the slot of its message number,
//! and the sender polls that slot until the answer is there.
use vstd::prelude::*;
use crate::commands::{NOTIFY_OBSERVERS, RESPONSE};

verus! {

/// Size in bytes of one report read from the base.
pub const INPUT_REPORT_LEN: usize = 32;

/// Number of message numbers, hence of reply slots.
pub const MESSAGE_SLOTS: usize = 256;

/// The view of an optional byte vector.
pub open spec fn opt_bytes(o: Option<Vec<u8>>) -> Option<Seq<u8>> {
    match o {
        Some(v) => Some(v@),
        None => None,
    }
}

/// One reply slot: empty until the answer to its request has arrived.
#[derive(Debug)]
pub struct MessageFuture {
    data: Option<Vec<u8>>,
}

impl View for MessageFuture {
    type V = Option<Seq<u8>>;

    closed spec fn view(&self) -> Option<Seq<u8>> {
        opt_bytes(self.data)
    }
}

impl Default for MessageFuture {
    fn default() -> (r: Self)
        ensures
            r@ is None,
    {
        MessageFuture { data: None }
    }
}

impl MessageFuture {
    /// Fills the slot with `data`.
    pub fn set_data(&mut self, data: Vec<u8>)
        ensures
            final(self)@ == Some(data@),
    {
        self.data = Some(data);
    }

    /// A copy of what the slot holds.
    pub fn get_state(&self) -> (r: Option<Vec<u8>>)
        ensures
            opt_bytes(r) == self@,
    {
        match &self.data {
            Some(v) => {
                let c = v.clone();
                assert(c@ =~= v@);
                Some(c)
            },
            None => None,
        }
    }
}

/// What the slot of a delivered answer holds: the payload, then the
/// command byte of the report that carried it.
pub open spec fn stored_reply(payload: Seq<u8>) -> Seq<u8> {
    payload.push(RESPONSE)
}

/// What polling a slot gives: its last byte (the command) and the rest.
pub open spec fn reply_of(slot: Option<Seq<u8>>) -> Option<(u8, Seq<u8>)> {
    match slot {
        Some(s) => Some((s.last(), s.drop_last())),
        None => None,
    }
}

/// The view of a polled reply.
pub open spec fn reply_view(r: Option<(u8, Vec<u8>)>) -> Option<(u8, Seq<u8>)> {
    match r {
        Some((c, p)) => Some((c, p@)),
        None => None,
    }
}

/// The table after the answer `payload` to request `id` is stored.
pub open spec fn spec_deliver(table: Seq<Option<Seq<u8>>>, id: u8, payload: Seq<u8>) -> Seq<
    Option<Seq<u8>>,
> {
    table.update(id as int, Some(stored_reply(payload)))
}

/// The table after the slot of request `id` is emptied.
pub open spec fn spec_clear(table: Seq<Option<Seq<u8>>>, id: u8) -> Seq<Option<Seq<u8>>> {
    table.update(id as int, None)
}

/// A report the reader can take apart: an answer's length byte must put its
/// payload within the report (the payload runs from byte 3 up to byte
/// `length + 2`).
pub open spec fn readable_report(report: Seq<u8>) -> bool {
    report[0] == RESPONSE ==> 1 <= report[1] <= 30
}

/// The payload of an answer report.
pub open spec fn response_payload(report: Seq<u8>) -> Seq<u8> {
    report.subrange(3, report[1] + 2)
}

/// The payload of an answer is the `length - 1` bytes after the message
/// number, byte for byte; it depends on no byte from index `length + 2` on,
/// so two answers that agree up to there have the same payload.
pub proof fn lemma_response_payload(report: Seq<u8>, other: Seq<u8>)
    requires
        report.len() == INPUT_REPORT_LEN,
        readable_report(report),
        report[0] == RESPONSE,
        other.len() == INPUT_REPORT_LEN,
        forall|k: int| 0 <= k < report[1] + 2 ==> #[trigger] other[k] == report[k],
    ensures
        response_payload(report).len() == report[1] - 1,
        forall|k: int|
            0 <= k < report[1] - 1 ==> #[trigger] response_payload(report)[k] == report[3 + k],
        response_payload(other) == response_payload(report),
{
    assert(other[1] == report[1]);
    assert(response_payload(other) =~= response_payload(report));
}

/// A report from the base, taken apart.
#[derive(Debug, PartialEq, Eq)]
pub enum Report {
    /// The answer to request `id`.
    Response { id: u8, payload: Vec<u8> },
    /// The tags on the base changed.
    NotifyObservers,
    /// Anything else, among them the empty report of a read that found nothing.
    Other,
}

/// What the reader has to do after a report was handled.
#[derive(Debug, Clone, Copy, PartialEq, Eq, Structural)]
pub enum ReportAction {
    /// The answer to request `id` was stored.
    Stored(u8),
    /// The observers must be called.
    NotifyObservers,
    /// Nothing.
    Ignored,
}

/// Whether the reader can take `report` apart (see `readable_report`).
pub fn is_readable_report(report: &[u8; 32]) -> (b: bool)
    ensures
        b == readable_report(report@),
{
    report[0] != RESPONSE || (1 <= report[1] && report[1] <= 30)
}

/// Takes a report from the base apart: byte 0 is the command, byte 1 the
/// length, byte 2 the message number of an answer, and the payload of an
/// answer follows.
pub fn decode_report(report: &[u8; 32]) -> (r: Report)
    requires
        readable_report(report@),
    ensures
        report@[0] == RESPONSE ==> (r matches Report::Response { id, payload } && id == report@[2]
            && payload@ == response_payload(report@)),
        report@[0] == RESPONSE ==> (r matches Report::Response { payload, .. } && payload@.len()
            == report@[1] - 1 && forall|k: int|
            0 <= k < report@[1] - 1 ==> #[trigger] payload@[k] == report@[3 + k]),
        report@[0] == NOTIFY_OBSERVERS ==> r is NotifyObservers,
        report@[0] != RESPONSE && report@[0] != NOTIFY_OBSERVERS ==> r is Other,
{
    let command = report[0];
    let length = report[1];
    let mid = report[2];
    if command == RESPONSE {
        let end: usize = length as usize + 2;
        let mut payload: Vec<u8> = Vec::new();
        let mut i: usize = 3;
        while i < end
            invariant
                3 <= i <= end,
                end == report@[1] + 2,
                end <= 32,
                payload@ == report@.subrange(3, i as int),
            decreases end - i,
        {
            payload.push(report[i]);
            assert(report@.subrange(3, i + 1) =~= report@.subrange(3, i as int).push(report@[i as int]));
            i += 1;
        }
        Report::Response { id: mid, payload }
    } else if command == NOTIFY_OBSERVERS {
        Report::NotifyObservers
    } else {
        Report::Other
    }
}

/// The reply slots of all 256 message numbers.
pub struct PendingMessages {
    slots: Vec<MessageFuture>,
}

impl View for PendingMessages {
    type V = Seq<Option<Seq<u8>>>;

    /// Slot `i` holds what arrived for request `i`, if anything.
    closed spec fn view(&self) -> Seq<Option<Seq<u8>>> {
        Seq::new(self.slots@.len(), |i: int| self.slots@[i]@)
    }
}

/// A slot's content is either nothing or a delivered answer.
pub open spec fn slot_ok(slot: Option<Seq<u8>>) -> bool {
    slot matches Some(s) ==> s.len() > 0 && s.last() == RESPONSE
}

impl PendingMessages {
    /// One slot per message number, each empty or holding a delivered answer.
    pub closed spec fn wf(&self) -> bool {
        &&& self.slots@.len() == MESSAGE_SLOTS
        &&& forall|i: int| 0 <= i < self.slots@.len() ==> slot_ok(#[trigger] self.slots@[i]@)
    }

    /// All slots empty.
    pub fn new() -> (r: Self)
        ensures
            r.wf(),
            r@ == Seq::new(MESSAGE_SLOTS as nat, |i: int| None::<Seq<u8>>),
    {
        let mut slots: Vec<MessageFuture> = Vec::new();
        let mut i: usize = 0;
        while i < MESSAGE_SLOTS
            invariant
                i <= MESSAGE_SLOTS,
                slots@.len() == i,
                forall|k: int| 0 <= k < i ==> (#[trigger] slots@[k])@ is None,
            decreases MESSAGE_SLOTS - i,
        {
            slots.push(MessageFuture::default());
            i += 1;
        }
        let r = PendingMessages { slots };
        assert(r@ =~= Seq::new(MESSAGE_SLOTS as nat, |i: int| None::<Seq<u8>>));
        r
    }

    /// A well-formed table has one slot per message number, and each holds
    /// nothing or a delivered answer.
    pub proof fn lemma_wf(&self)
        requires
            self.wf(),
        ensures
            self@.len() == MESSAGE_SLOTS,
            forall|i: int| 0 <= i < MESSAGE_SLOTS ==> slot_ok(#[trigger] self@[i]),
    {
    }

    /// Empties the slot of request `id`, before its answer can arrive.
    pub fn clear(&mut self, id: u8)
        requires
            old(self).wf(),
        ensures
            final(self).wf(),
            final(self)@ == spec_clear(old(self)@, id),
            final(self)@.len() == MESSAGE_SLOTS,
            final(self)@[id as int] is None,
            forall|j: int| 0 <= j < MESSAGE_SLOTS && j != id ==> #[trigger] final(self)@[j] == old(self)@[j],
    {
        let ghost before = self@;
        self.slots.set(id as usize, MessageFuture::default());
        assert(self@ =~= spec_clear(before, id));
    }

    /// Stores `payload` as the answer to request `id`.
    pub fn deliver(&mut self, id: u8, payload: Vec<u8>)
        requires
            old(self).wf(),
        ensures
            final(self).wf(),
            final(self)@ == spec_deliver(old(self)@, id, payload@),
            final(self)@.len() == MESSAGE_SLOTS,
            final(self)@[id as int] == Some(payload@.push(RESPONSE)),
            forall|j: int| 0 <= j < MESSAGE_SLOTS && j != id ==> #[trigger] final(self)@[j] == old(self)@[j],
    {
        let ghost before = self@;
        let mut msg = payload;
        msg.push(RESPONSE);
        let mut slot = MessageFuture::default();
        slot.set_data(msg);
        self.slots.set(id as usize, slot);
        assert(self@ =~= spec_deliver(before, id, payload@));
    }

    /// The answer to request `id` if it has arrived: the command byte of the
    /// report that carried it, and its payload. The slot keeps it.
    pub fn poll_reply(&self, id: u8) -> (r: Option<(u8, Vec<u8>)>)
        requires
            self.wf(),
        ensures
            reply_view(r) == reply_of(self@[id as int]),
            r matches Some((c, _)) ==> c == RESPONSE,
            r is None <==> self@[id as int] is None,
            r matches Some((c, p)) ==> self@[id as int] == Some(p@.push(c)),
    {
        match self.slots[id as usize].get_state() {
            Some(mut x) => {
                let command = x.pop().unwrap();
                Some((command, x))
            },
            None => None,
        }
    }

    /// Handles one report read from the base: an answer is stored in the
    /// slot of its message number; the caller learns whether observers must
    /// be called.
    pub fn handle_report(&mut self, report: &[u8; 32]) -> (r: ReportAction)
        requires
            old(self).wf(),
            readable_report(report@),
        ensures
            final(self).wf(),
            final(self)@.len() == MESSAGE_SLOTS,
            report@[0] == RESPONSE ==> r == ReportAction::Stored(report@[2]) && final(self)@
                == spec_deliver(old(self)@, report@[2], response_payload(report@)),
            report@[0] == RESPONSE ==> (final(self)@[report@[2] as int] matches Some(s) && s.len()
                == report@[1] && s.last() == RESPONSE && forall|k: int|
                0 <= k < report@[1] - 1 ==> #[trigger] s[k] == report@[3 + k]),
            report@[0] == RESPONSE ==> forall|j: int|
                0 <= j < MESSAGE_SLOTS && j != report@[2] ==> #[trigger] final(self)@[j] == old(
                    self,
                )@[j],
            report@[0] == NOTIFY_OBSERVERS ==> r == ReportAction::NotifyObservers && final(self)@
                == old(self)@,
            report@[0] != RESPONSE && report@[0] != NOTIFY_OBSERVERS ==> r == ReportAction::Ignored
                && final(self)@ == old(self)@,
    {
        match decode_report(report) {
            Report::Response { id, payload } => {
                let ghost p = payload@;
                self.deliver(id, payload);
                assert(p.push(RESPONSE).len() == report@[1]);
                ReportAction::Stored(id)
            },
            Report::NotifyObservers => ReportAction::NotifyObservers,
            Report::Other => ReportAction::Ignored,
        }
    }
}

/// A read gives back what was delivered: after the answer `payload` to
/// request `id` is stored, polling `id` yields the answer command and exactly
/// `payload`, and every other slot is as it was.
pub proof fn lemma_poll_after_deliver(table: Seq<Option<Seq<u8>>>, id: u8, payload: Seq<u8>, other: u8)
    requires
        table.len() == MESSAGE_SLOTS,
    ensures
        reply_of(spec_deliver(table, id, payload)[id as int]) == Some((RESPONSE, payload)),
        other != id ==> spec_deliver(table, id, payload)[other as int] == table[other as int],
{
    assert(stored_reply(payload).drop_last() =~= payload);
}

/// A cleared slot has nothing to give until a new answer arrives, and
/// clearing one slot leaves the others as they were.
pub proof fn lemma_poll_after_clear(table: Seq<Option<Seq<u8>>>, id: u8, other: u8)
    requires
        table.len() == MESSAGE_SLOTS,
    ensures
        reply_of(spec_clear(table, id)[id as int]) is None,
        other != id ==> spec_clear(table, id)[other as int] == table[other as int],
{
}

} // verus!
