//! Downloads, one or many at a time, as state machines.
//!
//! The library decides; the caller performs. A download starts in the state
//! `Requested`, once the caller has sent its request. The caller reports
//! what the transport delivers as events, and each event gives the
//! download's next state and what the caller is to do next. A batch holds
//! one download for each address, in the order of the addresses, and an
//! event for one of them leaves the others as they were.

use vstd::prelude::*;
use vstd::string::*;
use crate::error::Error;
use crate::text::{chars_of, last_index_of, lemma_last_index_of, string_of};

verus! {

/// The path of an address, as the URI parser gives it; `None` where the
/// address is no valid URI.
pub uninterp spec fn uri_path(uri: Seq<char>) -> Option<Seq<char>>;

/// Parses `uri` as a `hyper::Uri` and calls its method `path`. The contract
/// names the path that comes out.
#[verifier::external_body]
pub(crate) fn path_of_uri(uri: &str) -> (r: Option<String>)
    ensures
        r is Some <==> uri_path(uri@) is Some,
        r is Some ==> r->0@ == uri_path(uri@)->0,
{
    match uri.parse::<hyper::Uri>() {
        Ok(parsed) => Some(parsed.path().to_string()),
        Err(_) => None,
    }
}

/// How far a download has come.
#[derive(Debug, Clone, Copy, PartialEq, Eq, Structural)]
pub enum DownloadState {
    /// The request is sent; no response has come yet.
    Requested,
    /// The response has come; its body is being read.
    Receiving,
    /// The body has ended and the file is written.
    Complete,
    /// The transport failed.
    Failed,
}

/// What the transport delivered.
#[derive(Debug, Clone, Copy, PartialEq, Eq, Structural)]
pub enum DownloadEvent {
    /// The response, with the length that it declares for its body.
    Response { length: u64 },
    /// A chunk of the body, of this many bytes, written to the file.
    Chunk { length: u64 },
    /// The end of the body.
    End,
    /// An error.
    Failure,
}

/// What the caller is to do next for a download.
#[derive(Debug, Clone, Copy, PartialEq, Eq, Structural)]
pub enum DownloadAction {
    /// Read the next chunk of the body, and advance the progress display.
    Read,
    /// Flush and hand over the file.
    Finish,
    /// Give the download up; the others go on.
    Abandon,
    /// Nothing: the event changed nothing.
    Nothing,
}

/// One download: the file it writes, the length the response declared, the
/// bytes received so far, and its state.
#[derive(Debug, Clone, PartialEq, Eq)]
pub struct Download {
    pub name: String,
    pub expected: u64,
    pub received: u64,
    pub state: DownloadState,
}

/// A completed download of a batch: the file's name and its size in bytes.
#[derive(Debug, Clone, PartialEq, Eq)]
pub struct MultiDownloadResult {
    pub name: String,
    pub size: u64,
}

/// The downloads of a batch, in the order of the addresses.
#[derive(Debug, Clone, PartialEq, Eq)]
pub struct DownloadBatch {
    pub slots: Vec<Download>,
}

/// What a `Download` stands for.
pub struct DownloadView {
    pub name: Seq<char>,
    pub expected: u64,
    pub received: u64,
    pub state: DownloadState,
}

impl View for Download {
    type V = DownloadView;

    open spec fn view(&self) -> DownloadView {
        DownloadView {
            name: self.name@,
            expected: self.expected,
            received: self.received,
            state: self.state,
        }
    }
}

/// The views of the downloads of a batch.
pub open spec fn slot_views(slots: Seq<Download>) -> Seq<DownloadView> {
    slots.map_values(|d: Download| d@)
}

impl View for DownloadBatch {
    type V = Seq<DownloadView>;

    open spec fn view(&self) -> Seq<DownloadView> {
        slot_views(self.slots@)
    }
}

/// What stands behind the last `/` of a path.
pub open spec fn last_segment(path: Seq<char>) -> Seq<char> {
    path.skip(last_index_of(path, '/') + 1)
}

/// The name of the file that a download from `uri` writes: the last segment
/// of the address's path. `None` where the address is no valid URI or its
/// path ends in `/` or is empty.
pub open spec fn target_name(uri: Seq<char>) -> Option<Seq<char>> {
    match uri_path(uri) {
        None => None,
        Some(path) => if last_segment(path).len() == 0 {
            None
        } else {
            Some(last_segment(path))
        },
    }
}

/// The sum of two byte counts, held at `u64::MAX`.
pub open spec fn held_sum(a: u64, b: u64) -> u64 {
    if a + b > u64::MAX {
        u64::MAX
    } else {
        (a + b) as u64
    }
}

/// A download's state after an event.
///
/// The response opens the body and sets the expected length. Each chunk
/// adds its length to the bytes received. The end of the body completes the
/// download. An error, or an event that cannot come in the state, fails it.
/// A download that is complete or has failed stays as it is.
pub open spec fn after_event(d: DownloadView, event: DownloadEvent) -> DownloadView {
    match d.state {
        DownloadState::Requested => match event {
            DownloadEvent::Response { length } => DownloadView {
                expected: length,
                received: 0,
                state: DownloadState::Receiving,
                ..d
            },
            _ => DownloadView { state: DownloadState::Failed, ..d },
        },
        DownloadState::Receiving => match event {
            DownloadEvent::Chunk { length } => DownloadView {
                received: held_sum(d.received, length),
                ..d
            },
            DownloadEvent::End => DownloadView { state: DownloadState::Complete, ..d },
            _ => DownloadView { state: DownloadState::Failed, ..d },
        },
        _ => d,
    }
}

/// A batch after an event for the download at `index`: that download has
/// taken the event, the others are as they were. An index beyond the batch
/// changes nothing.
pub open spec fn batch_after(batch: Seq<DownloadView>, index: int, event: DownloadEvent) -> Seq<
    DownloadView,
> {
    if 0 <= index < batch.len() {
        batch.update(index, after_event(batch[index], event))
    } else {
        batch
    }
}

/// What the caller does after an event that took a download from the state
/// `before` to the state `after`.
pub open spec fn action_after(before: DownloadState, after: DownloadState) -> DownloadAction {
    match before {
        DownloadState::Complete => DownloadAction::Nothing,
        DownloadState::Failed => DownloadAction::Nothing,
        _ => match after {
            DownloadState::Requested => DownloadAction::Nothing,
            DownloadState::Receiving => DownloadAction::Read,
            DownloadState::Complete => DownloadAction::Finish,
            DownloadState::Failed => DownloadAction::Abandon,
        },
    }
}

/// What a download hands to the caller of a batch: its file's name and size
/// once it is complete, nothing before that or after a failure.
pub open spec fn result_of(d: DownloadView) -> Option<(Seq<char>, u64)> {
    if d.state == DownloadState::Complete {
        Some((d.name, d.received))
    } else {
        None
    }
}

/// The download as a batch starts it for `uri`: requested, or failed at
/// once where the address gives no file name.
pub open spec fn initial_slot(uri: Seq<char>) -> DownloadView {
    match target_name(uri) {
        Some(name) => DownloadView {
            name,
            expected: 0,
            received: 0,
            state: DownloadState::Requested,
        },
        None => DownloadView {
            name: Seq::empty(),
            expected: 0,
            received: 0,
            state: DownloadState::Failed,
        },
    }
}

/// The download is complete or has failed.
pub open spec fn is_settled(d: DownloadView) -> bool {
    d.state == DownloadState::Complete || d.state == DownloadState::Failed
}

/// The last segment of a path, where it is not empty.
pub fn final_segment(path: &str) -> (r: Option<String>)
    ensures
        match r {
            Some(name) => name@ == last_segment(path@) && name@.len() > 0,
            None => last_segment(path@).len() == 0,
        },
{
    let chars = chars_of(path);
    let n = chars.len();
    let mut i: usize = n;
    while i > 0 && chars[i - 1] != '/'
        invariant
            i <= n,
            n == chars.len(),
            forall|j: int| i <= j < n ==> chars@[j] != '/',
        decreases i,
    {
        i = i - 1;
    }
    proof {
        lemma_last_index_of(chars@, '/', i as int);
        assert(chars@.skip(i as int) =~= chars@.subrange(i as int, n as int));
    }
    if i == n {
        None
    } else {
        Some(string_of(&chars, i, n))
    }
}

/// Starts the download of one address: the file it writes is named after
/// the last segment of the address's path. `TransportFailure` where the
/// address gives no file name.
pub fn download_file(uri: &str) -> (r: Result<Download, Error>)
    ensures
        match target_name(uri@) {
            Some(name) => r is Ok && r->Ok_0@ == (DownloadView {
                name,
                expected: 0,
                received: 0,
                state: DownloadState::Requested,
            }),
            None => r == Err::<Download, Error>(Error::TransportFailure),
        },
{
    match path_of_uri(uri) {
        None => Err(Error::TransportFailure),
        Some(path) => match final_segment(path.as_str()) {
            None => Err(Error::TransportFailure),
            Some(name) => Ok(
                Download { name, expected: 0, received: 0, state: DownloadState::Requested },
            ),
        },
    }
}

/// Starts one download for each address, in the order of the addresses. An
/// address that gives no file name has its download failed from the start.
pub fn download_files(uris: &Vec<String>) -> (r: DownloadBatch)
    ensures
        r@.len() == uris@.len(),
        forall|i: int| 0 <= i < uris@.len() ==> r@[i] == initial_slot(#[trigger] uris@[i]@),
{
    let mut slots: Vec<Download> = Vec::new();
    let mut i: usize = 0;
    while i < uris.len()
        invariant
            i <= uris.len(),
            slots@.len() == i,
            forall|j: int| 0 <= j < i ==> slots@[j]@ == initial_slot(#[trigger] uris@[j]@),
        decreases uris.len() - i,
    {
        let slot = match download_file(uris[i].as_str()) {
            Ok(d) => d,
            Err(_) => Download {
                name: String::new(),
                expected: 0,
                received: 0,
                state: DownloadState::Failed,
            },
        };
        slots.push(slot);
        i = i + 1;
    }
    DownloadBatch { slots }
}

impl Download {
    /// Takes one event of the transport: the download moves to its next
    /// state, and the result is what the caller does next.
    pub fn on_event(&mut self, event: DownloadEvent) -> (r: DownloadAction)
        ensures
            final(self)@ == after_event(old(self)@, event),
            r == action_after(old(self).state, final(self).state),
    {
        match self.state {
            DownloadState::Requested => match event {
                DownloadEvent::Response { length } => {
                    self.expected = length;
                    self.received = 0;
                    self.state = DownloadState::Receiving;
                    DownloadAction::Read
                },
                _ => {
                    self.state = DownloadState::Failed;
                    DownloadAction::Abandon
                },
            },
            DownloadState::Receiving => match event {
                DownloadEvent::Chunk { length } => {
                    self.received = if length > u64::MAX - self.received {
                        u64::MAX
                    } else {
                        self.received + length
                    };
                    DownloadAction::Read
                },
                DownloadEvent::End => {
                    self.state = DownloadState::Complete;
                    DownloadAction::Finish
                },
                _ => {
                    self.state = DownloadState::Failed;
                    DownloadAction::Abandon
                },
            },
            _ => DownloadAction::Nothing,
        }
    }

    /// The completed file's name and size; `None` unless the download is
    /// complete.
    pub fn result(&self) -> (r: Option<MultiDownloadResult>)
        ensures
            match result_of(self@) {
                Some(done) => r is Some && r->0.name@ == done.0 && r->0.size == done.1,
                None => r is None,
            },
    {
        match self.state {
            DownloadState::Complete => Some(
                MultiDownloadResult { name: self.name.clone(), size: self.received },
            ),
            _ => None,
        }
    }
}

impl DownloadBatch {
    /// Takes one event for the download at `index`: that download moves to
    /// its next state, every other download stays as it was, and the result
    /// is what the caller does next for the download at `index`. An index
    /// beyond the batch changes nothing.
    pub fn on_event(&mut self, index: usize, event: DownloadEvent) -> (r: DownloadAction)
        ensures
            final(self)@ == batch_after(old(self)@, index as int, event),
            final(self)@.len() == old(self)@.len(),
            forall|j: int|
                0 <= j < old(self)@.len() && j != index ==> final(self).slots@[j] == old(
                    self,
                ).slots@[j],
            index < old(self)@.len() ==> final(self)@[index as int] == after_event(
                old(self)@[index as int],
                event,
            ) && r == action_after(old(self)@[index as int].state, final(self)@[index as int].state),
            index >= old(self)@.len() ==> r == DownloadAction::Nothing,
    {
        if index >= self.slots.len() {
            return DownloadAction::Nothing;
        }
        let mut slot = Download {
            name: self.slots[index].name.clone(),
            expected: self.slots[index].expected,
            received: self.slots[index].received,
            state: self.slots[index].state,
        };
        let action = slot.on_event(event);
        self.slots.set(index, slot);
        proof {
            assert(self@ =~= batch_after(old(self)@, index as int, event));
        }
        action
    }

    /// The results of the batch, one for each address and in the order of
    /// the addresses: the file of each download that is complete, `None`
    /// for each that failed or has not ended.
    pub fn results(&self) -> (r: Vec<Option<MultiDownloadResult>>)
        ensures
            r@.len() == self@.len(),
            forall|i: int|
                0 <= i < self@.len() ==> match result_of(#[trigger] self@[i]) {
                    Some(done) => r@[i] is Some && r@[i]->0.name@ == done.0 && r@[i]->0.size
                        == done.1,
                    None => r@[i] is None,
                },
    {
        let mut out: Vec<Option<MultiDownloadResult>> = Vec::new();
        let mut i: usize = 0;
        while i < self.slots.len()
            invariant
                i <= self.slots.len(),
                out@.len() == i,
                forall|j: int|
                    0 <= j < i ==> match result_of(#[trigger] self@[j]) {
                        Some(done) => out@[j] is Some && out@[j]->0.name@ == done.0
                            && out@[j]->0.size == done.1,
                        None => out@[j] is None,
                    },
            decreases self.slots.len() - i,
        {
            let item = self.slots[i].result();
            proof {
                assert(self@[i as int] == self.slots@[i as int]@);
            }
            out.push(item);
            i = i + 1;
        }
        out
    }

    /// Tells whether every download of the batch is complete or has failed.
    pub fn settled(&self) -> (r: bool)
        ensures
            r == forall|i: int| 0 <= i < self@.len() ==> is_settled(#[trigger] self@[i]),
    {
        let mut i: usize = 0;
        while i < self.slots.len()
            invariant
                i <= self.slots.len(),
                forall|j: int| 0 <= j < i ==> is_settled(#[trigger] self@[j]),
            decreases self.slots.len() - i,
        {
            let open = match self.slots[i].state {
                DownloadState::Complete => false,
                DownloadState::Failed => false,
                _ => true,
            };
            if open {
                proof {
                    assert(!is_settled(self@[i as int]));
                }
                return false;
            }
            i = i + 1;
        }
        true
    }
}

} // verus!
