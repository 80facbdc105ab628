//! Transport: the play/pause/stop state machine, the playback queue with its
//! cursor, and the command dispatcher that drives both.

use vstd::prelude::*;

verus! {

// ---------------------------------------------------------------------------
// Transport state.
// ---------------------------------------------------------------------------

/// Where the transport is in the play/pause/stop lifecycle.
#[derive(Debug, Clone, Copy, PartialEq, Eq, Structural)]
pub enum TransportState {
    Stopped,
    Playing,
    Paused,
}

pub open spec fn spec_pause(s: TransportState) -> TransportState {
    match s {
        TransportState::Playing => TransportState::Paused,
        other => other,
    }
}

pub open spec fn spec_resume(s: TransportState) -> TransportState {
    match s {
        TransportState::Paused => TransportState::Playing,
        other => other,
    }
}

impl Default for TransportState {
    fn default() -> (r: Self)
        ensures
            r == TransportState::Stopped,
    {
        TransportState::Stopped
    }
}

impl TransportState {
    /// Start playing from a stopped or paused state. No-op if already playing.
    pub fn play(self) -> (r: Self)
        ensures
            r == TransportState::Playing,
    {
        match self {
            TransportState::Stopped | TransportState::Paused | TransportState::Playing => {
                TransportState::Playing
            },
        }
    }

    /// Pause if playing. No-op if already stopped or paused.
    pub fn pause(self) -> (r: Self)
        ensures
            r == spec_pause(self),
    {
        match self {
            TransportState::Playing => TransportState::Paused,
            other => other,
        }
    }

    /// Resume from paused. No-op if not paused.
    pub fn resume(self) -> (r: Self)
        ensures
            r == spec_resume(self),
    {
        match self {
            TransportState::Paused => TransportState::Playing,
            other => other,
        }
    }

    /// Hard-stop. Always lands in `Stopped`.
    pub fn stop(self) -> (r: Self)
        ensures
            r == TransportState::Stopped,
    {
        TransportState::Stopped
    }
}

/// Pausing and then resuming a playing transport brings it back to playing;
/// on any other state the pair changes nothing.
pub proof fn law_pause_resume_round_trip(s: TransportState)
    ensures
        spec_resume(spec_pause(s)) == (if s == TransportState::Stopped {
            TransportState::Stopped
        } else {
            TransportState::Playing
        }),
{
}

/// Pause, resume and stop are idempotent.
pub proof fn law_transitions_idempotent(s: TransportState)
    ensures
        spec_pause(spec_pause(s)) == spec_pause(s),
        spec_resume(spec_resume(s)) == spec_resume(s),
{
}

// ---------------------------------------------------------------------------
// Playback queue.
// ---------------------------------------------------------------------------

/// Abstract queue: the track ids in order and the cursor position.
pub struct QueueModel {
    pub items: Seq<i64>,
    pub cursor: Option<nat>,
}

impl QueueModel {
    /// The cursor, when present, points at an item, and it is present
    /// exactly when the queue is non-empty.
    pub open spec fn wf(self) -> bool {
        &&& (self.cursor is Some <==> self.items.len() > 0)
        &&& (self.cursor matches Some(i) ==> i < self.items.len())
    }

    pub open spec fn current(self) -> Option<i64> {
        match self.cursor {
            Some(i) => if i < self.items.len() {
                Some(self.items[i as int])
            } else {
                None
            },
            None => None,
        }
    }

    pub open spec fn push(self, id: i64) -> QueueModel {
        QueueModel {
            items: self.items.push(id),
            cursor: if self.cursor is None {
                Some(self.items.len())
            } else {
                self.cursor
            },
        }
    }

    pub open spec fn cleared() -> QueueModel {
        QueueModel { items: Seq::empty(), cursor: None }
    }

    /// The queue after `next`, and what `next` returns.
    pub open spec fn next(self) -> (QueueModel, Option<i64>) {
        match self.cursor {
            Some(i) => if i + 1 < self.items.len() {
                (
                    QueueModel { items: self.items, cursor: Some((i + 1) as nat) },
                    Some(self.items[(i + 1) as int]),
                )
            } else {
                (self, None)
            },
            None => (self, None),
        }
    }

    /// The queue after `previous`, and what `previous` returns.
    pub open spec fn previous(self) -> (QueueModel, Option<i64>) {
        match self.cursor {
            Some(i) => if i == 0 {
                (self, None)
            } else {
                (
                    QueueModel { items: self.items, cursor: Some((i - 1) as nat) },
                    Some(self.items[i - 1]),
                )
            },
            None => (self, None),
        }
    }
}

/// Ordered list of track ids, with a cursor pointing at the one currently
/// playing. The cursor is not reset by `push`; it is advanced by
/// `next`/`previous`.
#[derive(Debug)]
pub struct PlaybackQueue {
    items: Vec<i64>,
    current_index: Option<usize>,
}

impl View for PlaybackQueue {
    type V = QueueModel;

    closed spec fn view(&self) -> QueueModel {
        QueueModel {
            items: self.items@,
            cursor: match self.current_index {
                Some(i) => Some(i as nat),
                None => None,
            },
        }
    }
}

impl Clone for PlaybackQueue {
    fn clone(&self) -> (r: Self)
        ensures
            r@ == self@,
    {
        proof {
            use_type_invariant(self);
        }
        PlaybackQueue { items: self.items.clone(), current_index: self.current_index }
    }
}

impl Default for PlaybackQueue {
    fn default() -> (r: Self)
        ensures
            r@ == QueueModel::cleared(),
            r@.wf(),
    {
        PlaybackQueue { items: Vec::new(), current_index: None }
    }
}

impl PlaybackQueue {
    /// The cursor points at an item, and is present exactly when the queue
    /// is non-empty.
    #[verifier::type_invariant]
    spec fn cursor_on_item(self) -> bool {
        &&& (self.current_index is Some <==> self.items.len() > 0)
        &&& (self.current_index matches Some(i) ==> i < self.items.len())
    }

    pub fn new() -> (r: Self)
        ensures
            r@ == QueueModel::cleared(),
            r@.wf(),
    {
        PlaybackQueue { items: Vec::new(), current_index: None }
    }

    /// Append a track id to the end of the queue. If the queue was empty the
    /// cursor moves to the new item.
    pub fn push(&mut self, track_id: i64)
        requires
            old(self)@.items.len() < usize::MAX,
        ensures
            final(self)@ == old(self)@.push(track_id),
            final(self)@.wf(),
    {
        proof {
            use_type_invariant(&*self);
        }
        let mut current = PlaybackQueue::new();
        std::mem::swap(&mut current, self);
        let PlaybackQueue { mut items, current_index } = current;
        items.push(track_id);
        let current_index = if current_index.is_none() {
            Some(items.len() - 1)
        } else {
            current_index
        };
        *self = PlaybackQueue { items, current_index };
    }

    /// Drop everything and reset the cursor.
    pub fn clear(&mut self)
        ensures
            final(self)@ == QueueModel::cleared(),
            final(self)@.wf(),
    {
        *self = PlaybackQueue::new();
    }

    pub fn is_empty(&self) -> (r: bool)
        ensures
            r == (self@.items.len() == 0),
    {
        self.items.is_empty()
    }

    pub fn items(&self) -> (r: &[i64])
        ensures
            r@ == self@.items,
    {
        self.items.as_slice()
    }

    pub fn current(&self) -> (r: Option<i64>)
        ensures
            r == self@.current(),
    {
        match self.current_index {
            Some(i) => if i < self.items.len() {
                Some(self.items[i])
            } else {
                None
            },
            None => None,
        }
    }

    /// Advance the cursor; return the new current track id, or `None` at
    /// the end of the queue.
    pub fn next(&mut self) -> (r: Option<i64>)
        ensures
            (final(self)@, r) == old(self)@.next(),
            final(self)@.wf(),
    {
        proof {
            use_type_invariant(&*self);
        }
        let i = match self.current_index {
            Some(i) => i,
            None => return None,
        };
        if i < self.items.len() && i + 1 < self.items.len() {
            self.current_index = Some(i + 1);
            Some(self.items[i + 1])
        } else {
            None
        }
    }

    /// Step the cursor back; return the new current track id, or `None` if
    /// already at the first item.
    pub fn previous(&mut self) -> (r: Option<i64>)
        ensures
            (final(self)@, r) == old(self)@.previous(),
            final(self)@.wf(),
    {
        proof {
            use_type_invariant(&*self);
        }
        let i = match self.current_index {
            Some(i) => i,
            None => return None,
        };
        if i == 0 {
            return None;
        }
        self.current_index = Some(i - 1);
        Some(self.items[i - 1])
    }
}

/// Every queue operation keeps the queue well formed.
pub proof fn law_queue_ops_preserve_wf(q: QueueModel, id: i64)
    requires
        q.wf(),
    ensures
        q.push(id).wf(),
        q.next().0.wf(),
        q.previous().0.wf(),
        QueueModel::cleared().wf(),
{
}

/// A successful `next` is undone by `previous`: the cursor returns to where it
/// was and `previous` reports the track that was current before.
pub proof fn law_previous_undoes_next(q: QueueModel)
    requires
        q.wf(),
        q.next().1 is Some,
    ensures
        q.next().0.previous() == (q, q.current()),
{
}

/// A successful `previous` is undone by `next`.
pub proof fn law_next_undoes_previous(q: QueueModel)
    requires
        q.wf(),
        q.previous().1 is Some,
    ensures
        q.previous().0.next() == (q, q.current()),
{
}

/// `next` and `previous` never change the items, and what they return is the
/// new current item.
pub proof fn law_cursor_moves_keep_items(q: QueueModel)
    requires
        q.wf(),
    ensures
        q.next().0.items == q.items,
        q.previous().0.items == q.items,
        q.next().1 is Some ==> q.next().1 == q.next().0.current(),
        q.previous().1 is Some ==> q.previous().1 == q.previous().0.current(),
{
}

/// Pushing onto an empty queue makes the pushed id current; pushing onto a
/// non-empty queue leaves the current item alone.
pub proof fn law_push_current(q: QueueModel, id: i64)
    requires
        q.wf(),
    ensures
        q.items.len() == 0 ==> q.push(id).current() == Some(id),
        q.items.len() > 0 ==> q.push(id).current() == q.current(),
{
}

// ---------------------------------------------------------------------------
// Transport: state + queue + dispatcher.
// ---------------------------------------------------------------------------

/// Commands the transport accepts.
#[derive(Debug, Clone, Copy, PartialEq, Eq, Structural)]
pub enum TransportCommand {
    /// Replace the queue with the single track and start playing it.
    Play(i64),
    /// Append a track to the queue.
    Enqueue(i64),
    Pause,
    Resume,
    Stop,
    /// Move the cursor forward.
    Next,
    /// Move the cursor back.
    Previous,
    /// Empty the queue and stop.
    ClearQueue,
}

/// Transport state plus the playback queue it plays from.
#[derive(Debug, Clone)]
pub struct Transport {
    pub state: TransportState,
    pub queue: PlaybackQueue,
}

/// The transport after `cmd`.
pub open spec fn spec_dispatch(
    state: TransportState,
    q: QueueModel,
    cmd: TransportCommand,
) -> (TransportState, QueueModel) {
    match cmd {
        TransportCommand::Play(id) => (TransportState::Playing, QueueModel::cleared().push(id)),
        TransportCommand::Enqueue(id) => (state, q.push(id)),
        TransportCommand::Pause => (spec_pause(state), q),
        TransportCommand::Resume => (spec_resume(state), q),
        TransportCommand::Stop => (TransportState::Stopped, q),
        TransportCommand::Next => (state, q.next().0),
        TransportCommand::Previous => (state, q.previous().0),
        TransportCommand::ClearQueue => (TransportState::Stopped, QueueModel::cleared()),
    }
}

impl Default for Transport {
    fn default() -> (r: Self)
        ensures
            r.state == TransportState::Stopped,
            r.queue@ == QueueModel::cleared(),
            r.wf(),
    {
        Transport { state: TransportState::Stopped, queue: PlaybackQueue::new() }
    }
}

impl Transport {
    pub open spec fn wf(&self) -> bool {
        self.queue@.wf()
    }

    /// Apply one command to the state and the queue.
    pub fn dispatch(&mut self, cmd: TransportCommand)
        requires
            old(self).queue@.items.len() < usize::MAX,
        ensures
            (final(self).state, final(self).queue@) == spec_dispatch(
                old(self).state,
                old(self).queue@,
                cmd,
            ),
            final(self).wf(),
    {
        proof {
            use_type_invariant(&self.queue);
        }
        match cmd {
            TransportCommand::Play(id) => {
                self.queue.clear();
                self.queue.push(id);
                self.state = self.state.play();
            },
            TransportCommand::Enqueue(id) => {
                self.queue.push(id);
            },
            TransportCommand::Pause => {
                self.state = self.state.pause();
            },
            TransportCommand::Resume => {
                self.state = self.state.resume();
            },
            TransportCommand::Stop => {
                self.state = self.state.stop();
            },
            TransportCommand::Next => {
                let _ = self.queue.next();
            },
            TransportCommand::Previous => {
                let _ = self.queue.previous();
            },
            TransportCommand::ClearQueue => {
                self.queue.clear();
                self.state = TransportState::Stopped;
            },
        }
    }
}

/// `Play` always leaves the transport playing exactly the requested track,
/// whatever came before.
pub proof fn law_play_replaces_queue(state: TransportState, q: QueueModel, id: i64)
    ensures
        spec_dispatch(state, q, TransportCommand::Play(id)).0 == TransportState::Playing,
        spec_dispatch(state, q, TransportCommand::Play(id)).1.items == seq![id],
        spec_dispatch(state, q, TransportCommand::Play(id)).1.current() == Some(id),
{
    assert(Seq::<i64>::empty().push(id) =~= seq![id]);
}

/// `ClearQueue` always stops and empties the queue.
pub proof fn law_clear_queue_stops(state: TransportState, q: QueueModel)
    ensures
        spec_dispatch(state, q, TransportCommand::ClearQueue).0 == TransportState::Stopped,
        spec_dispatch(state, q, TransportCommand::ClearQueue).1.items.len() == 0,
        spec_dispatch(state, q, TransportCommand::ClearQueue).1.current() is None,
{
}

/// Every command keeps a well-formed transport well formed.
pub proof fn law_dispatch_preserves_wf(state: TransportState, q: QueueModel, cmd: TransportCommand)
    requires
        q.wf(),
    ensures
        spec_dispatch(state, q, cmd).1.wf(),
{
}

} // verus!
