//! The player's playlist: a persistent list of tracks and a playhead.
//!
//! The player worker owns the audio device; every decision it takes about the
//! list lives here. A command is applied with [`Playlist::apply`], which
//! returns the action the worker must perform on the output. When that action
//! is [`PlayerAction::Start`], the worker opens the track and reports the
//! outcome with [`Playlist::started`]. A command that replaces the list puts
//! the playhead on its first track, and removing the current track puts it on
//! the one that takes its place; otherwise the playhead moves to a track only
//! once it really started. The end of the current track is reported with
//! [`Playlist::track_ended`], which rolls over to the next track, wrapping
//! around at the end of the list.

use vstd::prelude::*;

verus! {

/// Commands a player accepts. Positions are indices into the playlist.
#[derive(Debug, Clone, PartialEq, Eq)]
pub enum PlayerCommand<T> {
    /// Replace the playlist with just this track and start it.
    Play(T),
    /// Append a track. Does not change playback; if the playlist was empty
    /// the new track becomes the playhead (without starting).
    Enqueue(T),
    /// Replace the playlist with `first` followed by `rest`, and start `first`.
    PlayAndEnqueue { first: T, rest: Vec<T> },
    /// Advance the playhead by one, wrapping to the first track after the
    /// last, and start that track.
    Next,
    /// Step the playhead back by one, wrapping to the last track at the
    /// first, and start that track.
    Previous,
    /// Start the track at this position.
    PlayAt(usize),
    /// Remove the track at this position; removing the current track starts
    /// the one that slides into its slot.
    RemoveAt(usize),
    /// Move the entry at `from` to `to`; the playhead follows its track.
    Move { from: usize, to: usize },
    /// Empty the playlist, drop the playhead, and stop.
    ClearQueue,
    Pause,
    Resume,
    /// Halt playback, keeping the playlist and the playhead.
    Stop,
}

/// What the worker must do on the audio output after a command.
#[derive(Debug, Clone, Copy, PartialEq, Eq, Structural)]
pub enum PlayerAction {
    /// Nothing to do on the output.
    Nothing,
    /// Open and start the track at this position, then report the outcome
    /// with [`Playlist::started`].
    Start(usize),
    /// Pause the output.
    PauseOutput,
    /// Resume the output.
    ResumeOutput,
    /// Stop the output; nothing is audible any more (the playlist stays).
    HaltOutput,
    /// Stop the output and forget the current track (the playlist is empty).
    ClearOutput,
    /// The last track was removed: report the player as stopped.
    MarkStopped,
}

/// Abstract playlist: the tracks, the playhead and whether playback was
/// halted by an explicit stop (which suppresses the roll-over at track end).
pub struct PlaylistModel<T> {
    pub tracks: Seq<T>,
    pub playhead: Option<nat>,
    pub halted: bool,
}

/// Position after `c` in a list of `n`, wrapping around.
pub open spec fn wrap_next(playhead: Option<nat>, n: nat) -> nat
    recommends
        n > 0,
{
    match playhead {
        None => 0,
        Some(c) => (((c + 1) as int) % (n as int)) as nat,
    }
}

/// Position before `c` in a list of `n`, wrapping around.
pub open spec fn wrap_previous(playhead: Option<nat>, n: nat) -> nat
    recommends
        n > 0,
{
    match playhead {
        None => 0,
        Some(c) => if c == 0 {
            (n - 1) as nat
        } else {
            (c - 1) as nat
        },
    }
}

/// Where the playhead goes when the entry at `from` moves to `to`.
pub open spec fn moved_playhead(playhead: Option<nat>, from: nat, to: nat) -> Option<nat> {
    match playhead {
        Some(c) => if c == from {
            Some(to)
        } else if from < c && to >= c {
            Some((c - 1) as nat)
        } else if from > c && to <= c {
            Some(c + 1)
        } else {
            Some(c)
        },
        None => None,
    }
}

/// `s` with the element at `from` moved to position `to` (remove, then
/// insert at the post-removal position).
pub open spec fn seq_move<T>(s: Seq<T>, from: int, to: int) -> Seq<T> {
    s.remove(from).insert(to, s[from])
}

impl<T> PlaylistModel<T> {
    /// The playhead points at a track, or is absent.
    pub open spec fn wf(self) -> bool {
        self.playhead matches Some(c) ==> c < self.tracks.len()
    }

    /// The state after `cmd`, and the action the output must perform. A
    /// command that replaces the list (`Play`, `PlayAndEnqueue`) puts the
    /// playhead on its first track, and removing the current track puts it on
    /// the track that takes its place, whether or not that track then starts;
    /// any other `Start(i)` moves the playhead only once `started` reports
    /// success.
    pub open spec fn apply(self, cmd: PlayerCommand<T>) -> (PlaylistModel<T>, PlayerAction) {
        let n = self.tracks.len();
        match cmd {
            PlayerCommand::Play(t) => (
                PlaylistModel { tracks: seq![t], playhead: Some(0), halted: false },
                PlayerAction::Start(0),
            ),
            PlayerCommand::PlayAndEnqueue { first, rest } => (
                PlaylistModel { tracks: seq![first] + rest@, playhead: Some(0), halted: false },
                PlayerAction::Start(0),
            ),
            PlayerCommand::Enqueue(t) => (
                PlaylistModel {
                    tracks: self.tracks.push(t),
                    playhead: if self.playhead is None {
                        Some(n)
                    } else {
                        self.playhead
                    },
                    halted: false,
                },
                PlayerAction::Nothing,
            ),
            PlayerCommand::Next => if n == 0 {
                (self, PlayerAction::Nothing)
            } else {
                (
                    PlaylistModel { halted: false, ..self },
                    PlayerAction::Start(wrap_next(self.playhead, n) as usize),
                )
            },
            PlayerCommand::Previous => if n == 0 {
                (self, PlayerAction::Nothing)
            } else {
                (
                    PlaylistModel { halted: false, ..self },
                    PlayerAction::Start(wrap_previous(self.playhead, n) as usize),
                )
            },
            PlayerCommand::PlayAt(i) => if i < n {
                (PlaylistModel { halted: false, ..self }, PlayerAction::Start(i))
            } else {
                (self, PlayerAction::Nothing)
            },
            PlayerCommand::RemoveAt(i) => if i < n {
                let tracks = self.tracks.remove(i as int);
                let m = tracks.len();
                match self.playhead {
                    Some(c) => if c == i {
                        if m > 0 {
                            let next: nat = if i < m {
                                i as nat
                            } else {
                                (m - 1) as nat
                            };
                            (
                                PlaylistModel { tracks, playhead: Some(next), halted: false },
                                PlayerAction::Start(next as usize),
                            )
                        } else {
                            (
                                PlaylistModel { tracks, playhead: None, halted: false },
                                PlayerAction::MarkStopped,
                            )
                        }
                    } else if c > i {
                        (
                            PlaylistModel {
                                tracks,
                                playhead: Some((c - 1) as nat),
                                halted: self.halted,
                            },
                            PlayerAction::Nothing,
                        )
                    } else {
                        (PlaylistModel { tracks, ..self }, PlayerAction::Nothing)
                    },
                    None => (PlaylistModel { tracks, ..self }, PlayerAction::Nothing),
                }
            } else {
                (self, PlayerAction::Nothing)
            },
            PlayerCommand::Move { from, to } => if from != to && from < n && to < n {
                (
                    PlaylistModel {
                        tracks: seq_move(self.tracks, from as int, to as int),
                        playhead: moved_playhead(self.playhead, from as nat, to as nat),
                        halted: self.halted,
                    },
                    PlayerAction::Nothing,
                )
            } else {
                (self, PlayerAction::Nothing)
            },
            PlayerCommand::ClearQueue => (
                PlaylistModel { tracks: Seq::empty(), playhead: None, halted: true },
                PlayerAction::ClearOutput,
            ),
            PlayerCommand::Pause => (self, PlayerAction::PauseOutput),
            PlayerCommand::Resume => (PlaylistModel { halted: false, ..self }, PlayerAction::ResumeOutput),
            PlayerCommand::Stop => (PlaylistModel { halted: true, ..self }, PlayerAction::HaltOutput),
        }
    }

    /// The state after the output reported whether the track at `i` started.
    pub open spec fn started(self, i: nat, ok: bool) -> PlaylistModel<T> {
        if ok {
            PlaylistModel { playhead: Some(i), ..self }
        } else {
            self
        }
    }

    /// Whether the end of the current track rolls over to the next one.
    pub open spec fn rolls_over(self) -> bool {
        !self.halted && self.tracks.len() > 0 && self.playhead is Some
    }
}

/// The fields of a playlist while a command rewrites them.
struct Parts<T> {
    tracks: Vec<T>,
    playhead: Option<usize>,
    halted: bool,
}

impl<T> View for Parts<T> {
    type V = PlaylistModel<T>;

    closed spec fn view(&self) -> PlaylistModel<T> {
        PlaylistModel {
            tracks: self.tracks@,
            playhead: match self.playhead {
                Some(c) => Some(c as nat),
                None => None,
            },
            halted: self.halted,
        }
    }
}

impl<T> Parts<T> {
    /// Applies `cmd` to the fields of a well-formed playlist.
    fn apply(&mut self, cmd: PlayerCommand<T>) -> (action: PlayerAction)
        requires
            old(self)@.wf(),
            old(self)@.tracks.len() + 1 < usize::MAX,
            cmd matches PlayerCommand::PlayAndEnqueue { rest, .. } ==> rest@.len() + 1
                < usize::MAX,
        ensures
            (final(self)@, action) == old(self)@.apply(cmd),
            action matches PlayerAction::Start(i) ==> i < final(self)@.tracks.len(),
    {
        let ghost pre = self@;
        let n = self.tracks.len();
        match cmd {
            PlayerCommand::Play(t) => {
                self.halted = false;
                self.playhead = None;
                self.tracks.clear();
                self.tracks.push(t);
                self.playhead = Some(0);
                proof {
                    assert(self@.tracks =~= seq![t]);
                }
                PlayerAction::Start(0)
            },
            PlayerCommand::PlayAndEnqueue { first, rest } => {
                let ghost rest_v = rest@;
                self.halted = false;
                self.playhead = None;
                self.tracks.clear();
                self.tracks.push(first);
                let mut rest = rest;
                self.tracks.append(&mut rest);
                self.playhead = Some(0);
                proof {
                    assert(self@.tracks =~= seq![first] + rest_v);
                }
                PlayerAction::Start(0)
            },
            PlayerCommand::Enqueue(t) => {
                self.halted = false;
                self.tracks.push(t);
                if self.playhead.is_none() {
                    self.playhead = Some(self.tracks.len() - 1);
                }
                PlayerAction::Nothing
            },
            PlayerCommand::Next => {
                if n == 0 {
                    return PlayerAction::Nothing;
                }
                self.halted = false;
                let next_i = match self.playhead {
                    None => 0,
                    Some(c) => (c % n + 1) % n,
                };
                proof {
                    if let Some(c) = self.playhead {
                        lemma_wrap_mod(c as int, n as int);
                    }
                }
                PlayerAction::Start(next_i)
            },
            PlayerCommand::Previous => {
                if n == 0 {
                    return PlayerAction::Nothing;
                }
                self.halted = false;
                let prev_i = match self.playhead {
                    None => 0,
                    Some(c) => if c == 0 {
                        n - 1
                    } else {
                        c - 1
                    },
                };
                PlayerAction::Start(prev_i)
            },
            PlayerCommand::PlayAt(i) => {
                if i < n {
                    self.halted = false;
                    PlayerAction::Start(i)
                } else {
                    PlayerAction::Nothing
                }
            },
            PlayerCommand::RemoveAt(i) => {
                if i < n {
                    let old_playhead = self.playhead;
                    self.playhead = None;
                    self.tracks.remove(i);
                    let m = self.tracks.len();
                    match old_playhead {
                        Some(c) => {
                            if c == i {
                                self.halted = false;
                                if m > 0 {
                                    let new_i = if i < m {
                                        i
                                    } else {
                                        m - 1
                                    };
                                    self.playhead = Some(new_i);
                                    PlayerAction::Start(new_i)
                                } else {
                                    PlayerAction::MarkStopped
                                }
                            } else if c > i {
                                self.playhead = Some(c - 1);
                                PlayerAction::Nothing
                            } else {
                                self.playhead = Some(c);
                                PlayerAction::Nothing
                            }
                        },
                        None => PlayerAction::Nothing,
                    }
                } else {
                    PlayerAction::Nothing
                }
            },
            PlayerCommand::Move { from, to } => {
                if from != to && from < n && to < n {
                    let old_playhead = self.playhead;
                    self.playhead = None;
                    let item = self.tracks.remove(from);
                    self.tracks.insert(to, item);
                    self.playhead = old_playhead;
                    proof {
                        assert(self@.tracks =~= seq_move(pre.tracks, from as int, to as int));
                    }
                    match self.playhead {
                        Some(c) => {
                            if c == from {
                                self.playhead = Some(to);
                            } else if from < c && to >= c {
                                self.playhead = Some(c - 1);
                            } else if from > c && to <= c {
                                self.playhead = Some(c + 1);
                            }
                        },
                        None => {},
                    }
                }
                PlayerAction::Nothing
            },
            PlayerCommand::ClearQueue => {
                self.playhead = None;
                self.tracks.clear();
                self.halted = true;
                PlayerAction::ClearOutput
            },
            PlayerCommand::Pause => PlayerAction::PauseOutput,
            PlayerCommand::Resume => {
                self.halted = false;
                PlayerAction::ResumeOutput
            },
            PlayerCommand::Stop => {
                self.halted = true;
                PlayerAction::HaltOutput
            },
        }
    }

}

/// A playlist and its playhead, as the player worker holds them.
#[derive(Debug)]
pub struct Playlist<T> {
    tracks: Vec<T>,
    playhead: Option<usize>,
    halted: bool,
}

impl<T> View for Playlist<T> {
    type V = PlaylistModel<T>;

    closed spec fn view(&self) -> PlaylistModel<T> {
        PlaylistModel {
            tracks: self.tracks@,
            playhead: match self.playhead {
                Some(c) => Some(c as nat),
                None => None,
            },
            halted: self.halted,
        }
    }
}

impl<T> Playlist<T> {
    /// The playhead, when there is one, points at a track.
    #[verifier::type_invariant]
    spec fn playhead_in_list(self) -> bool {
        self.playhead matches Some(c) ==> c < self.tracks.len()
    }

    /// An empty playlist with no playhead.
    pub fn new() -> (r: Self)
        ensures
            r@.tracks.len() == 0,
            r@.playhead is None,
            !r@.halted,
    {
        Playlist { tracks: Vec::new(), playhead: None, halted: false }
    }

    pub fn len(&self) -> (r: usize)
        ensures
            r == self@.tracks.len(),
    {
        self.tracks.len()
    }

    pub fn playhead(&self) -> (r: Option<usize>)
        ensures
            r matches Some(c) ==> self@.playhead == Some(c as nat),
            r is None ==> self@.playhead is None,
    {
        self.playhead
    }

    pub fn is_halted(&self) -> (r: bool)
        ensures
            r == self@.halted,
    {
        self.halted
    }

    /// The track at position `i`.
    pub fn track(&self, i: usize) -> (r: &T)
        requires
            i < self@.tracks.len(),
        ensures
            *r == self@.tracks[i as int],
    {
        &self.tracks[i]
    }

    /// All tracks in order.
    pub fn tracks(&self) -> (r: &[T])
        ensures
            r@ == self@.tracks,
    {
        self.tracks.as_slice()
    }

    /// Apply `cmd` and return what the output must do.
    pub fn apply(&mut self, cmd: PlayerCommand<T>) -> (action: PlayerAction)
        requires
            old(self)@.tracks.len() + 1 < usize::MAX,
            cmd matches PlayerCommand::PlayAndEnqueue { rest, .. } ==> rest@.len() + 1
                < usize::MAX,
        ensures
            (final(self)@, action) == old(self)@.apply(cmd),
            final(self)@.wf(),
            action matches PlayerAction::Start(i) ==> i < final(self)@.tracks.len(),
    {
        proof {
            use_type_invariant(&*self);
        }
        let ghost pre = self@;
        let ghost command = cmd;
        let mut current = Playlist::new();
        std::mem::swap(&mut current, self);
        let Playlist { tracks, playhead, halted } = current;
        let mut parts = Parts { tracks, playhead, halted };
        let action = parts.apply(cmd);
        proof {
            law_playhead_stays_in_list(pre, command);
        }
        let Parts { tracks, playhead, halted } = parts;
        *self = Playlist { tracks, playhead, halted };
        action
    }

    /// Record whether the track at `i` started; on success it becomes the
    /// playhead.
    pub fn started(&mut self, i: usize, ok: bool)
        requires
            i < old(self)@.tracks.len(),
        ensures
            final(self)@ == old(self)@.started(i as nat, ok),
            final(self)@.wf(),
    {
        proof {
            use_type_invariant(&*self);
        }
        if ok {
            self.playhead = Some(i);
        }
    }

    /// The current track finished playing: the position to start next, when
    /// the playlist rolls over (not halted, non-empty, with a playhead).
    pub fn track_ended(&self) -> (r: Option<usize>)
        ensures
            r is Some <==> self@.rolls_over(),
            r matches Some(i) ==> i == wrap_next(self@.playhead, self@.tracks.len()) && i
                < self@.tracks.len(),
    {
        proof {
            use_type_invariant(self);
        }
        if self.halted || self.tracks.len() == 0 {
            return None;
        }
        match self.playhead {
            Some(c) => {
                let n = self.tracks.len();
                proof {
                    lemma_wrap_mod(c as int, n as int);
                }
                Some((c % n + 1) % n)
            },
            None => None,
        }
    }
}

proof fn lemma_wrap_mod(c: int, n: int)
    requires
        0 <= c,
        0 < n,
    ensures
        (c % n + 1) % n == (c + 1) % n,
        0 <= (c + 1) % n < n,
        c % n + 1 <= n,
{
    vstd::arithmetic::div_mod::lemma_mod_bound(c, n);
    vstd::arithmetic::div_mod::lemma_mod_bound(c + 1, n);
    if n == 1 {
        assert(c % 1 == 0 && (c + 1) % 1 == 0 && (0int + 1) % 1 == 0) by (nonlinear_arith);
    } else {
        vstd::arithmetic::div_mod::lemma_small_mod(1, n as nat);
        vstd::arithmetic::div_mod::lemma_add_mod_noop(c, 1, n);
    }
}

/// The playhead always points at a track: every command keeps a
/// well-formed playlist well formed, and so does the report of a start at a
/// position in the list, whether it succeeded or not.
pub proof fn law_playhead_stays_in_list<T>(m: PlaylistModel<T>, cmd: PlayerCommand<T>)
    requires
        m.wf(),
    ensures
        m.apply(cmd).0.wf(),
        forall|i: nat, ok: bool| i < m.tracks.len() ==> #[trigger] m.started(i, ok).wf(),
{
    let n = m.tracks.len();
    match cmd {
        PlayerCommand::RemoveAt(i) => {
            if i < n {
                assert(m.tracks.remove(i as int).len() == n - 1);
            }
        },
        PlayerCommand::Move { from, to } => {
            if from != to && from < n && to < n {
                assert(seq_move(m.tracks, from as int, to as int).len() == n);
            }
        },
        PlayerCommand::PlayAndEnqueue { first, rest } => {
            assert((seq![first] + rest@).len() == rest@.len() + 1);
        },
        _ => {},
    }
}

/// `Play` and `PlayAndEnqueue` put the playhead on the first track of the
/// new list, whether or not that track then starts.
pub proof fn law_play_puts_playhead_first<T>(m: PlaylistModel<T>, cmd: PlayerCommand<T>, ok: bool)
    requires
        cmd is Play || cmd is PlayAndEnqueue,
    ensures
        m.apply(cmd).1 == PlayerAction::Start(0),
        m.apply(cmd).0.started(0, ok).playhead == Some(0nat),
        m.apply(cmd).0.started(0, ok).tracks.len() > 0,
{
    if let PlayerCommand::PlayAndEnqueue { first, rest } = cmd {
        assert((seq![first] + rest@).len() == rest@.len() + 1);
    }
}

/// A move keeps the playhead on the same track.
pub proof fn law_move_keeps_current_track<T>(m: PlaylistModel<T>, from: usize, to: usize)
    requires
        m.wf(),
        m.playhead is Some,
        from != to,
        from < m.tracks.len(),
        to < m.tracks.len(),
    ensures
        ({
            let m2 = m.apply(PlayerCommand::Move { from, to }).0;
            m2.playhead is Some && m2.tracks[m2.playhead->0 as int] == m.tracks[m.playhead->0 as int]
        }),
{
    let c = m.playhead->0 as int;
    let s = m.tracks;
    let r = s.remove(from as int);
    let t = r.insert(to as int, s[from as int]);
    assert(t == seq_move(s, from as int, to as int));
    if c == from {
    } else if from < c && to >= c {
        assert(r[c - 1] == s[c]);
        assert(t[c - 1] == r[c - 1]);
    } else if from > c && to <= c {
        assert(r[c] == s[c]);
        assert(t[c + 1] == r[c]);
    } else if c < from {
        assert(r[c] == s[c]);
        assert(t[c] == r[c]);
    } else {
        assert(r[c - 1] == s[c]);
        assert(t[c] == r[c - 1]);
    }
}

/// Removing a track other than the current one keeps the playhead on the same
/// track.
pub proof fn law_remove_keeps_current_track<T>(m: PlaylistModel<T>, i: usize)
    requires
        m.wf(),
        m.playhead is Some,
        i < m.tracks.len(),
        m.playhead->0 != i,
    ensures
        ({
            let m2 = m.apply(PlayerCommand::RemoveAt(i)).0;
            m2.playhead is Some && m2.tracks[m2.playhead->0 as int] == m.tracks[m.playhead->0 as int]
        }),
{
}

/// Nothing is ever consumed by playback: `Stop`, `Pause`, `Resume`, `Next`,
/// `Previous`, `PlayAt` and the end of a track leave the list unchanged, and
/// `Stop` keeps the playhead.
pub proof fn law_playback_keeps_playlist<T>(m: PlaylistModel<T>, cmd: PlayerCommand<T>)
    requires
        cmd is Stop || cmd is Pause || cmd is Resume || cmd is Next || cmd is Previous
            || cmd is PlayAt,
    ensures
        m.apply(cmd).0.tracks == m.tracks,
        m.apply(cmd).0.playhead == m.playhead,
        cmd is Stop ==> m.apply(cmd).0.halted,
{
}

/// After `Stop` the end of the track does not roll over; any command that
/// starts playback again lifts the halt.
pub proof fn law_stop_suppresses_rollover<T>(m: PlaylistModel<T>)
    ensures
        !m.apply(PlayerCommand::Stop).0.rolls_over(),
        !m.apply(PlayerCommand::ClearQueue).0.rolls_over(),
{
}

/// `Next` then `Previous`, both starting successfully, return to the same
/// position.
pub proof fn law_previous_undoes_next<T>(m: PlaylistModel<T>)
    requires
        m.wf(),
        m.playhead is Some,
        m.tracks.len() > 0,
        m.tracks.len() <= usize::MAX,
    ensures
        ({
            let (m1, a1) = m.apply(PlayerCommand::Next);
            let i = a1->Start_0;
            let m2 = m1.started(i as nat, true);
            let (m3, a3) = m2.apply(PlayerCommand::Previous);
            a3 is Start && a3->Start_0 as nat == m.playhead->0
        }),
{
    let n = m.tracks.len() as int;
    let c = m.playhead->0 as int;
    lemma_wrap_mod(c, n);
    if c + 1 < n {
        vstd::arithmetic::div_mod::lemma_small_mod((c + 1) as nat, n as nat);
    } else {
        vstd::arithmetic::div_mod::lemma_mod_self_0(n);
    }
}

} // verus!
