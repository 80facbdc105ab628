use mimir::playlist::{PlayerAction, PlayerCommand, Playlist};
use mimir::transport::{PlaybackQueue, Transport, TransportCommand, TransportState};

#[test]
fn transport_state_transitions_match_spec() {
    // Stopped → Playing → Paused → Playing → Stopped
    assert_eq!(TransportState::Stopped, TransportState::default());

    let s = TransportState::Stopped.play();
    assert_eq!(s, TransportState::Playing);

    let s = s.pause();
    assert_eq!(s, TransportState::Paused);

    let s = s.resume();
    assert_eq!(s, TransportState::Playing);

    let s = s.stop();
    assert_eq!(s, TransportState::Stopped);
}

#[test]
fn transport_state_illegal_transitions_are_noops() {
    // Pausing when already stopped stays stopped.
    assert_eq!(TransportState::Stopped.pause(), TransportState::Stopped);
    // Resuming when not paused is a noop.
    assert_eq!(TransportState::Stopped.resume(), TransportState::Stopped);
    assert_eq!(TransportState::Playing.resume(), TransportState::Playing);
    // Stopping when already stopped is a noop.
    assert_eq!(TransportState::Stopped.stop(), TransportState::Stopped);
    // Playing when already playing is a noop.
    assert_eq!(TransportState::Playing.play(), TransportState::Playing);
}

#[test]
fn queue_push_clear_and_next_prev() {
    let mut q = PlaybackQueue::new();
    q.push(10);
    q.push(20);
    q.push(30);
    assert_eq!(q.items(), &[10, 20, 30]);
    assert_eq!(q.current(), Some(10));

    assert_eq!(q.next(), Some(20));
    assert_eq!(q.next(), Some(30));
    assert_eq!(q.next(), None, "end of queue");

    assert_eq!(q.previous(), Some(20));

    q.clear();
    assert!(q.is_empty());
    assert_eq!(q.current(), None);
}

#[test]
fn transport_dispatches_commands() {
    let mut t = Transport::default();
    assert_eq!(t.state, TransportState::Stopped);

    // Build a queue first, then play.
    t.dispatch(TransportCommand::Enqueue(10));
    t.dispatch(TransportCommand::Enqueue(20));
    t.dispatch(TransportCommand::Enqueue(30));
    assert_eq!(t.queue.items(), &[10, 20, 30]);
    assert_eq!(t.queue.current(), Some(10));

    t.dispatch(TransportCommand::Play(10));
    // Play replaces the queue with [10].
    assert_eq!(t.queue.items(), &[10]);
    assert_eq!(t.queue.current(), Some(10));
    assert_eq!(t.state, TransportState::Playing);

    // Now extend the queue from the playing position.
    t.dispatch(TransportCommand::Enqueue(20));
    t.dispatch(TransportCommand::Enqueue(30));
    assert_eq!(t.queue.items(), &[10, 20, 30]);

    t.dispatch(TransportCommand::Pause);
    assert_eq!(t.state, TransportState::Paused);

    t.dispatch(TransportCommand::Resume);
    assert_eq!(t.state, TransportState::Playing);

    t.dispatch(TransportCommand::Next);
    assert_eq!(t.queue.current(), Some(20));

    t.dispatch(TransportCommand::Previous);
    assert_eq!(t.queue.current(), Some(10));

    t.dispatch(TransportCommand::ClearQueue);
    assert!(t.queue.is_empty());
    assert_eq!(t.state, TransportState::Stopped, "clear also stops");
}

#[test]
fn transport_play_replaces_queue_with_single_track() {
    let mut t = Transport::default();
    t.dispatch(TransportCommand::Enqueue(10));
    t.dispatch(TransportCommand::Enqueue(20));
    t.dispatch(TransportCommand::Play(99));
    assert_eq!(t.queue.items(), &[99]);
    assert_eq!(t.queue.current(), Some(99));
    assert_eq!(t.state, TransportState::Playing);
}

#[test]
fn transport_commands_dispatch_in_order() {
    let mut t = Transport::default();
    t.dispatch(TransportCommand::Play(42));
    assert_eq!(t.state, TransportState::Playing);
    assert_eq!(t.queue.current(), Some(42));

    t.dispatch(TransportCommand::Pause);
    assert_eq!(t.state, TransportState::Paused);

    t.dispatch(TransportCommand::Stop);
    assert_eq!(t.state, TransportState::Stopped);
}

#[test]
fn queue_previous_undoes_next_on_values() {
    let mut q = PlaybackQueue::new();
    q.push(7);
    q.push(8);
    let before = q.current();
    assert_eq!(q.next(), Some(8));
    assert_eq!(q.previous(), before);
    assert_eq!(q.current(), Some(7));
    // At the front there is nothing before.
    assert_eq!(q.previous(), None);
    assert_eq!(q.current(), Some(7));
}

#[test]
fn transport_pause_resume_round_trip() {
    assert_eq!(TransportState::Playing.pause().resume(), TransportState::Playing);
    assert_eq!(TransportState::Paused.pause().resume(), TransportState::Playing);
    assert_eq!(TransportState::Stopped.pause().resume(), TransportState::Stopped);
}

fn start(p: &mut Playlist<&'static str>, cmd: PlayerCommand<&'static str>) -> PlayerAction {
    let a = p.apply(cmd);
    if let PlayerAction::Start(i) = a {
        p.started(i, true);
    }
    a
}

#[test]
fn playlist_play_and_enqueue_starts_first() {
    let mut p = Playlist::new();
    let a = start(&mut p, PlayerCommand::PlayAndEnqueue { first: "a", rest: vec!["b", "c"] });
    assert_eq!(a, PlayerAction::Start(0));
    assert_eq!(p.tracks(), &["a", "b", "c"]);
    assert_eq!(p.playhead(), Some(0));
}

#[test]
fn playlist_next_and_previous_wrap_around() {
    let mut p = Playlist::new();
    start(&mut p, PlayerCommand::PlayAndEnqueue { first: "a", rest: vec!["b", "c"] });
    assert_eq!(start(&mut p, PlayerCommand::Previous), PlayerAction::Start(2));
    assert_eq!(p.playhead(), Some(2));
    assert_eq!(start(&mut p, PlayerCommand::Next), PlayerAction::Start(0));
    assert_eq!(p.playhead(), Some(0));
    assert_eq!(p.track_ended(), Some(1));
}

#[test]
fn playlist_failed_start_keeps_playhead() {
    let mut p = Playlist::new();
    start(&mut p, PlayerCommand::PlayAndEnqueue { first: "a", rest: vec!["b", "c"] });
    let a = p.apply(PlayerCommand::PlayAt(2));
    assert_eq!(a, PlayerAction::Start(2));
    p.started(2, false);
    assert_eq!(p.playhead(), Some(0));
}

#[test]
fn playlist_stop_keeps_list_and_suppresses_rollover() {
    let mut p = Playlist::new();
    start(&mut p, PlayerCommand::PlayAndEnqueue { first: "a", rest: vec!["b"] });
    assert_eq!(p.apply(PlayerCommand::Stop), PlayerAction::HaltOutput);
    assert_eq!(p.tracks(), &["a", "b"]);
    assert_eq!(p.playhead(), Some(0));
    assert_eq!(p.track_ended(), None);
    assert_eq!(p.apply(PlayerCommand::Resume), PlayerAction::ResumeOutput);
    assert_eq!(p.track_ended(), Some(1));
}

#[test]
fn playlist_remove_current_starts_next_in_slot() {
    let mut p = Playlist::new();
    start(&mut p, PlayerCommand::PlayAndEnqueue { first: "a", rest: vec!["b", "c"] });
    start(&mut p, PlayerCommand::PlayAt(1));
    assert_eq!(start(&mut p, PlayerCommand::RemoveAt(1)), PlayerAction::Start(1));
    assert_eq!(p.tracks(), &["a", "c"]);
    assert_eq!(p.playhead(), Some(1));
    // Removing the last remaining current track at the end moves back one.
    assert_eq!(start(&mut p, PlayerCommand::RemoveAt(1)), PlayerAction::Start(0));
    assert_eq!(p.tracks(), &["a"]);
    assert_eq!(p.apply(PlayerCommand::RemoveAt(0)), PlayerAction::MarkStopped);
    assert_eq!(p.playhead(), None);
}

#[test]
fn playlist_remove_before_current_shifts_playhead() {
    let mut p = Playlist::new();
    start(&mut p, PlayerCommand::PlayAndEnqueue { first: "a", rest: vec!["b", "c"] });
    start(&mut p, PlayerCommand::PlayAt(2));
    assert_eq!(p.apply(PlayerCommand::RemoveAt(0)), PlayerAction::Nothing);
    assert_eq!(p.playhead(), Some(1));
    assert_eq!(*p.track(1), "c");
}

#[test]
fn playlist_move_follows_current_track() {
    let mut p = Playlist::new();
    start(&mut p, PlayerCommand::PlayAndEnqueue { first: "a", rest: vec!["b", "c", "d"] });
    start(&mut p, PlayerCommand::PlayAt(1));
    p.apply(PlayerCommand::Move { from: 0, to: 3 });
    assert_eq!(p.tracks(), &["b", "c", "d", "a"]);
    assert_eq!(p.playhead(), Some(0));
    p.apply(PlayerCommand::Move { from: 0, to: 2 });
    assert_eq!(p.tracks(), &["c", "d", "b", "a"]);
    assert_eq!(*p.track(p.playhead().unwrap()), "b");
    p.apply(PlayerCommand::Move { from: 3, to: 0 });
    assert_eq!(p.tracks(), &["a", "c", "d", "b"]);
    assert_eq!(*p.track(p.playhead().unwrap()), "b");
    // Out of range and equal positions are ignored.
    p.apply(PlayerCommand::Move { from: 1, to: 1 });
    p.apply(PlayerCommand::Move { from: 9, to: 0 });
    assert_eq!(p.tracks(), &["a", "c", "d", "b"]);
}

#[test]
fn playlist_enqueue_on_empty_sets_playhead_without_start() {
    let mut p = Playlist::new();
    assert_eq!(p.apply(PlayerCommand::Enqueue("a")), PlayerAction::Nothing);
    assert_eq!(p.playhead(), Some(0));
    assert_eq!(p.apply(PlayerCommand::Enqueue("b")), PlayerAction::Nothing);
    assert_eq!(p.playhead(), Some(0));
    assert_eq!(p.apply(PlayerCommand::ClearQueue), PlayerAction::ClearOutput);
    assert_eq!(p.len(), 0);
    assert_eq!(p.apply(PlayerCommand::Next), PlayerAction::Nothing);
}
