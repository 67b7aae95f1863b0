//! A video in a window of its own: what happens in the terminal meanwhile.
use vstd::prelude::*;

use crate::mpv_ipc::MpvPoll;
use crate::state::{PlayerState, UiState, UiView};

verus! {

/// How the video player is doing.
#[derive(Clone, Copy, Debug, PartialEq, Eq, Structural)]
pub enum ChildState {
    Running,
    Exited,
    Unknown,
}

/// Where a round of the session stands.
#[derive(Clone, Copy, Debug, PartialEq, Eq, Structural)]
pub enum VideoStage {
    Top,
    Polling,
    Reading,
    Saving,
    Sending,
    Watching,
    Drawing,
    Sleeping,
    Over,
}

/// What came of the last action.
#[derive(Clone, Copy, Debug, PartialEq, Eq, Structural)]
pub enum VideoEvent {
    /// A round begins; whether the screen is due.
    Round { tick: bool },
    /// The video player answered, or it did not.
    Polled(Option<MpvPoll>),
    /// Keys were read; whether they end the program.
    Read { quit: bool },
    /// What was asked for is done.
    Done,
    /// How the video player is doing.
    Child(ChildState),
}

/// What the session does next.
#[derive(Clone, Copy, Debug, PartialEq, Eq, Structural)]
pub enum VideoAction {
    /// Ask the video player for a snapshot.
    Poll,
    /// Read keys.
    Read,
    /// Save where the player is.
    Save,
    /// Tell the video player: paused or not, and the volume and the jump in
    /// seconds where they changed.
    Send { paused: bool, volume: Option<u32>, seek: Option<i64> },
    /// See how the video player is doing.
    Watch,
    /// Draw the screen, cleared first where that is asked.
    Draw { clear: bool },
    /// Wait for this many milliseconds.
    Sleep(u64),
    /// Leave the session, with or without ending the video player; `quit` tells
    /// whether the program ends.
    Leave { kill: bool, quit: bool },
}

/// What the video player said of its position and of its length, as the bits of
/// floating-point seconds.
#[derive(Clone, Copy, Debug, PartialEq, Eq, Structural)]
pub struct VideoTimes {
    pub time_pos: u64,
    pub duration: u64,
}

/// A session with the video player, with a dialogue or without one.
#[derive(Clone, Copy, Debug, PartialEq, Eq, Structural)]
pub struct VideoSession {
    pub with_ipc: bool,
    pub last_volume: u32,
    pub tick: bool,
    pub position: Option<VideoTimes>,
    pub stage: VideoStage,
}

/// A session, the player, the interface and the action that follows.
pub ghost struct VideoStep {
    pub session: VideoSession,
    pub state: PlayerState,
    pub ui: UiView,
    pub action: VideoAction,
}

/// The smaller of two places.
pub open spec fn least(a: int, b: int) -> usize {
    if a < b {
        a as usize
    } else {
        b as usize
    }
}

impl VideoSession {
    /// Whether the session waits for an event of this sort.
    pub open spec fn expects(self, event: VideoEvent) -> bool {
        match self.stage {
            VideoStage::Top => event is Round,
            VideoStage::Polling => event is Polled,
            VideoStage::Reading => event is Read,
            VideoStage::Saving => event is Done,
            VideoStage::Sending => event is Done,
            VideoStage::Watching => event is Child,
            VideoStage::Drawing => event is Done,
            VideoStage::Sleeping => event is Round,
            VideoStage::Over => false,
        }
    }

    /// The session goes on to a stage.
    pub open spec fn at(self, stage: VideoStage) -> VideoSession {
        VideoSession { stage, ..self }
    }

    /// The session ends; what the video player said is forgotten.
    pub open spec fn over(self) -> VideoSession {
        VideoSession { stage: VideoStage::Over, position: None, ..self }
    }

    /// A round begins: quitting first; then a snapshot where one is due, else
    /// keys.
    pub open spec fn beginning(self, s: PlayerState, u: UiView, tick: bool) -> VideoStep {
        let now = VideoSession { tick, ..self };
        if s.quit {
            VideoStep {
                session: now.over(),
                state: s,
                ui: u,
                action: VideoAction::Leave { kill: true, quit: true },
            }
        } else if self.with_ipc && tick {
            VideoStep {
                session: now.at(VideoStage::Polling),
                state: s,
                ui: u,
                action: VideoAction::Poll,
            }
        } else {
            VideoStep {
                session: now.at(VideoStage::Reading),
                state: s,
                ui: u,
                action: VideoAction::Read,
            }
        }
    }

    /// A snapshot tells the position and whether the video is paused.
    pub open spec fn polled(self, s: PlayerState, u: UiView, poll: Option<MpvPoll>) -> VideoStep {
        match poll {
            Some(p) => VideoStep {
                session: VideoSession {
                    position: Some(VideoTimes { time_pos: p.time_pos, duration: p.duration }),
                    stage: VideoStage::Reading,
                    ..self
                },
                state: PlayerState { paused: p.paused, ..s },
                ui: u,
                action: VideoAction::Read,
            },
            None => VideoStep {
                session: self.at(VideoStage::Reading),
                state: s,
                ui: u,
                action: VideoAction::Read,
            },
        }
    }

    /// After keys: quitting, then saving, then the rest.
    pub open spec fn read(self, s: PlayerState, u: UiView, len: usize, quit: bool) -> VideoStep {
        if quit {
            VideoStep {
                session: self.over(),
                state: s,
                ui: u,
                action: VideoAction::Leave { kill: true, quit: true },
            }
        } else if u.pending_resume_save {
            VideoStep {
                session: self.at(VideoStage::Saving),
                state: s,
                ui: UiView { pending_resume_save: false, ..u },
                action: VideoAction::Save,
            }
        } else {
            self.sending(s, u, len)
        }
    }

    /// What the terminal asked for is sent, where there is a dialogue.
    pub open spec fn sending(self, s: PlayerState, u: UiView, len: usize) -> VideoStep {
        if self.with_ipc {
            VideoStep {
                session: VideoSession {
                    last_volume: s.volume,
                    stage: VideoStage::Sending,
                    ..self
                },
                state: s.after_take_seek(),
                ui: u,
                action: VideoAction::Send {
                    paused: s.paused,
                    volume: if s.volume != self.last_volume {
                        Some(s.volume)
                    } else {
                        None
                    },
                    seek: if s.seek_request != 0 {
                        Some(s.seek_request)
                    } else {
                        None
                    },
                },
            }
        } else {
            self.watching(s, u, len)
        }
    }

    /// The place that a request leads to: a jump goes to a track of the playlist,
    /// the next track may be behind its end.
    pub open spec fn place_asked(s: PlayerState, current: usize, len: usize) -> Option<usize> {
        if s.jump_to_track >= 0 {
            Some(
                least(
                    (s.jump_to_track as usize) as int,
                    if len == 0 {
                        0
                    } else {
                        len - 1
                    },
                ),
            )
        } else if s.skip_next {
            Some(least(current + 1, len as int))
        } else if s.skip_prev {
            Some(
                if current == 0 {
                    0
                } else {
                    (current - 1) as usize
                },
            )
        } else {
            None
        }
    }

    /// The player after the first request was taken.
    pub open spec fn request_taken(s: PlayerState) -> PlayerState {
        if s.jump_to_track >= 0 {
            s.after_take_jump()
        } else if s.skip_next {
            s.after_take_jump().after_take_skip_next()
        } else {
            s.after_take_jump().after_take_skip_next().after_take_skip_prev()
        }
    }

    /// Requests end the session and lead to another track; without one the video
    /// player is looked after.
    pub open spec fn watching(self, s: PlayerState, u: UiView, len: usize) -> VideoStep {
        let t = VideoSession::request_taken(s);
        match VideoSession::place_asked(s, u.current, len) {
            Some(place) => VideoStep {
                session: self.over(),
                state: PlayerState { current_track: place, ..t },
                ui: UiView { current: place, ..u },
                action: VideoAction::Leave { kill: true, quit: false },
            },
            None => VideoStep {
                session: self.at(VideoStage::Watching),
                state: t,
                ui: u,
                action: VideoAction::Watch,
            },
        }
    }

    /// When the video player has ended, the next track follows; else the screen
    /// is drawn where it is due.
    pub open spec fn watched(self, s: PlayerState, u: UiView, len: usize, child: ChildState) -> VideoStep {
        if child is Running {
            if self.tick {
                VideoStep {
                    session: self.at(VideoStage::Drawing),
                    state: s,
                    ui: UiView { terminal_resized: false, ..u },
                    action: VideoAction::Draw { clear: u.terminal_resized },
                }
            } else {
                self.resting(s, u)
            }
        } else {
            let place = least(u.current + 1, len as int);
            VideoStep {
                session: self.over(),
                state: PlayerState { current_track: place, ..s },
                ui: UiView { current: place, ..u },
                action: VideoAction::Leave { kill: false, quit: false },
            }
        }
    }

    /// A round ends with a wait: shorter where there is a dialogue.
    pub open spec fn resting(self, s: PlayerState, u: UiView) -> VideoStep {
        VideoStep {
            session: self.at(VideoStage::Sleeping),
            state: s,
            ui: u,
            action: VideoAction::Sleep(
                if self.with_ipc {
                    10
                } else {
                    20
                },
            ),
        }
    }

    /// What follows an event, in a playlist of this length.
    pub open spec fn after(self, s: PlayerState, u: UiView, len: usize, event: VideoEvent) -> VideoStep {
        match (self.stage, event) {
            (VideoStage::Polling, VideoEvent::Polled(poll)) => self.polled(s, u, poll),
            (VideoStage::Reading, VideoEvent::Read { quit }) => self.read(s, u, len, quit),
            (VideoStage::Saving, _) => self.sending(s, u, len),
            (VideoStage::Sending, _) => self.watching(s, u, len),
            (VideoStage::Watching, VideoEvent::Child(child)) => self.watched(s, u, len, child),
            (VideoStage::Drawing, _) => self.resting(s, u),
            (_, VideoEvent::Round { tick }) => self.beginning(s, u, tick),
            _ => self.resting(s, u),
        }
    }

    /// A session at its start; the player tells that the track is known.
    pub fn new(s: &mut PlayerState, with_ipc: bool) -> (r: Self)
        ensures
            r == (VideoSession {
                with_ipc,
                last_volume: old(s).volume,
                tick: false,
                position: None,
                stage: VideoStage::Top,
            }),
            *final(s) == (PlayerState { track_info_ready: true, ..*old(s) }),
    {
        s.track_info_ready = true;
        VideoSession {
            with_ipc,
            last_volume: s.volume,
            tick: false,
            position: None,
            stage: VideoStage::Top,
        }
    }

    fn leave(&mut self, kill: bool, quit: bool) -> (r: VideoAction)
        ensures
            *final(self) == old(self).over(),
            r == (VideoAction::Leave { kill, quit }),
    {
        self.stage = VideoStage::Over;
        self.position = None;
        VideoAction::Leave { kill, quit }
    }

    fn move_to(s: &mut PlayerState, ui: &mut UiState, place: usize)
        ensures
            *final(s) == (PlayerState { current_track: place, ..*old(s) }),
            final(ui)@ == (UiView { current: place, ..old(ui)@ }),
    {
        ui.current = place;
        s.current_track = place;
    }

    fn begin(&mut self, s: &PlayerState, tick: bool) -> (r: VideoAction)
        ensures
            forall|u: UiView|
                (VideoStep { session: *final(self), state: *s, ui: u, action: r })
                    == #[trigger] old(self).beginning(*s, u, tick),
    {
        self.tick = tick;
        if s.should_quit() {
            return self.leave(true, true);
        }
        if self.with_ipc && tick {
            self.stage = VideoStage::Polling;
            return VideoAction::Poll;
        }
        self.stage = VideoStage::Reading;
        VideoAction::Read
    }

    fn take_snapshot(&mut self, s: &mut PlayerState, poll: Option<MpvPoll>) -> (r: VideoAction)
        ensures
            forall|u: UiView|
                (VideoStep { session: *final(self), state: *final(s), ui: u, action: r })
                    == #[trigger] old(self).polled(*old(s), u, poll),
    {
        match poll {
            Some(p) => {
                self.position = Some(VideoTimes { time_pos: p.time_pos, duration: p.duration });
                s.paused = p.paused;
            },
            None => {},
        }
        self.stage = VideoStage::Reading;
        VideoAction::Read
    }

    fn send(&mut self, s: &mut PlayerState) -> (r: VideoAction)
        requires
            old(self).with_ipc,
        ensures
            forall|u: UiView, len: usize|
                (VideoStep { session: *final(self), state: *final(s), ui: u, action: r })
                    == #[trigger] old(self).sending(*old(s), u, len),
    {
        let paused = s.paused;
        let volume: Option<u32> = if s.volume != self.last_volume {
            Some(s.volume)
        } else {
            None
        };
        self.last_volume = s.volume;
        let asked = s.take_seek();
        let seek: Option<i64> = if asked != 0 {
            Some(asked)
        } else {
            None
        };
        self.stage = VideoStage::Sending;
        VideoAction::Send { paused, volume, seek }
    }

    /// The place that the first request leads to.
    fn take_request(s: &mut PlayerState, current: usize, len: usize) -> (r: Option<usize>)
        requires
            current < usize::MAX,
        ensures
            r == VideoSession::place_asked(*old(s), current, len),
            *final(s) == VideoSession::request_taken(*old(s)),
    {
        match s.take_jump() {
            Some(j) => {
                let last: usize = if len == 0 {
                    0
                } else {
                    len - 1
                };
                return Some(
                    if j < last {
                        j
                    } else {
                        last
                    },
                );
            },
            None => {},
        }
        if s.take_skip_next() {
            return Some(
                if current + 1 < len {
                    current + 1
                } else {
                    len
                },
            );
        }
        if s.take_skip_prev() {
            return Some(
                if current == 0 {
                    0
                } else {
                    current - 1
                },
            );
        }
        None
    }

    fn watch(&mut self, s: &mut PlayerState, ui: &mut UiState, len: usize) -> (r: VideoAction)
        requires
            old(ui).current < usize::MAX,
        ensures
            (VideoStep { session: *final(self), state: *final(s), ui: final(ui)@, action: r })
                == old(self).watching(*old(s), old(ui)@, len),
    {
        match VideoSession::take_request(s, ui.current, len) {
            Some(place) => {
                VideoSession::move_to(s, ui, place);
                self.leave(true, false)
            },
            None => {
                self.stage = VideoStage::Watching;
                VideoAction::Watch
            },
        }
    }

    fn go_on(&mut self, s: &mut PlayerState, ui: &mut UiState, len: usize) -> (r: VideoAction)
        requires
            old(ui).current < usize::MAX,
        ensures
            (VideoStep { session: *final(self), state: *final(s), ui: final(ui)@, action: r })
                == old(self).sending(*old(s), old(ui)@, len),
    {
        if self.with_ipc {
            self.send(s)
        } else {
            self.watch(s, ui, len)
        }
    }

    fn keys_read(&mut self, s: &mut PlayerState, ui: &mut UiState, len: usize, quit: bool) -> (r:
        VideoAction)
        requires
            old(ui).current < usize::MAX,
        ensures
            (VideoStep { session: *final(self), state: *final(s), ui: final(ui)@, action: r })
                == old(self).read(*old(s), old(ui)@, len, quit),
    {
        if quit {
            return self.leave(true, true);
        }
        if ui.pending_resume_save {
            ui.pending_resume_save = false;
            self.stage = VideoStage::Saving;
            return VideoAction::Save;
        }
        self.go_on(s, ui, len)
    }

    fn rest(&mut self) -> (r: VideoAction)
        ensures
            forall|s: PlayerState, u: UiView|
                (VideoStep { session: *final(self), state: s, ui: u, action: r })
                    == #[trigger] old(self).resting(s, u),
    {
        self.stage = VideoStage::Sleeping;
        VideoAction::Sleep(
            if self.with_ipc {
                10
            } else {
                20
            },
        )
    }

    fn look_after(
        &mut self,
        s: &mut PlayerState,
        ui: &mut UiState,
        len: usize,
        child: ChildState,
    ) -> (r: VideoAction)
        requires
            old(ui).current < usize::MAX,
        ensures
            (VideoStep { session: *final(self), state: *final(s), ui: final(ui)@, action: r })
                == old(self).watched(*old(s), old(ui)@, len, child),
    {
        match child {
            ChildState::Running => {
                if self.tick {
                    let clear = ui.terminal_resized;
                    ui.terminal_resized = false;
                    self.stage = VideoStage::Drawing;
                    return VideoAction::Draw { clear };
                }
                self.rest()
            },
            _ => {
                let place: usize = if ui.current + 1 < len {
                    ui.current + 1
                } else {
                    len
                };
                VideoSession::move_to(s, ui, place);
                self.leave(false, false)
            },
        }
    }

    /// The next action, after what came of the last one, in a playlist of this
    /// length.
    pub fn step(
        &mut self,
        s: &mut PlayerState,
        ui: &mut UiState,
        len: usize,
        event: VideoEvent,
    ) -> (r: VideoAction)
        requires
            old(self).expects(event),
            old(ui).current < usize::MAX,
        ensures
            (VideoStep { session: *final(self), state: *final(s), ui: final(ui)@, action: r })
                == old(self).after(*old(s), old(ui)@, len, event),
    {
        match (self.stage, event) {
            (VideoStage::Polling, VideoEvent::Polled(poll)) => self.take_snapshot(s, poll),
            (VideoStage::Reading, VideoEvent::Read { quit }) => self.keys_read(s, ui, len, quit),
            (VideoStage::Saving, _) => self.go_on(s, ui, len),
            (VideoStage::Sending, _) => self.watch(s, ui, len),
            (VideoStage::Watching, VideoEvent::Child(child)) => self.look_after(
                s,
                ui,
                len,
                child,
            ),
            (VideoStage::Drawing, _) => self.rest(),
            (_, VideoEvent::Round { tick }) => self.begin(s, tick),
            _ => self.rest(),
        }
    }
}

/// What is told where the dialogue with the video player cannot be had.
pub fn ipc_failure_text(reason: &str) -> (r: String)
    ensures
        r@ == "mpv IPC 不可用: "@ + reason@,
{
    let mut out = "mpv IPC 不可用: ".to_string();
    out.append(reason);
    out
}

/// What is shown as the track's information in a session.
pub fn track_info(with_ipc: bool) -> (r: &'static str)
    ensures
        r@ == (if with_ipc {
            "视频 · mpv（终端与窗口均可控）"@
        } else {
            "视频 · mpv（无 IPC：进度/暂停请在播放器窗口操作）"@
        }),
{
    if with_ipc {
        "视频 · mpv（终端与窗口均可控）"
    } else {
        "视频 · mpv（无 IPC：进度/暂停请在播放器窗口操作）"
    }
}

/// What is told where the video player cannot be started.
pub fn spawn_failure_text(reason: &str) -> (r: String)
    ensures
        r@ == "无法启动 mpv（请安装并加入 PATH）: "@ + reason@,
{
    let mut out = "无法启动 mpv（请安装并加入 PATH）: ".to_string();
    out.append(reason);
    out
}

fn tell(s: &mut PlayerState, text: String)
    ensures
        *final(s) == (PlayerState { decode_error: Some(text), ..*old(s) }),
{
    s.decode_error = Some(text);
}

/// The player at the track behind `current`, or behind the end.
pub open spec fn passed_over(s: PlayerState, current: usize, len: usize) -> PlayerState {
    PlayerState { current_track: least(current + 1, len as int), ..s }
}

/// A video player that cannot be started is told of, and the next track follows.
pub fn spawn_failed(s: &mut PlayerState, ui: &mut UiState, len: usize, text: String)
    requires
        old(ui).current < usize::MAX,
    ensures
        *final(s) == passed_over(
            PlayerState { decode_error: Some(text), ..*old(s) },
            old(ui).current,
            len,
        ),
        final(ui)@ == (UiView { current: least(old(ui).current + 1, len as int), ..old(ui)@ }),
{
    let place: usize = if ui.current + 1 < len {
        ui.current + 1
    } else {
        len
    };
    tell(s, text);
    VideoSession::move_to(s, ui, place);
}

/// When a session ends without quitting, the player and the interface agree on
/// the track that follows, which is one of the playlist or just behind it.
pub proof fn law_session_agrees(
    v: VideoSession,
    s: PlayerState,
    u: UiView,
    len: usize,
    event: VideoEvent,
)
    requires
        v.expects(event),
        v.after(s, u, len, event).action matches VideoAction::Leave { kill: _, quit } && !quit,
        u.current <= len,
    ensures
        v.after(s, u, len, event).ui.current == v.after(s, u, len, event).state.current_track,
        v.after(s, u, len, event).ui.current <= len,
        v.after(s, u, len, event).session.stage is Over,
        v.after(s, u, len, event).session.position is None,
{
}

/// Quitting ends the session before anything else is done in a round.
pub proof fn law_quit_comes_first(v: VideoSession, s: PlayerState, u: UiView, len: usize, tick: bool)
    requires
        v.stage is Top || v.stage is Sleeping,
        s.quit,
    ensures
        v.after(s, u, len, VideoEvent::Round { tick }).action == (VideoAction::Leave {
            kill: true,
            quit: true,
        }),
{
}

/// The volume is sent only when it has changed, and then it counts as sent.
pub proof fn law_volume_is_sent_once(v: VideoSession, s: PlayerState, u: UiView, len: usize)
    requires
        v.with_ipc,
    ensures
        v.sending(s, u, len).session.last_volume == s.volume,
        v.sending(s, u, len).action matches VideoAction::Send { paused: _, volume, seek: _ }
            && (volume is Some <==> s.volume != v.last_volume),
{
}

/// A video that is over is followed by the track behind it, which the player and the
/// interface both stand at; the video player is not ended once more. Nothing else changes.
pub proof fn law_next_track_follows_a_video(
    v: VideoSession,
    s: PlayerState,
    u: UiView,
    len: usize,
    child: ChildState,
)
    requires
        v.stage is Watching,
        child != ChildState::Running,
        u.current < len,
    ensures
        ({
            let next = v.after(s, u, len, VideoEvent::Child(child));
            &&& next.ui.current == u.current + 1
            &&& next.state.current_track == u.current + 1
            &&& next.action == VideoAction::Leave { kill: false, quit: false }
            &&& next.ui == UiView { current: next.ui.current, ..u }
            &&& next.state == PlayerState { current_track: next.state.current_track, ..s }
        }),
{
}

/// A request for a track ends the video and leads there: to the track that was asked for,
/// the last one at most; to the one behind; or to the one in front, the first one at least.
/// A request that came first is taken, the others stay.
pub proof fn law_requests_leave_a_video(v: VideoSession, s: PlayerState, u: UiView, len: usize)
    requires
        v.stage is Sending,
        u.current < len,
    ensures
        ({
            let next = v.after(s, u, len, VideoEvent::Done);
            let leaves = next.action == VideoAction::Leave { kill: true, quit: false };
            &&& next.ui.current == next.state.current_track || !leaves
            &&& 0 <= s.jump_to_track < len ==> leaves && next.ui.current == s.jump_to_track
                && next.state.jump_to_track < 0 && next.state.skip_next == s.skip_next
                && next.state.skip_prev == s.skip_prev
            &&& len <= s.jump_to_track <= u32::MAX ==> leaves && next.ui.current == len - 1
            &&& s.jump_to_track < 0 && s.skip_next ==> leaves && next.ui.current == u.current + 1
                && !next.state.skip_next && next.state.skip_prev == s.skip_prev
            &&& s.jump_to_track < 0 && !s.skip_next && s.skip_prev ==> leaves
                && !next.state.skip_prev && (u.current > 0 ==> next.ui.current == u.current - 1)
                && (u.current == 0 ==> next.ui.current == 0)
            &&& s.jump_to_track < 0 && !s.skip_next && !s.skip_prev ==> {
                &&& next.action is Watch
                &&& next.ui == u
                &&& next.state.current_track == s.current_track
                &&& next.session.stage is Watching
            }
        }),
{
}

/// A round with a dialogue asks for a snapshot where the screen is due, reads keys, tells
/// the video player what was set, sees how it is doing, draws and waits.
pub proof fn law_round_with_dialogue(
    v: VideoSession,
    s: PlayerState,
    u: UiView,
    len: usize,
    poll: Option<MpvPoll>,
)
    requires
        v.with_ipc,
        v.stage is Top || v.stage is Sleeping,
        !s.quit && s.jump_to_track < 0 && !s.skip_next && !s.skip_prev,
        !u.pending_resume_save,
    ensures
        ({
            let a = v.after(s, u, len, VideoEvent::Round { tick: true });
            let b = a.session.after(a.state, a.ui, len, VideoEvent::Polled(poll));
            let c = b.session.after(b.state, b.ui, len, VideoEvent::Read { quit: false });
            let d = c.session.after(c.state, c.ui, len, VideoEvent::Done);
            let e = d.session.after(d.state, d.ui, len, VideoEvent::Child(ChildState::Running));
            let f = e.session.after(e.state, e.ui, len, VideoEvent::Done);
            &&& a.action is Poll
            &&& b.action is Read
            &&& c.action is Send
            &&& d.action is Watch
            &&& e.action == VideoAction::Draw { clear: u.terminal_resized }
            &&& !e.ui.terminal_resized
            &&& f.action is Sleep
            &&& f.ui.current == u.current && f.state.volume == s.volume
        }),
{
}

/// A round without a dialogue asks and tells nothing: it reads keys, sees how the video
/// player is doing, draws where the screen is due, and waits.
pub proof fn law_round_without_dialogue(
    v: VideoSession,
    s: PlayerState,
    u: UiView,
    len: usize,
    tick: bool,
)
    requires
        !v.with_ipc,
        v.stage is Top || v.stage is Sleeping,
        !s.quit && s.jump_to_track < 0 && !s.skip_next && !s.skip_prev,
        !u.pending_resume_save,
    ensures
        ({
            let a = v.after(s, u, len, VideoEvent::Round { tick });
            let b = a.session.after(a.state, a.ui, len, VideoEvent::Read { quit: false });
            let c = b.session.after(b.state, b.ui, len, VideoEvent::Child(ChildState::Running));
            &&& a.action is Read
            &&& b.action is Watch
            &&& b.state.seek_request == s.seek_request
            &&& tick ==> c.action is Draw
            &&& !tick ==> c.action is Sleep
        }),
{
}

/// What the video player tells is what is shown: where it is, how long the video is and
/// whether it is paused. Where it does not answer, what was shown stays.
pub proof fn law_snapshot_is_shown(
    v: VideoSession,
    s: PlayerState,
    u: UiView,
    len: usize,
    p: MpvPoll,
)
    requires
        v.stage is Polling,
    ensures
        ({
            let told = v.after(s, u, len, VideoEvent::Polled(Some(p)));
            let silent = v.after(s, u, len, VideoEvent::Polled(None));
            &&& told.session.position matches Some(t) && t.time_pos == p.time_pos && t.duration
                == p.duration
            &&& told.state == PlayerState { paused: p.paused, ..s }
            &&& told.action is Read && silent.action is Read
            &&& silent.session.position == v.position && silent.state == s
            &&& told.ui == u && silent.ui == u
        }),
{
}

/// What is told to the video player is what was set: the pause, the volume where it is
/// another than the last one that was told, and the jump, which is then taken.
pub proof fn law_settings_are_sent(v: VideoSession, s: PlayerState, u: UiView, len: usize)
    requires
        v.with_ipc,
        v.stage is Saving || (v.stage is Reading && !u.pending_resume_save),
    ensures
        ({
            let event = if v.stage is Saving {
                VideoEvent::Done
            } else {
                VideoEvent::Read { quit: false }
            };
            let next = v.after(s, u, len, event);
            &&& next.action matches VideoAction::Send { paused, volume, seek } && {
                &&& paused == s.paused
                &&& s.volume != v.last_volume ==> volume == Some(s.volume)
                &&& s.volume == v.last_volume ==> volume is None
                &&& s.seek_request != 0 ==> seek == Some(s.seek_request)
                &&& s.seek_request == 0 ==> seek is None
            }
            &&& next.session.last_volume == s.volume
            &&& next.state == PlayerState { seek_request: 0, ..s }
            &&& next.ui == u
        }),
{
}

/// Keys that quit end the video player and the program; a session that is to be saved is
/// saved, once.
pub proof fn law_keys_are_followed(v: VideoSession, s: PlayerState, u: UiView, len: usize)
    requires
        v.stage is Reading,
    ensures
        ({
            let quit = v.after(s, u, len, VideoEvent::Read { quit: true });
            let next = v.after(s, u, len, VideoEvent::Read { quit: false });
            &&& quit.action == VideoAction::Leave { kill: true, quit: true }
            &&& quit.session.stage is Over && quit.session.position is None
            &&& u.pending_resume_save ==> next.action is Save && !next.ui.pending_resume_save
                && next.state == s
            &&& !u.pending_resume_save ==> next.action !is Save
        }),
{
}

/// A video player that cannot be started is passed over: the track behind it follows.
pub proof fn law_failed_video_is_passed_over(s: PlayerState, current: usize, len: usize)
    requires
        current < len,
    ensures
        passed_over(s, current, len).current_track == current + 1,
        passed_over(s, current, len) == (PlayerState {
            current_track: (current + 1) as usize,
            ..s
        }),
        least(current + 1, len as int) == current + 1,
{
}

} // verus!
