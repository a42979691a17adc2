//! The event router of the application shell: the session state machine that
//! turns key, tray and menu events into actions for the event loop to run.
use vstd::prelude::*;
use crate::config::Config;
use crate::spotify::{Spotify, VolumeCommand, raised, lowered};

verus! {

/// A key reported by the keyboard hook: by raw scancode, or by a name the
/// hook knows (such keys are never bound).
#[derive(Clone, Copy, Debug, PartialEq, Eq)]
pub enum Key {
    Scancode(u32),
    Named,
}

/// A click on the tray icon.
#[derive(Clone, Copy, Debug, PartialEq, Eq)]
pub enum TrayClick {
    Left,
    Double,
    Right,
    Other,
}

/// An entry of the tray menu.
#[derive(Clone, Copy, Debug, PartialEq, Eq)]
pub enum MenuChoice {
    Login,
    Exit,
    Other,
}

/// An event delivered to the event loop.
#[derive(Clone, Copy, Debug, PartialEq, Eq)]
pub enum UserEvent {
    KeyPress(Key),
    TrayClick(TrayClick),
    MenuSelect(MenuChoice),
}

/// What the event loop must do after an event.
#[derive(Clone, Copy, Debug, PartialEq, Eq)]
pub enum Action {
    Nothing,
    /// Send this volume to the active device, then report the outcome.
    SetVolume(VolumeCommand),
    /// Run the OAuth login, then report the outcome.
    BeginLogin,
    /// Leave the event loop.
    Exit,
    /// Show the hidden window.
    ShowWindow,
}

/// The controller cell.
#[derive(Debug)]
pub enum Session {
    Unauthenticated,
    LoggingIn,
    Authenticated(Spotify),
}

/// The controller cell as a value: the cached volume when authenticated.
pub enum SessionView {
    Unauthenticated,
    LoggingIn,
    Authenticated(nat),
}

/// The application state as a value.
pub struct AppView {
    pub session: SessionView,
    pub window_visible: bool,
}

/// State of the application shell, owned by the event loop.
#[derive(Debug)]
pub struct KnobifyApp {
    pub session: Session,
    pub window_visible: bool,
}

/// The menu entry that a menu id names.
pub open spec fn menu_choice_of(id: Seq<char>) -> MenuChoice {
    if id == "login"@ {
        MenuChoice::Login
    } else if id == "exit"@ {
        MenuChoice::Exit
    } else {
        MenuChoice::Other
    }
}

/// One event applied to the application state: the next state and the action.
pub open spec fn step(v: AppView, e: UserEvent, c: Config) -> (AppView, Action) {
    match e {
        UserEvent::KeyPress(Key::Scancode(code)) => match v.session {
            SessionView::Authenticated(vol) => if code == c.up_key {
                let level = raised(vol, c.increment as nat);
                (
                    AppView { session: SessionView::Authenticated(level), window_visible: v.window_visible },
                    Action::SetVolume(VolumeCommand { previous: vol as u8, level: level as u8 }),
                )
            } else if code == c.down_key {
                let level = lowered(vol, c.increment as nat);
                (
                    AppView { session: SessionView::Authenticated(level), window_visible: v.window_visible },
                    Action::SetVolume(VolumeCommand { previous: vol as u8, level: level as u8 }),
                )
            } else {
                (v, Action::Nothing)
            },
            _ => (v, Action::Nothing),
        },
        UserEvent::KeyPress(Key::Named) => (v, Action::Nothing),
        UserEvent::TrayClick(TrayClick::Double) => (
            AppView { session: v.session, window_visible: true },
            Action::ShowWindow,
        ),
        UserEvent::TrayClick(_) => (v, Action::Nothing),
        UserEvent::MenuSelect(MenuChoice::Exit) => (v, Action::Exit),
        UserEvent::MenuSelect(MenuChoice::Login) => match v.session {
            SessionView::LoggingIn => (v, Action::Nothing),
            _ => (
                AppView { session: SessionView::LoggingIn, window_visible: v.window_visible },
                Action::BeginLogin,
            ),
        },
        UserEvent::MenuSelect(MenuChoice::Other) => (v, Action::Nothing),
    }
}

/// A sequence of events applied in order: the final state and the actions,
/// one for each event.
pub open spec fn run(v: AppView, es: Seq<UserEvent>, c: Config) -> (AppView, Seq<Action>)
    decreases es.len(),
{
    if es.len() == 0 {
        (v, Seq::empty())
    } else {
        let (v1, a) = step(v, es[0], c);
        let (vn, rest) = run(v1, es.drop_first(), c);
        (vn, seq![a] + rest)
    }
}

/// The state after a login ends: authenticated with the seeded volume on
/// success, unauthenticated on failure. Outside a login nothing changes.
pub open spec fn finish_login(v: AppView, outcome: Option<nat>) -> AppView {
    match v.session {
        SessionView::LoggingIn => AppView {
            session: match outcome {
                Some(vol) => SessionView::Authenticated(vol),
                None => SessionView::Unauthenticated,
            },
            window_visible: v.window_visible,
        },
        _ => v,
    }
}

/// The state after the device answered a volume command: on failure the
/// cached volume goes back to the command's previous level.
pub open spec fn finish_volume(v: AppView, command: VolumeCommand, succeeded: bool) -> AppView {
    match v.session {
        SessionView::Authenticated(vol) => AppView {
            session: SessionView::Authenticated(
                if succeeded { vol } else { command.previous as nat },
            ),
            window_visible: v.window_visible,
        },
        _ => v,
    }
}

/// Whether `code` is one of the two bound keys.
pub open spec fn is_bound(code: u32, c: Config) -> bool {
    code == c.up_key || code == c.down_key
}

/// Compares two strings character by character.
fn same_text(a: &str, b: &str) -> (r: bool)
    ensures
        r == (a@ == b@),
{
    let n = a.unicode_len();
    let m = b.unicode_len();
    if n != m {
        return false;
    }
    let mut i: usize = 0;
    while i < n
        invariant
            n == a@.len(),
            m == b@.len(),
            n == m,
            i <= n,
            forall|j: int| 0 <= j < i ==> a@[j] == b@[j],
        decreases n - i,
    {
        if a.get_char(i) != b.get_char(i) {
            return false;
        }
        i = i + 1;
    }
    assert(a@ =~= b@);
    true
}

/// The menu entry that a menu id names: `"login"`, `"exit"`, or another.
pub fn menu_choice(id: &str) -> (r: MenuChoice)
    ensures
        r == menu_choice_of(id@),
{
    if same_text(id, "login") {
        MenuChoice::Login
    } else if same_text(id, "exit") {
        MenuChoice::Exit
    } else {
        MenuChoice::Other
    }
}

impl View for Session {
    type V = SessionView;

    open spec fn view(&self) -> SessionView {
        match self {
            Session::Unauthenticated => SessionView::Unauthenticated,
            Session::LoggingIn => SessionView::LoggingIn,
            Session::Authenticated(s) => SessionView::Authenticated(s@),
        }
    }
}

impl View for KnobifyApp {
    type V = AppView;

    open spec fn view(&self) -> AppView {
        AppView { session: self.session@, window_visible: self.window_visible }
    }
}

impl KnobifyApp {
    /// The controller, when authenticated, holds a percentage.
    pub open spec fn wf(&self) -> bool {
        match self.session {
            Session::Authenticated(s) => s.wf(),
            _ => true,
        }
    }

    /// The state at process start: not logged in, window hidden.
    pub fn new() -> (r: KnobifyApp)
        ensures
            r.wf(),
            r@ == (AppView { session: SessionView::Unauthenticated, window_visible: false }),
    {
        KnobifyApp { session: Session::Unauthenticated, window_visible: false }
    }

    /// Handles one event and says what the event loop must do next.
    pub fn user_event(&mut self, event: UserEvent, config: &Config) -> (r: Action)
        requires
            old(self).wf(),
        ensures
            final(self).wf(),
            (final(self)@, r) == step(old(self)@, event, *config),
    {
        match event {
            UserEvent::KeyPress(Key::Scancode(code)) => {
                match &mut self.session {
                    Session::Authenticated(spotify) => {
                        if code == config.up_key {
                            Action::SetVolume(spotify.volume_up(config.increment))
                        } else if code == config.down_key {
                            Action::SetVolume(spotify.volume_down(config.increment))
                        } else {
                            Action::Nothing
                        }
                    },
                    _ => Action::Nothing,
                }
            },
            UserEvent::KeyPress(Key::Named) => Action::Nothing,
            UserEvent::TrayClick(TrayClick::Double) => {
                self.window_visible = true;
                Action::ShowWindow
            },
            UserEvent::TrayClick(_) => Action::Nothing,
            UserEvent::MenuSelect(MenuChoice::Exit) => Action::Exit,
            UserEvent::MenuSelect(MenuChoice::Login) => {
                if let Session::LoggingIn = self.session {
                    Action::Nothing
                } else {
                    self.session = Session::LoggingIn;
                    Action::BeginLogin
                }
            },
            UserEvent::MenuSelect(MenuChoice::Other) => Action::Nothing,
        }
    }

    /// Ends the login in progress: `Some` carries the new controller, `None`
    /// reports a failed login. Outside a login the outcome is dropped.
    pub fn login_finished(&mut self, outcome: Option<Spotify>)
        requires
            old(self).wf(),
            outcome matches Some(s) ==> s.wf(),
        ensures
            final(self).wf(),
            final(self)@ == finish_login(
                old(self)@,
                match outcome {
                    Some(s) => Some(s@),
                    None => None,
                },
            ),
    {
        if let Session::LoggingIn = self.session {
            self.session = match outcome {
                Some(s) => Session::Authenticated(s),
                None => Session::Unauthenticated,
            };
        }
    }

    /// Records how the device answered a volume command.
    pub fn volume_finished(&mut self, command: VolumeCommand, succeeded: bool)
        requires
            old(self).wf(),
            command.previous <= 100,
        ensures
            final(self).wf(),
            final(self)@ == finish_volume(old(self)@, command, succeeded),
    {
        if let Session::Authenticated(spotify) = &mut self.session {
            spotify.settle(command, succeeded);
        }
    }
}

/// The cached volume of an authenticated state is a percentage.
pub open spec fn volume_in_range(v: AppView) -> bool {
    v.session matches SessionView::Authenticated(vol) ==> vol <= 100
}

/// Whatever events arrive, and whatever the device answers, the cached
/// volume stays within `0..=100`.
pub proof fn lemma_volume_stays_in_range(v: AppView, es: Seq<UserEvent>, c: Config)
    requires
        volume_in_range(v),
    ensures
        volume_in_range(run(v, es, c).0),
        forall|cmd: VolumeCommand, ok: bool|
            cmd.previous <= 100 ==> volume_in_range(#[trigger] finish_volume(v, cmd, ok)),
        forall|o: Option<nat>|
            (o matches Some(x) ==> x <= 100) ==> volume_in_range(#[trigger] finish_login(v, o)),
    decreases es.len(),
{
    if es.len() > 0 {
        let (v1, a) = step(v, es[0], c);
        lemma_volume_stays_in_range(v1, es.drop_first(), c);
    }
}

/// `n` presses of one key.
pub open spec fn presses(code: u32, n: nat) -> Seq<UserEvent> {
    Seq::new(n, |_i: int| UserEvent::KeyPress(Key::Scancode(code)))
}

/// `n` presses of the "up" key, from an authenticated state at volume `vol`,
/// leave the volume at `min(100, vol + n * increment)`.
pub proof fn lemma_up_presses(vol: nat, w: bool, n: nat, c: Config)
    requires
        vol <= 100,
    ensures
        run(AppView { session: SessionView::Authenticated(vol), window_visible: w }, presses(c.up_key, n), c).0
            == (AppView {
            session: SessionView::Authenticated(
                if vol + n * c.increment > 100 { 100 } else { (vol + n * c.increment) as nat },
            ),
            window_visible: w,
        }),
    decreases n,
{
    let i = c.increment as nat;
    if n == 0 {
        assert(n * i == 0) by (nonlinear_arith)
            requires
                n == 0,
        ;
    } else {
        let next = raised(vol, i);
        lemma_up_presses(next, w, (n - 1) as nat, c);
        assert(presses(c.up_key, n).drop_first() =~= presses(c.up_key, (n - 1) as nat));
        assert(n * i == (n - 1) * i + i) by (nonlinear_arith)
            requires
                n > 0,
        ;
        assert((n - 1) * i >= 0) by (nonlinear_arith)
            requires
                n > 0,
        ;
    }
}

/// `n` presses of the "down" key, from an authenticated state at volume
/// `vol`, leave the volume at `max(0, vol - n * increment)`, when the two
/// keys differ.
pub proof fn lemma_down_presses(vol: nat, w: bool, n: nat, c: Config)
    requires
        vol <= 100,
        c.wf(),
    ensures
        run(AppView { session: SessionView::Authenticated(vol), window_visible: w }, presses(c.down_key, n), c).0
            == (AppView {
            session: SessionView::Authenticated(
                if vol < n * c.increment { 0 } else { (vol - n * c.increment) as nat },
            ),
            window_visible: w,
        }),
    decreases n,
{
    let i = c.increment as nat;
    if n == 0 {
        assert(n * i == 0) by (nonlinear_arith)
            requires
                n == 0,
        ;
    } else {
        let next = lowered(vol, i);
        lemma_down_presses(next, w, (n - 1) as nat, c);
        assert(presses(c.down_key, n).drop_first() =~= presses(c.down_key, (n - 1) as nat));
        assert(n * i == (n - 1) * i + i) by (nonlinear_arith)
            requires
                n > 0,
        ;
    }
}

/// A key that is bound to neither direction changes nothing and issues no
/// command, whatever the state.
pub proof fn lemma_unbound_key_ignored(v: AppView, code: u32, c: Config)
    requires
        !is_bound(code, c),
    ensures
        step(v, UserEvent::KeyPress(Key::Scancode(code)), c) == (v, Action::Nothing),
{
}

/// Each event yields exactly one action, in the order of the events, and a
/// volume command stands only at the place of a press of a bound key: volume
/// commands leave in the order in which the presses came.
pub proof fn lemma_commands_follow_presses(v: AppView, es: Seq<UserEvent>, c: Config)
    ensures
        run(v, es, c).1.len() == es.len(),
        forall|i: int|
            0 <= i < es.len() && #[trigger] run(v, es, c).1[i] is SetVolume ==> (
            es[i] matches UserEvent::KeyPress(Key::Scancode(code)) && is_bound(code, c)),
    decreases es.len(),
{
    if es.len() > 0 {
        let (v1, a) = step(v, es[0], c);
        lemma_commands_follow_presses(v1, es.drop_first(), c);
        let acts = run(v, es, c).1;
        let rest = run(v1, es.drop_first(), c).1;
        assert(acts == seq![a] + rest);
        assert forall|i: int|
            0 <= i < es.len() && #[trigger] acts[i] is SetVolume implies (
            es[i] matches UserEvent::KeyPress(Key::Scancode(code)) && is_bound(code, c)) by {
            if i > 0 {
                assert(acts[i] == rest[i - 1]);
                assert(es[i] == es.drop_first()[i - 1]);
            }
        }
    }
}

/// While logged in, key presses are never merged nor dropped: each press
/// of a bound key yields exactly one volume command, at its own place, and
/// every other key yields none.
pub proof fn lemma_each_bound_press_one_command(vol: nat, w: bool, es: Seq<UserEvent>, c: Config)
    requires
        forall|i: int| 0 <= i < es.len() ==> #[trigger] es[i] is KeyPress,
    ensures
        run(AppView { session: SessionView::Authenticated(vol), window_visible: w }, es, c).1.len()
            == es.len(),
        forall|i: int|
            0 <= i < es.len() ==> (#[trigger] run(
                AppView { session: SessionView::Authenticated(vol), window_visible: w },
                es,
                c,
            ).1[i] is SetVolume <==> (es[i] matches UserEvent::KeyPress(Key::Scancode(code))
                && is_bound(code, c))),
    decreases es.len(),
{
    let v = AppView { session: SessionView::Authenticated(vol), window_visible: w };
    lemma_commands_follow_presses(v, es, c);
    if es.len() > 0 {
        let (v1, a) = step(v, es[0], c);
        let vol1 = v1.session->Authenticated_0;
        assert(v1 == AppView { session: SessionView::Authenticated(vol1), window_visible: w });
        let tail = es.drop_first();
        assert forall|i: int| 0 <= i < tail.len() implies #[trigger] tail[i] is KeyPress by {
            assert(tail[i] == es[i + 1]);
        }
        lemma_each_bound_press_one_command(vol1, w, tail, c);
        let acts = run(v, es, c).1;
        let rest = run(v1, tail, c).1;
        assert(acts == seq![a] + rest);
        assert forall|i: int| 0 <= i < es.len() implies (#[trigger] acts[i] is SetVolume <==> (
        es[i] matches UserEvent::KeyPress(Key::Scancode(code)) && is_bound(code, c))) by {
            if i > 0 {
                assert(acts[i] == rest[i - 1]);
                assert(es[i] == tail[i - 1]);
            }
        }
    }
}

/// While a login is in progress, no event starts another, and the login
/// stays in progress until its outcome is reported.
pub proof fn lemma_no_login_during_login(v: AppView, es: Seq<UserEvent>, c: Config)
    requires
        v.session is LoggingIn,
    ensures
        run(v, es, c).0.session is LoggingIn,
        forall|i: int| 0 <= i < es.len() ==> !(#[trigger] run(v, es, c).1[i] is BeginLogin),
    decreases es.len(),
{
    lemma_commands_follow_presses(v, es, c);
    if es.len() > 0 {
        let (v1, a) = step(v, es[0], c);
        lemma_no_login_during_login(v1, es.drop_first(), c);
        let acts = run(v, es, c).1;
        let rest = run(v1, es.drop_first(), c).1;
        assert(acts == seq![a] + rest);
        assert forall|i: int| 0 <= i < es.len() implies !(#[trigger] acts[i] is BeginLogin) by {
            if i > 0 {
                assert(acts[i] == rest[i - 1]);
            }
        }
    }
}

/// Between two reports of a login's outcome at most one login is started:
/// after a login begins, no later event begins another.
pub proof fn lemma_at_most_one_login(v: AppView, es: Seq<UserEvent>, c: Config)
    ensures
        forall|i: int, j: int|
            0 <= i < j < es.len() && #[trigger] run(v, es, c).1[i] is BeginLogin
                ==> !(#[trigger] run(v, es, c).1[j] is BeginLogin),
    decreases es.len(),
{
    lemma_commands_follow_presses(v, es, c);
    if es.len() > 0 {
        let (v1, a) = step(v, es[0], c);
        lemma_at_most_one_login(v1, es.drop_first(), c);
        let acts = run(v, es, c).1;
        let rest = run(v1, es.drop_first(), c).1;
        assert(acts == seq![a] + rest);
        if a is BeginLogin {
            lemma_no_login_during_login(v1, es.drop_first(), c);
        }
        assert forall|i: int, j: int|
            0 <= i < j < es.len() && #[trigger] acts[i] is BeginLogin
                implies !(#[trigger] acts[j] is BeginLogin) by {
            assert(acts[j] == rest[j - 1]);
            if i > 0 {
                assert(acts[i] == rest[i - 1]);
            }
        }
    }
}

} // verus!
