//! The steps of the OAuth login as a state machine: the event loop performs
//! each step (cache file, browser, loopback listener, token exchange) and
//! reports whether it succeeded; the machine picks the next step.
use vstd::prelude::*;

verus! {

/// Where a login stands.
#[derive(Clone, Copy, Debug, PartialEq, Eq)]
pub enum LoginPhase {
    /// Reading the token cache.
    CheckingCache,
    /// Opening the authorize URL in the browser.
    OpeningBrowser,
    /// Printing the authorize URL for manual use.
    ShowingUrl,
    /// Binding the loopback listener.
    Binding,
    /// Waiting for the browser's callback on the listener.
    AwaitingCallback,
    /// Waiting for the redirected URL on standard input.
    AwaitingPaste,
    /// Exchanging the code for a token.
    Exchanging,
    /// Writing the new token to the cache.
    Caching,
    /// Reading the current playback to seed the volume.
    ReadingPlayback,
    Succeeded,
    Failed,
}

/// What the event loop must do next for the login.
#[derive(Clone, Copy, Debug, PartialEq, Eq)]
pub enum LoginStep {
    ReadCache,
    OpenBrowser,
    ShowUrl,
    BindListener,
    AcceptCallback,
    ReadPastedUrl,
    ExchangeCode,
    WriteCache,
    ReadPlayback,
    Finish,
    Abort,
    Nothing,
}

/// The transition taken when the step of phase `p` reports `ok`: for the
/// cache, whether it held a usable token; for the listener, whether the port
/// was bound; for the callback or the pasted URL, whether it carried a code;
/// otherwise whether the step succeeded.
pub open spec fn login_step(p: LoginPhase, ok: bool) -> (LoginPhase, LoginStep) {
    match p {
        LoginPhase::CheckingCache => if ok {
            (LoginPhase::ReadingPlayback, LoginStep::ReadPlayback)
        } else {
            (LoginPhase::OpeningBrowser, LoginStep::OpenBrowser)
        },
        LoginPhase::OpeningBrowser => if ok {
            (LoginPhase::Binding, LoginStep::BindListener)
        } else {
            (LoginPhase::ShowingUrl, LoginStep::ShowUrl)
        },
        LoginPhase::ShowingUrl => (LoginPhase::Binding, LoginStep::BindListener),
        LoginPhase::Binding => if ok {
            (LoginPhase::AwaitingCallback, LoginStep::AcceptCallback)
        } else {
            (LoginPhase::AwaitingPaste, LoginStep::ReadPastedUrl)
        },
        LoginPhase::AwaitingCallback | LoginPhase::AwaitingPaste => if ok {
            (LoginPhase::Exchanging, LoginStep::ExchangeCode)
        } else {
            (LoginPhase::Failed, LoginStep::Abort)
        },
        LoginPhase::Exchanging => if ok {
            (LoginPhase::Caching, LoginStep::WriteCache)
        } else {
            (LoginPhase::Failed, LoginStep::Abort)
        },
        LoginPhase::Caching => if ok {
            (LoginPhase::ReadingPlayback, LoginStep::ReadPlayback)
        } else {
            (LoginPhase::Failed, LoginStep::Abort)
        },
        LoginPhase::ReadingPlayback => if ok {
            (LoginPhase::Succeeded, LoginStep::Finish)
        } else {
            (LoginPhase::Failed, LoginStep::Abort)
        },
        LoginPhase::Succeeded => (LoginPhase::Succeeded, LoginStep::Nothing),
        LoginPhase::Failed => (LoginPhase::Failed, LoginStep::Nothing),
    }
}

/// Outcomes reported in order from phase `p`: the last phase and the steps.
pub open spec fn login_run(p: LoginPhase, oks: Seq<bool>) -> (LoginPhase, Seq<LoginStep>)
    decreases oks.len(),
{
    if oks.len() == 0 {
        (p, Seq::empty())
    } else {
        let (p1, s) = login_step(p, oks[0]);
        let (pn, rest) = login_run(p1, oks.drop_first());
        (pn, seq![s] + rest)
    }
}

/// A login starts by reading the token cache.
pub fn login_begin() -> (r: (LoginPhase, LoginStep))
    ensures
        r == (LoginPhase::CheckingCache, LoginStep::ReadCache),
{
    (LoginPhase::CheckingCache, LoginStep::ReadCache)
}

/// The next phase and step once the current step reported `ok`.
pub fn login_next(phase: LoginPhase, ok: bool) -> (r: (LoginPhase, LoginStep))
    ensures
        r == login_step(phase, ok),
{
    match phase {
        LoginPhase::CheckingCache => if ok {
            (LoginPhase::ReadingPlayback, LoginStep::ReadPlayback)
        } else {
            (LoginPhase::OpeningBrowser, LoginStep::OpenBrowser)
        },
        LoginPhase::OpeningBrowser => if ok {
            (LoginPhase::Binding, LoginStep::BindListener)
        } else {
            (LoginPhase::ShowingUrl, LoginStep::ShowUrl)
        },
        LoginPhase::ShowingUrl => (LoginPhase::Binding, LoginStep::BindListener),
        LoginPhase::Binding => if ok {
            (LoginPhase::AwaitingCallback, LoginStep::AcceptCallback)
        } else {
            (LoginPhase::AwaitingPaste, LoginStep::ReadPastedUrl)
        },
        LoginPhase::AwaitingCallback | LoginPhase::AwaitingPaste => if ok {
            (LoginPhase::Exchanging, LoginStep::ExchangeCode)
        } else {
            (LoginPhase::Failed, LoginStep::Abort)
        },
        LoginPhase::Exchanging => if ok {
            (LoginPhase::Caching, LoginStep::WriteCache)
        } else {
            (LoginPhase::Failed, LoginStep::Abort)
        },
        LoginPhase::Caching => if ok {
            (LoginPhase::ReadingPlayback, LoginStep::ReadPlayback)
        } else {
            (LoginPhase::Failed, LoginStep::Abort)
        },
        LoginPhase::ReadingPlayback => if ok {
            (LoginPhase::Succeeded, LoginStep::Finish)
        } else {
            (LoginPhase::Failed, LoginStep::Abort)
        },
        LoginPhase::Succeeded => (LoginPhase::Succeeded, LoginStep::Nothing),
        LoginPhase::Failed => (LoginPhase::Failed, LoginStep::Nothing),
    }
}

/// Phases from which the browser is never opened again.
pub open spec fn past_browser(p: LoginPhase) -> bool {
    !(p is CheckingCache)
}

proof fn lemma_no_browser_after(p: LoginPhase, oks: Seq<bool>)
    requires
        past_browser(p),
    ensures
        login_run(p, oks).1.len() == oks.len(),
        forall|i: int| 0 <= i < oks.len() ==> #[trigger] login_run(p, oks).1[i] != LoginStep::OpenBrowser,
    decreases oks.len(),
{
    if oks.len() > 0 {
        let (p1, s) = login_step(p, oks[0]);
        lemma_no_browser_after(p1, oks.drop_first());
        let steps = login_run(p, oks).1;
        let rest = login_run(p1, oks.drop_first()).1;
        assert(steps == seq![s] + rest);
        assert forall|i: int| 0 <= i < oks.len() implies #[trigger] steps[i]
            != LoginStep::OpenBrowser by {
            if i > 0 {
                assert(steps[i] == rest[i - 1]);
            }
        }
    }
}

/// A login whose token cache holds a usable token never opens the browser,
/// whatever the later steps report.
pub proof fn lemma_cached_token_skips_browser(oks: Seq<bool>)
    requires
        oks.len() >= 1,
        oks[0],
    ensures
        forall|i: int|
            0 <= i < oks.len() ==> #[trigger] login_run(LoginPhase::CheckingCache, oks).1[i]
                != LoginStep::OpenBrowser,
{
    let (p1, s) = login_step(LoginPhase::CheckingCache, oks[0]);
    lemma_no_browser_after(p1, oks.drop_first());
    let steps = login_run(LoginPhase::CheckingCache, oks).1;
    let rest = login_run(p1, oks.drop_first()).1;
    assert(steps == seq![s] + rest);
    assert forall|i: int| 0 <= i < oks.len() implies #[trigger] steps[i]
        != LoginStep::OpenBrowser by {
        if i > 0 {
            assert(steps[i] == rest[i - 1]);
        }
    }
}

/// A login succeeds only after reading the playback, and reads the playback
/// only after finding a usable cached token or writing the new token to the
/// cache: every successful login leaves a token in the cache.
pub proof fn lemma_success_leaves_cached_token(p: LoginPhase, ok: bool)
    ensures
        login_step(p, ok).0 is Succeeded ==> (p is Succeeded || (p is ReadingPlayback && ok)),
        login_step(p, ok).0 is ReadingPlayback ==> ((p is CheckingCache || p is Caching) && ok),
        login_step(p, ok).0 is Caching ==> (p is Exchanging && ok),
{
}

} // verus!
