use knobify::login_flow::{login_begin, login_next, LoginPhase, LoginStep};

fn drive(oks: &[bool]) -> (LoginPhase, Vec<LoginStep>) {
    let (mut phase, first) = login_begin();
    let mut steps = vec![first];
    for &ok in oks {
        let (next, step) = login_next(phase, ok);
        phase = next;
        steps.push(step);
    }
    (phase, steps)
}

#[test]
fn cached_token_skips_browser() {
    let (phase, steps) = drive(&[true, true]);
    assert_eq!(phase, LoginPhase::Succeeded);
    assert_eq!(steps, vec![LoginStep::ReadCache, LoginStep::ReadPlayback, LoginStep::Finish]);
    assert!(!steps.contains(&LoginStep::OpenBrowser));
}

#[test]
fn full_login_through_callback_writes_cache() {
    let (phase, steps) = drive(&[false, true, true, true, true, true, true]);
    assert_eq!(phase, LoginPhase::Succeeded);
    assert_eq!(
        steps,
        vec![
            LoginStep::ReadCache,
            LoginStep::OpenBrowser,
            LoginStep::BindListener,
            LoginStep::AcceptCallback,
            LoginStep::ExchangeCode,
            LoginStep::WriteCache,
            LoginStep::ReadPlayback,
            LoginStep::Finish,
        ]
    );
}

#[test]
fn busy_port_falls_back_to_paste() {
    let (phase, steps) = drive(&[false, false, true, false, true]);
    assert_eq!(phase, LoginPhase::Exchanging);
    assert_eq!(
        steps,
        vec![
            LoginStep::ReadCache,
            LoginStep::OpenBrowser,
            LoginStep::ShowUrl,
            LoginStep::BindListener,
            LoginStep::ReadPastedUrl,
            LoginStep::ExchangeCode,
        ]
    );
}

#[test]
fn refused_exchange_aborts() {
    let (phase, steps) = drive(&[false, true, true, true, false]);
    assert_eq!(phase, LoginPhase::Failed);
    assert_eq!(steps.last(), Some(&LoginStep::Abort));
    assert_eq!(login_next(LoginPhase::Failed, true), (LoginPhase::Failed, LoginStep::Nothing));
}

#[test]
fn callback_without_code_aborts() {
    let (phase, _) = drive(&[false, true, true, false]);
    assert_eq!(phase, LoginPhase::Failed);
}
