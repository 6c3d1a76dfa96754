//! Changing the interface that is watched.

use flowlens::capture::interfaces::InterfaceInfo;
use flowlens::pipeline::{CaptureReadiness, PipelineError};
use flowlens::session::{
    Activation, ActivationPlan, ActiveCapture, Opened, RankWindow, SessionError, TrafficSession,
};

/// A pipeline that has counted some bytes.
#[derive(Debug, PartialEq)]
struct Pipeline {
    in_bytes: u64,
}

fn pipeline_with_snapshot(in_bytes: u64) -> Pipeline {
    Pipeline { in_bytes }
}

fn info(name: &str, is_default_route: bool) -> InterfaceInfo {
    InterfaceInfo {
        name: name.to_string(),
        description: format!("{name} description"),
        addresses: Vec::new(),
        is_default_route,
    }
}

fn session_with_active(interface: &str, in_bytes: u64) -> TrafficSession<Pipeline> {
    let mut session = TrafficSession::discover(vec![info("eth0", true), info("wlan0", false)]);
    session.active = Some(ActiveCapture {
        interface: interface.to_string(),
        pipeline: pipeline_with_snapshot(in_bytes),
    });
    session
}

fn in_bytes(session: &TrafficSession<Pipeline>) -> u64 {
    session.active.as_ref().unwrap().pipeline.in_bytes
}

/// Opens the selected interface while the caller waits.
fn activate_with(
    session: &mut TrafficSession<Pipeline>,
    selector: &str,
    open: impl FnOnce(&str) -> Result<Pipeline, String>,
) -> Result<Activation, SessionError> {
    match session.plan_activation(selector)? {
        ActivationPlan::Unchanged => Ok(Activation::Unchanged),
        ActivationPlan::Open(interface) => {
            let opened = open(&interface);
            session.activate(interface, opened)
        }
    }
}

/// Begins to open the selected interface.
fn begin_activate_with(
    session: &mut TrafficSession<Pipeline>,
    selector: &str,
) -> Result<Activation, SessionError> {
    match session.begin_activate(selector)? {
        ActivationPlan::Unchanged => Ok(Activation::Unchanged),
        ActivationPlan::Open(interface) => Ok(session.activation_started(interface)),
    }
}

#[test]
fn successful_switch_replaces_interface_with_a_fresh_snapshot_stream() {
    let mut session = session_with_active("eth0", 99);

    let outcome = activate_with(&mut session, "wlan0", |_| Ok(pipeline_with_snapshot(0))).unwrap();

    assert_eq!(outcome, Activation::Activated);
    assert_eq!(session.active_interface(), Some("wlan0"));
    assert_eq!(in_bytes(&session), 0);
}

#[test]
fn selecting_active_interface_is_a_no_op() {
    let mut session = session_with_active("eth0", 99);
    let mut starts = 0;

    let outcome = activate_with(&mut session, "1", |_| {
        starts += 1;
        Ok(pipeline_with_snapshot(0))
    })
    .unwrap();

    assert_eq!(outcome, Activation::Unchanged);
    assert_eq!(starts, 0);
    assert_eq!(in_bytes(&session), 99);
}

#[test]
fn failed_switch_retains_current_interface_and_snapshot() {
    let mut session = session_with_active("eth0", 99);

    let error = activate_with(&mut session, "wlan0", |_| Err("permission denied".to_string()))
        .unwrap_err();

    assert_eq!(error.message(), "permission denied");
    assert_eq!(session.active_interface(), Some("eth0"));
    assert_eq!(in_bytes(&session), 99);
}

#[test]
fn beginning_a_switch_does_not_wait_for_slow_interface_open() {
    let mut session = session_with_active("eth0", 99);

    let outcome = begin_activate_with(&mut session, "wlan0").unwrap();

    assert_eq!(outcome, Activation::Pending);
    assert_eq!(session.active_interface(), Some("eth0"));

    assert!(session.poll_activation(Opened::Nothing).is_none());
    assert_eq!(session.active_interface(), Some("eth0"));
    let opened = Opened::Done(pipeline_with_snapshot(0), CaptureReadiness::Ready);
    assert_eq!(session.poll_activation(opened).unwrap().unwrap(), Activation::Activated);
    assert_eq!(session.active_interface(), Some("wlan0"));
}

#[test]
fn failed_first_capture_read_keeps_the_active_interface_and_snapshot() {
    let mut session = session_with_active("eth0", 99);
    begin_activate_with(&mut session, "wlan0").unwrap();

    let failure = PipelineError::Capture("permission denied".to_string());
    let outcome = session.poll_activation(Opened::Failed(failure.message())).unwrap();
    assert_eq!(
        outcome.unwrap_err().message(),
        "capture failed: permission denied"
    );
    assert_eq!(session.active_interface(), Some("eth0"));
    assert_eq!(in_bytes(&session), 99);
}

#[test]
fn delayed_first_capture_failure_restores_the_previous_interface() {
    let mut session = session_with_active("eth0", 99);
    begin_activate_with(&mut session, "wlan0").unwrap();

    let opened = Opened::Done(pipeline_with_snapshot(0), CaptureReadiness::Waiting);
    assert_eq!(session.poll_activation(opened).unwrap().unwrap(), Activation::Activated);
    assert_eq!(session.active_interface(), Some("wlan0"));

    assert!(session.poll_capture_readiness(None).is_none());
    assert!(session.poll_capture_readiness(Some(Ok(CaptureReadiness::Waiting))).is_none());
    let failure = PipelineError::Capture("pcap device closed".to_string());
    let heard = session.poll_capture_readiness(Some(Err(failure))).unwrap();
    assert_eq!(heard.message(), "capture failed: pcap device closed");
    assert_eq!(session.active_interface(), Some("eth0"));
    assert_eq!(in_bytes(&session), 99);
}

#[test]
fn beginning_a_new_switch_replaces_a_waiting_fallback_recovery() {
    let mut session = session_with_active("eth0", 99);
    session.interfaces.push(info("lo", false));

    begin_activate_with(&mut session, "wlan0").unwrap();
    let opened = Opened::Done(pipeline_with_snapshot(0), CaptureReadiness::Waiting);
    assert_eq!(session.poll_activation(opened).unwrap().unwrap(), Activation::Activated);
    assert_eq!(session.active_interface(), Some("wlan0"));
    assert!(session.fallback.is_some());

    let outcome = begin_activate_with(&mut session, "lo").unwrap();

    assert_eq!(outcome, Activation::Pending);
    assert!(session.fallback.is_none());

    let opened = Opened::Done(pipeline_with_snapshot(7), CaptureReadiness::Ready);
    assert_eq!(session.poll_activation(opened).unwrap().unwrap(), Activation::Activated);
    assert_eq!(session.active_interface(), Some("lo"));
    assert_eq!(in_bytes(&session), 7);
}

#[test]
fn only_one_change_at_a_time() {
    let mut session = session_with_active("eth0", 99);
    session.interfaces.push(info("lo", false));
    begin_activate_with(&mut session, "wlan0").unwrap();
    let error = begin_activate_with(&mut session, "lo").unwrap_err();
    assert_eq!(error.message(), "an interface activation is already in progress");
    assert_eq!(begin_activate_with(&mut session, "eth0").unwrap(), Activation::Unchanged);

    let gone = session.poll_activation(Opened::WorkerGone).unwrap().unwrap_err();
    assert_eq!(gone.message(), "interface activation worker stopped unexpectedly");
    assert_eq!(session.active_interface(), Some("eth0"));
    assert!(session.poll_activation(Opened::WorkerGone).is_none());
    assert_eq!(begin_activate_with(&mut session, "lo").unwrap(), Activation::Pending);
}

#[test]
fn a_first_result_lets_the_previous_capture_go() {
    let mut session = session_with_active("eth0", 99);
    begin_activate_with(&mut session, "wlan0").unwrap();
    session.poll_activation(Opened::Done(pipeline_with_snapshot(3), CaptureReadiness::Waiting));
    session.poll_capture_readiness(Some(Ok(CaptureReadiness::Ready)));
    assert!(session.fallback.is_none());
    let failure = PipelineError::Capture("later".to_string());
    assert!(session.poll_capture_readiness(Some(Err(failure))).is_none());
    assert_eq!(session.active_interface(), Some("wlan0"));
}

#[test]
fn unknown_interfaces_are_refused() {
    let session = session_with_active("eth0", 99);
    assert_eq!(session.resolve_selector("2").unwrap(), "wlan0");
    assert_eq!(session.resolve_selector("wlan0").unwrap(), "wlan0");
    assert!(session.resolve_selector("3").is_err());
    assert!(matches!(session.plan_activation("nope"), Err(SessionError::Selector(_))));
}

#[test]
fn a_new_interface_is_ranked_over_all_time() {
    let mut session = session_with_active("eth0", 99);
    session.rank_window = RankWindow::FiveMinutes;
    activate_with(&mut session, "wlan0", |_| Err("busy".to_string())).unwrap_err();
    assert_eq!(session.rank_window, RankWindow::FiveMinutes);
    activate_with(&mut session, "wlan0", |_| Ok(pipeline_with_snapshot(0))).unwrap();
    assert_eq!(session.rank_window, RankWindow::Cumulative);
}
