use lanbeam::error::LanBeamError;
use lanbeam::sending::{FirstTurn, QueueTurn, SendJob, SendNotice, SendStep};
use lanbeam::settings::Settings;
use lanbeam::state::ConcurrencyGate;

#[test]
fn a_send_runs_through_its_steps() {
    let mut gate = ConcurrencyGate::new();
    let mut s = Settings::defaults("PC".to_string());
    s.max_concurrent = 1;
    s.rate_limit = "2".to_string();
    let sizes = vec![10u64, 20];
    let mut a = SendJob::begin("a".into(), "dev".into(), &sizes, Some(&s)).unwrap();
    assert_eq!((a.total_size, a.file_count, a.limit), (30, 2, 1));
    assert_eq!(a.rate_limit, Some(2 * 1024 * 1024));
    let slot = match a.try_start(&mut gate) {
        FirstTurn::Go(g) => g,
        other => panic!("{other:?}"),
    };
    let mut b = SendJob::begin("b".into(), "dev".into(), &sizes, Some(&s)).unwrap();
    match b.try_start(&mut gate) {
        FirstTurn::Queued(SendNotice::Queued { session_id }) => assert_eq!(session_id, "b"),
        other => panic!("{other:?}"),
    }
    assert!(matches!(b.queue_turn(&mut gate, false), QueueTurn::Wait));

    let notices = a.dialed(Ok("1234".to_string()));
    match (&notices[0], &notices[1]) {
        (
            SendNotice::SasCode { session_id, sas, device_id },
            SendNotice::Started { total_size, file_count, .. },
        ) => {
            assert_eq!((session_id.as_str(), sas.as_str(), device_id.as_str()), ("a", "1234", "dev"));
            assert_eq!((*total_size, *file_count), (30, 2));
        }
        other => panic!("{other:?}"),
    }
    assert!(matches!(a.finished(Ok(())), SendNotice::Done { .. }));
    assert_eq!(a.step, SendStep::Ended);
    gate.release(slot);
    assert!(matches!(b.queue_turn(&mut gate, false), QueueTurn::Go(_)));
    match &b.dialed(Err(&LanBeamError::PeerNotFound))[0] {
        SendNotice::Failed { session_id, error, code } => {
            assert_eq!(session_id, "b");
            assert_eq!(error, &LanBeamError::PeerNotFound.to_string());
            assert_eq!(code, LanBeamError::PeerNotFound.ui_code());
        }
        other => panic!("{other:?}"),
    }
}

#[test]
fn a_queued_send_can_be_cancelled() {
    let mut gate = ConcurrencyGate::new();
    let _slot = gate.try_acquire(1).unwrap();
    let mut a = SendJob::begin("a".into(), "dev".into(), &vec![1], None).unwrap();
    assert_eq!((a.limit, a.rate_limit), (1, None));
    assert!(matches!(a.try_start(&mut gate), FirstTurn::Queued(_)));
    match a.queue_turn(&mut gate, true) {
        QueueTurn::Cancelled(SendNotice::Failed { code, .. }) => {
            assert_eq!(code, LanBeamError::Cancelled.ui_code())
        }
        other => panic!("{other:?}"),
    }
    match SendJob::begin("a".into(), "dev".into(), &vec![], None) {
        Err(LanBeamError::Protocol(m)) => assert_eq!(m, "no files to send"),
        other => panic!("{other:?}"),
    }
}
