use astral_wfp::backend::{
    remove_first, Backend, DeleteFailed, SessionCloseFailed, SessionHandle, SessionOpenFailed,
    SimBackend, SubmitFailed,
};
use astral_wfp::condition::{ConditionField, ConditionValue, EnforcementUnit};
use astral_wfp::engine::{EngineError, EngineState, WfpController};
use astral_wfp::layer::Layer;
use astral_wfp::rule::{Direction, FilterAction, FilterRule};

/// A backend that answers from scripts and remembers what it was asked.
struct Scripted {
    open: Result<SessionHandle, SessionOpenFailed>,
    submits: Vec<Result<u64, SubmitFailed>>,
    deletes_fail: Vec<u64>,
    close: Result<(), SessionCloseFailed>,
    submitted: Vec<(EnforcementUnit, String)>,
    deleted: Vec<u64>,
    closed: u32,
}

impl Scripted {
    fn new(submits: Vec<Result<u64, SubmitFailed>>) -> Scripted {
        Scripted {
            open: Ok(SessionHandle::Native(77)),
            submits,
            deletes_fail: Vec::new(),
            close: Ok(()),
            submitted: Vec::new(),
            deleted: Vec::new(),
            closed: 0,
        }
    }
}

impl Backend for Scripted {
    fn open_session(&mut self) -> Result<SessionHandle, SessionOpenFailed> {
        self.open.clone()
    }

    fn submit(&mut self, session: &SessionHandle, unit: &EnforcementUnit, name: &str) -> Result<u64, SubmitFailed> {
        assert_eq!(*session, SessionHandle::Native(77));
        let n = self.submitted.len();
        self.submitted.push((unit.clone(), name.to_string()));
        if n < self.submits.len() {
            self.submits[n]
        } else {
            Err(SubmitFailed::Unknown)
        }
    }

    fn delete(&mut self, session: &SessionHandle, id: u64) -> Result<(), DeleteFailed> {
        assert_eq!(*session, SessionHandle::Native(77));
        self.deleted.push(id);
        if self.deletes_fail.contains(&id) {
            Err(DeleteFailed)
        } else {
            Ok(())
        }
    }

    fn close_session(&mut self, session: &SessionHandle) -> Result<(), SessionCloseFailed> {
        assert_eq!(*session, SessionHandle::Native(77));
        self.closed += 1;
        self.close
    }
}

fn ready<B: Backend>(backend: B) -> WfpController<B> {
    let mut engine = WfpController::new(backend);
    assert_eq!(engine.initialize(), Ok(()));
    engine
}

fn outbound(name: &str, remote: &str) -> FilterRule {
    FilterRule::new(name).direction(Direction::Outbound).remote_ip(remote)
}

#[test]
fn new_engine_is_uninitialized() {
    let engine = WfpController::new(SimBackend::new("linux"));
    assert_eq!(engine.state, EngineState::Uninitialized);
    assert_eq!(engine.session, None);
    assert!(engine.filter_ids.is_empty());
    assert_eq!(engine.backend, SimBackend::new("linux"));
}

#[test]
fn initialize_on_simulation_records_label() {
    let mut engine = WfpController::new(SimBackend::new("linux"));
    assert_eq!(engine.initialize(), Ok(()));
    assert_eq!(engine.state, EngineState::Ready);
    assert_eq!(engine.session, Some(SessionHandle::Simulated("linux".to_string())));
    assert!(engine.filter_ids.is_empty());
}

#[test]
fn initialize_reports_session_that_did_not_open() {
    let mut backend = Scripted::new(vec![]);
    backend.open = Err(SessionOpenFailed);
    let mut engine = WfpController::new(backend);
    assert_eq!(engine.initialize(), Err(EngineError::SessionOpenFailed));
    assert_eq!(engine.state, EngineState::Uninitialized);
    assert_eq!(engine.session, None);
    engine.backend.open = Ok(SessionHandle::Native(77));
    assert_eq!(engine.initialize(), Ok(()));
    assert_eq!(engine.state, EngineState::Ready);
    assert_eq!(engine.session, Some(SessionHandle::Native(77)));
}

#[test]
fn add_filters_skips_invalid_rule() {
    let mut engine = ready(SimBackend::new("sim"));
    let mut rules = vec![
        outbound("a", "10.0.0.1"),
        outbound("b", "not-an-ip"),
        outbound("c", "10.0.0.0/8"),
    ];
    let ids = engine.add_filters(&mut rules).unwrap();
    assert_eq!(ids, vec![1, 2]);
    assert_eq!(rules[0].filter_ids, vec![1]);
    assert!(rules[1].filter_ids.is_empty());
    assert_eq!(rules[2].filter_ids, vec![2]);
    assert_eq!(engine.filter_ids, vec![1, 2]);
    assert_eq!(engine.backend.live, vec![1, 2]);
    assert_eq!(engine.state, EngineState::Ready);
}

#[test]
fn add_filters_submits_one_unit_per_layer() {
    let mut engine = ready(SimBackend::new("sim"));
    let mut rules = vec![
        FilterRule::new("both"),
        FilterRule::new("in").direction(Direction::Inbound),
        FilterRule::new("app").app_path("C:\\a.exe"),
    ];
    let ids = engine.add_filters(&mut rules).unwrap();
    assert_eq!(ids, vec![1, 2, 3, 4, 5]);
    assert_eq!(rules[0].filter_ids, vec![1, 2]);
    assert_eq!(rules[1].filter_ids, vec![3]);
    assert_eq!(rules[2].filter_ids, vec![4, 5]);
    assert_eq!(engine.filter_ids, vec![1, 2, 3, 4, 5]);
}

#[test]
fn simulated_identifiers_never_repeat() {
    let mut engine = ready(SimBackend::new("sim"));
    let mut first = vec![outbound("a", "10.0.0.1"), outbound("b", "10.0.0.2")];
    assert_eq!(engine.add_filters(&mut first), Ok(vec![1, 2]));
    let mut second = vec![outbound("c", "10.0.0.3")];
    assert_eq!(engine.add_filters(&mut second), Ok(vec![3]));
    assert_eq!(engine.delete_filters(&[1, 2, 3]), Ok(3));
    assert_eq!(engine.add_filters(&mut second), Ok(vec![4]));
    assert_eq!(second[0].filter_ids, vec![3, 4]);
    assert_eq!(engine.filter_ids, vec![4]);
}

#[test]
fn add_filters_hands_the_compiled_unit_to_the_backend() {
    let mut engine = ready(Scripted::new(vec![Ok(10), Ok(11)]));
    let mut rules = vec![
        FilterRule::new("web").app_path("AB").remote_ip("10.0.0.0/8").remote_port(443).priority(9)
            .action(FilterAction::Allow),
    ];
    assert_eq!(engine.add_filters(&mut rules), Ok(vec![10, 11]));
    let sent = &engine.backend.submitted;
    assert_eq!(sent.len(), 2);
    assert_eq!(sent[0].1, "web");
    assert_eq!(sent[1].1, "web");
    assert_eq!(sent[0].0.layer, Layer::AleAuthConnectV4);
    assert_eq!(sent[1].0.layer, Layer::AleAuthRecvAcceptV4);
    for (unit, _) in sent.iter() {
        assert_eq!(unit.weight, 9);
        assert_eq!(unit.action, FilterAction::Allow);
        assert_eq!(unit.app_id, Some(vec![0x41, 0, 0x42, 0, 0, 0]));
        assert_eq!(unit.conditions.len(), 3);
        assert_eq!(unit.conditions[0].field, ConditionField::AppId);
        assert_eq!(unit.conditions[0].value, ConditionValue::AppIdBlob);
        assert_eq!(
            unit.conditions[1].value,
            ConditionValue::RangeUint32 { low: 0x0A00_0000, high: 0x0AFF_FFFF }
        );
        assert_eq!(unit.conditions[2].value, ConditionValue::Uint16(443));
    }
}

#[test]
fn add_filters_absorbs_refused_units() {
    let mut engine = ready(Scripted::new(vec![
        Err(SubmitFailed::AccessDenied),
        Ok(5),
        Err(SubmitFailed::InvalidParameter),
        Ok(9),
    ]));
    let mut rules = vec![FilterRule::new("x"), FilterRule::new("y")];
    assert_eq!(engine.add_filters(&mut rules), Ok(vec![5, 9]));
    assert_eq!(rules[0].filter_ids, vec![5]);
    assert_eq!(rules[1].filter_ids, vec![9]);
    assert_eq!(engine.filter_ids, vec![5, 9]);
    assert_eq!(engine.backend.submitted.len(), 4);
}

#[test]
fn add_filters_fails_when_every_unit_is_refused() {
    let mut engine = ready(Scripted::new(vec![Ok(1)]));
    let mut seed = vec![outbound("seed", "1.1.1.1")];
    assert_eq!(engine.add_filters(&mut seed), Ok(vec![1]));
    let mut rules = vec![FilterRule::new("x"), outbound("y", "10.0.0.1")];
    assert_eq!(engine.add_filters(&mut rules), Err(EngineError::BatchAddFailed));
    assert_eq!(engine.filter_ids, vec![1]);
    assert!(rules[0].filter_ids.is_empty());
    assert!(rules[1].filter_ids.is_empty());
    assert_eq!(engine.backend.submitted.len(), 4);
    assert_eq!(engine.state, EngineState::Ready);
}

#[test]
fn add_filters_fails_on_empty_or_all_invalid_batch() {
    let mut engine = ready(SimBackend::new("sim"));
    let mut none: Vec<FilterRule> = Vec::new();
    assert_eq!(engine.add_filters(&mut none), Err(EngineError::BatchAddFailed));
    let mut bad = vec![outbound("a", "x"), FilterRule::new("b").local_ip("1.2.3.4/40")];
    assert_eq!(engine.add_filters(&mut bad), Err(EngineError::BatchAddFailed));
    assert!(engine.filter_ids.is_empty());
    assert!(engine.backend.live.is_empty());
    assert_eq!(engine.backend.next_id, 1);
}

#[test]
fn add_filters_keeps_identifiers_a_rule_already_had() {
    let mut engine = ready(SimBackend::new("sim"));
    let mut rules = vec![outbound("a", "10.0.0.1")];
    rules[0].filter_ids.push(900);
    assert_eq!(engine.add_filters(&mut rules), Ok(vec![1]));
    assert_eq!(rules[0].filter_ids, vec![900, 1]);
    assert_eq!(rules[0].name, "a");
    assert_eq!(rules[0].remote.as_deref(), Some("10.0.0.1"));
    assert_eq!(rules[0].direction, Direction::Outbound);
}

#[test]
fn add_network_filter_returns_the_backends_answer() {
    let mut engine = ready(Scripted::new(vec![Ok(42), Err(SubmitFailed::NotFound)]));
    let rule = FilterRule::new("one").remote_port(80);
    assert_eq!(engine.add_network_filter(&rule, Layer::InboundIpPacketV6), Ok(42));
    assert_eq!(engine.add_network_filter(&rule, Layer::InboundIpPacketV4), Err(SubmitFailed::NotFound));
    assert!(engine.filter_ids.is_empty());
    assert_eq!(engine.backend.submitted[0].0.layer, Layer::InboundIpPacketV6);
    assert_eq!(engine.backend.submitted[1].0.layer, Layer::InboundIpPacketV4);
}

#[test]
fn record_submissions_keeps_accepted_identifiers() {
    let mut engine = ready(SimBackend::new("sim"));
    let mut rule = FilterRule::new("r");
    let mut added = vec![3];
    let outcomes = vec![Ok(7), Err(SubmitFailed::AlreadyExists), Ok(8), Err(SubmitFailed::NotSupported)];
    engine.record_submissions(&mut rule, &mut added, &outcomes);
    assert_eq!(rule.filter_ids, vec![7, 8]);
    assert_eq!(added, vec![3, 7, 8]);
    assert_eq!(engine.filter_ids, vec![7, 8]);
    engine.record_submissions(&mut rule, &mut added, &vec![Err(SubmitFailed::Unknown)]);
    engine.record_submissions(&mut rule, &mut added, &vec![]);
    assert_eq!(rule.filter_ids, vec![7, 8]);
    assert_eq!(added, vec![3, 7, 8]);
    assert_eq!(engine.filter_ids, vec![7, 8]);
}

#[test]
fn conclude_batch_fails_without_identifiers() {
    assert_eq!(WfpController::<SimBackend>::conclude_batch(vec![]), Err(EngineError::BatchAddFailed));
    assert_eq!(WfpController::<SimBackend>::conclude_batch(vec![4, 2]), Ok(vec![4, 2]));
}

#[test]
fn delete_filters_counts_tracked_and_deleted_only() {
    let mut engine = ready(SimBackend::new("sim"));
    let mut rules = vec![outbound("a", "10.0.0.1"), outbound("b", "10.0.0.2"), outbound("c", "10.0.0.3")];
    assert_eq!(engine.add_filters(&mut rules), Ok(vec![1, 2, 3]));
    assert_eq!(engine.delete_filters(&[2, 99, 1, 2]), Ok(2));
    assert_eq!(engine.filter_ids, vec![3]);
    assert_eq!(engine.backend.live, vec![3]);
    assert_eq!(engine.delete_filters(&[99, 100]), Ok(0));
    assert_eq!(engine.delete_filters(&[]), Ok(0));
    assert_eq!(engine.filter_ids, vec![3]);
    assert_eq!(engine.state, EngineState::Ready);
}

#[test]
fn delete_filters_skips_what_the_backend_does_not_delete() {
    let mut backend = Scripted::new(vec![Ok(1), Ok(2), Ok(3)]);
    backend.deletes_fail = vec![2];
    let mut engine = ready(backend);
    let mut rules = vec![outbound("a", "10.0.0.1"), outbound("b", "10.0.0.2"), outbound("c", "10.0.0.3")];
    assert_eq!(engine.add_filters(&mut rules), Ok(vec![1, 2, 3]));
    assert_eq!(engine.delete_filters(&[1, 2, 50]), Ok(1));
    assert_eq!(engine.filter_ids, vec![2, 3]);
    assert_eq!(engine.backend.deleted, vec![1, 2, 50]);
}

#[test]
fn record_deletion_needs_both_tracked_and_deleted() {
    let mut engine = ready(SimBackend::new("sim"));
    engine.filter_ids = vec![5, 6, 5];
    assert!(!engine.record_deletion(7, Ok(())));
    assert!(!engine.record_deletion(5, Err(DeleteFailed)));
    assert_eq!(engine.filter_ids, vec![5, 6, 5]);
    assert!(engine.record_deletion(5, Ok(())));
    assert_eq!(engine.filter_ids, vec![6, 5]);
    assert!(engine.record_deletion(5, Ok(())));
    assert!(!engine.record_deletion(5, Ok(())));
    assert_eq!(engine.filter_ids, vec![6]);
}

#[test]
fn cleanup_empties_registry_and_closes() {
    let mut engine = ready(SimBackend::new("sim"));
    let mut rules = vec![FilterRule::new("a"), FilterRule::new("b")];
    assert_eq!(engine.add_filters(&mut rules), Ok(vec![1, 2, 3, 4]));
    assert_eq!(engine.cleanup(), Ok(()));
    assert!(engine.filter_ids.is_empty());
    assert_eq!(engine.state, EngineState::Closed);
    assert_eq!(engine.session, None);
    assert!(engine.backend.live.is_empty());
}

#[test]
fn cleanup_empties_registry_even_if_deletions_fail() {
    let mut backend = Scripted::new(vec![Ok(1), Ok(2), Ok(3)]);
    backend.deletes_fail = vec![1, 3];
    let mut engine = ready(backend);
    let mut rules = vec![outbound("a", "10.0.0.1"), outbound("b", "10.0.0.2"), outbound("c", "10.0.0.3")];
    assert_eq!(engine.add_filters(&mut rules), Ok(vec![1, 2, 3]));
    assert_eq!(engine.cleanup(), Ok(()));
    assert!(engine.filter_ids.is_empty());
    assert_eq!(engine.state, EngineState::Closed);
    assert_eq!(engine.backend.deleted, vec![1, 2, 3]);
    assert_eq!(engine.backend.closed, 1);
}

#[test]
fn cleanup_reports_session_that_did_not_close() {
    let mut backend = Scripted::new(vec![Ok(1)]);
    backend.close = Err(SessionCloseFailed);
    let mut engine = ready(backend);
    let mut rules = vec![outbound("a", "10.0.0.1")];
    assert_eq!(engine.add_filters(&mut rules), Ok(vec![1]));
    assert_eq!(engine.cleanup(), Err(EngineError::SessionCloseFailed));
    assert!(engine.filter_ids.is_empty());
    assert_eq!(engine.state, EngineState::Closed);
    assert_eq!(engine.session, None);
}

#[test]
fn session_outcomes() {
    let mut engine = WfpController::new(SimBackend::new("sim"));
    assert_eq!(engine.session_opened(Err(SessionOpenFailed)), Err(EngineError::SessionOpenFailed));
    assert_eq!(engine.state, EngineState::Uninitialized);
    assert_eq!(engine.session_opened(Ok(SessionHandle::Native(3))), Ok(()));
    assert_eq!(engine.state, EngineState::Ready);
    assert_eq!(engine.session, Some(SessionHandle::Native(3)));
    engine.filter_ids = vec![1, 2];
    assert_eq!(engine.session_closed(Err(SessionCloseFailed)), Err(EngineError::SessionCloseFailed));
    assert_eq!(engine.state, EngineState::Closed);
    assert!(engine.filter_ids.is_empty());
    let mut engine = ready(SimBackend::new("sim"));
    assert_eq!(engine.session_closed(Ok(())), Ok(()));
    assert_eq!(engine.state, EngineState::Closed);
}

#[test]
fn simulation_backend_books() {
    let mut sim = SimBackend::new("label");
    let session = sim.open_session().unwrap();
    assert_eq!(session, SessionHandle::Simulated("label".to_string()));
    let unit = EnforcementUnit {
        layer: Layer::InboundIpPacketV4,
        conditions: vec![],
        app_id: None,
        weight: 0,
        action: FilterAction::Block,
    };
    assert_eq!(sim.submit(&session, &unit, "a"), Ok(1));
    assert_eq!(sim.submit(&session, &unit, "b"), Ok(2));
    assert_eq!(sim.live, vec![1, 2]);
    assert_eq!(sim.delete(&session, 3), Err(DeleteFailed));
    assert_eq!(sim.delete(&session, 1), Ok(()));
    assert_eq!(sim.delete(&session, 1), Err(DeleteFailed));
    assert_eq!(sim.live, vec![2]);
    assert_eq!(sim.submit(&session, &unit, "c"), Ok(3));
    sim.next_id = u64::MAX;
    assert_eq!(sim.submit(&session, &unit, "d"), Err(SubmitFailed::Unknown));
    assert_eq!(sim.live, vec![2, 3]);
    assert_eq!(sim.next_id, u64::MAX);
    assert_eq!(sim.close_session(&session), Ok(()));
}

#[test]
fn submit_failure_reasons_by_code() {
    assert_eq!(SubmitFailed::from_code(5), SubmitFailed::AccessDenied);
    assert_eq!(SubmitFailed::from_code(87), SubmitFailed::InvalidParameter);
    assert_eq!(SubmitFailed::from_code(50), SubmitFailed::NotSupported);
    assert_eq!(SubmitFailed::from_code(183), SubmitFailed::AlreadyExists);
    assert_eq!(SubmitFailed::from_code(1168), SubmitFailed::NotFound);
    assert_eq!(SubmitFailed::from_code(1), SubmitFailed::Unknown);
    assert_eq!(SubmitFailed::from_code(0), SubmitFailed::Unknown);
    assert_eq!(SubmitFailed::from_code(u32::MAX), SubmitFailed::Unknown);
}

#[test]
fn remove_first_occurrence() {
    let mut v = vec![1, 2, 1, 3];
    assert!(remove_first(&mut v, 1));
    assert_eq!(v, vec![2, 1, 3]);
    assert!(!remove_first(&mut v, 9));
    assert_eq!(v, vec![2, 1, 3]);
    assert!(remove_first(&mut v, 3));
    assert_eq!(v, vec![2, 1]);
    let mut e: Vec<u64> = vec![];
    assert!(!remove_first(&mut e, 0));
}

#[test]
fn engine_names_layers() {
    let engine = WfpController::new(SimBackend::new("sim"));
    assert_eq!(engine.get_layer_name(&Layer::OutboundIpPacketV4.key()), "OUTBOUND_IPPACKET_V4");
    assert_eq!(engine.get_layer_name(&Layer::AleAuthRecvAcceptV6.key()), "ALE_AUTH_RECV_ACCEPT_V6");
}

#[test]
fn rule_with_ipv6_range_is_refused_as_not_supported() {
    let mut engine = ready(Scripted::new(vec![Ok(1), Ok(2), Ok(3)]));
    let rule = FilterRule::new("six").direction(Direction::Outbound).remote_ip("2001:db8::/32");
    assert_eq!(rule.validate(), Ok(()));
    assert_eq!(
        engine.add_network_filter(&rule, Layer::OutboundIpPacketV6),
        Err(SubmitFailed::NotSupported)
    );
    assert!(engine.backend.submitted.is_empty());
    let mut rules = vec![rule];
    assert_eq!(engine.add_filters(&mut rules), Err(EngineError::BatchAddFailed));
    assert!(rules[0].filter_ids.is_empty());
    assert!(engine.filter_ids.is_empty());
    assert!(engine.backend.submitted.is_empty());
}

#[test]
fn batch_passes_over_rule_that_is_not_supported() {
    let mut engine = ready(SimBackend::new("sim"));
    let mut rules = vec![
        outbound("a", "2001:db8::1"),
        FilterRule::new("b").direction(Direction::Inbound).local_ip("fe80::/10"),
        outbound("c", "10.0.0.0/8"),
    ];
    assert_eq!(engine.add_filters(&mut rules), Ok(vec![1, 2]));
    assert_eq!(rules[0].filter_ids, vec![1]);
    assert!(rules[1].filter_ids.is_empty());
    assert_eq!(rules[2].filter_ids, vec![2]);
    assert_eq!(engine.backend.next_id, 3);
}

#[test]
fn delete_filters_asks_for_each_identifier_in_order() {
    let mut engine = ready(Scripted::new(vec![Ok(4)]));
    let mut rules = vec![outbound("a", "10.0.0.1")];
    assert_eq!(engine.add_filters(&mut rules), Ok(vec![4]));
    assert_eq!(engine.delete_filters(&[9, 4, 9, 4]), Ok(1));
    assert_eq!(engine.backend.deleted, vec![9, 4, 9, 4]);
    assert_eq!(engine.backend.closed, 0);
}

#[test]
fn cleanup_deletes_each_identifier_once_and_then_closes() {
    let mut engine = ready(Scripted::new(vec![Ok(8), Ok(6), Ok(7)]));
    let mut rules = vec![outbound("a", "10.0.0.1"), outbound("b", "10.0.0.2"), outbound("c", "10.0.0.3")];
    assert_eq!(engine.add_filters(&mut rules), Ok(vec![8, 6, 7]));
    assert_eq!(engine.cleanup(), Ok(()));
    assert_eq!(engine.backend.deleted, vec![8, 6, 7]);
    assert_eq!(engine.backend.closed, 1);
    assert_eq!(engine.state, EngineState::Closed);
}

#[test]
fn two_batches_on_the_simulation_share_no_identifier() {
    let mut engine = ready(SimBackend::new("sim"));
    let mut first = vec![FilterRule::new("r").direction(Direction::Outbound)];
    let mut second = first.clone();
    let ids1 = engine.add_filters(&mut first).unwrap();
    let ids2 = engine.add_filters(&mut second).unwrap();
    assert_eq!(ids1, vec![1]);
    assert_eq!(ids2, vec![2]);
    assert!(ids2.iter().all(|id| !ids1.contains(id)));
    assert_eq!(engine.filter_ids, vec![1, 2]);
}
