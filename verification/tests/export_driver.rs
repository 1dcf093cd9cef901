use dbexport::export::{ExportAction, ExportDriver, ExportEvent, ExportStage};

fn run(with_count: bool, events: &[ExportEvent]) -> Vec<ExportAction> {
    let mut driver = ExportDriver::new(with_count);
    events.iter().map(|event| driver.step(*event)).collect()
}

#[test]
fn an_export_without_count_goes_from_connect_to_finish() {
    let events = [
        ExportEvent::Begin,
        ExportEvent::Done,
        ExportEvent::Done,
        ExportEvent::Done,
        ExportEvent::Batch,
        ExportEvent::Done,
        ExportEvent::Batch,
        ExportEvent::Done,
        ExportEvent::Nothing,
    ];
    assert_eq!(
        run(false, &events),
        vec![
            ExportAction::Connect,
            ExportAction::Open,
            ExportAction::SendColumns,
            ExportAction::Pull,
            ExportAction::Forward,
            ExportAction::Pull,
            ExportAction::Forward,
            ExportAction::Pull,
            ExportAction::Finish,
        ]
    );
}

#[test]
fn an_export_with_count_counts_before_it_opens_the_query() {
    let events = [
        ExportEvent::Begin,
        ExportEvent::Done,
        ExportEvent::Done,
        ExportEvent::Done,
        ExportEvent::Done,
        ExportEvent::Nothing,
    ];
    assert_eq!(
        run(true, &events),
        vec![
            ExportAction::Connect,
            ExportAction::Count,
            ExportAction::Open,
            ExportAction::SendColumns,
            ExportAction::Pull,
            ExportAction::Finish,
        ]
    );
}

#[test]
fn a_failure_ends_the_export_at_every_stage() {
    let path = [
        ExportEvent::Begin,
        ExportEvent::Done,
        ExportEvent::Done,
        ExportEvent::Done,
        ExportEvent::Done,
        ExportEvent::Batch,
    ];
    for reached in 0..=path.len() {
        let mut driver = ExportDriver::new(true);
        for event in &path[..reached] {
            assert_ne!(driver.step(*event), ExportAction::Abort);
        }
        assert_eq!(driver.step(ExportEvent::Failed), ExportAction::Abort);
        assert_eq!(driver.current_stage(), ExportStage::Finished);
        assert_eq!(driver.step(ExportEvent::Done), ExportAction::Abort);
    }
}

#[test]
fn nothing_is_pulled_after_the_end() {
    let mut driver = ExportDriver::new(false);
    for event in [ExportEvent::Begin, ExportEvent::Done, ExportEvent::Done, ExportEvent::Done] {
        driver.step(event);
    }
    assert_eq!(driver.current_stage(), ExportStage::Streaming);
    assert_eq!(driver.step(ExportEvent::Nothing), ExportAction::Finish);
    for event in [
        ExportEvent::Begin,
        ExportEvent::Done,
        ExportEvent::Batch,
        ExportEvent::Nothing,
        ExportEvent::Failed,
    ] {
        assert_eq!(driver.step(event), ExportAction::Abort);
        assert_eq!(driver.current_stage(), ExportStage::Finished);
    }
}

#[test]
fn an_event_out_of_turn_ends_the_export() {
    assert_eq!(run(false, &[ExportEvent::Done]), vec![ExportAction::Abort]);
    assert_eq!(run(false, &[ExportEvent::Begin, ExportEvent::Begin]), vec![ExportAction::Connect, ExportAction::Abort]);
    assert_eq!(
        run(false, &[ExportEvent::Begin, ExportEvent::Done, ExportEvent::Batch]),
        vec![ExportAction::Connect, ExportAction::Open, ExportAction::Abort]
    );
    // A batch is forwarded before the next one is pulled.
    let mut driver = ExportDriver::new(false);
    for event in [ExportEvent::Begin, ExportEvent::Done, ExportEvent::Done, ExportEvent::Done] {
        driver.step(event);
    }
    assert_eq!(driver.step(ExportEvent::Batch), ExportAction::Forward);
    assert_eq!(driver.current_stage(), ExportStage::Forwarding);
    assert_eq!(driver.step(ExportEvent::Batch), ExportAction::Abort);
}

#[test]
fn the_columns_are_sent_once_before_any_batch() {
    let events = [
        ExportEvent::Begin,
        ExportEvent::Done,
        ExportEvent::Done,
        ExportEvent::Done,
        ExportEvent::Done,
        ExportEvent::Batch,
        ExportEvent::Done,
        ExportEvent::Done,
        ExportEvent::Nothing,
    ];
    for with_count in [false, true] {
        let actions = run(with_count, &events);
        let sent: Vec<usize> = (0..actions.len()).filter(|i| actions[*i] == ExportAction::SendColumns).collect();
        assert_eq!(sent.len(), 1);
        assert!(actions[..sent[0]]
            .iter()
            .all(|action| *action != ExportAction::Pull && *action != ExportAction::Forward));
        assert_eq!(actions.contains(&ExportAction::Count), with_count);
    }
}
