//! Collecting the frames of runs from messages.

use flocking_lib::io::collect::{CollectorStep, CollectorTable, FrameCollector, SimulationMessage};

fn init(id: usize, tag: &str) -> SimulationMessage<f32, (usize, &'static str)> {
    SimulationMessage::Init { id, tag: tag.to_string(), ensemble_id: 40 + id, params: 0.5 }
}

fn snapshot(id: usize, step: usize, label: &'static str) -> SimulationMessage<f32, (usize, &'static str)> {
    SimulationMessage::Snapshot { simulation_id: id, step, snapshot: (step, label) }
}

#[test]
fn collector_keeps_snapshots_and_highest_step() {
    let mut c: FrameCollector<u8, usize> = FrameCollector::new(1, "run".to_string(), 2, 9);
    assert_eq!((c.id, c.tag.as_str(), c.ensemble_id, c.params, c.total_steps), (1, "run", 2, 9, 0));
    c.add_snapshot(10, 100);
    c.add_snapshot(5, 50);
    c.add_snapshot(20, 200);
    assert_eq!(c.snapshots, vec![100, 50, 200]);
    assert_eq!(c.total_steps, 20);
}

#[test]
fn table_follows_the_message_protocol() {
    let mut table = CollectorTable::new();
    assert!(matches!(table.handle(init(1, "x")), CollectorStep::Continue));
    assert!(matches!(table.handle(init(2, "y")), CollectorStep::Continue));
    assert!(matches!(table.handle(snapshot(1, 10, "a")), CollectorStep::Continue));
    assert!(matches!(table.handle(snapshot(2, 10, "b")), CollectorStep::Continue));
    assert!(matches!(table.handle(snapshot(1, 20, "c")), CollectorStep::Continue));
    match table.handle(snapshot(7, 10, "lost")) {
        CollectorStep::UnknownSnapshot { simulation_id } => assert_eq!(simulation_id, 7),
        _ => panic!("a snapshot for an unknown run must be reported"),
    }
    match table.handle(SimulationMessage::Finalize { simulation_id: 1 }) {
        CollectorStep::Finished(c) => {
            assert_eq!((c.id, c.tag.as_str(), c.ensemble_id, c.total_steps), (1, "x", 41, 20));
            assert_eq!(c.snapshots, vec![(10, "a"), (20, "c")]);
        }
        _ => panic!("finalizing an open run must hand its collector back"),
    }
    assert!(matches!(table.handle(SimulationMessage::Finalize { simulation_id: 1 }), CollectorStep::Continue));
    assert!(matches!(table.handle(init(2, "z")), CollectorStep::Continue));
    assert!(matches!(table.handle(init(3, "w")), CollectorStep::Continue));
    let rest = table.into_collectors();
    let summary: Vec<(usize, String, usize)> = rest.iter().map(|c| (c.id, c.tag.clone(), c.snapshots.len())).collect();
    assert_eq!(summary, vec![(2, "z".to_string(), 0), (3, "w".to_string(), 0)]);
}

#[test]
fn opening_a_given_collector() {
    let mut table: CollectorTable<u8, u8> = CollectorTable::new();
    table.open(FrameCollector::new(5, "a".to_string(), 0, 1));
    table.open(FrameCollector::new(6, "b".to_string(), 0, 1));
    table.open(FrameCollector::new(5, "c".to_string(), 0, 1));
    let ids: Vec<(usize, String)> = table.into_collectors().into_iter().map(|c| (c.id, c.tag)).collect();
    assert_eq!(ids, vec![(5, "c".to_string()), (6, "b".to_string())]);
}
