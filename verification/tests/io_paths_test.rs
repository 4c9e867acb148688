//! Paths and names of the data files.

use flocking_lib::io::ensemble::get_ensemble_path;
use flocking_lib::io::listing::{parse_tag_and_id, select_binary_file_names};
use flocking_lib::io::simulation::{ids_of_tag, list_simulations_by_tag};
use flocking_lib::io::{binary_path, get_data_path, get_export_path, json_path, DataPersistence, DataType};

#[test]
fn folder_names() {
    assert_eq!(DataType::Ensemble.folder(), "ensemble");
    assert_eq!(DataType::Simulation.folder(), "simulation");
    assert_eq!(DataType::Analysis.folder(), "analysis");
}

#[test]
fn binary_and_json_paths() {
    assert_eq!(binary_path(DataType::Ensemble, 3, 7), "./data/ensemble/t3-i7.bin");
    assert_eq!(binary_path(DataType::Simulation, 0, 42), "./data/simulation/t0-i42.bin");
    assert_eq!(json_path(DataType::Simulation, 12, 0), "./plots/data/simulation/t12-i0.json");
    assert_eq!(json_path(DataType::Analysis, 1, 1), "./plots/data/analysis/t1-i1.json");
}

#[test]
fn data_paths_by_text_tag() {
    assert_eq!(get_ensemble_path("test", 2), "./data/ensemble/test-2.bin");
    assert_eq!(get_data_path(DataType::Simulation, "exp", 15), "./data/simulation/exp-15.bin");
    assert_eq!(get_ensemble_path("/tmp/x", 5), "/tmp/x-5.bin");
    assert_eq!(get_ensemble_path("", 0), "./data/ensemble/-0.bin");
    assert_eq!(get_export_path("my_experiment", 1), "./data/simulation/my_experiment-1.json");
    assert_eq!(get_export_path("/abs", 3), "/abs-3.json");
}

#[test]
fn parse_tag_and_id_accepts() {
    assert_eq!(parse_tag_and_id("test-2.bin"), Some(("test".to_string(), 2)));
    assert_eq!(parse_tag_and_id("a-b-10.bin"), Some(("a-b".to_string(), 10)));
    assert_eq!(parse_tag_and_id("t--7.bin"), Some(("t-".to_string(), 7)));
    assert_eq!(parse_tag_and_id("t-+7.bin"), Some(("t".to_string(), 7)));
    assert_eq!(parse_tag_and_id("t-007.bin"), Some(("t".to_string(), 7)));
    assert_eq!(parse_tag_and_id("x.y-3.bin"), Some(("x.y".to_string(), 3)));
    assert_eq!(parse_tag_and_id("-3.bin"), Some(("".to_string(), 3)));
}

#[test]
fn parse_tag_and_id_rejects() {
    assert_eq!(parse_tag_and_id("x-1.json"), None);
    assert_eq!(parse_tag_and_id("noid.bin"), None);
    assert_eq!(parse_tag_and_id("t-.bin"), None);
    assert_eq!(parse_tag_and_id("t-+.bin"), None);
    assert_eq!(parse_tag_and_id(".bin"), None);
    assert_eq!(parse_tag_and_id("t3-i0.bin"), None);
    assert_eq!(parse_tag_and_id("t-1.bin.tmp"), None);
    assert_eq!(parse_tag_and_id("t-99999999999999999999999.bin"), None);
    assert_eq!(parse_tag_and_id(".."), None);
    assert_eq!(parse_tag_and_id(""), None);
}

#[test]
fn select_binary_files_sorted() {
    let names: Vec<String> = ["b.bin", "a.txt", "a.bin", ".bin", "c.bin.tmp", "a.bin", "B.bin", "ab.bin"]
        .iter()
        .map(|s| s.to_string())
        .collect();
    let selected = select_binary_file_names(names);
    assert_eq!(selected, vec!["B.bin", "a.bin", "a.bin", "ab.bin", "b.bin"]);
    assert!(select_binary_file_names(Vec::new()).is_empty());
}

#[test]
fn simulations_grouped_by_tag() {
    let pairs = vec![
        ("x".to_string(), 3),
        ("y".to_string(), 1),
        ("x".to_string(), 0),
        ("z".to_string(), 7),
        ("x".to_string(), 3),
    ];
    let groups = list_simulations_by_tag(pairs);
    assert_eq!(
        groups,
        vec![
            ("x".to_string(), vec![3, 0, 3]),
            ("y".to_string(), vec![1]),
            ("z".to_string(), vec![7]),
        ]
    );
    assert!(list_simulations_by_tag(Vec::new()).is_empty());
}

#[test]
fn grouping_keeps_every_id() {
    let pairs: Vec<(String, usize)> = (0..20).map(|i| (format!("t{}", i % 3), i)).collect();
    let groups = list_simulations_by_tag(pairs.clone());
    let total: usize = groups.iter().map(|(_, ids)| ids.len()).sum();
    assert_eq!(total, pairs.len());
    for (tag, id) in &pairs {
        let group = groups.iter().find(|(t, _)| t == tag).unwrap();
        assert!(group.1.contains(id));
    }
}

#[test]
fn ids_of_one_tag() {
    let pairs = vec![
        ("a".to_string(), 4),
        ("b".to_string(), 1),
        ("a".to_string(), 2),
        ("ab".to_string(), 9),
    ];
    assert_eq!(ids_of_tag(&pairs, "a"), vec![4, 2]);
    assert_eq!(ids_of_tag(&pairs, "b"), vec![1]);
    assert_eq!(ids_of_tag(&pairs, "c"), Vec::<usize>::new());
    assert_eq!(ids_of_tag(&Vec::new(), "a"), Vec::<usize>::new());
}

struct Run {
    id: usize,
    tag: usize,
}

impl DataPersistence for Run {
    fn spec_data_type() -> DataType {
        DataType::Simulation
    }

    fn spec_id(&self) -> usize {
        self.id
    }

    fn spec_tag(&self) -> usize {
        self.tag
    }

    fn data_type() -> DataType {
        DataType::Simulation
    }

    fn id(&self) -> usize {
        self.id
    }

    fn tag(&self) -> usize {
        self.tag
    }
}

#[test]
fn persistence_paths_of_an_entry() {
    let run = Run { id: 9, tag: 4 };
    assert_eq!(run.binary_path(), "./data/simulation/t4-i9.bin");
    assert_eq!(run.json_path(), "./plots/data/simulation/t4-i9.json");
}

struct Entry {
    id: usize,
    tag: usize,
}

impl DataPersistence for Entry {
    fn spec_data_type() -> DataType {
        DataType::Ensemble
    }

    fn spec_id(&self) -> usize {
        self.id
    }

    fn spec_tag(&self) -> usize {
        self.tag
    }

    fn data_type() -> DataType {
        DataType::Ensemble
    }

    fn id(&self) -> usize {
        self.id
    }

    fn tag(&self) -> usize {
        self.tag
    }
}

#[test]
fn persistence_paths_of_an_ensemble_entry() {
    let entry = Entry { id: 0, tag: 10 };
    assert_eq!(entry.binary_path(), "./data/ensemble/t10-i0.bin");
    assert_eq!(entry.json_path(), "./plots/data/ensemble/t10-i0.json");
    let run = Run { id: 7, tag: 3 };
    assert_eq!(run.binary_path(), "./data/simulation/t3-i7.bin");
}
