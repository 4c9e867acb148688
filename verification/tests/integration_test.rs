//! Tests of the library as a whole.

use flocking_lib::io::ensemble::get_ensemble_path;
use flocking_lib::io::listing::parse_tag_and_id;

/// Ensemble generation produces valid configurations.
#[test]
fn test_ensemble_generation() {
    assert!(true);
}

/// The file name of a saved ensemble reads back as its tag and id.
#[test]
fn ensemble_file_name_round_trip() {
    for (tag, id) in [("test", 0usize), ("test", 2), ("a-b", 10), ("x.y", 99), ("", 5), ("run", usize::MAX)] {
        let path = get_ensemble_path(tag, id);
        let name = path.rsplit('/').next().unwrap();
        assert_eq!(path, format!("./data/ensemble/{}", name));
        assert_eq!(parse_tag_and_id(name), Some((tag.to_string(), id)));
    }
}
