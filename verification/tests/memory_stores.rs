use sview::memory::episodic::EpisodicMemory;
use sview::memory::factual::FactualMemory;
use sview::memory::semantic::{Concept, SemanticMemory};
use sview::memory::working::WorkingMemory;

#[test]
fn test_factual_roundtrip() {
    let mut m = FactualMemory::new();
    assert!(m.retrieve("k").is_none());
    m.store("k".to_string(), "v1".to_string());
    assert_eq!(m.retrieve("k").unwrap().as_str(), "v1");
    m.store("k".to_string(), "v2".to_string());
    assert_eq!(m.retrieve("k").unwrap().as_str(), "v2");
    assert_eq!(m.remove("k").unwrap(), "v2");
    assert!(m.retrieve("k").is_none());
    assert!(m.remove("k").is_none());
    m.store("a".to_string(), "1".to_string());
    m.clear();
    assert!(m.retrieve("a").is_none());
}

fn concept(name: &str) -> Concept {
    Concept {
        name: name.to_string(),
        attributes: Vec::new(),
        relationships: Vec::new(),
    }
}

#[test]
fn test_semantic_concepts() {
    let mut m = SemanticMemory::new();
    assert!(m.get_concept("bird").is_none());
    m.add_concept(concept("bird"));
    m.add_attribute("bird", "can".to_string(), "fly".to_string());
    m.add_relationship("bird", "animal".to_string(), "is-a".to_string());
    let c = m.get_concept("bird").unwrap();
    assert_eq!(c.name, "bird");
    assert_eq!(c.attributes, vec![("can".to_string(), "fly".to_string())]);
    assert_eq!(c.relationships, vec![("animal".to_string(), "is-a".to_string())]);

    // An unknown concept takes no attribute.
    m.add_attribute("fish", "can".to_string(), "swim".to_string());
    assert!(m.get_concept("fish").is_none());

    m.add_concept(concept("plane"));
    m.add_attribute("plane", "can".to_string(), "fly".to_string());
    let fliers = m.query_concepts("can", "fly");
    assert_eq!(fliers.len(), 2);
    assert_eq!(fliers[0].name, "bird");
    assert_eq!(fliers[1].name, "plane");
    assert_eq!(m.query_concepts("can", "swim").len(), 0);
}

#[test]
fn test_semantic_replaces_same_name() {
    let mut m = SemanticMemory::new();
    m.add_concept(concept("bird"));
    m.add_attribute("bird", "can".to_string(), "fly".to_string());
    m.add_concept(concept("bird"));
    let c = m.get_concept("bird").unwrap();
    assert!(c.attributes.is_empty());
}

#[test]
fn test_working_memory_lru() {
    let mut m = WorkingMemory::new(2, 60);
    m.add("a".to_string(), "1".to_string());
    m.add("b".to_string(), "2".to_string());
    // Touching `a` makes `b` the least recently used.
    assert_eq!(m.get("a").unwrap(), "1");
    m.add("c".to_string(), "3".to_string());
    assert!(m.get("b").is_none());
    assert_eq!(m.get("a").unwrap(), "1");
    assert_eq!(m.get("c").unwrap(), "3");
}

#[test]
fn test_working_memory_replace_and_remove() {
    let mut m = WorkingMemory::new(4, 60);
    m.add("k".to_string(), "old".to_string());
    m.add("k".to_string(), "new".to_string());
    assert_eq!(m.get("k").unwrap(), "new");
    m.remove("k");
    assert!(m.get("k").is_none());
    m.add("x".to_string(), "1".to_string());
    m.clear();
    assert!(m.get("x").is_none());
}

#[test]
fn test_working_memory_tight_bound() {
    let mut m = WorkingMemory::new(1, 60);
    m.add("a".to_string(), "1".to_string());
    m.add("b".to_string(), "2".to_string());
    assert!(m.get("a").is_none());
    assert_eq!(m.get("b").unwrap(), "2");
}

#[test]
fn test_episodic_log() {
    let mut m = EpisodicMemory::new(3);
    m.record_event("one".to_string());
    m.record_event("two".to_string());
    m.record_event("three".to_string());
    m.record_event("four".to_string());
    // The bound holds and the oldest event left.
    let recent = m.get_recent_events(10);
    assert_eq!(recent.len(), 3);
    assert_eq!(recent[0].1, "four");
    assert_eq!(recent[1].1, "three");
    assert_eq!(recent[2].1, "two");
    let two = m.get_recent_events(2);
    assert_eq!(two.len(), 2);
    assert_eq!(two[0].1, "four");

    let all = m.get_events_between(i64::MIN, i64::MAX);
    assert_eq!(all.len(), 3);
    assert_eq!(all[0].1, "two");
    let none = m.get_events_between(i64::MAX, i64::MIN);
    assert_eq!(none.len(), 0);
}
