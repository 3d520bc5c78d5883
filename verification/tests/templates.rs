//! The registry of templates.

use logsentry::mask::MaskPatterns;
use logsentry::template::{
    Share, TemplateEngine, TemplateId, TemplateRecord, TemplateSnapshot, WILDCARD,
};

const THRESHOLD: Share = Share { part: 7, whole: 10 };

fn patterns() -> MaskPatterns {
    MaskPatterns::new().expect("patterns compile")
}

fn engine(max: usize) -> TemplateEngine {
    TemplateEngine::new(patterns(), THRESHOLD, max)
}

fn restore(snapshot: TemplateSnapshot, max: usize) -> TemplateEngine {
    TemplateEngine::restore(patterns(), snapshot, THRESHOLD, max)
}

#[test]
fn identische_nachrichten_ergeben_gleiche_id_und_zaehlen_hoch() {
    let mut engine = engine(100);
    let first = engine.process("Accepted publickey for admin from 10.0.0.5", 1000);
    let second = engine.process("Accepted publickey for admin from 10.0.0.5", 2000);

    assert_eq!(first.id, second.id);
    assert!(first.is_new);
    assert!(!second.is_new);
    assert_eq!(second.count, 2);
    assert_eq!(second.first_seen_us, 1000);
}

#[test]
fn abweichende_zahlen_werden_von_masken_bereits_vereinheitlicht() {
    let mut engine = engine(100);
    let a = engine.process("Failed password for root from 203.0.113.9 port 51422 ssh2", 1000);
    let b = engine.process("Failed password for root from 203.0.113.9 port 51423 ssh2", 1001);
    assert_eq!(a.id, b.id, "Ports/IPs werden schon durch Masken vereinheitlicht");
}

#[test]
fn abweichender_freitext_wird_durch_drain_clustering_verallgemeinert() {
    let mut engine = engine(100);
    let a = engine.process("Started backup job for user alice", 1000);
    let b = engine.process("Started backup job for user bob", 1001);
    assert_eq!(a.id, b.id, "einzelnes abweichendes Token sollte gemergt werden");
    assert!(b.template.contains(WILDCARD));
}

#[test]
fn voellig_unterschiedliche_nachrichten_bekommen_verschiedene_ids() {
    let mut engine = engine(100);
    let a = engine.process("Accepted publickey for admin from 10.0.0.5", 1000);
    let b = engine.process("Killed process 5321 due to memory pressure", 1001);
    assert_ne!(a.id, b.id);
}

#[test]
fn zu_viele_abweichende_tokens_bleiben_getrennte_cluster() {
    let mut engine = engine(100);
    let a = engine.process("alpha beta gamma delta epsilon", 1000);
    let b = engine.process("wxyz qrst gamma delta epsilon", 1001);
    assert_ne!(a.id, b.id);
}

#[test]
fn leere_nachricht_ergibt_reservierte_empty_id() {
    let mut engine = engine(100);
    let result = engine.process("", 1000);
    assert_eq!(result.id, TemplateId::empty());
}

#[test]
fn max_templates_grenze_wird_respektiert() {
    let mut engine = engine(2);
    let a = engine.process("erste ganz eigene nachricht", 1000);
    let b = engine.process("zweite komplett andere sache", 1001);
    let c = engine.process("dritte voellig verschiedene zeile", 1002);

    assert!(a.is_new);
    assert!(b.is_new);
    assert_eq!(c.id, TemplateId::overflow());
    assert_eq!(engine.overflow_count(), 1);
    assert_eq!(engine.template_count(), 2);
}

#[test]
fn template_id_ist_ueber_mehrere_engine_instanzen_stabil() {
    let mut engine_a = engine(100);
    let mut engine_b = engine(100);
    let a = engine_a.process("Accepted publickey for admin from 10.0.0.5", 1000);
    let b = engine_b.process("Accepted publickey for admin from 10.0.0.5", 9999);
    assert_eq!(a.id, b.id);
}

#[test]
fn snapshot_restore_roundtrip_ueber_json() {
    let mut engine = engine(100);
    engine.process("Started backup job for user alice", 1000);
    engine.process("Started backup job for user bob", 1001);
    engine.process("Accepted publickey for admin from 10.0.0.5", 1002);
    let vorher_count = engine.template_count();

    let mut restored = restore(engine.snapshot(), 100);
    assert_eq!(restored.template_count(), vorher_count);
    assert_eq!(restored.snapshot(), engine.snapshot());

    let original_id = engine.process("Started backup job for user charlie", 2000).id;
    let restored_id = restored.process("Started backup job for user charlie", 2000).id;
    assert_eq!(original_id, restored_id);
    assert!(!restored.process("Started backup job for user dave", 2001).is_new);
}

#[test]
fn restore_erhaelt_erstsichtung_und_zaehler() {
    let mut engine = engine(100);
    engine.process("Accepted publickey for admin from 10.0.0.5", 1000);
    engine.process("Accepted publickey for admin from 10.0.0.5", 2000);

    let mut restored = restore(engine.snapshot(), 100);
    let m = restored.process("Accepted publickey for admin from 10.0.0.5", 3000);
    assert_eq!(m.first_seen_us, 1000, "Erstsichtung darf beim Neustart nicht verloren gehen");
    assert_eq!(m.count, 3, "Zähler muss über den Neustart hinweg weiterzählen");
    assert!(!m.is_new);
}

#[test]
fn restore_respektiert_gesenkte_max_templates_grenze() {
    let mut engine = engine(100);
    engine.process("erste ganz eigene nachricht", 1);
    engine.process("zweite komplett andere sache", 2);
    engine.process("dritte voellig verschiedene zeile", 3);
    assert_eq!(engine.template_count(), 3);

    let restored = restore(engine.snapshot(), 2);
    assert_eq!(restored.template_count(), 2, "Obergrenze muss beim Wiederherstellen greifen");
}

#[test]
fn restore_stellt_registry_reihenfolge_ueber_order_wieder_her() {
    let mut engine = engine(100);
    engine.process("erste ganz eigene nachricht", 1);
    engine.process("zweite komplett andere sache", 2);
    engine.process("dritte voellig verschiedene zeile", 3);
    let original = engine.snapshot();

    let mut verwuerfelt = original.clone();
    verwuerfelt.clusters.sort_by_key(|r| r.id.0);
    assert_ne!(
        verwuerfelt.clusters.iter().map(|r| r.id).collect::<Vec<_>>(),
        original.clusters.iter().map(|r| r.id).collect::<Vec<_>>(),
        "Testvoraussetzung: ID-Sortierung muss die Reihenfolge tatsächlich ändern"
    );

    let restored = restore(verwuerfelt, 100);
    assert_eq!(restored.snapshot(), original);
}

#[test]
fn restore_ueberspringt_leere_token_listen() {
    let snapshot = TemplateSnapshot {
        clusters: vec![
            TemplateRecord {
                tokens: Vec::new(),
                ..TemplateRecord::default()
            },
            TemplateRecord {
                id: TemplateId(42),
                tokens: vec!["a".to_string(), "b".to_string()],
                ..TemplateRecord::default()
            },
        ],
    };
    let restored = restore(snapshot, 100);
    assert_eq!(restored.template_count(), 1);
}

#[test]
fn kollabierendes_cluster_wird_durch_sinkende_konkrete_basis_gestoppt() {
    let mut engine = engine(100);
    let basis = engine.process("alpha beta gamma delta epsilon", 0);
    engine.process("zulu beta gamma delta epsilon", 1);
    engine.process("zulu yankee gamma delta epsilon", 2);
    let dritte = engine.process("zulu yankee xray delta epsilon", 3);
    assert_ne!(
        dritte.id, basis.id,
        "die Verallgemeinerung darf nicht bis zur dritten Abweichung fortschreiten"
    );
    assert_eq!(engine.template_count(), 2);

    let unbeteiligt = engine.process("kernel oom killed process foo", 4);
    assert!(
        unbeteiligt.is_new,
        "ein degeneriertes Cluster darf nicht jede Zeile gleicher Länge anziehen"
    );
}

#[test]
fn leerer_snapshot_ergibt_leere_engine() {
    let restored = restore(TemplateSnapshot::default(), 100);
    assert_eq!(restored.template_count(), 0);
}

#[test]
fn ids_are_shown_in_sixteen_hexadecimal_digits() {
    assert_eq!(TemplateId(0x2a).to_text(), "000000000000002a");
    assert_eq!(TemplateId(u64::MAX).to_text(), "ffffffffffffffff");
}

#[test]
fn a_template_keeps_its_id_while_it_generalises() {
    let mut engine = engine(100);
    let first = engine.process("Started backup job for user alice", 1);
    let second = engine.process("Started backup job for user bob", 2);
    let third = engine.process("Started backup job for user carol", 3);
    assert_eq!(first.id, second.id);
    assert_eq!(second.id, third.id);
    assert_eq!(third.template, "Started backup job for user <*>");
    assert_eq!(third.count, 3);
}

#[test]
fn a_line_that_opened_a_template_stays_known() {
    let mut engine = engine(3);
    let founder = "alpha beta gamma delta epsilon";
    assert!(engine.process(founder, 0).is_new);
    engine.process("zulu beta gamma delta epsilon", 1);
    engine.process("alpha beta gamma delta yankee", 2);
    engine.process("quite another line of text", 3);
    engine.process("one two three four five", 4);
    assert_eq!(engine.template_count(), 3);
    assert_eq!(engine.process("no room for this line", 5).id, TemplateId::overflow());
    let overflown = engine.overflow_count();
    for i in 0..5u64 {
        let again = engine.process(founder, 6 + i);
        assert!(!again.is_new);
        assert!(again.count > 0);
    }
    assert_eq!(engine.template_count(), 3);
    assert_eq!(engine.overflow_count(), overflown);
}

#[test]
fn without_a_threshold_every_line_of_a_length_is_known() {
    let mut engine = TemplateEngine::new(patterns(), Share { part: 0, whole: 1 }, 10);
    let first = engine.process("alpha beta", 0);
    assert!(first.is_new);
    let second = engine.process("gamma delta", 1);
    assert_eq!(second.id, first.id);
    assert_eq!(second.template, "<*> <*>");
    let again = engine.process("gamma delta", 2);
    assert_eq!((again.id, again.count, again.is_new), (first.id, 3, false));
    let back = engine.process("alpha beta", 3);
    assert_eq!((back.id, back.count, back.is_new), (first.id, 4, false));
    assert_eq!(engine.template_count(), 1);
}

#[test]
fn a_lower_limit_keeps_the_templates_that_were_opened_first() {
    let mut full = engine(100);
    for (i, line) in ["one", "two words", "three words now", "and four words now"].iter().enumerate() {
        assert!(full.process(line, i as u64).is_new);
    }
    let stored = full.snapshot();
    for limit in 0..6usize {
        let mut listed = stored.clone();
        listed.clusters.reverse();
        let restored = restore(listed, limit);
        let kept = limit.min(4);
        assert_eq!(restored.snapshot().clusters, stored.clusters[..kept].to_vec());
        assert_eq!(restored.overflow_count(), 0);
    }
}
