use studio_core::document::{Body, CoreError, Document, Element, Tx};
use studio_core::element::{Category, ElementId};

/// Element data for these tests: a few kinds with the references the store follows.
#[derive(Debug, Clone, PartialEq)]
enum Data {
    Level {
        name: String,
        elevation: f64,
    },
    WallType {
        name: String,
        thickness: f64,
    },
    Wall {
        type_id: ElementId,
        base_level: ElementId,
        start: (f64, f64),
        end: (f64, f64),
        height: f64,
    },
    Floor {
        type_id: ElementId,
        level: ElementId,
        offset: f64,
        boundary: Vec<(f64, f64)>,
    },
}

#[derive(Debug, Clone, PartialEq)]
enum Value {
    Text(String),
}

type Doc = Document<Data, Value>;

fn body(data: Data) -> Body<Data> {
    let (category, refs) = match &data {
        Data::Level { .. } => (Category::Level, vec![]),
        Data::WallType { .. } => (Category::WallType, vec![]),
        Data::Wall {
            type_id,
            base_level,
            ..
        } => (Category::Wall, vec![*type_id, *base_level]),
        Data::Floor { type_id, level, .. } => (Category::Floor, vec![*type_id, *level]),
    };
    Body {
        category,
        refs,
        data,
    }
}

fn validate(data: &Data) -> Result<(), CoreError> {
    match data {
        Data::Wall { start, end, .. } if start == end => {
            Err(CoreError::Invalid("wall is too short".into()))
        }
        Data::Floor { boundary, .. } if boundary.len() < 3 => {
            Err(CoreError::Invalid("a floor needs three points".into()))
        }
        _ => Ok(()),
    }
}

/// Runs `f` as one undoable transaction: committed when it and every check pass, rolled
/// back otherwise.
fn transact<T>(
    doc: &mut Doc,
    name: &str,
    stamp: u64,
    f: impl FnOnce(&mut Tx<Data, Value>) -> Result<T, CoreError>,
) -> Result<T, CoreError> {
    let taken = std::mem::replace(doc, Doc::new(0));
    let mut tx = taken.begin();
    match f(&mut tx) {
        Err(e) => {
            *doc = tx.rollback();
            Err(e)
        }
        Ok(v) => {
            let checks: Vec<Result<(), CoreError>> = tx
                .touched()
                .into_iter()
                .map(|id| match tx.get(id) {
                    Some(e) => validate(&e.body().data),
                    None => Ok(()),
                })
                .collect();
            let (d, r) = tx.commit(name, checks, Ok(()), stamp);
            *doc = d;
            r.map(|_| v)
        }
    }
}

fn modify(tx: &mut Tx<Data, Value>, id: ElementId, f: impl FnOnce(&mut Data)) -> Result<(), CoreError> {
    let mut data = tx.data(id)?.clone();
    f(&mut data);
    tx.set(id, body(data))
}

fn level_elevation(doc: &Doc, id: ElementId) -> f64 {
    match doc.data(id).unwrap() {
        Data::Level { elevation, .. } => *elevation,
        _ => panic!("not a level"),
    }
}

fn level(doc: &mut Doc, elevation: f64, stamp: u64) -> ElementId {
    transact(doc, "level", stamp, |tx| {
        Ok(tx.insert(body(Data::Level {
            name: "L".into(),
            elevation,
        })))
    })
    .unwrap()
}

fn wall_setup(doc: &mut Doc) -> (ElementId, ElementId, ElementId) {
    let l1 = level(doc, 0.0, 10);
    let wt = transact(doc, "type", 11, |tx| {
        Ok(tx.insert(body(Data::WallType {
            name: "W".into(),
            thickness: 200.0,
        })))
    })
    .unwrap();
    let w = transact(doc, "wall", 12, |tx| {
        Ok(tx.insert(body(Data::Wall {
            type_id: wt,
            base_level: l1,
            start: (0.0, 0.0),
            end: (5000.0, 0.0),
            height: 3000.0,
        })))
    })
    .unwrap();
    (l1, wt, w)
}

#[test]
fn undo_and_redo_restore_exact_state() {
    let mut doc = Doc::new(1);
    let l = level(&mut doc, 0.0, 2);
    transact(&mut doc, "move", 3, |tx| {
        modify(tx, l, |d| {
            if let Data::Level { elevation, .. } = d {
                *elevation = 3048.0
            }
        })
    })
    .unwrap();
    assert_eq!(level_elevation(&doc, l), 3048.0);
    assert_eq!(doc.get(l).unwrap().rev(), 2);
    assert_eq!(doc.undo(4).unwrap().name, "move");
    assert_eq!(level_elevation(&doc, l), 0.0);
    assert_eq!(doc.get(l).unwrap().rev(), 1);
    doc.redo(5).unwrap();
    assert_eq!(level_elevation(&doc, l), 3048.0);
    doc.undo(6).unwrap();
    doc.undo(7).unwrap();
    assert!(doc.get(l).is_none());
    assert!(matches!(doc.undo(8), Err(CoreError::NothingTo("undo"))));
}

#[test]
fn failed_transaction_rolls_back() {
    let mut doc = Doc::new(1);
    let (_, _, w) = wall_setup(&mut doc);
    let before = doc.get(w).map(|e| (e.id(), e.rev(), e.body().data.clone()));
    let r = transact(&mut doc, "bad", 20, |tx| {
        modify(tx, w, |d| {
            if let Data::Wall { end, .. } = d {
                *end = (0.0, 0.0)
            }
        })?;
        Ok(())
    });
    assert!(matches!(r, Err(CoreError::Invalid(_))));
    assert_eq!(doc.get(w).map(|e| (e.id(), e.rev(), e.body().data.clone())), before);
    assert_eq!(doc.can_undo(), Some("wall"));
}

#[test]
fn dangling_reference_is_rejected() {
    let mut doc = Doc::new(1);
    let r = transact(&mut doc, "floor", 2, |tx| {
        Ok(tx.insert(body(Data::Floor {
            type_id: ElementId::new(),
            level: ElementId::new(),
            offset: 0.0,
            boundary: vec![(0.0, 0.0), (1.0, 0.0), (0.0, 1.0)],
        })))
    });
    assert!(matches!(r, Err(CoreError::DanglingRef { .. })));
    assert!(doc.is_empty());
}

#[test]
fn deleting_a_level_deletes_dependents_and_undo_restores_them() {
    let mut doc = Doc::new(1);
    let (l1, wt, w) = wall_setup(&mut doc);
    let deleted = transact(&mut doc, "delete", 20, |tx| tx.delete(l1)).unwrap();
    assert_eq!(deleted.len(), 2);
    assert!(doc.get(w).is_none());
    assert!(doc.get(wt).is_some(), "types are not owned by levels");
    doc.undo(21).unwrap();
    assert!(doc.get(w).is_some() && doc.get(l1).is_some());
}

#[test]
fn empty_transaction_is_not_recorded() {
    let mut doc = Doc::new(1);
    transact(&mut doc, "noop", 2, |_| Ok(())).unwrap();
    assert_eq!(doc.can_undo(), None);
    assert!(!doc.is_dirty());
}

#[test]
fn stamps_change_with_content_only() {
    let mut doc = Doc::new(1);
    let s0 = doc.stamp();
    let (_, _, w) = wall_setup(&mut doc);
    let s1 = doc.stamp();
    assert_ne!(s0, s1);
    // A failed transaction and an empty one leave the stamp alone.
    let _ = transact(&mut doc, "bad", 20, |tx| {
        modify(tx, w, |d| {
            if let Data::Wall { end, .. } = d {
                *end = (0.0, 0.0)
            }
        })
    });
    transact(&mut doc, "noop", 21, |_| Ok(())).unwrap();
    doc.mark_saved();
    assert_eq!(doc.stamp(), s1);
    doc.undo(22).unwrap();
    let s2 = doc.stamp();
    doc.redo(23).unwrap();
    assert!(s2 != s1 && doc.stamp() != s2 && doc.stamp() != s1);
    // A copy has the same content, so the same stamp, until one of them changes.
    let copy = doc.duplicate();
    assert_eq!(copy.stamp(), doc.stamp());
}

#[test]
fn category_index_follows_every_change() {
    let mut doc = Doc::new(1);
    let (l1, _, w) = wall_setup(&mut doc);
    assert_eq!(doc.count(Category::Wall), 1);
    assert_eq!(doc.count(Category::Level), 1);
    transact(&mut doc, "delete", 20, |tx| tx.delete(l1)).unwrap();
    assert_eq!(doc.count(Category::Wall), 0);
    assert_eq!(doc.of(Category::Level).len(), 0);
    doc.undo(21).unwrap();
    assert_eq!(doc.of(Category::Wall).first().map(|e| e.id()), Some(w));
    // Rolled-back inserts leave no trace.
    let _ = transact(&mut doc, "bad", 22, |tx| {
        tx.insert(body(Data::Level {
            name: "X".into(),
            elevation: 1.0,
        }));
        Err::<(), _>(CoreError::Invalid("no".into()))
    });
    assert_eq!(doc.count(Category::Level), 1);
    let rebuilt = Doc::from_elements(doc.iter().into_iter().map(|e| e.duplicate()).collect(), 30);
    assert_eq!(rebuilt.count(Category::Wall), 1);
}

#[test]
fn parameter_values_are_undoable() {
    let mut doc = Doc::new(1);
    let (_, _, w) = wall_setup(&mut doc);
    transact(&mut doc, "param", 20, |tx| {
        tx.set_param(w, "fire_rating", Some(Value::Text("1 HR".into())))
    })
    .unwrap();
    assert_eq!(doc.param(w, "fire_rating"), Some(&Value::Text("1 HR".into())));
    doc.undo(21).unwrap();
    assert_eq!(doc.param(w, "fire_rating"), None);
}

// ---- Further cases -----------------------------------------------------------------------

#[test]
fn undo_after_commit_restores_and_redo_reapplies() {
    let mut doc = Doc::new(1);
    let (l1, wt, w) = wall_setup(&mut doc);
    let before: Vec<ElementId> = doc.iter().iter().map(|e| e.id()).collect();
    transact(&mut doc, "rename", 20, |tx| {
        modify(tx, wt, |d| {
            if let Data::WallType { name, .. } = d {
                *name = "W2".into()
            }
        })
    })
    .unwrap();
    assert_eq!(doc.get(wt).unwrap().rev(), 2);
    assert!(doc.is_dirty());
    assert_eq!(doc.stamp(), 20);
    doc.undo(21).unwrap();
    let after: Vec<ElementId> = doc.iter().iter().map(|e| e.id()).collect();
    assert_eq!(before, after);
    assert_eq!(
        doc.data(wt).unwrap(),
        &Data::WallType {
            name: "W".into(),
            thickness: 200.0
        }
    );
    assert_eq!(doc.can_redo(), Some("rename"));
    doc.redo(22).unwrap();
    assert!(matches!(doc.data(wt).unwrap(), Data::WallType { name, .. } if name == "W2"));
    assert!(matches!(doc.redo(23), Err(CoreError::NothingTo("redo"))));
    assert!(doc.get(l1).is_some() && doc.get(w).is_some());
}

#[test]
fn missing_elements_are_reported() {
    let mut doc = Doc::new(1);
    let ghost = ElementId::new();
    assert!(matches!(doc.data(ghost), Err(CoreError::NotFound(x)) if x == ghost));
    let r = transact(&mut doc, "set", 2, |tx| {
        tx.set(
            ghost,
            body(Data::Level {
                name: "L".into(),
                elevation: 0.0,
            }),
        )
    });
    assert!(matches!(r, Err(CoreError::NotFound(x)) if x == ghost));
    let r = transact(&mut doc, "delete", 3, |tx| tx.delete(ghost));
    assert!(matches!(r, Err(CoreError::NotFound(x)) if x == ghost));
    let r = transact(&mut doc, "param", 4, |tx| tx.set_param(ghost, "k", None));
    assert!(matches!(r, Err(CoreError::NotFound(x)) if x == ghost));
    assert_eq!(doc.can_undo(), None);
}

#[test]
fn a_dangling_reference_names_the_kind_and_the_missing_element() {
    let mut doc = Doc::new(1);
    let l = level(&mut doc, 0.0, 2);
    let missing = ElementId::new();
    let r = transact(&mut doc, "wall", 3, |tx| {
        tx.insert(body(Data::Wall {
            type_id: missing,
            base_level: l,
            start: (0.0, 0.0),
            end: (1000.0, 0.0),
            height: 3000.0,
        }));
        Ok(())
    });
    match r {
        Err(CoreError::DanglingRef { kind, missing: m }) => {
            assert_eq!(kind, "Wall");
            assert_eq!(m, missing);
        }
        other => panic!("unexpected {other:?}"),
    }
    assert_eq!(doc.len(), 1);
    assert_eq!(doc.stamp(), 2);
}

#[test]
fn a_failed_check_of_openings_rolls_back() {
    let doc = Doc::new(1);
    let mut tx = doc.begin();
    tx.insert(body(Data::Level {
        name: "L".into(),
        elevation: 0.0,
    }));
    let checks = vec![Ok(())];
    let (doc, r) = tx.commit("level", checks, Err(CoreError::Invalid("openings".into())), 2);
    assert!(matches!(r, Err(CoreError::Invalid(m)) if m == "openings"));
    assert!(doc.is_empty());
    assert_eq!(doc.stamp(), 1);
}

#[test]
fn clearing_history_keeps_the_elements() {
    let mut doc = Doc::new(1);
    let (l1, _, _) = wall_setup(&mut doc);
    doc.clear_history();
    assert_eq!(doc.can_undo(), None);
    assert_eq!(doc.can_redo(), None);
    assert!(doc.get(l1).is_some());
    assert_eq!(doc.len(), 3);
}

#[test]
fn rebuilding_from_the_elements_gives_the_same_elements() {
    let mut doc = Doc::new(1);
    let (l1, wt, w) = wall_setup(&mut doc);
    transact(&mut doc, "param", 20, |tx| tx.set_param(w, "mark", Some(Value::Text("W1".into())))).unwrap();
    let rebuilt = Doc::from_elements(doc.iter().into_iter().map(|e| e.duplicate()).collect(), 30);
    let ids = |d: &Doc| -> Vec<(ElementId, u64)> { d.iter().iter().map(|e| (e.id(), e.rev())).collect() };
    assert_eq!(ids(&rebuilt), ids(&doc));
    for id in [l1, wt, w] {
        assert_eq!(rebuilt.data(id).unwrap(), doc.data(id).unwrap());
    }
    assert_eq!(rebuilt.param(w, "mark"), Some(&Value::Text("W1".into())));
    assert_eq!(rebuilt.can_undo(), None);
    assert!(!rebuilt.is_dirty());
    assert_eq!(rebuilt.stamp(), 30);
}

#[test]
fn stored_elements_keep_their_id_revision_and_values() {
    let id = ElementId::new();
    let e: Element<Data, Value> = Element::restore(
        id,
        7,
        body(Data::Level {
            name: "L".into(),
            elevation: 0.0,
        }),
        vec![
            ("a".into(), Value::Text("1".into())),
            ("b".into(), Value::Text("2".into())),
            ("a".into(), Value::Text("3".into())),
        ],
    );
    assert_eq!((e.id(), e.rev(), e.category()), (id, 7, Category::Level));
    assert_eq!(e.param("a"), Some(&Value::Text("3".into())));
    assert_eq!(e.param("b"), Some(&Value::Text("2".into())));
    assert_eq!(e.param("c"), None);
    let mut doc = Doc::new(1);
    let got = transact(&mut doc, "restore", 2, |tx| Ok(tx.insert_element(e))).unwrap();
    assert_eq!(got, id);
    // A committed insert keeps the revision it came with.
    assert_eq!(doc.get(id).unwrap().rev(), 7);
    assert_eq!(doc.param(id, "a"), Some(&Value::Text("3".into())));
}

#[test]
fn deleting_several_counts_each_element_once() {
    let mut doc = Doc::new(1);
    let (l1, wt, w) = wall_setup(&mut doc);
    let n = transact(&mut doc, "delete", 20, |tx| Ok(tx.delete_all(&vec![l1, w, ElementId::new()]))).unwrap();
    assert_eq!(n, 2);
    assert!(doc.get(wt).is_some());
    doc.undo(21).unwrap();
    let n = transact(&mut doc, "delete", 22, |tx| Ok(tx.delete_all(&vec![wt, l1]))).unwrap();
    assert_eq!(n, 3);
    assert!(doc.is_empty());
    doc.undo(23).unwrap();
    assert_eq!(doc.len(), 3);
    assert_eq!(transact(&mut doc, "none", 24, |tx| Ok(tx.delete_all(&vec![]))).unwrap(), 0);
    assert_eq!(doc.can_undo(), Some("wall"));
}
